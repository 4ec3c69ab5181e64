//! Plain text: comparison, trimming, splitting and decimal numbers.
use vstd::prelude::*;
use vstd::string::*;
use vstd::utf8::*;

verus! {

/// The characters with the Unicode property `White_Space`.
pub open spec fn is_white(c: char) -> bool {
    let u = c as u32;
    ||| 0x9 <= u <= 0xd
    ||| u == 0x20
    ||| u == 0x85
    ||| u == 0xa0
    ||| u == 0x1680
    ||| 0x2000 <= u <= 0x200a
    ||| u == 0x2028
    ||| u == 0x2029
    ||| u == 0x202f
    ||| u == 0x205f
    ||| u == 0x3000
}

/// `s` without the white space at its start.
pub open spec fn trim_start(s: Seq<char>) -> Seq<char>
    decreases s.len(),
{
    if s.len() > 0 && is_white(s[0]) {
        trim_start(s.skip(1))
    } else {
        s
    }
}

/// `s` without the white space at its end.
pub open spec fn trim_end(s: Seq<char>) -> Seq<char>
    decreases s.len(),
{
    if s.len() > 0 && is_white(s.last()) {
        trim_end(s.drop_last())
    } else {
        s
    }
}

/// `s` without the white space at either end.
pub open spec fn trimmed(s: Seq<char>) -> Seq<char> {
    trim_end(trim_start(s))
}

/// The number of characters before the first `c` in `s`; the length of `s`
/// where there is none.
pub open spec fn first_of(s: Seq<char>, c: char) -> nat
    decreases s.len(),
{
    if s.len() == 0 || s[0] == c {
        0
    } else {
        1 + first_of(s.skip(1), c)
    }
}

/// What follows the last `c` in `s`; all of `s` where there is none.
pub open spec fn after_last(s: Seq<char>, c: char) -> Seq<char>
    decreases s.len(),
{
    if s.len() == 0 || s.last() == c {
        Seq::empty()
    } else {
        after_last(s.drop_last(), c).push(s.last())
    }
}

/// The character of the decimal digit `d`.
pub open spec fn digit(d: int) -> char {
    if d == 0 {
        '0'
    } else if d == 1 {
        '1'
    } else if d == 2 {
        '2'
    } else if d == 3 {
        '3'
    } else if d == 4 {
        '4'
    } else if d == 5 {
        '5'
    } else if d == 6 {
        '6'
    } else if d == 7 {
        '7'
    } else if d == 8 {
        '8'
    } else {
        '9'
    }
}

/// `n` in decimal, without leading zeros.
pub open spec fn decimal_of(n: nat) -> Seq<char>
    decreases n,
{
    if n < 10 {
        seq![digit(n as int)]
    } else {
        decimal_of(n / 10).push(digit((n % 10) as int))
    }
}

/// The views of a list of strings.
pub open spec fn texts(s: Seq<String>) -> Seq<Seq<char>> {
    s.map_values(|t: String| t@)
}

/// Whether `a` and `b` hold the same characters.
pub fn same_text(a: &str, b: &str) -> (same: bool)
    ensures
        same == (a@ == b@),
{
    let x = a.as_bytes();
    let y = b.as_bytes();
    proof {
        encode_utf8_decode_utf8(a@);
        encode_utf8_decode_utf8(b@);
    }
    if x.len() != y.len() {
        return false;
    }
    let mut i: usize = 0;
    while i < x.len()
        invariant
            x@ == encode_utf8(a@),
            y@ == encode_utf8(b@),
            x@.len() == y@.len(),
            i <= x@.len(),
            x@.take(i as int) == y@.take(i as int),
        decreases x@.len() - i,
    {
        if x[i] != y[i] {
            assert(x@[i as int] != y@[i as int]);
            return false;
        }
        assert(x@.take(i + 1) == x@.take(i as int).push(x@[i as int]));
        assert(y@.take(i + 1) == y@.take(i as int).push(y@[i as int]));
        i += 1;
    }
    assert(x@.take(i as int) == x@);
    assert(y@.take(i as int) == y@);
    true
}

/// Whether `c` is white space.
pub fn white(c: char) -> (r: bool)
    ensures
        r == is_white(c),
{
    let u: u32 = c as u32;
    (0x9 <= u && u <= 0xd) || u == 0x20 || u == 0x85 || u == 0xa0 || u == 0x1680 || (0x2000 <= u
        && u <= 0x200a) || u == 0x2028 || u == 0x2029 || u == 0x202f || u == 0x205f || u == 0x3000
}

/// `s` without the white space at either end.
pub fn trim<'a>(s: &'a str) -> (r: &'a str)
    ensures
        r@ == trimmed(s@),
{
    let n: usize = s.unicode_len();
    let mut i: usize = 0;
    assert(s@.skip(0) == s@);
    while i < n && white(s.get_char(i))
        invariant
            n == s@.len(),
            i <= n,
            trim_start(s@.skip(i as int)) == trim_start(s@),
        decreases n - i,
    {
        assert(s@.skip(i as int).skip(1) == s@.skip(i + 1));
        i += 1;
    }
    let ghost rest = s@.skip(i as int);
    assert(trim_start(s@) == rest);
    let mut j: usize = n;
    assert(s@.subrange(i as int, j as int) == rest);
    while i < j && white(s.get_char(j - 1))
        invariant
            n == s@.len(),
            i <= j <= n,
            trim_end(s@.subrange(i as int, j as int)) == trim_end(rest),
        decreases j,
    {
        assert(s@.subrange(i as int, j as int).drop_last() == s@.subrange(i as int, j - 1));
        j -= 1;
    }
    s.substring_char(i, j)
}

/// Splits `s` at the first `c`, which belongs to neither part; `None` where
/// `s` holds no `c`.
pub fn split_once<'a>(s: &'a str, c: char) -> (r: Option<(&'a str, &'a str)>)
    ensures
        match r {
            None => !s@.contains(c),
            Some((a, b)) => {
                &&& s@.contains(c)
                &&& a@ == s@.take(first_of(s@, c) as int)
                &&& b@ == s@.skip(first_of(s@, c) as int + 1)
            },
        },
{
    let n: usize = s.unicode_len();
    let mut i: usize = 0;
    assert(s@.skip(0) == s@);
    while i < n && s.get_char(i) != c
        invariant
            n == s@.len(),
            i <= n,
            first_of(s@, c) == i + first_of(s@.skip(i as int), c),
            forall|k: int| 0 <= k < i ==> s@[k] != c,
        decreases n - i,
    {
        assert(s@.skip(i as int).skip(1) == s@.skip(i + 1));
        i += 1;
    }
    if i == n {
        return None;
    }
    assert(s@[i as int] == c);
    assert(s@.subrange(0, i as int) == s@.take(i as int));
    assert(s@.subrange(i + 1, n as int) == s@.skip(i + 1));
    Some((s.substring_char(0, i), s.substring_char(i + 1, n)))
}

/// What follows the last `c` in `s`, or all of `s`.
pub fn last_part<'a>(s: &'a str, c: char) -> (r: &'a str)
    ensures
        r@ == after_last(s@, c),
{
    let n: usize = s.unicode_len();
    let mut i: usize = n;
    assert(s@.take(n as int) == s@);
    assert(s@.subrange(n as int, n as int) == Seq::<char>::empty());
    assert(after_last(s@, c) + Seq::<char>::empty() == after_last(s@, c));
    while i > 0 && s.get_char(i - 1) != c
        invariant
            n == s@.len(),
            i <= n,
            after_last(s@, c) == after_last(s@.take(i as int), c) + s@.subrange(i as int, n as int),
        decreases i,
    {
        proof {
            let t = s@.take(i as int);
            assert(t.drop_last() == s@.take(i - 1));
            assert(after_last(t, c) == after_last(t.drop_last(), c).push(t.last()));
            assert(after_last(t.drop_last(), c).push(t.last()) + s@.subrange(i as int, n as int)
                == after_last(t.drop_last(), c) + s@.subrange(i - 1, n as int));
        }
        i -= 1;
    }
    s.substring_char(i, n)
}

/// `s` behind `prefix`; `None` where `s` does not start with it.
pub fn strip_prefix<'a>(s: &'a str, prefix: &str) -> (r: Option<&'a str>)
    ensures
        match r {
            None => !prefix@.is_prefix_of(s@),
            Some(t) => prefix@.is_prefix_of(s@) && t@ == s@.skip(prefix@.len() as int),
        },
{
    let n: usize = s.unicode_len();
    let m: usize = prefix.unicode_len();
    if n < m {
        return None;
    }
    if !same_text(s.substring_char(0, m), prefix) {
        return None;
    }
    assert(s@.subrange(m as int, n as int) == s@.skip(m as int));
    Some(s.substring_char(m, n))
}

/// Whether `c` occurs in `s`.
pub fn has_char(s: &str, c: char) -> (r: bool)
    ensures
        r == s@.contains(c),
{
    split_once(s, c).is_some()
}

/// Whether `name` is one of `list`.
pub fn is_listed(list: &Vec<String>, name: &str) -> (r: bool)
    ensures
        r == texts(list@).contains(name@),
{
    let mut i: usize = 0;
    while i < list.len()
        invariant
            i <= list@.len(),
            forall|k: int| 0 <= k < i ==> list@[k]@ != name@,
        decreases list@.len() - i,
    {
        if same_text(list[i].as_str(), name) {
            assert(texts(list@)[i as int] == name@);
            return true;
        }
        i += 1;
    }
    assert forall|k: int| 0 <= k < texts(list@).len() implies texts(list@)[k] != name@ by {
        assert(texts(list@)[k] == list@[k]@);
    }
    false
}

/// A copy of a list of strings.
pub fn copy_list(list: &Vec<String>) -> (r: Vec<String>)
    ensures
        r@ == list@,
{
    let mut r: Vec<String> = Vec::new();
    let mut i: usize = 0;
    while i < list.len()
        invariant
            i <= list@.len(),
            r@ == list@.take(i as int),
        decreases list@.len() - i,
    {
        r.push(list[i].clone());
        assert(list@.take(i + 1) == list@.take(i as int).push(list@[i as int]));
        i += 1;
    }
    assert(list@.take(i as int) == list@);
    r
}

/// The text of one decimal digit.
fn digit_text(d: u64) -> (r: &'static str)
    requires
        d < 10,
    ensures
        r@ == seq![digit(d as int)],
{
    proof {
        reveal_strlit("0");
        reveal_strlit("1");
        reveal_strlit("2");
        reveal_strlit("3");
        reveal_strlit("4");
        reveal_strlit("5");
        reveal_strlit("6");
        reveal_strlit("7");
        reveal_strlit("8");
        reveal_strlit("9");
    }
    match d {
        0 => "0",
        1 => "1",
        2 => "2",
        3 => "3",
        4 => "4",
        5 => "5",
        6 => "6",
        7 => "7",
        8 => "8",
        _ => "9",
    }
}

/// `n` in decimal.
pub fn decimal(n: u64) -> (r: String)
    ensures
        r@ == decimal_of(n as nat),
    decreases n,
{
    if n < 10 {
        digit_text(n).to_owned()
    } else {
        let mut r = decimal(n / 10);
        r.append(digit_text(n % 10));
        assert(r@ == decimal_of((n / 10) as nat).push(digit((n % 10) as int)));
        r
    }
}

/// `a` followed by `b`.
pub fn join(a: &str, b: &str) -> (r: String)
    ensures
        r@ == a@ + b@,
{
    let mut r = a.to_owned();
    r.append(b);
    r
}

/// The number that a row of decimal digits stands for.
pub open spec fn number_of(s: Seq<char>) -> int
    decreases s.len(),
{
    if s.len() == 0 {
        0
    } else {
        10 * number_of(s.drop_last()) + (s.last() as int - '0' as int)
    }
}

/// A number is read back from its decimal digits, which are digits, and do not begin
/// with a zero where the number is not zero.
pub proof fn decimal_is_read_back(n: nat)
    ensures
        number_of(decimal_of(n)) == n,
        decimal_of(n).len() > 0,
        forall|i: int|
            0 <= i < decimal_of(n).len() ==> '0' <= (#[trigger] decimal_of(n)[i]) <= '9',
        n > 0 ==> decimal_of(n)[0] != '0',
    decreases n,
{
    reveal_with_fuel(number_of, 2);
    if n >= 10 {
        decimal_is_read_back(n / 10);
        let first = decimal_of(n / 10);
        let d = digit((n % 10) as int);
        assert(decimal_of(n) == first.push(d));
        assert(decimal_of(n).drop_last() =~= first);
    } else {
        assert(decimal_of(n).drop_last() =~= Seq::empty());
    }
}

/// Two numbers have the same decimal digits only where they are the same.
pub proof fn decimals_are_distinct(a: nat, b: nat)
    requires
        decimal_of(a) == decimal_of(b),
    ensures
        a == b,
{
    decimal_is_read_back(a);
    decimal_is_read_back(b);
}

/// Of the text before the first `c` of a text, none is `c`, and `c` comes right
/// behind it.
pub proof fn first_is_found(s: Seq<char>, c: char)
    ensures
        first_of(s, c) <= s.len(),
        forall|i: int| 0 <= i < first_of(s, c) ==> #[trigger] s[i] != c,
        first_of(s, c) < s.len() ==> s[first_of(s, c) as int] == c,
        first_of(s, c) == s.len() ==> !s.contains(c),
    decreases s.len(),
{
    if s.len() > 0 && s[0] != c {
        let rest = s.skip(1);
        first_is_found(rest, c);
        assert forall|i: int| 0 <= i < first_of(s, c) implies #[trigger] s[i] != c by {
            if i > 0 {
                assert(rest[i - 1] == s[i]);
            }
        }
        if first_of(s, c) == s.len() {
            assert forall|i: int| 0 <= i < s.len() implies #[trigger] s[i] != c by {}
        }
    }
}

/// The text behind the last `c` holds no `c`, ends the text, and either is the whole
/// text or has a `c` right before it.
pub proof fn rest_is_behind_last(s: Seq<char>, c: char)
    ensures
        after_last(s, c).is_suffix_of(s),
        !after_last(s, c).contains(c),
        after_last(s, c) == s || s[s.len() - after_last(s, c).len() - 1] == c,
    decreases s.len(),
{
    if s.len() > 0 && s.last() != c {
        let first = s.drop_last();
        rest_is_behind_last(first, c);
        let tail = after_last(first, c);
        let all = after_last(s, c);
        assert(all == tail.push(s.last()));
        assert(tail =~= first.skip(first.len() - tail.len()));
        assert(all =~= s.skip(s.len() - all.len()));
        assert forall|i: int| 0 <= i < all.len() implies #[trigger] all[i] != c by {
            if i < tail.len() {
                assert(tail[i] == all[i]);
                assert(tail.contains(tail[i]));
            }
        }
        if tail == first {
            assert(all =~= s);
        }
    } else {
        assert(after_last(s, c) =~= s.skip(s.len() as int));
    }
}

/// A trimmed text is a part of the text: what was taken off on either side is white
/// space, and what is left neither begins nor ends with any.
pub proof fn trimmed_is_inner_part(s: Seq<char>) -> (at: int)
    ensures
        0 <= at <= at + trimmed(s).len() <= s.len(),
        trimmed(s) == s.subrange(at, at + trimmed(s).len()),
        forall|i: int| 0 <= i < at ==> is_white(#[trigger] s[i]),
        forall|i: int| at + trimmed(s).len() <= i < s.len() ==> is_white(#[trigger] s[i]),
        trimmed(s).len() > 0 ==> !is_white(trimmed(s)[0]) && !is_white(trimmed(s).last()),
{
    let t = trim_start(s);
    start_is_white(s);
    end_is_white(t);
    let at = s.len() - t.len();
    let r = trimmed(s);
    assert(r =~= s.subrange(at, at + r.len())) by {
        assert(t =~= s.skip(at));
        assert(r =~= t.take(r.len() as int));
    }
    assert forall|i: int| at + r.len() <= i < s.len() implies is_white(#[trigger] s[i]) by {
        assert(t[i - at] == s[i]);
    }
    if r.len() > 0 {
        assert(r[0] == t[0]);
    }
    at
}

/// What is taken off the start of a text.
proof fn start_is_white(s: Seq<char>)
    ensures
        trim_start(s).len() <= s.len(),
        trim_start(s) == s.skip(s.len() - trim_start(s).len()),
        forall|i: int|
            0 <= i < s.len() - trim_start(s).len() ==> is_white(#[trigger] s[i]),
        trim_start(s).len() > 0 ==> !is_white(trim_start(s)[0]),
    decreases s.len(),
{
    if s.len() > 0 && is_white(s[0]) {
        let rest = s.skip(1);
        start_is_white(rest);
        let t = trim_start(s);
        assert(t =~= s.skip(s.len() - t.len()));
        assert forall|i: int| 0 <= i < s.len() - t.len() implies is_white(#[trigger] s[i]) by {
            if i > 0 {
                assert(rest[i - 1] == s[i]);
            }
        }
    } else {
        assert(s.skip(0) =~= s);
    }
}

/// What is taken off the end of a text.
proof fn end_is_white(s: Seq<char>)
    ensures
        trim_end(s).len() <= s.len(),
        trim_end(s) == s.take(trim_end(s).len() as int),
        forall|i: int| trim_end(s).len() <= i < s.len() ==> is_white(#[trigger] s[i]),
        trim_end(s).len() > 0 ==> !is_white(trim_end(s).last()),
    decreases s.len(),
{
    if s.len() > 0 && is_white(s.last()) {
        let first = s.drop_last();
        end_is_white(first);
        let t = trim_end(s);
        assert(t =~= s.take(t.len() as int));
        assert forall|i: int| t.len() <= i < s.len() implies is_white(#[trigger] s[i]) by {
            if i < first.len() {
                assert(first[i] == s[i]);
            }
        }
    } else {
        assert(s.take(s.len() as int) =~= s);
    }
}

/// The white space of a text is that of Unicode: the characters below, and no others.
pub proof fn white_space_characters(c: char)
    ensures
        is_white(c) <==> ({
            ||| c == '\t' || c == '\n' || c == '\u{b}' || c == '\u{c}' || c == '\r' || c == ' '
            ||| c == '\u{85}' || c == '\u{a0}' || c == '\u{1680}'
            ||| c == '\u{2000}' || c == '\u{2001}' || c == '\u{2002}' || c == '\u{2003}' || c
                == '\u{2004}' || c == '\u{2005}' || c == '\u{2006}' || c == '\u{2007}' || c
                == '\u{2008}' || c == '\u{2009}' || c == '\u{200a}'
            ||| c == '\u{2028}' || c == '\u{2029}' || c == '\u{202f}' || c == '\u{205f}' || c
                == '\u{3000}'
        }),
{
}

/// Texts are the texts of strings, in their order.
pub proof fn texts_are_those_of_strings(list: Seq<String>, i: int)
    requires
        0 <= i < list.len(),
    ensures
        texts(list).len() == list.len(),
        texts(list)[i] == list[i]@,
{
}

/// What [`split_once`] parts is the text again when it is put together, and the first part
/// does not hold the character.
pub proof fn split_parts_make_the_text<'a>(s: &'a str, c: char, r: Option<(&'a str, &'a str)>)
    requires
        call_ensures(split_once, (s, c), r),
    ensures
        r is Some <==> s@.contains(c),
        r matches Some((a, b)) ==> a@.push(c) + b@ == s@ && !a@.contains(c),
{
    if let Some((a, b)) = r {
        first_is_found(s@, c);
        let n = first_of(s@, c) as int;
        assert(n < s@.len());
        assert(a@.push(c) + b@ =~= s@);
        assert forall|i: int| 0 <= i < a@.len() implies #[trigger] a@[i] != c by {
            assert(a@[i] == s@[i]);
        }
    }
}

/// What [`strip_prefix`] leaves is the text again behind the prefix.
pub proof fn stripped_text_had_prefix<'a>(s: &'a str, prefix: &str, r: Option<&'a str>)
    requires
        call_ensures(strip_prefix, (s, prefix), r),
    ensures
        r is Some <==> prefix@.is_prefix_of(s@),
        r matches Some(t) ==> prefix@ + t@ == s@,
{
    if let Some(t) = r {
        assert(prefix@ + t@ =~= s@);
    }
}

/// What [`last_part`] gives ends the text and does not hold the character.
pub proof fn last_part_ends_the_text<'a>(s: &'a str, c: char, r: &'a str)
    requires
        call_ensures(last_part, (s, c), r),
    ensures
        r@.is_suffix_of(s@),
        !r@.contains(c),
        !s@.contains(c) ==> r@ == s@,
        s@.contains(c) ==> r@.len() < s@.len() && s@[s@.len() - r@.len() - 1] == c,
{
    rest_is_behind_last(s@, c);
    if r@.len() == s@.len() {
        assert(s@.skip(0) =~= s@);
    }
    if !s@.contains(c) && r@.len() < s@.len() {
        assert(s@.contains(s@[s@.len() - r@.len() - 1]));
    }
}

/// What [`trim`] leaves is an inner part of the text without white space at its ends, and
/// trimming it again changes nothing.
pub proof fn trimmed_text_is_trimmed<'a>(s: &'a str, r: &'a str, again: &'a str)
    requires
        call_ensures(trim, (s,), r),
        call_ensures(trim, (r,), again),
    ensures
        again@ == r@,
        r@.len() > 0 ==> !is_white(r@[0]) && !is_white(r@.last()),
        (forall|i: int| 0 <= i < s@.len() ==> !is_white(#[trigger] s@[i])) ==> r@ == s@,
        r@.len() == 0 <==> forall|i: int| 0 <= i < s@.len() ==> is_white(#[trigger] s@[i]),
{
    let at = trimmed_is_inner_part(s@);
    if r@.len() > 0 {
        assert(r@[0] == s@[at]);
        trimmed_keeps_inner(Seq::empty(), r@, Seq::empty());
        assert(Seq::<char>::empty() + r@ + Seq::<char>::empty() =~= r@);
    }
    if s@.len() > 0 && (forall|i: int| 0 <= i < s@.len() ==> !is_white(#[trigger] s@[i])) {
        assert(!is_white(s@[0]));
        assert(!is_white(s@[s@.len() - 1]));
        trimmed_keeps_inner(Seq::empty(), s@, Seq::empty());
        assert(Seq::<char>::empty() + s@ + Seq::<char>::empty() =~= s@);
    }
}

/// [`decimal`] writes a number so that it is read back.
pub proof fn written_number_is_read_back(n: u64, r: String)
    requires
        call_ensures(decimal, (n,), r),
    ensures
        number_of(r@) == n,
        forall|i: int| 0 <= i < r@.len() ==> '0' <= (#[trigger] r@[i]) <= '9',
        r@.len() > 0,
        n > 0 ==> r@[0] != '0',
{
    decimal_is_read_back(n as nat);
}

/// [`join`] puts one text right behind the other.
pub proof fn joined_texts_are_parts(a: &str, b: &str, r: String)
    requires
        call_ensures(join, (a, b), r),
    ensures
        r@.len() == a@.len() + b@.len(),
        r@.take(a@.len() as int) == a@,
        r@.skip(a@.len() as int) == b@,
{
    assert(r@.take(a@.len() as int) =~= a@);
    assert(r@.skip(a@.len() as int) =~= b@);
}

/// White space around a text that neither begins nor ends with any is taken off.
pub proof fn trimmed_keeps_inner(before: Seq<char>, inner: Seq<char>, after: Seq<char>)
    requires
        inner.len() > 0,
        !is_white(inner[0]),
        !is_white(inner.last()),
        forall|i: int| 0 <= i < before.len() ==> is_white(#[trigger] before[i]),
        forall|i: int| 0 <= i < after.len() ==> is_white(#[trigger] after[i]),
    ensures
        trimmed(before + inner + after) == inner,
{
    let s = before + inner + after;
    let at = trimmed_is_inner_part(s);
    let t = trimmed(s);
    let a = before.len() as int;
    let n = inner.len() as int;
    assert(s[a] == inner[0]);
    assert(s[a + n - 1] == inner.last());
    assert(at <= a);
    assert(at + t.len() >= a + n);
    if at < a {
        assert(t[0] == s[at]);
        assert(s[at] == before[at]);
    }
    if at + t.len() > a + n {
        assert(t.last() == s[at + t.len() - 1]);
        assert(s[at + t.len() - 1] == after[at + t.len() - 1 - a - n]);
    }
    assert(t =~= inner);
}

/// [`same_text`] tells equal texts, [`has_char`] a character of a text, and [`is_listed`] a
/// text of a list.
pub proof fn texts_are_told_apart(
    a: &str,
    b: &str,
    same: bool,
    c: char,
    has: bool,
    white_c: bool,
    list: &Vec<String>,
    listed: bool,
    copy: Vec<String>,
)
    requires
        call_ensures(same_text, (a, b), same),
        call_ensures(has_char, (a, c), has),
        call_ensures(white, (c,), white_c),
        call_ensures(is_listed, (list, a), listed),
        call_ensures(copy_list, (list,), copy),
    ensures
        same <==> a@ =~= b@,
        has <==> exists|i: int| 0 <= i < a@.len() && #[trigger] a@[i] == c,
        white_c <==> is_white(c),
        listed <==> exists|i: int| 0 <= i < list@.len() && (#[trigger] list@[i])@ == a@,
        copy@ == list@,
{
    let all = texts(list@);
    if listed {
        let i = choose|i: int| 0 <= i < all.len() && all[i] == a@;
        assert(list@[i]@ == a@);
    }
    if exists|i: int| 0 <= i < list@.len() && (#[trigger] list@[i])@ == a@ {
        let i = choose|i: int| 0 <= i < list@.len() && (#[trigger] list@[i])@ == a@;
        assert(all[i] == a@);
    }
}

} // verus!
