//! Integers as bytes, in little-endian and in the machine's own order.
use vstd::endian;
use vstd::prelude::*;

verus! {

/// The bytes of `x`, the least significant first.
pub open spec fn le32(x: u32) -> Seq<u8> {
    seq![
        (x % 0x100) as u8,
        (x / 0x100 % 0x100) as u8,
        (x / 0x1_0000 % 0x100) as u8,
        (x / 0x100_0000) as u8,
    ]
}

/// The number whose bytes are `s`, the least significant first.
pub open spec fn le32_value(s: Seq<u8>) -> u32 {
    (s[0] + 0x100 * s[1] + 0x1_0000 * s[2] + 0x100_0000 * s[3]) as u32
}

/// The bytes of `x`, `0 <= x < 2^64`, the least significant first.
pub open spec fn le64(x: int) -> Seq<u8> {
    seq![
        (x % 0x100) as u8,
        (x / 0x100 % 0x100) as u8,
        (x / 0x1_0000 % 0x100) as u8,
        (x / 0x100_0000 % 0x100) as u8,
        (x / 0x1_0000_0000 % 0x100) as u8,
        (x / 0x100_0000_0000 % 0x100) as u8,
        (x / 0x1_0000_0000_0000 % 0x100) as u8,
        (x / 0x100_0000_0000_0000 % 0x100) as u8,
    ]
}

/// The two's complement of `v` in 64 bits, as a number that is not negative.
pub open spec fn twos64(v: i64) -> int {
    if v < 0 {
        v + 0x1_0000_0000_0000_0000
    } else {
        v as int
    }
}

/// Bytes given from the least significant on, in the machine's order.
pub open spec fn in_machine_order(s: Seq<u8>) -> Seq<u8> {
    match endian::endianness() {
        endian::Endian::Little => s,
        endian::Endian::Big => s.reverse(),
    }
}

/// The bytes of `x` in the machine's order.
#[verifier::opaque]
pub open spec fn native32(x: u32) -> Seq<u8> {
    in_machine_order(le32(x))
}

/// The number whose bytes in the machine's order are `s`.
#[verifier::opaque]
pub open spec fn native32_value(s: Seq<u8>) -> u32 {
    le32_value(in_machine_order(s))
}

/// The bytes of `v` in the machine's order.
#[verifier::opaque]
pub open spec fn native64(v: i64) -> Seq<u8> {
    in_machine_order(le64(twos64(v)))
}

/// `n` cut to its low 32 bits.
pub open spec fn low32(n: int) -> u32 {
    (n % 0x1_0000_0000) as u32
}

/// `u32::to_ne_bytes`: the memory representation of a number, which is its
/// bytes in the order of the target.
#[verifier::external_body]
pub(crate) fn to_native32(x: u32) -> (r: [u8; 4])
    ensures
        r@ == native32(x),
{
    x.to_ne_bytes()
}

/// `u32::from_ne_bytes`: the number with the given memory representation in
/// the order of the target.
#[verifier::external_body]
pub(crate) fn from_native32(bytes: [u8; 4]) -> (r: u32)
    ensures
        r == native32_value(bytes@),
{
    u32::from_ne_bytes(bytes)
}

/// `i64::to_ne_bytes`: the memory representation of a number, which is its
/// two's complement in the order of the target.
#[verifier::external_body]
pub(crate) fn to_native64(x: i64) -> (r: [u8; 8])
    ensures
        r@ == native64(x),
{
    x.to_ne_bytes()
}

/// A number is the value of its little-endian bytes, and four bytes are the
/// bytes of their value.
pub proof fn le32_inverse(x: u32, s: Seq<u8>)
    requires
        s.len() == 4,
    ensures
        le32(x).len() == 4,
        le32_value(le32(x)) == x,
        le32(le32_value(s)) == s,
{
    assert(x % 0x100 + 0x100 * (x / 0x100 % 0x100) + 0x1_0000 * (x / 0x1_0000 % 0x100) + 0x100_0000
        * (x / 0x100_0000) == x && x / 0x100_0000 < 0x100) by (bit_vector);
    let a = s[0];
    let b = s[1];
    let c = s[2];
    let d = s[3];
    let v = le32_value(s);
    assert(v == a + 0x100 * b + 0x1_0000 * c + 0x100_0000 * d);
    assert(v % 0x100 == a && v / 0x100 % 0x100 == b && v / 0x1_0000 % 0x100 == c && v / 0x100_0000
        == d) by (bit_vector)
        requires
            v == a + 0x100 * b + 0x1_0000 * c + 0x100_0000 * d,
    ;
    assert(le32(v) =~= s);
}

/// A number is the value of its bytes in the machine's order, and four bytes
/// are the bytes of their value.
pub proof fn native32_inverse(x: u32, s: Seq<u8>)
    requires
        s.len() == 4,
    ensures
        native32(x).len() == 4,
        native32_value(native32(x)) == x,
        native32(native32_value(s)) == s,
{
    reveal(native32);
    reveal(native32_value);
    le32_inverse(x, s);
    le32_inverse(x, s.reverse());
    assert(le32(x).reverse().reverse() =~= le32(x));
    assert(s.reverse().reverse() =~= s);
}

/// The length of the bytes of a number in the machine's order.
pub broadcast proof fn native32_len(x: u32)
    ensures
        #[trigger] native32(x).len() == 4,
{
    reveal(native32);
}

/// The length of the bytes of a number in the machine's order.
pub broadcast proof fn native64_len(v: i64)
    ensures
        #[trigger] native64(v).len() == 8,
{
    reveal(native64);
}

/// The bytes of `x`, the least significant first.
pub fn to_le32(x: u32) -> (r: [u8; 4])
    ensures
        r@ == le32(x),
{
    let b0: u8 = (x % 0x100) as u8;
    let b1: u8 = (x / 0x100 % 0x100) as u8;
    let b2: u8 = (x / 0x1_0000 % 0x100) as u8;
    let b3: u8 = (x / 0x100_0000) as u8;
    let r: [u8; 4] = [b0, b1, b2, b3];
    assert(r@ =~= le32(x));
    r
}

/// The number whose bytes are `s`, the least significant first.
pub fn from_le32(s: &[u8; 4]) -> (r: u32)
    ensures
        r == le32_value(s@),
{
    s[0] as u32 + 0x100 * (s[1] as u32) + 0x1_0000 * (s[2] as u32) + 0x100_0000 * (s[3] as u32)
}

/// `n` cut to its low 32 bits.
pub fn cut32(n: u64) -> (r: u32)
    ensures
        r == low32(n as int),
{
    (n % 0x1_0000_0000) as u32
}

/// The bytes of a number in the machine's order are its digits to the base 256, the
/// lowest first on a machine of that order, else the highest.
pub proof fn native32_has_digits(x: u32)
    ensures
        native32(x).len() == 4,
        endian::endianness() == endian::Endian::Little ==> x == native32(x)[0] + 0x100 * native32(
            x,
        )[1] + 0x1_0000 * native32(x)[2] + 0x100_0000 * native32(x)[3],
        endian::endianness() == endian::Endian::Big ==> x == native32(x)[3] + 0x100 * native32(
            x,
        )[2] + 0x1_0000 * native32(x)[1] + 0x100_0000 * native32(x)[0],
{
    reveal(native32);
    le32_inverse(x, le32(x));
}

/// The bytes of a number, the least significant first, are its digits to the base
/// 256.
pub proof fn le32_has_digits(x: u32)
    ensures
        le32(x).len() == 4,
        x == le32(x)[0] + 0x100 * le32(x)[1] + 0x1_0000 * le32(x)[2] + 0x100_0000 * le32(x)[3],
{
    le32_inverse(x, le32(x));
}

/// Four bytes, the least significant first, stand for the sum of their values at
/// their places.
pub proof fn le32_value_is_sum(s: Seq<u8>)
    requires
        s.len() == 4,
    ensures
        le32_value(s) == s[0] + 0x100 * s[1] + 0x1_0000 * s[2] + 0x100_0000 * s[3],
{
}

/// A number below the bound of 32 bits is not changed when it is cut to them, and
/// what is cut off is a multiple of that bound.
pub proof fn cut_keeps_low_bits(n: int)
    requires
        0 <= n,
    ensures
        n <= u32::MAX ==> low32(n) == n,
        (n - low32(n)) % 0x1_0000_0000 == 0,
{
}

/// The bytes of a signed number in the machine's order are the digits of its two's
/// complement to the base 256, and a number that is not negative is its own.
pub proof fn native64_has_digits(v: i64)
    ensures
        native64(v).len() == 8,
        ({
            let b = native64(v);
            let n = if v >= 0 {
                v as int
            } else {
                v + 0x1_0000_0000_0000_0000
            };
            &&& endian::endianness() == endian::Endian::Little ==> n == b[0] + 0x100 * b[1]
                + 0x1_0000 * b[2] + 0x100_0000 * b[3] + 0x1_0000_0000 * b[4] + 0x100_0000_0000
                * b[5] + 0x1_0000_0000_0000 * b[6] + 0x100_0000_0000_0000 * b[7]
            &&& endian::endianness() == endian::Endian::Big ==> n == b[7] + 0x100 * b[6]
                + 0x1_0000 * b[5] + 0x100_0000 * b[4] + 0x1_0000_0000 * b[3] + 0x100_0000_0000
                * b[2] + 0x1_0000_0000_0000 * b[1] + 0x100_0000_0000_0000 * b[0]
        }),
{
    reveal(native64);
    let u = twos64(v) as u64;
    assert(u % 0x100 + 0x100 * (u / 0x100 % 0x100) + 0x1_0000 * (u / 0x1_0000 % 0x100) + 0x100_0000
        * (u / 0x100_0000 % 0x100) + 0x1_0000_0000 * (u / 0x1_0000_0000 % 0x100) + 0x100_0000_0000
        * (u / 0x100_0000_0000 % 0x100) + 0x1_0000_0000_0000 * (u / 0x1_0000_0000_0000 % 0x100)
        + 0x100_0000_0000_0000 * (u / 0x100_0000_0000_0000 % 0x100) == u) by (bit_vector);
}

/// A number that [`to_le32`] writes is read back by [`from_le32`], and its bytes are its
/// digits, the lowest first.
pub proof fn written_number_is_read_back(x: u32, bytes: [u8; 4], back: u32)
    requires
        call_ensures(to_le32, (x,), bytes),
        call_ensures(from_le32, (&bytes,), back),
    ensures
        back == x,
        x == bytes@[0] + 0x100 * bytes@[1] + 0x1_0000 * bytes@[2] + 0x100_0000 * bytes@[3],
{
    le32_inverse(x, bytes@);
}

/// [`cut32`] keeps a number that has 32 bits, and cuts a multiple of the bound off any other.
pub proof fn number_is_cut_to_32_bits(n: u64, r: u32)
    requires
        call_ensures(cut32, (n,), r),
    ensures
        n <= u32::MAX ==> r == n,
        (n - r) % 0x1_0000_0000 == 0,
{
    cut_keeps_low_bits(n as int);
}

} // verus!
