//! A plugin that runs in a `jalv` process of its own: how the process is called,
//! and what it is told and tells about its controls. A control value is of the
//! type `V`; its text is made and read elsewhere.
use vstd::prelude::*;

use crate::names::NameMap;
use crate::text;

verus! {

/// Whether the process has a window.
#[derive(Debug, Clone, Copy, PartialEq, Eq, Structural)]
pub enum UiMode {
    Headless,
    Gtk,
}

impl UiMode {
    /// The backend that GDK is to use.
    pub fn gdk_backend(self) -> (r: &'static str)
        ensures
            r@ == match self {
                UiMode::Headless => "offscreen"@,
                UiMode::Gtk => "x11"@,
            },
    {
        match self {
            UiMode::Headless => "offscreen",
            UiMode::Gtk => "x11",
        }
    }
}

/// The argument that sets a control.
pub open spec fn control_arg(symbol: Seq<char>, value: Seq<char>) -> Seq<char> {
    "--control="@ + symbol + "="@ + value
}

/// The arguments that set controls.
pub open spec fn control_args(controls: Seq<(String, String)>) -> Seq<Seq<char>> {
    controls.map_values(|c: (String, String)| control_arg(c.0@, c.1@))
}

/// The arguments of the process: its name, its block size where one is given,
/// the saved controls, those of the configuration, which override them, and the
/// plugin.
pub open spec fn process_args(
    name: Seq<char>,
    uri: Seq<char>,
    buffer_size: Option<u32>,
    saved: Seq<(String, String)>,
    configured: Seq<(String, String)>,
) -> Seq<Seq<char>> {
    let block = match buffer_size {
        Some(n) => seq!["-b"@, text::decimal_of(n as nat)],
        None => Seq::empty(),
    };
    seq!["-n"@, name, "--print-controls"@] + block + control_args(saved) + control_args(
        configured,
    ) + seq![uri]
}

/// Appends the arguments that set controls.
fn push_controls(args: &mut Vec<String>, controls: &Vec<(String, String)>)
    ensures
        text::texts(final(args)@) == text::texts(old(args)@) + control_args(controls@),
{
    let ghost start = text::texts(args@);
    let ghost all = control_args(controls@);
    let mut i: usize = 0;
    assert(start + all.take(0) =~= start);
    while i < controls.len()
        invariant
            start == text::texts(old(args)@),
            all == control_args(controls@),
            i <= controls@.len(),
            text::texts(args@) == start + all.take(i as int),
        decreases controls@.len() - i,
    {
        let ghost before = text::texts(args@);
        let mut arg = text::join("--control=", controls[i].0.as_str());
        arg.append("=");
        arg.append(controls[i].1.as_str());
        args.push(arg);
        assert(text::texts(args@) =~= before.push(all[i as int]));
        assert(start + all.take(i + 1) =~= before.push(all[i as int]));
        i += 1;
    }
    assert(all.take(i as int) =~= all);
}

/// Appends an argument.
fn push_arg(args: &mut Vec<String>, arg: &str)
    ensures
        text::texts(final(args)@) == text::texts(old(args)@).push(arg@),
{
    let ghost start = text::texts(args@);
    args.push(arg.to_owned());
    assert(text::texts(args@) =~= start.push(arg@));
}

/// The arguments of the process.
pub fn spawn_args(
    name: &str,
    uri: &str,
    buffer_size: Option<u32>,
    saved: &Vec<(String, String)>,
    configured: &Vec<(String, String)>,
) -> (args: Vec<String>)
    ensures
        text::texts(args@) == process_args(name@, uri@, buffer_size, saved@, configured@),
{
    let mut args: Vec<String> = Vec::new();
    assert(text::texts(args@) =~= Seq::empty());
    push_arg(&mut args, "-n");
    push_arg(&mut args, name);
    push_arg(&mut args, "--print-controls");
    if let Some(n) = buffer_size {
        push_arg(&mut args, "-b");
        let number = text::decimal(n as u64);
        push_arg(&mut args, number.as_str());
    }
    push_controls(&mut args, saved);
    push_controls(&mut args, configured);
    push_arg(&mut args, uri);
    assert(text::texts(args@) =~= process_args(name@, uri@, buffer_size, saved@, configured@));
    args
}

/// What stands before the first equals sign of a line, without white space at
/// either end.
pub open spec fn line_symbol(line: Seq<char>) -> Seq<char> {
    let t = text::trimmed(line);
    text::trimmed(t.take(text::first_of(t, '=') as int))
}

/// What stands behind the first equals sign of a line, without white space at
/// either end.
pub open spec fn line_value(line: Seq<char>) -> Seq<char> {
    let t = text::trimmed(line);
    text::trimmed(t.skip(text::first_of(t, '=') as int + 1))
}

/// Whether a line holds an equals sign with a symbol before it.
pub open spec fn has_symbol(line: Seq<char>) -> bool {
    text::trimmed(line).contains('=') && line_symbol(line).len() > 0
}

/// Whether `parse` may give `r` for that text.
pub open spec fn parses_to<V, F: Fn(&str) -> Option<V>>(
    parse: F,
    value: Seq<char>,
    r: Option<V>,
) -> bool {
    exists|t: &str| #[trigger] t@ == value && parse.ensures((t,), r)
}

/// Parse a jalv `--print-controls` line like `"  gain = 0.5"` or `"gain = 0.5"`:
/// a symbol and a value that `parse` reads.
pub fn parse_control_line<V, F: Fn(&str) -> Option<V>>(line: &str, parse: F) -> (r: Option<
    (String, V),
>)
    requires
        forall|t: &str| #[trigger] parse.requires((t,)),
    ensures
        match r {
            Some((symbol, value)) => {
                &&& has_symbol(line@)
                &&& symbol@ == line_symbol(line@)
                &&& parses_to(parse, line_value(line@), Some(value))
            },
            None => has_symbol(line@) ==> parses_to(parse, line_value(line@), None),
        },
{
    let trimmed = text::trim(line);
    let (symbol, rest) = match text::split_once(trimmed, '=') {
        Some(parts) => parts,
        None => {
            return None;
        },
    };
    let symbol = text::trim(symbol);
    let rest = text::trim(rest);
    assert(parse.requires((rest,)));
    let value = match parse(rest) {
        Some(value) => value,
        None => {
            assert(parses_to(parse, line_value(line@), None::<V>)) by {
                assert(rest@ == line_value(line@));
            }
            return None;
        },
    };
    if symbol.is_empty() {
        return None;
    }
    assert(parses_to(parse, line_value(line@), Some(value))) by {
        assert(rest@ == line_value(line@));
    }
    Some((symbol.to_owned(), value))
}

/// What is known of a running `jalv` process.
pub struct JalvInstance<V> {
    pub name: String,
    pub controls: NameMap<V>,
    pub ui_mode: UiMode,
}

impl<V> JalvInstance<V> {
    /// Control names are unique.
    pub open spec fn wf(self) -> bool {
        self.controls.wf()
    }

    /// A process that has told nothing yet.
    pub fn new(name: &str, ui_mode: UiMode) -> (r: Self)
        ensures
            r.wf(),
            r.name@ == name@,
            r.ui_mode == ui_mode,
            r.controls@ == Map::<Seq<char>, V>::empty(),
    {
        JalvInstance { name: name.to_owned(), controls: NameMap::new(), ui_mode }
    }

    /// Takes a line that the process printed: a control and its value are kept,
    /// anything else is passed over.
    pub fn read_line<F: Fn(&str) -> Option<V>>(&mut self, line: &str, parse: F)
        requires
            old(self).wf(),
            forall|t: &str| #[trigger] parse.requires((t,)),
        ensures
            final(self).wf(),
            final(self).name == old(self).name,
            final(self).ui_mode == old(self).ui_mode,
            ({
                ||| {
                    &&& has_symbol(line@)
                    &&& exists|value: V| #[trigger]
                        parses_to(parse, line_value(line@), Some(value))
                            && final(self).controls@ == old(self).controls@.insert(
                            line_symbol(line@),
                            value,
                        )
                }
                ||| {
                    &&& has_symbol(line@) ==> parses_to(parse, line_value(line@), None)
                    &&& final(self).controls@ == old(self).controls@
                }
            }),
    {
        match parse_control_line(line, parse) {
            Some((symbol, value)) => {
                self.controls.insert(symbol, value);
            },
            None => {},
        }
    }

    /// Sets a control. The result is the line to tell the process; `value_text`
    /// is the value as text.
    pub fn set_control(&mut self, symbol: &str, value: V, value_text: &str) -> (line: String)
        requires
            old(self).wf(),
        ensures
            final(self).wf(),
            final(self).name == old(self).name,
            final(self).ui_mode == old(self).ui_mode,
            final(self).controls@ == old(self).controls@.insert(symbol@, value),
            line@ == symbol@ + " = "@ + value_text@ + "\n"@,
    {
        self.controls.insert(symbol.to_owned(), value);
        let mut line = text::join(symbol, " = ");
        line.append(value_text);
        line.append("\n");
        line
    }

    /// All known control port values.
    pub fn current_controls(&self) -> (r: &NameMap<V>)
        ensures
            *r == self.controls,
    {
        &self.controls
    }

    /// Whether the process has a window.
    pub fn ui_mode(&self) -> (r: UiMode)
        ensures
            r == self.ui_mode,
    {
        self.ui_mode
    }

    /// JACK client name registered by this jalv instance.
    pub fn jack_client_name(&self) -> (r: &str)
        ensures
            r@ == self.name@,
    {
        self.name.as_str()
    }
}

/// The arguments of the process: its name, that it prints its controls, the size of a block
/// where one is given, the saved controls, then those of the configuration, and last the
/// plugin.
pub proof fn arguments_come_in_order(
    name: Seq<char>,
    uri: Seq<char>,
    buffer_size: Option<u32>,
    saved: Seq<(String, String)>,
    configured: Seq<(String, String)>,
)
    ensures
        ({
            let args = process_args(name, uri, buffer_size, saved, configured);
            let block = if buffer_size is Some {
                2int
            } else {
                0int
            };
            &&& args.len() == 3 + block + saved.len() + configured.len() + 1
            &&& args[0] == "-n"@
            &&& args[1] == name
            &&& args[2] == "--print-controls"@
            &&& buffer_size matches Some(n) ==> args[3] == "-b"@ && args[4] == text::decimal_of(
                n as nat,
            )
            &&& forall|i: int|
                0 <= i < saved.len() ==> args[3 + block + i] == "--control="@ + (
                #[trigger] saved[i]).0@ + "="@ + saved[i].1@
            &&& forall|i: int|
                0 <= i < configured.len() ==> args[3 + block + saved.len() + i] == "--control="@ + (
                #[trigger] configured[i]).0@ + "="@ + configured[i].1@
            &&& args.last() == uri
        }),
{
}

/// A line sets the control that stands before its first equals sign to what stands behind
/// it, whatever white space there is around either.
pub proof fn line_is_split_at_first_equals(line: Seq<char>, symbol: Seq<char>, value: Seq<char>)
    requires
        text::trimmed(line) == symbol + "="@ + value,
        !symbol.contains('='),
    ensures
        line_symbol(line) == text::trimmed(symbol),
        line_value(line) == text::trimmed(value),
        has_symbol(line) <==> text::trimmed(symbol).len() > 0,
{
    reveal_strlit("=");
    let t = text::trimmed(line);
    let n = symbol.len() as int;
    text::first_is_found(t, '=');
    assert(t[n] == '=');
    assert(t.contains('='));
    let at = text::first_of(t, '=') as int;
    assert(at <= n);
    if at < n {
        assert(t[at] == symbol[at]);
        assert(symbol.contains(symbol[at]));
    }
    assert(t.take(n) =~= symbol);
    assert(t.skip(n + 1) =~= value);
}

/// A line without an equals sign sets nothing.
pub proof fn line_without_equals_sets_nothing(line: Seq<char>)
    requires
        !line.contains('='),
    ensures
        !has_symbol(line),
{
    let at = text::trimmed_is_inner_part(line);
    let t = text::trimmed(line);
    assert forall|i: int| 0 <= i < t.len() implies #[trigger] t[i] != '=' by {
        assert(t[i] == line[at + i]);
        assert(line.contains(line[at + i]));
    }
}

/// What [`JalvInstance::set_control`] writes is a line that sets the control to the value, and
/// the control then has the value; every other keeps its own.
pub proof fn written_line_sets_control<V>(
    instance: &mut JalvInstance<V>,
    symbol: &str,
    value: V,
    value_text: &str,
    line: String,
)
    requires
        call_ensures(JalvInstance::<V>::set_control, (instance, symbol, value, value_text), line),
        symbol@.len() > 0,
        !symbol@.contains('='),
        forall|i: int| 0 <= i < symbol@.len() ==> !text::is_white(#[trigger] symbol@[i]),
        value_text@.len() > 0,
        forall|i: int| 0 <= i < value_text@.len() ==> !text::is_white(#[trigger] value_text@[i]),
    ensures
        has_symbol(line@),
        line_symbol(line@) == symbol@,
        line_value(line@) == value_text@,
        final(instance).controls@.contains_key(symbol@),
        final(instance).controls@[symbol@] == value,
        forall|n: Seq<char>|
            n != symbol@ && old(instance).controls@.contains_key(n)
                ==> #[trigger] final(instance).controls@[n] == old(instance).controls@[n],
{
    reveal_strlit(" = ");
    reveal_strlit("\n");
    reveal_strlit("=");
    reveal_strlit(" ");
    let inner = symbol@ + " = "@ + value_text@;
    let s = symbol@ + " "@;
    let v = " "@ + value_text@;
    assert(line@ =~= inner + "\n"@);
    assert(inner[0] == symbol@[0]);
    assert(inner.last() == value_text@.last());
    text::trimmed_keeps_inner(Seq::empty(), inner, "\n"@);
    assert(Seq::<char>::empty() + inner + "\n"@ =~= line@);
    assert(text::trimmed(line@) == inner);
    assert(inner =~= s + "="@ + v);
    assert forall|i: int| 0 <= i < s.len() implies #[trigger] s[i] != '=' by {
        if i < symbol@.len() {
            assert(s[i] == symbol@[i]);
            assert(symbol@.contains(symbol@[i]));
        }
    }
    line_is_split_at_first_equals(line@, s, v);
    text::trimmed_keeps_inner(Seq::empty(), symbol@, " "@);
    assert(Seq::<char>::empty() + symbol@ + " "@ =~= s);
    text::trimmed_keeps_inner(" "@, value_text@, Seq::empty());
    assert(" "@ + value_text@ + Seq::<char>::empty() =~= v);
}

/// [`spawn_args`] gives the process its name, its block size where there is one, the saved
/// controls before those of the configuration, and last its plugin.
pub proof fn process_is_given_its_arguments(
    name: &str,
    uri: &str,
    block: u32,
    saved: &Vec<(String, String)>,
    configured: &Vec<(String, String)>,
    r: Vec<String>,
    i: int,
)
    requires
        call_ensures(spawn_args, (name, uri, Some(block), saved, configured), r),
    ensures
        r@.len() == 6 + saved@.len() + configured@.len(),
        r@[0]@ == "-n"@,
        r@[1]@ == name@,
        r@[2]@ == "--print-controls"@,
        r@[3]@ == "-b"@,
        text::number_of(r@[4]@) == block,
        0 <= i < saved@.len() ==> r@[5 + i]@ == "--control="@ + saved@[i].0@ + "="@ + saved@[i].1@,
        0 <= i < configured@.len() ==> r@[5 + saved@.len() + i]@ == "--control="@
            + configured@[i].0@ + "="@ + configured@[i].1@,
        r@.last()@ == uri@,
{
    arguments_come_in_order(name@, uri@, Some(block), saved@, configured@);
    text::decimal_is_read_back(block as nat);
    let args = text::texts(r@);
    assert(args.len() == r@.len());
    assert(forall|j: int| 0 <= j < args.len() ==> #[trigger] args[j] == r@[j]@);
    assert(args[0] == r@[0]@ && args[1] == r@[1]@ && args[2] == r@[2]@ && args[3] == r@[3]@);
    assert(args[4] == r@[4]@);
    if 0 <= i < saved@.len() {
        assert(saved@[i].0@ == saved@[i].0@);
        assert(args[5 + i] == r@[5 + i]@);
    }
    if 0 <= i < configured@.len() {
        assert(configured@[i].0@ == configured@[i].0@);
        assert(args[5 + saved@.len() + i] == r@[5 + saved@.len() + i]@);
    }
    assert(args.last() == r@.last()@);
}

/// [`UiMode::gdk_backend`] is a real display just where there are windows.
pub proof fn windows_need_a_display(headless: &str, gtk: &str)
    requires
        call_ensures(UiMode::gdk_backend, (UiMode::Headless,), headless),
        call_ensures(UiMode::gdk_backend, (UiMode::Gtk,), gtk),
    ensures
        headless@ == "offscreen"@,
        gtk@ == "x11"@,
{
}

/// [`parse_control_line`] reads from a line the control before its first equals sign and the
/// value behind it, without white space around them, and reads none from a line without one.
pub proof fn parsed_line_has_symbol_and_value<V, F: Fn(&str) -> Option<V>>(
    line: &str,
    parse: F,
    r: Option<(String, V)>,
    before: Seq<char>,
    after: Seq<char>,
)
    requires
        call_ensures(parse_control_line::<V, F>, (line, parse), r),
    ensures
        !line@.contains('=') ==> r is None,
        text::trimmed(line@) == before + "="@ + after && !before.contains('=') ==> {
            &&& r matches Some((symbol, value)) ==> symbol@ == text::trimmed(before)
                && symbol@.len() > 0 && parses_to(parse, text::trimmed(after), Some(value))
            &&& text::trimmed(before).len() == 0 ==> r is None
            &&& r is None && text::trimmed(before).len() > 0 ==> parses_to(
                parse,
                text::trimmed(after),
                None,
            )
        },
{
    if !line@.contains('=') {
        line_without_equals_sets_nothing(line@);
    }
    if text::trimmed(line@) == before + "="@ + after && !before.contains('=') {
        line_is_split_at_first_equals(line@, before, after);
    }
}

/// [`JalvInstance::new`] knows no control, and an instance tells its name and mode.
pub proof fn new_instance_is_bare<V>(
    name: &str,
    mode: UiMode,
    r: JalvInstance<V>,
    seen: UiMode,
    called: &str,
    n: Seq<char>,
)
    requires
        call_ensures(JalvInstance::<V>::new, (name, mode), r),
        call_ensures(JalvInstance::<V>::ui_mode, (&r,), seen),
        call_ensures(JalvInstance::<V>::jack_client_name, (&r,), called),
    ensures
        seen == mode,
        called@ == name@,
        !r.controls@.contains_key(n),
{
}

/// A line that sets nothing leaves the controls that [`JalvInstance::read_line`] knows as they
/// are, and any other line changes the control that it names at most.
pub proof fn read_line_changes_its_control<V, F: Fn(&str) -> Option<V>>(
    instance: &mut JalvInstance<V>,
    line: &str,
    parse: F,
    n: Seq<char>,
)
    requires
        call_ensures(JalvInstance::<V>::read_line::<F>, (instance, line, parse), ()),
    ensures
        !line@.contains('=') ==> final(instance).controls@ == old(instance).controls@,
        n != line_symbol(line@) ==> (final(instance).controls@.contains_key(n)
            <==> old(instance).controls@.contains_key(n)),
        n != line_symbol(line@) && old(instance).controls@.contains_key(n)
            ==> final(instance).controls@[n] == old(instance).controls@[n],
        final(instance).name == old(instance).name,
        final(instance).ui_mode == old(instance).ui_mode,
{
    if !line@.contains('=') {
        line_without_equals_sets_nothing(line@);
    }
}

} // verus!
