//! What the host offers to plugins: the mapping of URIs to numbers, options,
//! a log, and a worker to which work can be handed from the audio thread.
use vstd::prelude::*;

use crate::bytes;
use crate::ring;
use crate::text;

verus! {

pub const LV2_URID_MAP_URI: &'static str = "http://lv2plug.in/ns/ext/urid#map";

pub const LV2_URID_UNMAP_URI: &'static str = "http://lv2plug.in/ns/ext/urid#unmap";

pub const LV2_WORKER_SCHEDULE_URI: &'static str = "http://lv2plug.in/ns/ext/worker#schedule";

pub const LV2_LOG_LOG_URI: &'static str = "http://lv2plug.in/ns/ext/log#log";

pub const LV2_BUF_SIZE_BOUNDED_URI: &'static str = "http://lv2plug.in/ns/ext/buf-size#boundedBlockLength";

pub const LV2_BUF_SIZE_FIXED_URI: &'static str = "http://lv2plug.in/ns/ext/buf-size#fixedBlockLength";

pub const LV2_OPTIONS_URI: &'static str = "http://lv2plug.in/ns/ext/options#options";

pub const ATOM_SEQUENCE_URI: &'static str = "http://lv2plug.in/ns/ext/atom#Sequence";

pub const ATOM_CHUNK_URI: &'static str = "http://lv2plug.in/ns/ext/atom#Chunk";

pub const ATOM_FLOAT_URI: &'static str = "http://lv2plug.in/ns/ext/atom#Float";

pub const ATOM_INT_URI: &'static str = "http://lv2plug.in/ns/ext/atom#Int";

pub const ATOM_LONG_URI: &'static str = "http://lv2plug.in/ns/ext/atom#Long";

pub const ATOM_EVENT_TRANSFER_URI: &'static str = "http://lv2plug.in/ns/ext/atom#eventTransfer";

pub const MIDI_EVENT_URI: &'static str = "http://lv2plug.in/ns/ext/midi#MidiEvent";

pub const LOG_TRACE_URI: &'static str = "http://lv2plug.in/ns/ext/log#Trace";

pub const LOG_NOTE_URI: &'static str = "http://lv2plug.in/ns/ext/log#Note";

pub const LOG_WARNING_URI: &'static str = "http://lv2plug.in/ns/ext/log#Warning";

pub const LOG_ERROR_URI: &'static str = "http://lv2plug.in/ns/ext/log#Error";

pub const BUF_SIZE_MIN_URI: &'static str = "http://lv2plug.in/ns/ext/buf-size#minBlockLength";

pub const BUF_SIZE_MAX_URI: &'static str = "http://lv2plug.in/ns/ext/buf-size#maxBlockLength";

pub const BUF_SIZE_NOMINAL_URI: &'static str = "http://lv2plug.in/ns/ext/buf-size#nominalBlockLength";

pub const BUF_SIZE_SEQUENCE_SIZE_URI: &'static str = "http://lv2plug.in/ns/ext/buf-size#sequenceSize";

/// A number that stands for a URI. Zero stands for none.
pub type LV2Urid = u32;

/// The URIs that every mapper knows, in the order of their numbers.
pub open spec fn well_known() -> Seq<Seq<char>> {
    seq![
        ATOM_SEQUENCE_URI@,
        ATOM_CHUNK_URI@,
        ATOM_FLOAT_URI@,
        ATOM_INT_URI@,
        ATOM_LONG_URI@,
        ATOM_EVENT_TRANSFER_URI@,
        MIDI_EVENT_URI@,
        LOG_TRACE_URI@,
        LOG_NOTE_URI@,
        LOG_WARNING_URI@,
        LOG_ERROR_URI@,
        BUF_SIZE_MIN_URI@,
        BUF_SIZE_MAX_URI@,
        BUF_SIZE_NOMINAL_URI@,
        BUF_SIZE_SEQUENCE_SIZE_URI@,
    ]
}

/// The number of `uri` where the URIs so far are `uris`: its place, from one.
pub open spec fn urid_of(uris: Seq<Seq<char>>, uri: Seq<char>) -> Option<LV2Urid> {
    if uris.contains(uri) {
        Some((uris.index_of(uri) + 1) as LV2Urid)
    } else {
        None
    }
}

/// The URIs after `uri` was mapped.
pub open spec fn mapped(uris: Seq<Seq<char>>, uri: Seq<char>) -> Seq<Seq<char>> {
    if uris.contains(uri) {
        uris
    } else {
        uris.push(uri)
    }
}

/// Gives each URI a number and finds the URI of a number.
pub struct UridMapper {
    pub uris: Vec<String>,
}

impl View for UridMapper {
    type V = Seq<Seq<char>>;

    open spec fn view(&self) -> Seq<Seq<char>> {
        text::texts(self.uris@)
    }
}

impl UridMapper {
    /// No URI has two numbers, none holds a NUL, and the numbers are 32 bits.
    pub open spec fn wf(self) -> bool {
        &&& self@.no_duplicates()
        &&& self@.len() <= u32::MAX
        &&& forall|i: int| 0 <= i < self@.len() ==> !(#[trigger] self@[i]).contains('\0')
    }

    /// A mapper that knows the well-known URIs.
    pub fn new() -> (r: Self)
        ensures
            r.wf(),
            r@ == well_known(),
    {
        let mut uris: Vec<String> = Vec::new();
        uris.push(ATOM_SEQUENCE_URI.to_owned());
        uris.push(ATOM_CHUNK_URI.to_owned());
        uris.push(ATOM_FLOAT_URI.to_owned());
        uris.push(ATOM_INT_URI.to_owned());
        uris.push(ATOM_LONG_URI.to_owned());
        uris.push(ATOM_EVENT_TRANSFER_URI.to_owned());
        uris.push(MIDI_EVENT_URI.to_owned());
        uris.push(LOG_TRACE_URI.to_owned());
        uris.push(LOG_NOTE_URI.to_owned());
        uris.push(LOG_WARNING_URI.to_owned());
        uris.push(LOG_ERROR_URI.to_owned());
        uris.push(BUF_SIZE_MIN_URI.to_owned());
        uris.push(BUF_SIZE_MAX_URI.to_owned());
        uris.push(BUF_SIZE_NOMINAL_URI.to_owned());
        uris.push(BUF_SIZE_SEQUENCE_SIZE_URI.to_owned());
        let r = UridMapper { uris };
        proof {
            assert(r@ =~= well_known());
            well_known_are_distinct();
        }
        r
    }

    /// The number of `uri`, which it keeps from now on.
    pub fn map(&mut self, uri: &str) -> (id: LV2Urid)
        requires
            old(self).wf(),
            !uri@.contains('\0'),
            old(self)@.len() < u32::MAX || old(self)@.contains(uri@),
        ensures
            final(self).wf(),
            final(self)@ == mapped(old(self)@, uri@),
            Some(id) == urid_of(final(self)@, uri@),
    {
        match self.lookup(uri) {
            Some(id) => id,
            None => {
                let ghost before = self@;
                let id: LV2Urid = self.uris.len() as LV2Urid + 1;
                self.uris.push(uri.to_owned());
                proof {
                    assert(self@ =~= before.push(uri@));
                    assert(self@[before.len() as int] == uri@);
                    assert(self@.no_duplicates());
                    assert(self@.contains(uri@));
                }
                id
            },
        }
    }

    /// The URI with the number `urid`.
    pub fn unmap(&self, urid: LV2Urid) -> (r: Option<&String>)
        ensures
            match r {
                None => urid == 0 || urid > self@.len(),
                Some(uri) => 0 < urid <= self@.len() && uri@ == self@[urid - 1],
            },
    {
        if urid == 0 || urid as u64 > self.uris.len() as u64 {
            return None;
        }
        Some(&self.uris[urid as usize - 1])
    }

    /// The number of `uri`, where it was mapped.
    pub fn lookup(&self, uri: &str) -> (r: Option<LV2Urid>)
        requires
            self.wf(),
        ensures
            r == urid_of(self@, uri@),
    {
        let mut i: usize = 0;
        while i < self.uris.len()
            invariant
                self.wf(),
                i <= self.uris@.len(),
                forall|k: int| 0 <= k < i ==> self@[k] != uri@,
            decreases self.uris@.len() - i,
        {
            if text::same_text(self.uris[i].as_str(), uri) {
                assert(self@[i as int] == uri@);
                return Some(i as LV2Urid + 1);
            }
            i += 1;
        }
        None
    }
}

/// Where a well-known URI stands among them, by its length and a few
/// characters.
spec fn rank(uri: Seq<char>) -> int {
    if uri.len() == 38 {
        0
    } else if uri.len() == 35 {
        if uri[30] == 'C' {
            1
        } else {
            2
        }
    } else if uri.len() == 33 {
        if uri[25] == 'a' {
            3
        } else {
            8
        }
    } else if uri.len() == 34 {
        if uri[29] == '#' {
            4
        } else if uri[29] == 'T' {
            7
        } else {
            10
        }
    } else if uri.len() == 43 {
        5
    } else if uri.len() == 39 {
        6
    } else if uri.len() == 36 {
        9
    } else if uri.len() == 48 {
        if uri[35] == 'i' {
            11
        } else {
            12
        }
    } else if uri.len() == 52 {
        13
    } else {
        14
    }
}

/// No two of the well-known URIs are the same, and none holds a NUL.
pub proof fn well_known_are_distinct()
    ensures
        well_known().len() == 15,
        well_known().no_duplicates(),
        forall|i: int| 0 <= i < 15 ==> !(#[trigger] well_known()[i]).contains('\0'),
{
    reveal_strlit("http://lv2plug.in/ns/ext/atom#Sequence");
    reveal_strlit("http://lv2plug.in/ns/ext/atom#Chunk");
    reveal_strlit("http://lv2plug.in/ns/ext/atom#Float");
    reveal_strlit("http://lv2plug.in/ns/ext/atom#Int");
    reveal_strlit("http://lv2plug.in/ns/ext/atom#Long");
    reveal_strlit("http://lv2plug.in/ns/ext/atom#eventTransfer");
    reveal_strlit("http://lv2plug.in/ns/ext/midi#MidiEvent");
    reveal_strlit("http://lv2plug.in/ns/ext/log#Trace");
    reveal_strlit("http://lv2plug.in/ns/ext/log#Note");
    reveal_strlit("http://lv2plug.in/ns/ext/log#Warning");
    reveal_strlit("http://lv2plug.in/ns/ext/log#Error");
    reveal_strlit("http://lv2plug.in/ns/ext/buf-size#minBlockLength");
    reveal_strlit("http://lv2plug.in/ns/ext/buf-size#maxBlockLength");
    reveal_strlit("http://lv2plug.in/ns/ext/buf-size#nominalBlockLength");
    reveal_strlit("http://lv2plug.in/ns/ext/buf-size#sequenceSize");
    let w = well_known();
    assert(rank(w[0]) == 0);
    assert(rank(w[1]) == 1);
    assert(rank(w[2]) == 2);
    assert(rank(w[3]) == 3);
    assert(rank(w[4]) == 4);
    assert(rank(w[5]) == 5);
    assert(rank(w[6]) == 6);
    assert(rank(w[7]) == 7);
    assert(rank(w[8]) == 8);
    assert(rank(w[9]) == 9);
    assert(rank(w[10]) == 10);
    assert(rank(w[11]) == 11);
    assert(rank(w[12]) == 12);
    assert(rank(w[13]) == 13);
    assert(rank(w[14]) == 14);
    assert forall|i: int| 0 <= i < 15 implies rank(#[trigger] w[i]) == i by {}
    assert forall|i: int, j: int| 0 <= i < 15 && 0 <= j < 15 && i != j implies w[i] != w[j] by {
        assert(rank(w[i]) == i && rank(w[j]) == j);
    }
    assert forall|i: int| 0 <= i < 15 implies !(#[trigger] w[i]).contains('\0') by {
        assert forall|k: int| 0 <= k < w[i].len() implies w[i][k] != '\0' by {}
    }
}

/// The numbers of the well-known URIs.
pub proof fn well_known_numbers(i: int)
    requires
        0 <= i < 15,
    ensures
        urid_of(well_known(), well_known()[i]) == Some((i + 1) as LV2Urid),
{
    well_known_are_distinct();
    assert(well_known().contains(well_known()[i]));
}

/// Mapping gives a number above zero, and unmapping that number gives the URI
/// back.
pub proof fn unmap_inverts_map(uris: Seq<Seq<char>>, uri: Seq<char>)
    requires
        uris.len() < u32::MAX,
    ensures
        urid_of(mapped(uris, uri), uri) is Some,
        0 < urid_of(mapped(uris, uri), uri)->0 <= mapped(uris, uri).len(),
        mapped(uris, uri)[urid_of(mapped(uris, uri), uri)->0 - 1] == uri,
{
    let after = mapped(uris, uri);
    if !uris.contains(uri) {
        assert(after[uris.len() as int] == uri);
    }
    assert(after.contains(uri));
}

/// Mapping a URI again changes nothing, so its number is the same.
pub proof fn map_is_deterministic(uris: Seq<Seq<char>>, uri: Seq<char>)
    ensures
        mapped(mapped(uris, uri), uri) == mapped(uris, uri),
        urid_of(mapped(mapped(uris, uri), uri), uri) == urid_of(mapped(uris, uri), uri),
{
    if !uris.contains(uri) {
        assert(uris.push(uri)[uris.len() as int] == uri);
    }
}

/// Two URIs never share a number.
pub proof fn urids_are_distinct(uris: Seq<Seq<char>>, a: Seq<char>, b: Seq<char>)
    requires
        uris.len() <= u32::MAX,
        uris.contains(a),
        uris.contains(b),
        a != b,
    ensures
        urid_of(uris, a) != urid_of(uris, b),
{
}

/// A number once given stays, whatever is mapped later.
pub proof fn map_keeps_numbers(uris: Seq<Seq<char>>, known: Seq<char>, uri: Seq<char>)
    requires
        uris.no_duplicates(),
        uris.contains(known),
    ensures
        urid_of(mapped(uris, uri), known) == urid_of(uris, known),
        mapped(uris, uri).no_duplicates(),
{
    let after = mapped(uris, uri);
    let i = uris.index_of(known);
    assert(after[i] == known);
    assert(after.no_duplicates());
    assert(after.contains(known));
}

/// How serious a plugin's message is.
#[derive(Debug, Clone, Copy, PartialEq, Eq, Structural)]
pub enum LogLevel {
    Error,
    Warn,
    Debug,
    Trace,
}

/// The number of `uri`, or zero.
pub open spec fn urid_or_zero(uris: Seq<Seq<char>>, uri: Seq<char>) -> u32 {
    match urid_of(uris, uri) {
        Some(id) => id,
        None => 0,
    }
}

/// The level of a message of the type `type_`.
pub open spec fn level_of(uris: Seq<Seq<char>>, type_: u32) -> LogLevel {
    if type_ == urid_or_zero(uris, LOG_ERROR_URI@) {
        LogLevel::Error
    } else if type_ == urid_or_zero(uris, LOG_WARNING_URI@) {
        LogLevel::Warn
    } else if type_ == urid_or_zero(uris, LOG_NOTE_URI@) {
        LogLevel::Debug
    } else {
        LogLevel::Trace
    }
}

/// The text of a plugin's message; a message that is no text is named so.
pub open spec fn message_text(msg: Option<&str>) -> Seq<char> {
    match msg {
        Some(s) => s@,
        None => "<invalid utf8>"@,
    }
}

/// What to log for a plugin's message: its level and its text without the white
/// space around it, or nothing where only white space was sent.
pub fn plugin_log_line(mapper: &UridMapper, type_: u32, msg: Option<&str>) -> (r: Option<
    (LogLevel, String),
>)
    requires
        mapper.wf(),
    ensures
        match r {
            None => text::trimmed(message_text(msg)).len() == 0,
            Some((level, line)) => {
                &&& text::trimmed(message_text(msg)).len() > 0
                &&& level == level_of(mapper@, type_)
                &&& line@ == "[lv2] "@ + text::trimmed(message_text(msg))
            },
        },
{
    let msg = text::trim(
        match msg {
            Some(s) => s,
            None => "<invalid utf8>",
        },
    );
    if msg.is_empty() {
        return None;
    }
    let log_error: u32 = mapper.lookup(LOG_ERROR_URI).unwrap_or(0);
    let log_warning: u32 = mapper.lookup(LOG_WARNING_URI).unwrap_or(0);
    let log_note: u32 = mapper.lookup(LOG_NOTE_URI).unwrap_or(0);
    let level = if type_ == log_error {
        LogLevel::Error
    } else if type_ == log_warning {
        LogLevel::Warn
    } else if type_ == log_note {
        LogLevel::Debug
    } else {
        LogLevel::Trace
    };
    Some((level, text::join("[lv2] ", msg)))
}

/// An option of the host: a key, and a value of four bytes where there is one.
#[derive(Debug, Clone, Copy, PartialEq, Eq, Structural)]
pub struct LV2OptionsOption {
    pub context: u32,
    pub subject: u32,
    pub key: LV2Urid,
    pub size: u32,
    pub type_: LV2Urid,
    pub value: Option<i32>,
}

/// The context of an option that belongs to the instance itself.
pub const LV2_OPTIONS_INSTANCE: u32 = 0;

/// How many bytes a plugin may expect in a sequence.
pub const SEQUENCE_SIZE: i32 = 4096;

/// What stands behind a feature's URI.
#[derive(Debug, Clone, Copy, PartialEq, Eq, Structural)]
pub enum FeatureData {
    UridMap,
    UridUnmap,
    LogLog,
    Options,
    WorkerSchedule,
    Nothing,
}

/// A feature that is offered to a plugin.
#[derive(Debug)]
pub struct Feature {
    pub uri: String,
    pub data: FeatureData,
}

/// The features that are offered to every plugin, with what they need.
pub struct FeatureSet {
    pub mapper: UridMapper,
    pub options: Vec<LV2OptionsOption>,
    pub features: Vec<Feature>,
}

/// A number of 32 bits taken as signed.
pub open spec fn signed32(x: u32) -> i32 {
    if x < 0x8000_0000 {
        x as i32
    } else {
        (x - 0x1_0000_0000) as i32
    }
}

/// An option with a value.
pub open spec fn int_option(key: LV2Urid, type_: LV2Urid, value: i32) -> LV2OptionsOption {
    LV2OptionsOption {
        context: LV2_OPTIONS_INSTANCE,
        subject: 0,
        key,
        size: 4,
        type_,
        value: Some(value),
    }
}

/// The options for a block of `buffer_size` frames; the last one ends the list.
pub open spec fn options_for(buffer_size: u32) -> Seq<LV2OptionsOption> {
    let int_type = urid_or_zero(well_known(), ATOM_INT_URI@);
    let block = signed32(buffer_size);
    seq![
        int_option(urid_or_zero(well_known(), BUF_SIZE_MIN_URI@), int_type, block),
        int_option(urid_or_zero(well_known(), BUF_SIZE_MAX_URI@), int_type, block),
        int_option(urid_or_zero(well_known(), BUF_SIZE_NOMINAL_URI@), int_type, block),
        int_option(
            urid_or_zero(well_known(), BUF_SIZE_SEQUENCE_SIZE_URI@),
            int_type,
            SEQUENCE_SIZE,
        ),
        LV2OptionsOption { context: 0, subject: 0, key: 0, size: 0, type_: 0, value: None },
    ]
}

/// The URIs of the features and what stands behind them.
pub open spec fn offered() -> Seq<(Seq<char>, FeatureData)> {
    seq![
        (LV2_URID_MAP_URI@, FeatureData::UridMap),
        (LV2_URID_UNMAP_URI@, FeatureData::UridUnmap),
        (LV2_LOG_LOG_URI@, FeatureData::LogLog),
        (LV2_OPTIONS_URI@, FeatureData::Options),
        (LV2_BUF_SIZE_BOUNDED_URI@, FeatureData::Nothing),
        (LV2_BUF_SIZE_FIXED_URI@, FeatureData::Nothing),
    ]
}

/// The views of features.
pub open spec fn feature_views(features: Seq<Feature>) -> Seq<(Seq<char>, FeatureData)> {
    features.map_values(|f: Feature| (f.uri@, f.data))
}

/// `x` taken as signed.
fn as_signed(x: u32) -> (r: i32)
    ensures
        r == signed32(x),
{
    if x < 0x8000_0000 {
        x as i32
    } else {
        (x as i64 - 0x1_0000_0000) as i32
    }
}

/// A feature.
fn feature(uri: &str, data: FeatureData) -> (r: Feature)
    ensures
        r.uri@ == uri@,
        r.data == data,
{
    Feature { uri: uri.to_owned(), data }
}

impl FeatureSet {
    /// The features for blocks of `buffer_size` frames. The sample rate is not
    /// offered as an option.
    pub fn new(_sample_rate: u32, buffer_size: u32) -> (r: Self)
        ensures
            r.mapper.wf(),
            r.mapper@ == well_known(),
            r.options@ == options_for(buffer_size),
            feature_views(r.features@) == offered(),
    {
        let mapper = UridMapper::new();
        let block: i32 = as_signed(buffer_size);
        let atom_int: LV2Urid = mapper.lookup(ATOM_INT_URI).unwrap_or(0);
        let min_key: LV2Urid = mapper.lookup(BUF_SIZE_MIN_URI).unwrap_or(0);
        let max_key: LV2Urid = mapper.lookup(BUF_SIZE_MAX_URI).unwrap_or(0);
        let nominal_key: LV2Urid = mapper.lookup(BUF_SIZE_NOMINAL_URI).unwrap_or(0);
        let seq_key: LV2Urid = mapper.lookup(BUF_SIZE_SEQUENCE_SIZE_URI).unwrap_or(0);
        let mut options: Vec<LV2OptionsOption> = Vec::new();
        options.push(Self::int_option(min_key, atom_int, block));
        options.push(Self::int_option(max_key, atom_int, block));
        options.push(Self::int_option(nominal_key, atom_int, block));
        options.push(Self::int_option(seq_key, atom_int, SEQUENCE_SIZE));
        options.push(
            LV2OptionsOption { context: 0, subject: 0, key: 0, size: 0, type_: 0, value: None },
        );
        let mut features: Vec<Feature> = Vec::new();
        features.push(feature(LV2_URID_MAP_URI, FeatureData::UridMap));
        features.push(feature(LV2_URID_UNMAP_URI, FeatureData::UridUnmap));
        features.push(feature(LV2_LOG_LOG_URI, FeatureData::LogLog));
        features.push(feature(LV2_OPTIONS_URI, FeatureData::Options));
        features.push(feature(LV2_BUF_SIZE_BOUNDED_URI, FeatureData::Nothing));
        features.push(feature(LV2_BUF_SIZE_FIXED_URI, FeatureData::Nothing));
        assert(options@ =~= options_for(buffer_size));
        assert(feature_views(features@) =~= offered());
        FeatureSet { mapper, options, features }
    }

    /// An option with a value.
    fn int_option(key: LV2Urid, type_: LV2Urid, value: i32) -> (r: LV2OptionsOption)
        ensures
            r == int_option(key, type_, value),
    {
        LV2OptionsOption {
            context: LV2_OPTIONS_INSTANCE,
            subject: 0,
            key,
            size: 4,
            type_,
            value: Some(value),
        }
    }

    /// The features of this set.
    pub fn as_features(&self) -> (r: Vec<&Feature>)
        ensures
            r@.len() == self.features@.len(),
            forall|i: int| 0 <= i < r@.len() ==> *(#[trigger] r@[i]) == self.features@[i],
    {
        let mut r: Vec<&Feature> = Vec::new();
        let mut i: usize = 0;
        while i < self.features.len()
            invariant
                i <= self.features@.len(),
                r@.len() == i,
                forall|k: int| 0 <= k < i ==> *(#[trigger] r@[k]) == self.features@[k],
            decreases self.features@.len() - i,
        {
            r.push(&self.features[i]);
            i += 1;
        }
        r
    }
}

/// The keys of the options are those of the well-known URIs, none is zero, and
/// the list is ended by an option whose key is.
pub proof fn options_have_keys(buffer_size: u32)
    ensures
        options_for(buffer_size).len() == 5,
        options_for(buffer_size)[0].key == 12,
        options_for(buffer_size)[1].key == 13,
        options_for(buffer_size)[2].key == 14,
        options_for(buffer_size)[3].key == 15,
        options_for(buffer_size)[4].key == 0,
        forall|i: int| 0 <= i < 4 ==> (#[trigger] options_for(buffer_size)[i]).type_ == 4,
{
    well_known_numbers(3);
    well_known_numbers(11);
    well_known_numbers(12);
    well_known_numbers(13);
    well_known_numbers(14);
}

/// The answers of a worker.
pub const LV2_WORKER_SUCCESS: u32 = 0;

pub const LV2_WORKER_ERR_UNKNOWN: u32 = 1;

/// How many bytes the rings of a worker hold.
pub const WORKER_RING_CAPACITY: usize = 65536;

/// How often a reader looks again for the rest of a message.
pub const FRAME_RETRIES: u32 = 100;

/// A message as it lies in a ring: its size in four bytes, then its bytes.
pub open spec fn frame(size: u32, data: Seq<u8>) -> Seq<u8> {
    bytes::le32(size) + data
}

/// Messages one behind the other.
pub open spec fn frames(messages: Seq<(u32, Seq<u8>)>) -> Seq<u8>
    decreases messages.len(),
{
    if messages.len() == 0 {
        Seq::empty()
    } else {
        frames(messages.drop_last()) + frame(messages.last().0, messages.last().1)
    }
}

/// Whether every size is the number of bytes of its message.
pub open spec fn sized(messages: Seq<(u32, Seq<u8>)>) -> bool {
    forall|i: int| 0 <= i < messages.len() ==> (#[trigger] messages[i]).0 == messages[i].1.len()
}

/// The views of messages.
pub open spec fn message_views(messages: Seq<(u32, Vec<u8>)>) -> Seq<(u32, Seq<u8>)> {
    messages.map_values(|m: (u32, Vec<u8>)| (m.0, m.1@))
}

/// Whether a reader that has taken `before`, then `after`, found no message:
/// it saw too few bytes for a size, or took out a size and saw too few bytes for
/// that message.
pub open spec fn none_found(before: Seq<u8>, after: Seq<u8>, seen: nat) -> bool {
    ||| after == before && seen < 4
    ||| exists|size: u32| after == before + #[trigger] bytes::le32(size) && seen < size
}

/// Whether a reader that has taken `before`, then `after`, found `messages`, and
/// after them no more.
pub open spec fn all_found(
    before: Seq<u8>,
    messages: Seq<(u32, Seq<u8>)>,
    after: Seq<u8>,
    seen: nat,
) -> bool {
    none_found(before + frames(messages), after, seen)
}

/// Whether a consumer still knows of all the bytes that it knew of before, but
/// for those that it took out since.
pub open spec fn keeps_seen(before: rtrb::Consumer<u8>, after: rtrb::Consumer<u8>) -> bool {
    ring::bytes_taken(before).len() + ring::bytes_seen(before) <= ring::bytes_taken(after).len()
        + ring::bytes_seen(after)
}

/// What a writer makes of a message: it is put in where the free slots that are
/// found suffice, else nothing is.
pub open spec fn is_written(
    before: rtrb::Producer<u8>,
    after: rtrb::Producer<u8>,
    size: u32,
    data: Seq<u8>,
    done: bool,
) -> bool {
    &&& ring::bytes_put(after) == if done {
        ring::bytes_put(before) + frame(size, data)
    } else {
        ring::bytes_put(before)
    }
    &&& ring::bytes_put(after).is_prefix_of(ring::bytes_ever_put(after))
    &&& ring::bytes_ever_put(after) == ring::bytes_ever_put(before)
    &&& ring::bytes_capacity(after) == ring::bytes_capacity(before)
    &&& ring::bytes_put(before).len() + 4 + data.len() <= ring::bytes_capacity(before) ==> done
    &&& ring::answered(
        ring::bytes_free(before),
        ring::bytes_free(after),
        4 + data.len(),
        ring::bytes_capacity(before),
        done,
    )
}

/// Puts a message into a ring, or nothing just where the free slots that are found
/// are too few. The size stands before the bytes as it is given.
pub fn write_framed_message(tx: &mut rtrb::Producer<u8>, size: u32, data: &[u8]) -> (done: bool)
    ensures
        is_written(*old(tx), *final(tx), size, data@, done),
{
    let header = bytes::to_le32(size);
    let mut all: Vec<u8> = vstd::slice::slice_to_vec(header.as_slice());
    all.extend_from_slice(data);
    assert(all@ =~= frame(size, data@));
    ring::put_bytes(tx, all.as_slice())
}

/// What a reader does that knows the size of a message.
#[derive(Debug, Clone, Copy, PartialEq, Eq, Structural)]
pub enum FrameRead {
    /// The message has no bytes and is complete.
    Empty,
    /// It takes out the bytes.
    Take,
    /// It pauses, and looks again.
    Pause,
    /// It gives up the message.
    Stop,
}

/// Decides on a message of `size` bytes where `waiting` bytes are found after
/// `tries` pauses.
pub fn frame_read(size: u32, waiting: usize, tries: u32) -> (r: FrameRead)
    ensures
        r is Empty <==> size == 0,
        r is Take <==> 0 < size <= waiting,
        r is Pause <==> waiting < size && tries < FRAME_RETRIES,
        r is Stop <==> waiting < size && tries >= FRAME_RETRIES,
{
    if size == 0 {
        FrameRead::Empty
    } else if size as u64 <= waiting as u64 {
        FrameRead::Take
    } else if tries < FRAME_RETRIES {
        FrameRead::Pause
    } else {
        FrameRead::Stop
    }
}

/// What a reader makes of a ring: it takes out the next message, or finds none.
pub open spec fn is_read(
    before: rtrb::Consumer<u8>,
    after: rtrb::Consumer<u8>,
    r: Option<(u32, Seq<u8>)>,
) -> bool {
    &&& match r {
        Some((size, data)) => {
            &&& data.len() == size
            &&& ring::bytes_taken(after) == ring::bytes_taken(before) + frame(size, data)
        },
        None => none_found(
            ring::bytes_taken(before),
            ring::bytes_taken(after),
            ring::bytes_seen(after),
        ),
    }
    &&& keeps_seen(before, after)
    &&& ring::bytes_taken(after) != ring::bytes_taken(before) ==> ring::bytes_taken(
        after,
    ).is_prefix_of(ring::bytes_coming(after))
    &&& ring::bytes_coming(after) == ring::bytes_coming(before)
}

/// The view of a message that may be there.
pub open spec fn message_view(r: Option<(u32, Vec<u8>)>) -> Option<(u32, Seq<u8>)> {
    match r {
        Some((size, data)) => Some((size, data@)),
        None => None,
    }
}

/// Whether `pause` was called with the number of each try.
pub open spec fn all_tried<F: Fn(u32)>(pause: F) -> bool {
    forall|t: u32| t < FRAME_RETRIES ==> #[trigger] pause.ensures((t,), ())
}

/// Whether `pause` can be called with the number of each try.
pub open spec fn can_try<F: Fn(u32)>(pause: F) -> bool {
    forall|t: u32| t < FRAME_RETRIES ==> #[trigger] pause.requires((t,))
}

/// Takes a message out of a ring: `None` just where too few bytes are seen for
/// its size, or for its bytes. In the second case its size is lost; it comes only
/// after `pause` was called with the number of each try. A message that was seen
/// as a whole before is always taken out.
pub fn read_framed_message<F: Fn(u32)>(rx: &mut rtrb::Consumer<u8>, pause: F) -> (r: Option<
    (u32, Vec<u8>),
>)
    requires
        can_try(pause),
    ensures
        is_read(*old(rx), *final(rx), message_view(r)),
        r is None && ring::bytes_taken(*final(rx)) != ring::bytes_taken(*old(rx)) ==> all_tried(
            pause,
        ),
{
    let ghost start = ring::bytes_taken(*rx);
    let ghost coming = ring::bytes_coming(*rx);
    if ring::waiting_bytes(rx) < 4 {
        return None;
    }
    let first = match ring::take_bytes(rx, 4) {
        Some(v) => v,
        None => {
            return None;
        },
    };
    let header: [u8; 4] = [first[0], first[1], first[2], first[3]];
    let size: u32 = bytes::from_le32(&header);
    proof {
        assert(header@ =~= first@);
        bytes::le32_inverse(size, header@);
    }
    let mut tries: u32 = 0;
    loop
        invariant
            can_try(pause),
            forall|t: u32| t < tries ==> #[trigger] pause.ensures((t,), ()),
            tries <= FRAME_RETRIES,
            start == ring::bytes_taken(*old(rx)),
            coming == ring::bytes_coming(*old(rx)),
            ring::bytes_taken(*rx) == start + bytes::le32(size),
            ring::bytes_taken(*rx).is_prefix_of(coming),
            ring::bytes_coming(*rx) == coming,
            keeps_seen(*old(rx), *rx),
        decreases FRAME_RETRIES - tries,
    {
        match frame_read(size, ring::waiting_bytes(rx), tries) {
            FrameRead::Empty => {
                let r: Vec<u8> = Vec::new();
                assert(frame(0, r@) =~= bytes::le32(0));
                return Some((0, r));
            },
            FrameRead::Take => {
                return match ring::take_bytes(rx, size as usize) {
                    Some(data) => {
                        assert(start + bytes::le32(size) + data@ =~= start + frame(size, data@));
                        Some((size, data))
                    },
                    None => None,
                };
            },
            FrameRead::Pause => {
                pause(tries);
                tries += 1;
            },
            FrameRead::Stop => {
                return None;
            },
        }
    }
}

/// The audio thread's ends of the two rings to and from a worker.
pub struct WorkerHost {
    pub rt_to_worker_tx: rtrb::Producer<u8>,
    pub worker_to_rt_rx: rtrb::Consumer<u8>,
}

/// The worker's ends of the two rings.
pub struct WorkerEnd {
    pub rt_to_worker_rx: rtrb::Consumer<u8>,
    pub worker_to_rt_tx: rtrb::Producer<u8>,
}

impl WorkerHost {
    /// Two new rings, by their ends: what is scheduled arrives at the worker,
    /// and what it answers comes back.
    pub fn new() -> (r: (WorkerHost, WorkerEnd))
        ensures
            ring::bytes_put(r.0.rt_to_worker_tx) == Seq::<u8>::empty(),
            ring::bytes_taken(r.0.worker_to_rt_rx) == Seq::<u8>::empty(),
            ring::bytes_put(r.1.worker_to_rt_tx) == Seq::<u8>::empty(),
            ring::bytes_taken(r.1.rt_to_worker_rx) == Seq::<u8>::empty(),
            ring::bytes_ever_put(r.0.rt_to_worker_tx) == ring::bytes_coming(r.1.rt_to_worker_rx),
            ring::bytes_ever_put(r.1.worker_to_rt_tx) == ring::bytes_coming(r.0.worker_to_rt_rx),
            ring::bytes_capacity(r.0.rt_to_worker_tx) == WORKER_RING_CAPACITY,
            ring::bytes_capacity(r.1.worker_to_rt_tx) == WORKER_RING_CAPACITY,
            ring::bytes_free(r.0.rt_to_worker_tx) == WORKER_RING_CAPACITY,
            ring::bytes_free(r.1.worker_to_rt_tx) == WORKER_RING_CAPACITY,
    {
        let (rt_to_worker_tx, rt_to_worker_rx) = ring::byte_ring(WORKER_RING_CAPACITY);
        let (worker_to_rt_tx, worker_to_rt_rx) = ring::byte_ring(WORKER_RING_CAPACITY);
        (
            WorkerHost { rt_to_worker_tx, worker_to_rt_rx },
            WorkerEnd { rt_to_worker_rx, worker_to_rt_tx },
        )
    }

    /// Hands work to the worker, or nothing where the ring has no room.
    pub fn schedule(&mut self, size: u32, data: &[u8]) -> (done: bool)
        ensures
            is_written(
                old(self).rt_to_worker_tx,
                final(self).rt_to_worker_tx,
                size,
                data@,
                done,
            ),
            final(self).worker_to_rt_rx == old(self).worker_to_rt_rx,
    {
        write_framed_message(&mut self.rt_to_worker_tx, size, data)
    }

    /// Takes out the answers that wait, in their order, until none is found.
    pub fn drain_responses<F: Fn(u32)>(&mut self, pause: F) -> (r: Vec<(u32, Vec<u8>)>)
        requires
            can_try(pause),
        ensures
            sized(message_views(r@)),
            all_found(
                ring::bytes_taken(old(self).worker_to_rt_rx),
                message_views(r@),
                ring::bytes_taken(final(self).worker_to_rt_rx),
                ring::bytes_seen(final(self).worker_to_rt_rx),
            ),
            keeps_seen(old(self).worker_to_rt_rx, final(self).worker_to_rt_rx),
            r@.len() > 0 ==> (ring::bytes_taken(old(self).worker_to_rt_rx) + frames(
                message_views(r@),
            )).is_prefix_of(ring::bytes_coming(final(self).worker_to_rt_rx)),
            ring::bytes_taken(final(self).worker_to_rt_rx) != ring::bytes_taken(
                old(self).worker_to_rt_rx,
            ) ==> ring::bytes_taken(final(self).worker_to_rt_rx).is_prefix_of(
                ring::bytes_coming(final(self).worker_to_rt_rx),
            ),
            ring::bytes_coming(final(self).worker_to_rt_rx) == ring::bytes_coming(
                old(self).worker_to_rt_rx,
            ),
            final(self).rt_to_worker_tx == old(self).rt_to_worker_tx,
    {
        let mut r: Vec<(u32, Vec<u8>)> = Vec::new();
        let ghost start = ring::bytes_taken(self.worker_to_rt_rx);
        let ghost coming = ring::bytes_coming(self.worker_to_rt_rx);
        assert(message_views(r@) =~= Seq::empty());
        assert(start + frames(message_views(r@)) =~= start);
        loop
            invariant
                can_try(pause),
                start == ring::bytes_taken(old(self).worker_to_rt_rx),
                coming == ring::bytes_coming(old(self).worker_to_rt_rx),
                self.rt_to_worker_tx == old(self).rt_to_worker_tx,
                ring::bytes_taken(self.worker_to_rt_rx) == start + frames(message_views(r@)),
                ring::bytes_coming(self.worker_to_rt_rx) == coming,
                keeps_seen(old(self).worker_to_rt_rx, self.worker_to_rt_rx),
                r@.len() > 0 ==> (start + frames(message_views(r@))).is_prefix_of(coming),
                sized(message_views(r@)),
            decreases coming.len() - ring::bytes_taken(self.worker_to_rt_rx).len(),
        {
            let ghost before = message_views(r@);
            match read_framed_message(&mut self.worker_to_rt_rx, &pause) {
                Some((size, data)) => {
                    let ghost message = (size, data@);
                    r.push((size, data));
                    proof {
                        let now = message_views(r@);
                        assert(now =~= before.push(message));
                        assert(now.drop_last() =~= before);
                        assert(start + frames(before) + frame(size, message.1) =~= start
                            + frames(now));
                        assert((start + frames(now)).len() > (start + frames(before)).len());
                    }
                },
                None => {
                    return r;
                },
            }
        }
    }
}

/// Answers for a message that was or was not put into a ring.
pub fn worker_status(done: bool) -> (r: u32)
    ensures
        r == if done {
            LV2_WORKER_SUCCESS
        } else {
            LV2_WORKER_ERR_UNKNOWN
        },
{
    if done {
        LV2_WORKER_SUCCESS
    } else {
        LV2_WORKER_ERR_UNKNOWN
    }
}

/// A framed message starts with its size.
proof fn frames_first(first: (u32, Seq<u8>), rest: Seq<(u32, Seq<u8>)>)
    ensures
        frames(seq![first] + rest) == frame(first.0, first.1) + frames(rest),
    decreases rest.len(),
{
    let all = seq![first] + rest;
    if rest.len() == 0 {
        assert(all.drop_last() =~= Seq::empty());
        assert(all.last() == first);
        assert(frames(all.drop_last()) =~= Seq::empty());
        assert(frames(all) =~= frame(first.0, first.1));
        assert(frame(first.0, first.1) + frames(rest) =~= frame(first.0, first.1));
    } else {
        assert(all.drop_last() =~= seq![first] + rest.drop_last());
        frames_first(first, rest.drop_last());
        assert(frames(all) =~= frame(first.0, first.1) + frames(rest));
    }
}

/// A stream that starts with a frame and then something else.
proof fn starts_with_frame(stream: Seq<u8>, message: (u32, Seq<u8>), rest: Seq<u8>)
    requires
        (frame(message.0, message.1) + rest).is_prefix_of(stream),
    ensures
        stream.take(4) == bytes::le32(message.0),
        stream.subrange(4, 4 + message.1.len() as int) == message.1,
        4 + message.1.len() <= stream.len(),
        rest.is_prefix_of(stream.skip(4 + message.1.len() as int)),
{
    let all = frame(message.0, message.1) + rest;
    let n = 4 + message.1.len() as int;
    assert forall|k: int| 0 <= k < all.len() implies stream[k] == all[k] by {
        assert(stream.take(all.len() as int)[k] == stream[k]);
    }
    assert(stream.take(4) =~= bytes::le32(message.0));
    assert(stream.subrange(4, n) =~= message.1);
    assert(stream.skip(n).take(rest.len() as int) =~= rest);
}

/// The messages behind the first.
proof fn sized_rest(messages: Seq<(u32, Seq<u8>)>)
    requires
        sized(messages),
        messages.len() > 0,
    ensures
        sized(messages.skip(1)),
        messages == seq![messages[0]] + messages.skip(1),
{
    let rest = messages.skip(1);
    assert forall|k: int| 0 <= k < rest.len() implies (#[trigger] rest[k]).0 == rest[k].1.len() by {
        assert(rest[k] == messages[k + 1]);
    }
    assert(messages =~= seq![messages[0]] + rest);
}

/// A reader that finds no message had not seen one: where a message comes next,
/// it had seen fewer bytes than the message takes with its size.
pub proof fn seen_message_is_found(
    before: rtrb::Consumer<u8>,
    after: rtrb::Consumer<u8>,
    size: u32,
    data: Seq<u8>,
)
    requires
        is_read(before, after, None),
        data.len() == size,
        (ring::bytes_taken(before) + frame(size, data)).is_prefix_of(ring::bytes_coming(before)),
    ensures
        ring::bytes_seen(before) < 4 + size,
{
    let start = ring::bytes_taken(before);
    let now = ring::bytes_taken(after);
    let coming = ring::bytes_coming(before);
    if now != start {
        let lost = choose|lost: u32|
            now == start + #[trigger] bytes::le32(lost) && ring::bytes_seen(after) < lost;
        let n = start.len() as int;
        assert(coming.subrange(n, n + 4) =~= bytes::le32(lost)) by {
            assert(now.subrange(n, n + 4) =~= bytes::le32(lost));
        }
        assert(coming.subrange(n, n + 4) =~= bytes::le32(size)) by {
            assert((start + frame(size, data)).subrange(n, n + 4) =~= bytes::le32(size));
        }
        bytes::le32_inverse(lost, bytes::le32(lost));
        bytes::le32_inverse(size, bytes::le32(size));
    }
}

/// What is read is what was written, message by message: where the frames of
/// the messages read and those of the messages written are both starts of one
/// stream, the messages agree as far as both go.
pub proof fn read_messages_are_written(
    stream: Seq<u8>,
    written: Seq<(u32, Seq<u8>)>,
    read: Seq<(u32, Seq<u8>)>,
    i: int,
)
    requires
        sized(written),
        sized(read),
        frames(written).is_prefix_of(stream),
        frames(read).is_prefix_of(stream),
        0 <= i < written.len(),
        i < read.len(),
    ensures
        read[i] == written[i],
    decreases written.len(),
{
    let w = written[0];
    let r = read[0];
    let ws = written.skip(1);
    let rs = read.skip(1);
    sized_rest(written);
    sized_rest(read);
    frames_first(w, ws);
    frames_first(r, rs);
    starts_with_frame(stream, w, frames(ws));
    starts_with_frame(stream, r, frames(rs));
    bytes::le32_inverse(w.0, bytes::le32(w.0));
    bytes::le32_inverse(r.0, bytes::le32(r.0));
    assert(w == r);
    if i > 0 {
        read_messages_are_written(stream.skip(4 + w.1.len() as int), ws, rs, i - 1);
        assert(ws[i - 1] == written[i]);
        assert(rs[i - 1] == read[i]);
    }
}

/// A reader that found all that was put reads the message that comes next.
proof fn next_message_is_read(
    before: rtrb::Consumer<u8>,
    after: rtrb::Consumer<u8>,
    r: Option<(u32, Seq<u8>)>,
    message: (u32, Seq<u8>),
    rest: Seq<u8>,
)
    requires
        is_read(before, after, r),
        message.0 == message.1.len(),
        ring::bytes_coming(before) == ring::bytes_taken(before) + (frame(message.0, message.1)
            + rest),
        found_all(after),
    ensures
        r == Some(message),
        ring::bytes_taken(after) == ring::bytes_taken(before) + frame(message.0, message.1),
{
    let start = ring::bytes_taken(before);
    let now = ring::bytes_taken(after);
    let coming = ring::bytes_coming(before);
    let n = start.len() as int;
    let next = coming.skip(n);
    assert(next =~= frame(message.0, message.1) + rest);
    starts_with_frame(next, message, rest);
    bytes::le32_inverse(message.0, bytes::le32(message.0));
    match r {
        Some((size, data)) => {
            assert(now.len() > start.len());
            assert((frame(size, data) + Seq::<u8>::empty()).is_prefix_of(next)) by {
                assert(frame(size, data) + Seq::<u8>::empty() =~= frame(size, data));
                assert(next.take(frame(size, data).len() as int) =~= now.skip(n));
                assert(now.skip(n) =~= frame(size, data));
            }
            starts_with_frame(next, (size, data), Seq::empty());
            bytes::le32_inverse(size, bytes::le32(size));
        },
        None => {
            if now != start {
                let lost = choose|lost: u32|
                    now == start + #[trigger] bytes::le32(lost) && ring::bytes_seen(after) < lost;
                assert(next.take(4) =~= bytes::le32(lost)) by {
                    assert(now.skip(n) =~= bytes::le32(lost));
                    assert(next.take(4) =~= now.skip(n));
                }
                bytes::le32_inverse(lost, bytes::le32(lost));
            }
        },
    }
}

/// A reader finds nothing, and takes nothing, behind the last message.
proof fn nothing_is_read(
    before: rtrb::Consumer<u8>,
    after: rtrb::Consumer<u8>,
    r: Option<(u32, Seq<u8>)>,
)
    requires
        is_read(before, after, r),
        ring::bytes_coming(before) == ring::bytes_taken(before),
    ensures
        r is None,
        ring::bytes_taken(after) == ring::bytes_taken(before),
{
    if ring::bytes_taken(after) != ring::bytes_taken(before) {
        assert(ring::bytes_taken(after).len() <= ring::bytes_coming(before).len());
        if r is None {
            let lost = choose|lost: u32|
                ring::bytes_taken(after) == ring::bytes_taken(before) + #[trigger] bytes::le32(lost)
                    && ring::bytes_seen(after) < lost;
            assert(bytes::le32(lost).len() == 4);
        }
    } else if let Some((size, data)) = r {
        assert(ring::bytes_taken(after).len() > ring::bytes_taken(before).len());
    }
}

/// Whether a consumer took out or knows of all that is ever put in.
pub open spec fn found_all(rx: rtrb::Consumer<u8>) -> bool {
    ring::bytes_coming(rx).len() <= ring::bytes_taken(rx).len() + ring::bytes_seen(rx)
}

/// Messages that come next are read one by one, and then nothing.
proof fn messages_are_read_in_turn(
    rxs: Seq<rtrb::Consumer<u8>>,
    results: Seq<Option<(u32, Seq<u8>)>>,
    messages: Seq<(u32, Seq<u8>)>,
)
    requires
        sized(messages),
        results.len() == messages.len() + 1,
        rxs.len() == results.len() + 1,
        forall|i: int|
            0 <= i < results.len() ==> is_read(rxs[i], rxs[i + 1], #[trigger] results[i])
                && found_all(rxs[i + 1]),
        ring::bytes_coming(rxs[0]) == ring::bytes_taken(rxs[0]) + frames(messages),
    ensures
        forall|i: int|
            0 <= i < messages.len() ==> #[trigger] results[i] == Some(messages[i]),
        results[messages.len() as int] is None,
        ring::bytes_taken(rxs[messages.len() as int]) == ring::bytes_coming(rxs[0]),
        ring::bytes_taken(rxs.last()) == ring::bytes_coming(rxs[0]),
    decreases messages.len(),
{
    assert(is_read(rxs[0], rxs[1], results[0]));
    if messages.len() == 0 {
        assert(ring::bytes_taken(rxs[0]) + frames(messages) =~= ring::bytes_taken(rxs[0]));
        nothing_is_read(rxs[0], rxs[1], results[0]);
    } else {
        let first = messages[0];
        let rest = messages.skip(1);
        sized_rest(messages);
        frames_first(first, rest);
        next_message_is_read(rxs[0], rxs[1], results[0], first, frames(rest));
        assert(ring::bytes_taken(rxs[0]) + (frame(first.0, first.1) + frames(rest))
            =~= ring::bytes_taken(rxs[1]) + frames(rest));
        let later = rxs.skip(1);
        let found = results.skip(1);
        assert forall|i: int| 0 <= i < found.len() implies is_read(
            later[i],
            later[i + 1],
            #[trigger] found[i],
        ) && found_all(later[i + 1]) by {
            assert(found[i] == results[i + 1]);
        }
        messages_are_read_in_turn(later, found, rest);
        assert forall|i: int| 0 <= i < messages.len() implies #[trigger] results[i] == Some(
            messages[i],
        ) by {
            if i > 0 {
                assert(found[i - 1] == results[i]);
                assert(rest[i - 1] == messages[i]);
            }
        }
        assert(found[rest.len() as int] == results[messages.len() as int]);
    }
}

/// Messages that were put in are there one behind the other.
proof fn messages_are_put_in_turn(
    txs: Seq<rtrb::Producer<u8>>,
    messages: Seq<(u32, Seq<u8>)>,
)
    requires
        txs.len() == messages.len() + 1,
        forall|i: int|
            0 <= i < messages.len() ==> is_written(
                txs[i],
                txs[i + 1],
                (#[trigger] messages[i]).0,
                messages[i].1,
                true,
            ),
    ensures
        ring::bytes_put(txs.last()) == ring::bytes_put(txs[0]) + frames(messages),
        ring::bytes_ever_put(txs.last()) == ring::bytes_ever_put(txs[0]),
    decreases messages.len(),
{
    if messages.len() == 0 {
        assert(ring::bytes_put(txs[0]) + frames(messages) =~= ring::bytes_put(txs[0]));
    } else {
        let k = messages.len() - 1;
        let first = messages.drop_last();
        assert forall|i: int| 0 <= i < first.len() implies is_written(
            txs.drop_last()[i],
            txs.drop_last()[i + 1],
            (#[trigger] first[i]).0,
            first[i].1,
            true,
        ) by {
            assert(first[i] == messages[i]);
        }
        messages_are_put_in_turn(txs.drop_last(), first);
        assert(is_written(txs[k], txs[k + 1], messages[k].0, messages[k].1, true));
        assert(ring::bytes_put(txs[0]) + frames(first) + frame(messages[k].0, messages[k].1)
            =~= ring::bytes_put(txs[0]) + frames(messages));
    }
}

/// What is written into an empty ring is read back: messages that were all put in,
/// and nothing else, are read by as many calls, in their order. The ring is then
/// empty, and one more call finds nothing and takes nothing. Each call finds all
/// that was put in when it looks, as it does where the writer is done.
#[verifier::spinoff_prover]
#[verifier::rlimit(40)]
pub proof fn written_messages_are_read(
    txs: Seq<rtrb::Producer<u8>>,
    rxs: Seq<rtrb::Consumer<u8>>,
    messages: Seq<(u32, Seq<u8>)>,
    results: Seq<Option<(u32, Seq<u8>)>>,
)
    requires
        sized(messages),
        txs.len() == messages.len() + 1,
        forall|i: int|
            0 <= i < messages.len() ==> is_written(
                txs[i],
                txs[i + 1],
                (#[trigger] messages[i]).0,
                messages[i].1,
                true,
            ),
        ring::bytes_put(txs[0]) == ring::bytes_taken(rxs[0]),
        ring::bytes_ever_put(txs[0]) == ring::bytes_coming(rxs[0]),
        ring::bytes_put(txs.last()) == ring::bytes_ever_put(txs.last()),
        results.len() == messages.len() + 1,
        rxs.len() == results.len() + 1,
        forall|i: int|
            0 <= i < results.len() ==> is_read(rxs[i], rxs[i + 1], #[trigger] results[i])
                && found_all(rxs[i + 1]),
    ensures
        forall|i: int|
            0 <= i < messages.len() ==> #[trigger] results[i] == Some(messages[i]),
        results[messages.len() as int] is None,
        ring::bytes_taken(rxs[messages.len() as int]) == ring::bytes_put(txs.last()),
        ring::bytes_taken(rxs.last()) == ring::bytes_put(txs.last()),
{
    messages_are_put_in_turn(txs, messages);
    messages_are_read_in_turn(rxs, results, messages);
}

/// A URI is numbered by its place, counted from one, and one that is not there has none.
pub proof fn number_is_place(uris: Seq<Seq<char>>, i: int)
    requires
        uris.no_duplicates(),
        uris.len() <= u32::MAX,
        0 <= i < uris.len(),
    ensures
        urid_of(uris, uris[i]) == Some((i + 1) as LV2Urid),
        urid_or_zero(uris, uris[i]) == i + 1,
        forall|u: Seq<char>| !uris.contains(u) ==> #[trigger] urid_of(uris, u) is None
            && urid_or_zero(uris, u) == 0,
{
    assert(uris.contains(uris[i]));
}

/// A new URI is numbered behind all others, and the numbers of the others stay.
pub proof fn new_uri_comes_last(uris: Seq<Seq<char>>, uri: Seq<char>)
    requires
        uris.len() < u32::MAX,
        !uris.contains(uri),
    ensures
        mapped(uris, uri).len() == uris.len() + 1,
        mapped(uris, uri).drop_last() == uris,
        mapped(uris, uri).last() == uri,
{
    assert(mapped(uris, uri).drop_last() =~= uris);
}

/// The level of a line is told by the number of its type: that of an error, a warning or a
/// note; every other type is a trace.
pub proof fn level_by_type(uris: Seq<Seq<char>>, e: int, w: int, n: int, type_: u32)
    requires
        uris.no_duplicates(),
        uris.len() <= u32::MAX,
        0 <= e < uris.len(),
        0 <= w < uris.len(),
        0 <= n < uris.len(),
        uris[e] == "http://lv2plug.in/ns/ext/log#Error"@,
        uris[w] == "http://lv2plug.in/ns/ext/log#Warning"@,
        uris[n] == "http://lv2plug.in/ns/ext/log#Note"@,
    ensures
        level_of(uris, type_) == LogLevel::Error <==> type_ == e + 1,
        level_of(uris, type_) == LogLevel::Warn <==> type_ == w + 1,
        level_of(uris, type_) == LogLevel::Debug <==> type_ == n + 1,
        level_of(uris, type_) == LogLevel::Trace <==> type_ != e + 1 && type_ != w + 1 && type_
            != n + 1,
{
    number_is_place(uris, e);
    number_is_place(uris, w);
    number_is_place(uris, n);
    reveal_strlit("http://lv2plug.in/ns/ext/log#Error");
    reveal_strlit("http://lv2plug.in/ns/ext/log#Warning");
    reveal_strlit("http://lv2plug.in/ns/ext/log#Note");
    assert("http://lv2plug.in/ns/ext/log#Error"@.len() == 34);
    assert("http://lv2plug.in/ns/ext/log#Warning"@.len() == 36);
    assert("http://lv2plug.in/ns/ext/log#Note"@.len() == 33);
}

/// A number of 32 bits keeps its bits when it is read as a signed one.
pub proof fn signed_keeps_bits(x: u32)
    ensures
        x <= i32::MAX ==> signed32(x) == x,
        x > i32::MAX ==> signed32(x) == x - 0x1_0000_0000,
{
}

/// A plugin is told the size of a block as the least, the greatest and the usual one, and
/// 4096 as that of a sequence, each as a number of four bytes; then the list ends.
pub proof fn options_tell_block_size(buffer_size: u32)
    requires
        buffer_size <= i32::MAX,
    ensures
        options_for(buffer_size).len() == 5,
        options_for(buffer_size)[0].value == Some(buffer_size as i32),
        options_for(buffer_size)[1].value == Some(buffer_size as i32),
        options_for(buffer_size)[2].value == Some(buffer_size as i32),
        options_for(buffer_size)[3].value == Some(4096i32),
        options_for(buffer_size)[4].value is None,
        options_for(buffer_size)[4].size == 0,
        options_for(buffer_size)[4].type_ == 0,
        forall|i: int|
            0 <= i < 4 ==> (#[trigger] options_for(buffer_size)[i]).size == 4 && options_for(
                buffer_size,
            )[i].context == 0 && options_for(buffer_size)[i].subject == 0,
{
}

/// A plugin is offered the numbering of URIs in both directions, a log, options, and
/// blocks of a bounded and fixed length.
pub proof fn plugin_is_offered()
    ensures
        offered().len() == 6,
        offered()[0] == ("http://lv2plug.in/ns/ext/urid#map"@, FeatureData::UridMap),
        offered()[1] == ("http://lv2plug.in/ns/ext/urid#unmap"@, FeatureData::UridUnmap),
        offered()[2] == ("http://lv2plug.in/ns/ext/log#log"@, FeatureData::LogLog),
        offered()[3] == ("http://lv2plug.in/ns/ext/options#options"@, FeatureData::Options),
        offered()[4] == (
            "http://lv2plug.in/ns/ext/buf-size#boundedBlockLength"@,
            FeatureData::Nothing,
        ),
        offered()[5] == (
            "http://lv2plug.in/ns/ext/buf-size#fixedBlockLength"@,
            FeatureData::Nothing,
        ),
{
}

/// A message is framed by its size in four bytes, the least significant first; the
/// frame holds the size and the data and nothing else.
pub proof fn frame_has_size_and_data(size: u32, data: Seq<u8>)
    ensures
        frame(size, data).len() == 4 + data.len(),
        size == frame(size, data)[0] + 0x100 * frame(size, data)[1] + 0x1_0000 * frame(
            size,
            data,
        )[2] + 0x100_0000 * frame(size, data)[3],
        frame(size, data).skip(4) == data,
{
    bytes::le32_has_digits(size);
    assert(frame(size, data).skip(4) =~= data);
}

/// Frames come one behind the other, in the order of their messages.
pub proof fn frames_come_in_order(first: Seq<(u32, Seq<u8>)>, more: Seq<(u32, Seq<u8>)>)
    ensures
        frames(first + more) == frames(first) + frames(more),
        first.len() == 1 ==> frames(first) == frame(first[0].0, first[0].1),
    decreases more.len(),
{
    if more.len() == 0 {
        assert(first + more =~= first);
        assert(frames(first) + frames(more) =~= frames(first));
    } else {
        frames_come_in_order(first, more.drop_last());
        assert((first + more).drop_last() =~= first + more.drop_last());
        assert((first + more).last() == more.last());
        let last = frame(more.last().0, more.last().1);
        assert(frames(first) + frames(more.drop_last()) + last =~= frames(first) + (frames(
            more.drop_last(),
        ) + last));
    }
    if first.len() == 1 {
        reveal_with_fuel(frames, 2);
        assert(frames(first) =~= frame(first[0].0, first[0].1));
    }
}

/// The URIs that are numbered from the start: those of atoms, of MIDI, of a log and of the
/// sizes of blocks.
pub proof fn uris_known_from_the_start()
    ensures
        well_known().len() == 15,
        well_known()[0] == "http://lv2plug.in/ns/ext/atom#Sequence"@,
        well_known()[1] == "http://lv2plug.in/ns/ext/atom#Chunk"@,
        well_known()[2] == "http://lv2plug.in/ns/ext/atom#Float"@,
        well_known()[3] == "http://lv2plug.in/ns/ext/atom#Int"@,
        well_known()[4] == "http://lv2plug.in/ns/ext/atom#Long"@,
        well_known()[5] == "http://lv2plug.in/ns/ext/atom#eventTransfer"@,
        well_known()[6] == "http://lv2plug.in/ns/ext/midi#MidiEvent"@,
        well_known()[7] == "http://lv2plug.in/ns/ext/log#Trace"@,
        well_known()[8] == "http://lv2plug.in/ns/ext/log#Note"@,
        well_known()[9] == "http://lv2plug.in/ns/ext/log#Warning"@,
        well_known()[10] == "http://lv2plug.in/ns/ext/log#Error"@,
        well_known()[11] == "http://lv2plug.in/ns/ext/buf-size#minBlockLength"@,
        well_known()[12] == "http://lv2plug.in/ns/ext/buf-size#maxBlockLength"@,
        well_known()[13] == "http://lv2plug.in/ns/ext/buf-size#nominalBlockLength"@,
        well_known()[14] == "http://lv2plug.in/ns/ext/buf-size#sequenceSize"@,
{
}

/// A frame that is not complete is looked for a hundred times more before it is given up.
pub proof fn frame_is_tried_often<F: Fn(u32)>(pause: F, t: u32)
    requires
        t < 100,
    ensures
        all_tried(pause) ==> pause.ensures((t,), ()),
        can_try(pause) ==> pause.requires((t,)),
{
}

/// A message that was written stands behind all others with its size, and one that was not
/// leaves no trace.
pub proof fn message_is_written_whole(
    before: rtrb::Producer<u8>,
    after: rtrb::Producer<u8>,
    size: u32,
    data: Seq<u8>,
    done: bool,
)
    requires
        is_written(before, after, size, data, done),
    ensures
        !done ==> ring::bytes_put(after) == ring::bytes_put(before),
        done ==> {
            let n = ring::bytes_put(before).len() as int;
            let all = ring::bytes_put(after);
            &&& all.len() == n + 4 + data.len()
            &&& all.take(n) == ring::bytes_put(before)
            &&& size == all[n] + 0x100 * all[n + 1] + 0x1_0000 * all[n + 2] + 0x100_0000 * all[n
                + 3]
            &&& all.skip(n + 4) == data
        },
        ring::bytes_put(before).len() + 4 + data.len() <= ring::bytes_capacity(before) ==> done,
{
    if done {
        let put = ring::bytes_put(before);
        let n = put.len() as int;
        let all = ring::bytes_put(after);
        bytes::le32_has_digits(size);
        assert(all.take(n) =~= put);
        assert(all.skip(n + 4) =~= data);
    }
}

/// A message that was read is what comes next: its size in four bytes, and as many bytes of
/// data as that says.
pub proof fn message_is_read_whole(
    before: rtrb::Consumer<u8>,
    after: rtrb::Consumer<u8>,
    size: u32,
    data: Seq<u8>,
)
    requires
        is_read(before, after, Some((size, data))),
    ensures
        data.len() == size,
        ({
            let n = ring::bytes_taken(before).len() as int;
            let all = ring::bytes_taken(after);
            &&& all.len() == n + 4 + size
            &&& all.take(n) == ring::bytes_taken(before)
            &&& size == all[n] + 0x100 * all[n + 1] + 0x1_0000 * all[n + 2] + 0x100_0000 * all[n
                + 3]
            &&& all.skip(n + 4) == data
        }),
{
    let taken = ring::bytes_taken(before);
    let n = taken.len() as int;
    let all = ring::bytes_taken(after);
    bytes::le32_has_digits(size);
    assert(all.take(n) =~= taken);
    assert(all.skip(n + 4) =~= data);
}

/// The text of a message is the message, and one that is no text is called so.
pub proof fn message_that_is_no_text(msg: Option<&str>)
    ensures
        msg matches Some(s) ==> message_text(msg) == s@,
        msg is None ==> message_text(msg) == "<invalid utf8>"@,
{
}

/// What is seen of features and of messages is what they have.
pub proof fn features_are_seen(
    features: Seq<Feature>,
    messages: Seq<(u32, Vec<u8>)>,
    i: int,
)
    ensures
        feature_views(features).len() == features.len(),
        0 <= i < features.len() ==> feature_views(features)[i] == (
            features[i].uri@,
            features[i].data,
        ),
        message_views(messages).len() == messages.len(),
        0 <= i < messages.len() ==> message_views(messages)[i] == (messages[i].0, messages[i].1@),
{
}

/// A number that [`UridMapper::map`] gives is not zero, is given again for the same URI, and
/// [`UridMapper::unmap`] gives the URI back for it; all other numbers keep their URIs.
pub proof fn mapped_uri_is_given_back(
    mapper: &mut UridMapper,
    uri: &str,
    id: LV2Urid,
    back: Option<&String>,
    again: Option<LV2Urid>,
)
    requires
        old(mapper).wf(),
        old(mapper)@.len() < u32::MAX,
        call_ensures(UridMapper::map, (mapper, uri), id),
        call_ensures(UridMapper::unmap, (&*final(mapper), id), back),
        call_ensures(UridMapper::lookup, (&*final(mapper), uri), again),
    ensures
        id > 0,
        back is Some,
        (back->0)@ == uri@,
        again == Some(id),
        forall|i: int|
            0 <= i < old(mapper)@.len() ==> #[trigger] final(mapper)@[i] == old(mapper)@[i],
        old(mapper)@.len() <= final(mapper)@.len() <= old(mapper)@.len() + 1,
{
    unmap_inverts_map(old(mapper)@, uri@);
}

/// [`UridMapper::unmap`] knows no number that was not given: not zero, and none above the
/// number of URIs.
pub proof fn unknown_number_has_no_uri(mapper: &UridMapper, urid: LV2Urid, r: Option<&String>)
    requires
        call_ensures(UridMapper::unmap, (mapper, urid), r),
    ensures
        r is None <==> urid == 0 || urid > mapper@.len(),
{
}

/// [`UridMapper::lookup`] gives two URIs the same number only where they are the same.
pub proof fn looked_up_numbers_are_distinct(
    mapper: &UridMapper,
    a: &str,
    b: &str,
    ra: Option<LV2Urid>,
    rb: Option<LV2Urid>,
)
    requires
        mapper.wf(),
        call_ensures(UridMapper::lookup, (mapper, a), ra),
        call_ensures(UridMapper::lookup, (mapper, b), rb),
        ra is Some,
        ra == rb,
    ensures
        a@ == b@,
{
    if a@ != b@ {
        urids_are_distinct(mapper@, a@, b@);
    }
}

/// [`plugin_log_line`] writes no line of white space, and puts `[lv2] ` before any other,
/// which it strips of white space on either side.
pub proof fn log_line_is_trimmed(
    mapper: &UridMapper,
    type_: u32,
    msg: &str,
    r: Option<(LogLevel, String)>,
)
    requires
        call_ensures(plugin_log_line, (mapper, type_, Some(msg)), r),
    ensures
        (forall|i: int| 0 <= i < msg@.len() ==> text::is_white(#[trigger] msg@[i])) <==> r is None,
        r matches Some((level, line)) ==> {
            &&& line@.len() > 6
            &&& line@.take(6) == "[lv2] "@
            &&& !text::is_white(line@[6])
            &&& !text::is_white(line@.last())
            &&& exists|at: int|
                0 <= at && at + line@.len() - 6 <= msg@.len() && #[trigger] msg@.subrange(
                    at,
                    at + line@.len() - 6,
                ) == line@.skip(6)
        },
{
    reveal_strlit("[lv2] ");
    let t = text::trimmed(msg@);
    let at = text::trimmed_is_inner_part(msg@);
    if t.len() > 0 {
        assert(t[0] == msg@[at]);
    }
    if let Some((level, line)) = r {
        assert(line@.take(6) =~= "[lv2] "@);
        assert(line@.skip(6) =~= t);
        assert(msg@.subrange(at, at + line@.len() - 6) == line@.skip(6));
    }
}

/// [`FeatureSet::new`] tells every plugin the size of a block, and offers it the features that
/// this host has.
pub proof fn new_features_tell_block_size(sample_rate: u32, buffer_size: u32, r: FeatureSet)
    requires
        call_ensures(FeatureSet::new, (sample_rate, buffer_size), r),
        buffer_size <= i32::MAX,
    ensures
        r.options@.len() == 5,
        r.options@[0].key == 12 && r.options@[0].value == Some(buffer_size as i32),
        r.options@[1].key == 13 && r.options@[1].value == Some(buffer_size as i32),
        r.options@[2].key == 14 && r.options@[2].value == Some(buffer_size as i32),
        r.options@[3].key == 15 && r.options@[3].value == Some(4096i32),
        r.options@[4].key == 0 && r.options@[4].value is None,
        r.features@.len() == 6,
        r.features@[0].uri@ == "http://lv2plug.in/ns/ext/urid#map"@ && r.features@[0].data
            is UridMap,
        r.features@[1].uri@ == "http://lv2plug.in/ns/ext/urid#unmap"@ && r.features@[1].data
            is UridUnmap,
        r.features@[2].uri@ == "http://lv2plug.in/ns/ext/log#log"@ && r.features@[2].data
            is LogLog,
        r.features@[3].uri@ == "http://lv2plug.in/ns/ext/options#options"@ && r.features@[3].data
            is Options,
        r.features@[4].uri@ == "http://lv2plug.in/ns/ext/buf-size#boundedBlockLength"@,
        r.features@[5].uri@ == "http://lv2plug.in/ns/ext/buf-size#fixedBlockLength"@,
{
    options_have_keys(buffer_size);
    options_tell_block_size(buffer_size);
    plugin_is_offered();
    let views = feature_views(r.features@);
    assert(views.len() == r.features@.len());
    assert(forall|i: int|
        0 <= i < views.len() ==> #[trigger] views[i] == (r.features@[i].uri@, r.features@[i].data));
    assert(views[0] == offered()[0] && views[1] == offered()[1] && views[2] == offered()[2]);
    assert(views[3] == offered()[3] && views[4] == offered()[4] && views[5] == offered()[5]);
}

/// [`frame_read`] takes a message that is all there, looks again for one that is not a hundred
/// times, and then gives it up.
pub proof fn incomplete_frame_is_given_up(size: u32, waiting: usize, tries: u32, r: FrameRead)
    requires
        call_ensures(frame_read, (size, waiting, tries), r),
    ensures
        size == 0 ==> r is Empty,
        size > 0 && waiting >= size ==> r is Take,
        waiting < size && tries < 100 ==> r is Pause,
        waiting < size && tries >= 100 ==> r is Stop,
{
}

/// [`worker_status`] says success where a request was taken, and an unknown error where not.
pub proof fn status_says_whether_done(done: bool, r: u32)
    requires
        call_ensures(worker_status, (done,), r),
    ensures
        done ==> r == 0,
        !done ==> r == 1,
{
}

/// What [`write_framed_message`] says it wrote stands whole behind all that was written, and
/// it writes where there is room.
pub proof fn written_message_stands_whole(
    tx: &mut rtrb::Producer<u8>,
    size: u32,
    data: &[u8],
    done: bool,
)
    requires
        call_ensures(write_framed_message, (tx, size, data), done),
    ensures
        !done ==> ring::bytes_put(*final(tx)) == ring::bytes_put(*old(tx)),
        done ==> {
            let n = ring::bytes_put(*old(tx)).len() as int;
            let all = ring::bytes_put(*final(tx));
            &&& all.len() == n + 4 + data@.len()
            &&& all.take(n) == ring::bytes_put(*old(tx))
            &&& size == all[n] + 0x100 * all[n + 1] + 0x1_0000 * all[n + 2] + 0x100_0000 * all[n
                + 3]
            &&& all.skip(n + 4) == data@
        },
        ring::bytes_put(*old(tx)).len() + 4 + data@.len() <= ring::bytes_capacity(*old(tx))
            ==> done,
{
    message_is_written_whole(*old(tx), *final(tx), size, data@, done);
}

/// What [`read_framed_message`] reads is what comes next, whole.
pub proof fn read_message_stands_whole<F: Fn(u32)>(
    rx: &mut rtrb::Consumer<u8>,
    pause: F,
    size: u32,
    data: Vec<u8>,
)
    requires
        call_ensures(read_framed_message::<F>, (rx, pause), Some((size, data))),
    ensures
        data@.len() == size,
        ({
            let n = ring::bytes_taken(*old(rx)).len() as int;
            let all = ring::bytes_taken(*final(rx));
            &&& all.len() == n + 4 + size
            &&& all.take(n) == ring::bytes_taken(*old(rx))
            &&& size == all[n] + 0x100 * all[n + 1] + 0x1_0000 * all[n + 2] + 0x100_0000 * all[n
                + 3]
            &&& all.skip(n + 4) == data@
        }),
{
    message_is_read_whole(*old(rx), *final(rx), size, data@);
}

/// [`WorkerHost::schedule`] hands a request to the worker as [`write_framed_message`] writes
/// it, and touches no answer.
pub proof fn scheduled_request_stands_whole(
    host: &mut WorkerHost,
    size: u32,
    data: &[u8],
    done: bool,
)
    requires
        call_ensures(WorkerHost::schedule, (host, size, data), done),
    ensures
        done ==> ring::bytes_put(final(host).rt_to_worker_tx).len() == ring::bytes_put(
            old(host).rt_to_worker_tx,
        ).len() + 4 + data@.len(),
        done ==> ring::bytes_put(final(host).rt_to_worker_tx).skip(
            ring::bytes_put(old(host).rt_to_worker_tx).len() as int + 4,
        ) == data@,
        !done ==> ring::bytes_put(final(host).rt_to_worker_tx) == ring::bytes_put(
            old(host).rt_to_worker_tx,
        ),
        final(host).worker_to_rt_rx == old(host).worker_to_rt_rx,
{
    message_is_written_whole(
        old(host).rt_to_worker_tx,
        final(host).rt_to_worker_tx,
        size,
        data@,
        done,
    );
}

/// [`WorkerHost::new`] makes two empty ways of 65536 bytes, one in each direction.
pub proof fn new_worker_has_two_ways(r: (WorkerHost, WorkerEnd))
    requires
        call_ensures(WorkerHost::new, (), r),
    ensures
        ring::bytes_capacity(r.0.rt_to_worker_tx) == 65536,
        ring::bytes_capacity(r.1.worker_to_rt_tx) == 65536,
        ring::bytes_put(r.0.rt_to_worker_tx).len() == 0,
        ring::bytes_put(r.1.worker_to_rt_tx).len() == 0,
        ring::bytes_ever_put(r.0.rt_to_worker_tx) == ring::bytes_coming(r.1.rt_to_worker_rx),
        ring::bytes_ever_put(r.1.worker_to_rt_tx) == ring::bytes_coming(r.0.worker_to_rt_rx),
{
}

/// [`FeatureSet::as_features`] has all features of the set, in their order.
pub proof fn all_features_are_had(set: &FeatureSet, r: Vec<&Feature>, i: int)
    requires
        call_ensures(FeatureSet::as_features, (set,), r),
        0 <= i < set.features@.len(),
    ensures
        r@.len() == set.features@.len(),
        *r@[i] == set.features@[i],
{
}

/// [`WorkerHost::drain_responses`] reads answers one behind the other, each as long as its size
/// says, and touches no request.
pub proof fn drained_answers_come_next<F: Fn(u32)>(
    host: &mut WorkerHost,
    pause: F,
    r: Vec<(u32, Vec<u8>)>,
    i: int,
)
    requires
        call_ensures(WorkerHost::drain_responses::<F>, (host, pause), r),
        0 <= i < r@.len(),
    ensures
        r@[i].1@.len() == r@[i].0,
        (ring::bytes_taken(old(host).worker_to_rt_rx) + frames(message_views(r@))).is_prefix_of(
            ring::bytes_coming(old(host).worker_to_rt_rx),
        ),
        final(host).rt_to_worker_tx == old(host).rt_to_worker_tx,
{
    let all = message_views(r@);
    assert(all[i] == (r@[i].0, r@[i].1@));
    assert(all[i].0 == all[i].1.len());
}

/// A new [`UridMapper`], and that of [`FeatureSet::new`], number the URIs that are known from
/// the start, and no others.
pub proof fn new_mapper_knows_uris(
    mapper: UridMapper,
    sample_rate: u32,
    buffer_size: u32,
    set: FeatureSet,
    i: int,
)
    requires
        call_ensures(UridMapper::new, (), mapper),
        call_ensures(FeatureSet::new, (sample_rate, buffer_size), set),
        0 <= i < 15,
    ensures
        mapper.uris@.len() == 15,
        set.mapper.uris@.len() == 15,
        mapper.uris@[i]@ == well_known()[i],
        set.mapper.uris@[i]@ == well_known()[i],
        mapper.uris@[6]@ == "http://lv2plug.in/ns/ext/midi#MidiEvent"@,
{
    well_known_are_distinct();
    uris_known_from_the_start();
    assert(mapper@.len() == mapper.uris@.len() && set.mapper@.len() == set.mapper.uris@.len());
    assert(mapper@[i] == mapper.uris@[i]@ && set.mapper@[i] == set.mapper.uris@[i]@);
    assert(mapper@[6] == mapper.uris@[6]@);
}

} // verus!
