//! What can go wrong.
use vstd::prelude::*;

use crate::text;

verus! {

/// Errors that can occur while building or running a plugin chain.
#[derive(Debug)]
pub enum Error {
    PluginNotFound { name: String },
    Wiring(String),
    Config(String),
    AmbiguousMidi { count: usize },
    StateIo { name: String, source: String },
    Lv2PluginNotFound { uri: String },
    Lv2Instantiation { name: String, uri: String, reason: String },
    Jack(String),
    ControlPortNotFound { name: String, port: String },
}

/// An error with its texts as sequences.
pub ghost enum ErrorView {
    PluginNotFound { name: Seq<char> },
    Wiring(Seq<char>),
    Config(Seq<char>),
    AmbiguousMidi { count: nat },
    StateIo { name: Seq<char>, source: Seq<char> },
    Lv2PluginNotFound { uri: Seq<char> },
    Lv2Instantiation { name: Seq<char>, uri: Seq<char>, reason: Seq<char> },
    Jack(Seq<char>),
    ControlPortNotFound { name: Seq<char>, port: Seq<char> },
}

impl View for Error {
    type V = ErrorView;

    open spec fn view(&self) -> ErrorView {
        match *self {
            Error::PluginNotFound { name } => ErrorView::PluginNotFound { name: name@ },
            Error::Wiring(what) => ErrorView::Wiring(what@),
            Error::Config(what) => ErrorView::Config(what@),
            Error::AmbiguousMidi { count } => ErrorView::AmbiguousMidi { count: count as nat },
            Error::StateIo { name, source } => ErrorView::StateIo { name: name@, source: source@ },
            Error::Lv2PluginNotFound { uri } => ErrorView::Lv2PluginNotFound { uri: uri@ },
            Error::Lv2Instantiation { name, uri, reason } => ErrorView::Lv2Instantiation {
                name: name@,
                uri: uri@,
                reason: reason@,
            },
            Error::Jack(what) => ErrorView::Jack(what@),
            Error::ControlPortNotFound { name, port } => ErrorView::ControlPortNotFound {
                name: name@,
                port: port@,
            },
        }
    }
}

impl ErrorView {
    /// The sentence for a user.
    pub open spec fn message(self) -> Seq<char> {
        match self {
            ErrorView::PluginNotFound { name } => "plugin '"@ + name + "' not found in chain"@,
            ErrorView::Wiring(what) => "port wiring failed: "@ + what,
            ErrorView::Config(what) => "config error: "@ + what,
            ErrorView::AmbiguousMidi { count } => "expected exactly one MIDI plugin, found "@
                + text::decimal_of(count),
            ErrorView::StateIo { name, source } => "state I/O error for plugin '"@ + name + "': "@
                + source,
            ErrorView::Lv2PluginNotFound { uri } => "LV2 plugin not found: "@ + uri,
            ErrorView::Lv2Instantiation { name, uri, reason } => "failed to instantiate LV2 plugin '"@
                + name + "' ("@ + uri + "): "@ + reason,
            ErrorView::Jack(what) => "JACK error: "@ + what,
            ErrorView::ControlPortNotFound { name, port } => "control port '"@ + port
                + "' not found on plugin '"@ + name + "'"@,
        }
    }
}

impl Error {
    /// The sentence for a user.
    pub fn message(&self) -> (r: String)
        ensures
            r@ == self@.message(),
    {
        match self {
            Error::PluginNotFound { name } => {
                let mut r = text::join("plugin '", name.as_str());
                r.append("' not found in chain");
                r
            },
            Error::Wiring(what) => text::join("port wiring failed: ", what.as_str()),
            Error::Config(what) => text::join("config error: ", what.as_str()),
            Error::AmbiguousMidi { count } => {
                let n = text::decimal(*count as u64);
                text::join("expected exactly one MIDI plugin, found ", n.as_str())
            },
            Error::StateIo { name, source } => {
                let mut r = text::join("state I/O error for plugin '", name.as_str());
                r.append("': ");
                r.append(source.as_str());
                r
            },
            Error::Lv2PluginNotFound { uri } => text::join("LV2 plugin not found: ", uri.as_str()),
            Error::Lv2Instantiation { name, uri, reason } => {
                let mut r = text::join("failed to instantiate LV2 plugin '", name.as_str());
                r.append("' (");
                r.append(uri.as_str());
                r.append("): ");
                r.append(reason.as_str());
                r
            },
            Error::Jack(what) => text::join("JACK error: ", what.as_str()),
            Error::ControlPortNotFound { name, port } => {
                let mut r = text::join("control port '", port.as_str());
                r.append("' not found on plugin '");
                r.append(name.as_str());
                r.append("'");
                r
            },
        }
    }
}

/// What an error says: which kind it is, and all that it holds, in this order.
pub proof fn message_says_what_happened(e: ErrorView)
    ensures
        e matches ErrorView::PluginNotFound { name } ==> e.message() == "plugin '"@ + name
            + "' not found in chain"@,
        e matches ErrorView::Wiring(what) ==> e.message() == "port wiring failed: "@ + what,
        e matches ErrorView::Config(what) ==> e.message() == "config error: "@ + what,
        e matches ErrorView::AmbiguousMidi { count } ==> e.message()
            == "expected exactly one MIDI plugin, found "@ + text::decimal_of(count),
        e matches ErrorView::StateIo { name, source } ==> e.message()
            == "state I/O error for plugin '"@ + name + "': "@ + source,
        e matches ErrorView::Lv2PluginNotFound { uri } ==> e.message()
            == "LV2 plugin not found: "@ + uri,
        e matches ErrorView::Lv2Instantiation { name, uri, reason } ==> e.message()
            == "failed to instantiate LV2 plugin '"@ + name + "' ("@ + uri + "): "@ + reason,
        e matches ErrorView::Jack(what) ==> e.message() == "JACK error: "@ + what,
        e matches ErrorView::ControlPortNotFound { name, port } ==> e.message()
            == "control port '"@ + port + "' not found on plugin '"@ + name + "'"@,
{
}

/// The error that is seen is the error that is there, with the same texts and numbers.
pub proof fn view_has_all_of_error(e: Error)
    ensures
        e matches Error::PluginNotFound { name } ==> e@ == (ErrorView::PluginNotFound {
            name: name@,
        }),
        e matches Error::Wiring(what) ==> e@ == ErrorView::Wiring(what@),
        e matches Error::Config(what) ==> e@ == ErrorView::Config(what@),
        e matches Error::AmbiguousMidi { count } ==> e@ == (ErrorView::AmbiguousMidi {
            count: count as nat,
        }),
        e matches Error::StateIo { name, source } ==> e@ == (ErrorView::StateIo {
            name: name@,
            source: source@,
        }),
        e matches Error::Lv2PluginNotFound { uri } ==> e@ == (ErrorView::Lv2PluginNotFound {
            uri: uri@,
        }),
        e matches Error::Lv2Instantiation { name, uri, reason } ==> e@ == (
        ErrorView::Lv2Instantiation { name: name@, uri: uri@, reason: reason@ }),
        e matches Error::Jack(what) ==> e@ == ErrorView::Jack(what@),
        e matches Error::ControlPortNotFound { name, port } ==> e@ == (
        ErrorView::ControlPortNotFound { name: name@, port: port@ }),
{
}

/// [`Error::message`] says what happened, with all that the error holds.
pub proof fn message_has_all_of_error(e: &Error, r: String)
    requires
        call_ensures(Error::message, (e,), r),
    ensures
        *e matches Error::PluginNotFound { name } ==> r@ == "plugin '"@ + name@
            + "' not found in chain"@,
        *e matches Error::Wiring(what) ==> r@ == "port wiring failed: "@ + what@,
        *e matches Error::Config(what) ==> r@ == "config error: "@ + what@,
        *e matches Error::AmbiguousMidi { count } ==> r@
            == "expected exactly one MIDI plugin, found "@ + text::decimal_of(count as nat),
        *e matches Error::StateIo { name, source } ==> r@ == "state I/O error for plugin '"@
            + name@ + "': "@ + source@,
        *e matches Error::Lv2PluginNotFound { uri } ==> r@ == "LV2 plugin not found: "@ + uri@,
        *e matches Error::Lv2Instantiation { name, uri, reason } ==> r@
            == "failed to instantiate LV2 plugin '"@ + name@ + "' ("@ + uri@ + "): "@ + reason@,
        *e matches Error::Jack(what) ==> r@ == "JACK error: "@ + what@,
        *e matches Error::ControlPortNotFound { name, port } ==> r@ == "control port '"@ + port@
            + "' not found on plugin '"@ + name@ + "'"@,
{
    view_has_all_of_error(*e);
    message_says_what_happened(e@);
}

} // verus!
