//! **broken_nest**: stateless LV2 plugin chain host.
//!
//! A [`Chain`] is made of the plugins of a [`ChainConfig`], wired in series
//! within one JACK client: [`chain::Chain::start_with_world`] makes it, with the
//! [`process::ChainProcessHandler`] that takes audio, control values and events
//! through the plugins. Plugins that take MIDI get it by a [`MidiSender`].
//!
//! The library decides and computes; it makes no call to JACK, to the plugins'
//! own code or to a windowing system. Control values and gains are the bits of
//! IEEE singles, and audio samples are of any type that can be copied.
use vstd::prelude::*;

pub mod atom;
pub mod bridge;
pub mod bytes;
pub mod chain;
pub mod config;
pub mod error;
pub mod features;
pub mod jalv;
pub mod midi;
pub mod names;
pub mod plugin;
pub mod process;
pub mod ring;
pub mod slot;
pub mod state;
pub mod text;
pub mod ui;
pub mod wiring;
pub mod world;

pub use chain::Chain;
pub use config::{ChainConfig, PluginConfig};
pub use error::Error;
pub use midi::{MidiEvent, MidiSender};

verus! {

} // verus!
