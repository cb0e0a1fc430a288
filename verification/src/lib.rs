//! Verified core of a small PulseAudio virtual-device manager.
//!
//! The library holds the logic of the tool: parsing the tab-separated
//! listings that the audio server's command-line client prints, building
//! the argument lists of the module-load commands, selecting the modules
//! that a cleanup pass unloads, and the fail-fast schedule that creates
//! the four fixed link outputs.  The surrounding process handling (spawning
//! the client, reading its output) lives outside the library and hands it
//! plain strings and booleans.

pub mod beacn_audio;
pub mod cleanup;
pub mod link_outputs;
pub mod text;

pub use beacn_audio::AudioDevice;
pub use beacn_audio::BeacnLink;
