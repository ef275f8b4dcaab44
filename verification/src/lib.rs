//! Verified core of a live visual-performance input pipeline: the MIDI
//! channel filter, the audio block buffer and the layer configuration store.

pub mod audio;
pub mod config;
pub mod events;
pub mod layer;
pub mod midi;
pub mod snapshot;
pub mod store;
