//! Parameters of one visual layer.

use vstd::prelude::*;

verus! {

/// Bit pattern of the IEEE-754 single-precision value one: full opacity.
pub const DEFAULT_OPACITY_BITS: u32 = 0x3F80_0000;

/// Fade time of a layer that was never given one, in milliseconds.
pub const DEFAULT_FADE_MS: u64 = 200;

/// Parameters of one visual layer.
///
/// The opacity is kept as the bit pattern of a single-precision number, so
/// that the store hands back exactly what it was given and never computes
/// with it.
#[derive(Debug)]
pub struct LayerConfig {
    pub opacity_bits: u32,
    pub fade_ms: u64,
    pub thumbnail: String,
    pub midi_channel: u8,
}

/// What a `LayerConfig` holds, as plain values.
pub struct LayerView {
    pub opacity_bits: u32,
    pub fade_ms: u64,
    pub thumbnail: Seq<char>,
    pub midi_channel: u8,
}

impl View for LayerConfig {
    type V = LayerView;

    open spec fn view(&self) -> LayerView {
        LayerView {
            opacity_bits: self.opacity_bits,
            fade_ms: self.fade_ms,
            thumbnail: self.thumbnail@,
            midi_channel: self.midi_channel,
        }
    }
}

/// The layer that stands in wherever none was configured: full opacity,
/// the default fade, no thumbnail, MIDI channel zero.
pub open spec fn default_layer() -> LayerView {
    LayerView {
        opacity_bits: DEFAULT_OPACITY_BITS,
        fade_ms: DEFAULT_FADE_MS,
        thumbnail: Seq::empty(),
        midi_channel: 0,
    }
}

/// A default layer bound to the given MIDI channel.
pub open spec fn layer_on_channel(channel: u8) -> LayerView {
    LayerView { midi_channel: channel, ..default_layer() }
}

/// A default layer with the given opacity.
pub open spec fn layer_with_opacity(opacity_bits: u32) -> LayerView {
    LayerView { opacity_bits, ..default_layer() }
}

impl Default for LayerConfig {
    fn default() -> (layer: Self)
        ensures
            layer@ == default_layer(),
    {
        LayerConfig {
            opacity_bits: DEFAULT_OPACITY_BITS,
            fade_ms: DEFAULT_FADE_MS,
            thumbnail: String::new(),
            midi_channel: 0,
        }
    }
}

impl Clone for LayerConfig {
    fn clone(&self) -> (copy: Self)
        ensures
            copy == *self,
    {
        LayerConfig {
            opacity_bits: self.opacity_bits,
            fade_ms: self.fade_ms,
            thumbnail: self.thumbnail.clone(),
            midi_channel: self.midi_channel,
        }
    }
}

impl LayerConfig {
    /// A default layer bound to the given MIDI channel.
    pub fn on_channel(channel: u8) -> (layer: Self)
        ensures
            layer@ == layer_on_channel(channel),
    {
        LayerConfig {
            opacity_bits: DEFAULT_OPACITY_BITS,
            fade_ms: DEFAULT_FADE_MS,
            thumbnail: String::new(),
            midi_channel: channel,
        }
    }

    /// A default layer with the given opacity.
    pub fn with_opacity(opacity_bits: u32) -> (layer: Self)
        ensures
            layer@ == layer_with_opacity(opacity_bits),
    {
        LayerConfig {
            opacity_bits,
            fade_ms: DEFAULT_FADE_MS,
            thumbnail: String::new(),
            midi_channel: 0,
        }
    }
}

} // verus!
