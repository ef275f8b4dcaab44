//! Filtering of raw MIDI messages down to channel-scoped note events.

use vstd::prelude::*;

verus! {

/// Lowest zero-indexed channel that the filter lets through.
pub const FIRST_CHANNEL: u8 = 13;

/// Highest zero-indexed channel that the filter lets through.
pub const LAST_CHANNEL: u8 = 15;

/// A note event as handed to subscribers: the channel is one-indexed.
#[derive(Clone, Copy, Debug, PartialEq, Eq, Structural)]
pub struct MidiEvent {
    pub channel: u8,
    pub note: u8,
    pub velocity: u8,
}

/// The zero-indexed channel of a status byte: its low four bits.
pub open spec fn channel_of(status: u8) -> u8 {
    status & 0x0F
}

/// Whether a raw message passes the filter: at least three bytes, and a
/// zero-indexed channel between `FIRST_CHANNEL` and `LAST_CHANNEL`.
pub open spec fn accepted(message: Seq<u8>) -> bool {
    message.len() >= 3 && FIRST_CHANNEL <= channel_of(message[0]) <= LAST_CHANNEL
}

/// The event that a raw message stands for, if it passes the filter.
pub open spec fn event_of(message: Seq<u8>) -> Option<MidiEvent> {
    if accepted(message) {
        Some(
            MidiEvent {
                channel: (channel_of(message[0]) + 1) as u8,
                note: message[1],
                velocity: message[2],
            },
        )
    } else {
        None
    }
}

/// The low four bits of a status byte are its remainder on division by 16.
pub proof fn lemma_channel_is_remainder(status: u8)
    ensures
        channel_of(status) == status % 16,
        channel_of(status) < 16,
{
    assert(status & 0x0F == status % 16) by (bit_vector);
}

/// A message of fewer than three bytes stands for no event.
pub proof fn lemma_short_message_ignored(message: Seq<u8>)
    requires
        message.len() < 3,
    ensures
        event_of(message) is None,
{
}

/// A message of three bytes or more stands for an event exactly if its
/// zero-indexed channel is 13, 14 or 15; the event then carries that channel
/// plus one, and the second and third byte as note and velocity.
pub proof fn lemma_channel_filter(message: Seq<u8>)
    requires
        message.len() >= 3,
    ensures
        event_of(message) is Some <==> 13 <= message[0] % 16 <= 15,
        event_of(message) matches Some(event) ==> {
            &&& event.channel == message[0] % 16 + 1
            &&& event.note == message[1]
            &&& event.velocity == message[2]
        },
{
    lemma_channel_is_remainder(message[0]);
}

/// Every event that the filter lets out is on channel 14, 15 or 16.
pub proof fn lemma_event_channel_range(message: Seq<u8>)
    ensures
        event_of(message) matches Some(event) ==> 14 <= event.channel <= 16,
{
}

/// Interprets one raw MIDI message.
pub fn interpret(message: &[u8]) -> (event: Option<MidiEvent>)
    ensures
        event == event_of(message@),
{
    if message.len() >= 3 {
        let channel: u8 = message[0] & 0x0F;
        if FIRST_CHANNEL <= channel && channel <= LAST_CHANNEL {
            return Some(MidiEvent { channel: channel + 1, note: message[1], velocity: message[2] });
        }
    }
    None
}

/// Why the pipeline gives up where no input port exists.
pub const NO_INPUT: &'static str = "no midi input";

/// The port that the pipeline opens, of `available` input ports: the first
/// one, or none where there is none.
pub fn first_port(available: usize) -> (port: Option<usize>)
    ensures
        port == if available == 0 {
            None
        } else {
            Some(0usize)
        },
{
    if available == 0 {
        None
    } else {
        Some(0)
    }
}

impl MidiEvent {
    /// The event as subscribers receive it: channel, note, velocity.
    pub fn payload(&self) -> (triple: (u8, u8, u8))
        ensures
            triple == (self.channel, self.note, self.velocity),
    {
        (self.channel, self.note, self.velocity)
    }
}

} // verus!
