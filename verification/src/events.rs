//! What the pipelines hand to their subscribers: the named event channels,
//! and what is said, and to whom, when a pipeline fails.

use vstd::prelude::*;
use vstd::string::StringExecFns;

verus! {

/// One of the two long-running producers.
#[derive(Clone, Copy, Debug, PartialEq, Eq, Structural)]
pub enum Pipeline {
    Audio,
    Midi,
}

/// A named channel that subscribers listen on.
#[derive(Clone, Copy, Debug, PartialEq, Eq, Structural)]
pub enum Channel {
    /// Spectrum frames, one per audio block.
    Fft,
    /// Note events that passed the channel filter.
    Midi,
    /// Fatal failures of a pipeline's startup.
    Error,
}

/// The name under which a channel is published.
pub open spec fn channel_name(channel: Channel) -> Seq<char> {
    match channel {
        Channel::Fft => "fft"@,
        Channel::Midi => "midi"@,
        Channel::Error => "error"@,
    }
}

/// The words that open the report of a pipeline's failure.
pub open spec fn report_prefix(pipeline: Pipeline) -> Seq<char> {
    match pipeline {
        Pipeline::Audio => "audio error: "@,
        Pipeline::Midi => "midi error: "@,
    }
}

/// What happens when a pipeline fails.
#[derive(Clone, Copy, Debug, PartialEq, Eq, Structural)]
pub struct Reaction {
    /// The failure is written to the log.
    pub log: bool,
    /// The failure is published on the error channel.
    pub publish: bool,
    /// The pipeline's task ends.
    pub stop: bool,
}

/// The reaction to a failure at startup: always logged and always the end
/// of the task, but published only for the MIDI pipeline.
pub open spec fn startup_reaction(pipeline: Pipeline) -> Reaction {
    Reaction { log: true, publish: pipeline == Pipeline::Midi, stop: true }
}

/// The reaction to a failure that the driver reports once a stream runs:
/// logged, and nothing else.
pub open spec fn stream_reaction() -> Reaction {
    Reaction { log: true, publish: false, stop: false }
}

impl Channel {
    /// The name under which the channel is published.
    pub fn name(&self) -> (name: &'static str)
        ensures
            name@ == channel_name(*self),
    {
        match self {
            Channel::Fft => "fft",
            Channel::Midi => "midi",
            Channel::Error => "error",
        }
    }
}

impl Pipeline {
    /// The report of a failure of this pipeline: the pipeline's prefix, then
    /// the reason as given.
    pub fn failure_report(&self, reason: &str) -> (report: String)
        ensures
            report@ == report_prefix(*self) + reason@,
    {
        let prefix = match self {
            Pipeline::Audio => String::from_str("audio error: "),
            Pipeline::Midi => String::from_str("midi error: "),
        };
        prefix.concat(reason)
    }

    /// How a failure at startup is handled.
    pub fn on_startup_failure(&self) -> (reaction: Reaction)
        ensures
            reaction == startup_reaction(*self),
    {
        match self {
            Pipeline::Audio => Reaction { log: true, publish: false, stop: true },
            Pipeline::Midi => Reaction { log: true, publish: true, stop: true },
        }
    }

    /// How a failure of a running stream is handled.
    pub fn on_stream_failure(&self) -> (reaction: Reaction)
        ensures
            reaction == stream_reaction(),
    {
        Reaction { log: true, publish: false, stop: false }
    }
}

} // verus!
