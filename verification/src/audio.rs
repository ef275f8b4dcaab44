//! The block buffer of the audio pipeline: how incoming samples enter the
//! transform buffer, and how a spectrum frame is read off it.
//!
//! The transform itself and the magnitude of a bin are arithmetic on
//! floating-point numbers, which callers supply; this module fixes which
//! bins are written, which are left as they were, and how long a frame is.

use vstd::prelude::*;

verus! {

/// Number of samples converted per transform, and of bins in a frame.
pub const FFT_SIZE: usize = 1024;

/// Why the pipeline gives up where no capture device exists.
pub const NO_DEVICE: &'static str = "no input device";

/// How many samples of a block of `block_len` samples enter the buffer.
pub open spec fn samples_taken(block_len: nat) -> nat {
    if block_len < FFT_SIZE {
        block_len
    } else {
        FFT_SIZE as nat
    }
}

/// A transform buffer of `FFT_SIZE` bins, each holding `fill`.
pub fn new_buffer<C: Copy>(fill: C) -> (buffer: Vec<C>)
    ensures
        buffer@ == Seq::new(FFT_SIZE as nat, |i: int| fill),
{
    let mut buffer: Vec<C> = Vec::with_capacity(FFT_SIZE);
    let mut i: usize = 0;
    while i < FFT_SIZE
        invariant
            i <= FFT_SIZE,
            buffer@ == Seq::new(i as nat, |j: int| fill),
        decreases FFT_SIZE - i,
    {
        buffer.push(fill);
        i += 1;
        assert(buffer@ =~= Seq::new(i as nat, |j: int| fill));
    }
    buffer
}

/// Writes the leading samples of `block` over the leading bins of `buffer`,
/// each as the bin that `lift` makes of it. At most `FFT_SIZE` samples are
/// taken; the bins behind the last sample taken keep what they held.
pub fn load_block<S: Copy, C, F: Fn(S) -> C>(buffer: &mut Vec<C>, block: &[S], lift: F)
    requires
        old(buffer)@.len() == FFT_SIZE,
        forall|i: int| 0 <= i < samples_taken(block@.len()) ==> lift.requires((#[trigger] block@[i],)),
    ensures
        final(buffer)@.len() == FFT_SIZE,
        forall|i: int|
            0 <= i < samples_taken(block@.len()) ==> lift.ensures(
                (block@[i],),
                #[trigger] final(buffer)@[i],
            ),
        forall|i: int|
            samples_taken(block@.len()) <= i < FFT_SIZE ==> #[trigger] final(buffer)@[i] == old(
                buffer,
            )@[i],
{
    let taken: usize = if block.len() < FFT_SIZE {
        block.len()
    } else {
        FFT_SIZE
    };
    let mut i: usize = 0;
    while i < taken
        invariant
            i <= taken,
            taken == samples_taken(block@.len()),
            buffer@.len() == FFT_SIZE,
            forall|j: int| 0 <= j < taken ==> lift.requires((#[trigger] block@[j],)),
            forall|j: int| 0 <= j < i ==> lift.ensures((block@[j],), #[trigger] buffer@[j]),
            forall|j: int| i <= j < FFT_SIZE ==> #[trigger] buffer@[j] == old(buffer)@[j],
        decreases taken - i,
    {
        let bin = lift(block[i]);
        buffer.set(i, bin);
        i += 1;
    }
}

/// The frame of a buffer: for each bin, in order, what `measure` makes of it.
pub fn spectrum_frame<C, M, F: Fn(&C) -> M>(buffer: &Vec<C>, measure: F) -> (frame: Vec<M>)
    requires
        forall|i: int| 0 <= i < buffer@.len() ==> measure.requires((&#[trigger] buffer@[i],)),
    ensures
        frame@.len() == buffer@.len(),
        forall|i: int|
            0 <= i < buffer@.len() ==> measure.ensures((&buffer@[i],), #[trigger] frame@[i]),
{
    let mut frame: Vec<M> = Vec::with_capacity(buffer.len());
    let mut i: usize = 0;
    while i < buffer.len()
        invariant
            i <= buffer@.len(),
            frame@.len() == i,
            forall|j: int| 0 <= j < buffer@.len() ==> measure.requires((&#[trigger] buffer@[j],)),
            forall|j: int| 0 <= j < i ==> measure.ensures((&buffer@[j],), #[trigger] frame@[j]),
        decreases buffer@.len() - i,
    {
        let magnitude = measure(&buffer[i]);
        frame.push(magnitude);
        i += 1;
    }
    frame
}

} // verus!
