//! How frames are put on the wire of an APA102 strip.

use vstd::prelude::*;
use crate::input::interval::Interval;

verus! {

/// The pause after a frame in which the strip latches it, in nanoseconds.
pub const APA102_LATCH_NANOS: u32 = 500_000;

/// One pixel: its red, green and blue parts.
#[derive(Copy, Clone, Debug, PartialEq, Eq, Structural)]
pub struct Pixel {
    pub r: u8,
    pub g: u8,
    pub b: u8,
}

/// Puts one pixel behind what `writer` holds: a byte of ones, then red,
/// green and blue.
pub fn apa102_write_pixel(writer: &mut Vec<u8>, pixel: &Pixel)
    ensures
        final(writer)@ == old(writer)@ + seq![0xffu8, pixel.r, pixel.g, pixel.b],
{
    writer.push(0xff);
    writer.push(pixel.r);
    writer.push(pixel.g);
    writer.push(pixel.b);
}

/// Puts the start of a frame behind what `writer` holds: four zero bytes.
pub fn apa102_begin_frame(writer: &mut Vec<u8>)
    ensures
        final(writer)@ == old(writer)@ + seq![0u8, 0u8, 0u8, 0u8],
{
    writer.push(0);
    writer.push(0);
    writer.push(0);
    writer.push(0);
}

/// Ends a frame: nothing more is written, and the strip needs the returned
/// pause to latch what it has.
pub fn apa102_end_frame() -> (pause: Interval)
    ensures
        pause == (Interval { secs: 0, nanos: APA102_LATCH_NANOS }),
        pause.wf(),
{
    Interval { secs: 0, nanos: APA102_LATCH_NANOS }
}

} // verus!
