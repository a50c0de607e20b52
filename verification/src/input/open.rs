//! How a source named by a path is opened.

use vstd::prelude::*;
use nix::fcntl::OFlag;
use crate::input::select::WhenEOF;

verus! {

/// The way to open one source.
#[derive(Copy, Clone, Debug, PartialEq, Eq, Structural)]
pub struct OpenMode {
    /// Open for reading.
    pub read: bool,
    /// Open for writing as well.
    pub write: bool,
    /// Flags for the open call beyond the access mode.
    pub custom_flags: i32,
}

/// Calls nix's `OFlag::bits` on `O_NONBLOCK`: the platform's bits for a
/// non-blocking open.  Their value differs between platforms, so nothing is
/// claimed of it.
#[verifier::external_body]
fn nonblock_bits() -> (bits: i32) {
    OFlag::O_NONBLOCK.bits()
}

/// The way to open a source, given the platform's bits for a non-blocking
/// open.
///
/// Every source is opened for reading.  A named pipe is opened without
/// blocking, since a blocking open would wait for a writer.  Under
/// `WhenEOF::Retry` a named pipe is opened for writing too: with a writer of
/// its own the pipe never hangs up.
pub open spec fn open_mode_for(is_fifo: bool, when_eof: WhenEOF, nonblock: i32) -> OpenMode {
    OpenMode {
        read: true,
        write: is_fifo && when_eof == WhenEOF::Retry,
        custom_flags: if is_fifo { nonblock } else { 0 },
    }
}

/// Decides how to open a source from the platform's bits for a non-blocking
/// open.
pub fn open_mode_with(is_fifo: bool, when_eof: WhenEOF, nonblock: i32) -> (mode: OpenMode)
    ensures
        mode == open_mode_for(is_fifo, when_eof, nonblock),
{
    let mut mode = OpenMode { read: true, write: false, custom_flags: 0 };
    if is_fifo {
        mode.custom_flags = nonblock;
        if when_eof == WhenEOF::Retry {
            mode.write = true;
        }
    }
    mode
}

/// Decides how to open a source on this platform.
pub fn open_mode(is_fifo: bool, when_eof: WhenEOF) -> (mode: OpenMode)
    ensures
        mode.read,
        mode.write == (is_fifo && when_eof == WhenEOF::Retry),
        !is_fifo ==> mode.custom_flags == 0,
        exists|nonblock: i32| mode == open_mode_for(is_fifo, when_eof, nonblock),
{
    let nonblock: i32 = nonblock_bits();
    open_mode_with(is_fifo, when_eof, nonblock)
}

} // verus!
