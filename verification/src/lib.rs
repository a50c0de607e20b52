//! Streams fixed-size frames of bytes gathered from several sources.
//!
//! The heart of the crate is [`input::select::Reader`], which assembles one
//! frame per source and hands out complete frames only.  The reader performs
//! no input or output of its own: it says what has to be done next, and is
//! told what came of it.

pub mod input;
pub mod args;
pub mod device;
