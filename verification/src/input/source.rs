//! What the reader's driver needs of a source, and how it reads from one.

use vstd::prelude::*;
use crate::input::model::Event;

verus! {

/// A source of bytes: something that a readiness wait can watch and that can
/// be read from.
pub trait ReadFd {
    /// What a failed read reports.
    type Error;

    /// Whether `fd` is the descriptor by which a readiness wait watches the
    /// source.
    ///
    /// A kind of source may state here what its descriptor is.  One that
    /// states nothing leaves the answer at `true`, and is bound to nothing.
    open spec fn has_descriptor(&self, fd: i32) -> bool {
        true
    }

    /// What a read of this source does: whether a read that finds the source
    /// as `self` and the buffer holding `before` may leave the source as
    /// `after` and the buffer holding `into`, and return `outcome`.
    ///
    /// A kind of source may state here what its reads keep to.  One that
    /// states nothing leaves the answer at `true`, and is bound to nothing:
    /// what is said of a read through this relation binds only the sources
    /// that state it.
    open spec fn reads(
        &self,
        after: &Self,
        before: Seq<u8>,
        into: Seq<u8>,
        outcome: Result<usize, Self::Error>,
    ) -> bool {
        true
    }

    /// The descriptor by which a readiness wait watches the source.
    fn as_raw_fd(&self) -> (fd: i32)
        ensures
            self.has_descriptor(fd),
    ;

    /// Reads into `buf` and returns how many bytes were read; none marks the
    /// end of the source.
    fn read(&mut self, buf: &mut [u8]) -> (outcome: Result<usize, Self::Error>)
        ensures
            old(self).reads(final(self), old(buf)@, final(buf)@, outcome),
    ;
}

/// Why nothing could be taken from a source.
#[derive(Debug)]
pub enum FetchError<E> {
    /// The read failed.
    Failed(E),
    /// The source claims to have read more than it was asked for.
    Overrun { asked: usize, claimed: usize },
}

/// Whether `result` reports a read of at most `asked` bytes that left
/// `buffer` in the buffer and returned `outcome`.
///
/// A read that counted no more bytes than were asked for is reported by the
/// event that carries the bytes counted, from the start of the buffer.  A
/// read that counted more is refused as an overrun, and a failed read hands
/// on its error.
pub open spec fn reports<E>(
    result: Result<Event, FetchError<E>>,
    buffer: Seq<u8>,
    asked: usize,
    outcome: Result<usize, E>,
) -> bool {
    match outcome {
        Ok(count) => {
            if count <= asked {
                result matches Ok(Event::ReadDone { data }) && data@ == (if count <= buffer.len() {
                    buffer.take(count as int)
                } else {
                    buffer
                })
            } else {
                result matches Err(FetchError::Overrun { asked: a, claimed }) && a == asked
                    && claimed == count
            }
        },
        Err(error) => result matches Err(FetchError::Failed(e)) && e == error,
    }
}

/// The buffer that a read of at most `len` bytes is handed: `len` zero
/// bytes.
pub open spec fn blank(len: usize) -> Seq<u8> {
    Seq::new(len as nat, |i: int| 0u8)
}

/// Turns the outcome of a read of at most `asked` bytes into `buffer` into
/// the event that reports it: the bytes that were read, as many as the source
/// counted.
///
/// A source that claims more bytes than it was asked for is refused: the
/// reader's buffers never grow beyond a frame.
pub fn fetched<E>(buffer: Vec<u8>, asked: usize, outcome: Result<usize, E>) -> (result: Result<
    Event,
    FetchError<E>,
>)
    ensures
        reports(result, buffer@, asked, outcome),
{
    match outcome {
        Ok(count) => {
            if count <= asked {
                let mut data = buffer;
                data.truncate(count);
                Ok(Event::ReadDone { data })
            } else {
                Err(FetchError::Overrun { asked, claimed: count })
            }
        },
        Err(error) => Err(FetchError::Failed(error)),
    }
}

/// Carries out `Action::Read`: hands `source` a buffer of `len` zero bytes to
/// read into, once, and reports what came of it as `fetched` does.
///
/// The first clause ties the result to the read that was made.  It says of
/// the read no more than the source states in `reads`; of a source that
/// states nothing, the second clause is all there is to know.
pub fn fetch<S: ReadFd>(source: &mut S, len: usize) -> (result: Result<
    Event,
    FetchError<S::Error>,
>)
    ensures
        exists|into: Seq<u8>, outcome: Result<usize, S::Error>|
            old(source).reads(final(source), blank(len), into, outcome) && #[trigger] reports(
                result,
                into,
                len,
                outcome,
            ),
        match result {
            Ok(event) => event matches Event::ReadDone { data } && data@.len() <= len,
            Err(FetchError::Overrun { asked, claimed }) => asked == len && claimed > len,
            Err(FetchError::Failed(_)) => true,
        },
{
    let mut buffer: Vec<u8> = vec![0u8; len];
    assert(buffer@ =~= blank(len));
    let outcome = source.read(buffer.as_mut_slice());
    let ghost into = buffer@;
    let ghost returned = outcome;
    let result = fetched(buffer, len, outcome);
    assert(old(source).reads(source, blank(len), into, returned) && reports(
        result,
        into,
        len,
        returned,
    ));
    result
}

} // verus!
