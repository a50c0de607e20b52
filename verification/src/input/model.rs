//! The reader as a state machine: its states, what it asks for, what it is
//! told, and the step from one state to the next.

use vstd::prelude::*;
use crate::input::interval::{wait_timeout, Interval};
use crate::input::readiness::Readiness;
use crate::input::select::WhenEOF;

verus! {

/// The pause between two rounds under `WhenEOF::Retry` once every source is
/// closed, where no inactivity threshold is configured: ten milliseconds.
pub const RETRY_PAUSE_NANOS: u32 = 10_000_000;

/// What the reader is waiting for.
#[derive(Copy, Clone, Debug, PartialEq, Eq, Structural)]
pub enum Phase {
    /// Nothing: the next request starts afresh.
    Idle,
    /// The outcome of a readiness wait.
    Polling,
    /// The bytes read from a source.
    Reading { source: usize },
    /// The end of a pause.
    Sleeping,
    /// Nothing, ever again: the stream has ended.
    Finished,
}

/// What the reader asks its driver to do next.
#[derive(Copy, Clone, Debug, PartialEq, Eq, Structural)]
pub enum Action {
    /// The request is served: `count` bytes stand at the start of the
    /// caller's buffer.
    Deliver { count: usize },
    /// The request is served with nothing: the stream has ended.
    EndOfStream,
    /// Wait until a source is ready or `timeout` milliseconds have passed
    /// (without end if negative), then report with `Event::Polled`.
    Poll { timeout: i32 },
    /// Read at most `len` bytes from source `source`, then report with
    /// `Event::ReadDone`.
    Read { source: usize, len: usize },
    /// Pause, then report with `Event::Slept`.
    Sleep { pause: Interval },
}

impl Action {
    /// Whether the round that the reader answered with this action has come
    /// past source `source`, that is, has looked at what the wait found of
    /// it.
    ///
    /// A round looks at the sources in ascending order.  When it stops to
    /// read from a source it has come past those before it; when it hands
    /// out a frame it has looked at no source since its last read; and in
    /// every other case it has looked at all of them.
    pub open spec fn passed(self, source: usize) -> bool {
        match self {
            Action::Read { source: next, .. } => source < next,
            Action::Deliver { .. } => false,
            _ => true,
        }
    }

    /// Whether the round that was answered with this action has come past
    /// source `source`.
    pub fn has_passed(&self, source: usize) -> (passed: bool)
        ensures
            passed == self.passed(source),
    {
        match self {
            Action::Read { source: next, .. } => source < *next,
            Action::Deliver { .. } => false,
            _ => true,
        }
    }
}

/// What the driver tells the reader.
#[derive(Debug)]
pub enum Event {
    /// The caller asks for bytes.
    Start,
    /// A readiness wait returned: `ready` sources have something to report,
    /// and `states` holds what was found of each source, in order.
    Polled { ready: i32, states: Vec<Readiness> },
    /// A read returned `data`; no bytes mean that the source is at its end.
    ReadDone { data: Vec<u8> },
    /// A pause is over.
    Slept,
}

/// The reader's state.
#[verifier::ext_equal]
pub struct ReaderView {
    /// What to do once every source is closed.
    pub when_eof: WhenEOF,
    /// The length of a frame.
    pub frame_size: nat,
    /// How long the sources may stay silent before partial frames are dropped.
    pub clear_timeout: Option<Interval>,
    /// For each source, the part of its next frame that has arrived.
    pub buffers: Seq<Seq<u8>>,
    /// For each source, whether it has been found closed.
    pub closed: Seq<bool>,
    /// What the last readiness wait found of each source.
    pub pending: Seq<Readiness>,
    /// The frame that is being handed out.
    pub current: Seq<u8>,
    /// How much of `current` has been handed out.
    pub position: nat,
    /// What the reader is waiting for.
    pub phase: Phase,
}

/// A step's result: the next state, what to do next, and the bytes handed to
/// the caller.
#[verifier::ext_equal]
pub struct Outcome {
    pub state: ReaderView,
    pub action: Action,
    pub output: Seq<u8>,
}

/// The first source at or after `from` that is readable, or the number of
/// sources if there is none.
pub open spec fn next_readable(pending: Seq<Readiness>, from: int) -> int
    decreases pending.len() - from,
{
    if from >= pending.len() {
        pending.len() as int
    } else if pending[from] == Readiness::Readable {
        from
    } else {
        next_readable(pending, from + 1)
    }
}

/// The closed marks after the sources from `from` up to `upto` have been
/// looked at: those reported closed are marked, and no mark is taken back.
pub open spec fn mark_closed(closed: Seq<bool>, pending: Seq<Readiness>, from: int, upto: int) -> Seq<
    bool,
> {
    Seq::new(
        closed.len(),
        |j: int| closed[j] || (from <= j < upto && pending[j] == Readiness::Closed),
    )
}

/// The pause between two rounds once every source is closed: the inactivity
/// threshold if there is one, else the default.
pub open spec fn retry_pause(clear_timeout: Option<Interval>) -> Interval {
    match clear_timeout {
        Some(t) => t,
        None => Interval { secs: 0, nanos: RETRY_PAUSE_NANOS },
    }
}

impl Outcome {
    /// Whether the outcome is what a step left behind: the reader in
    /// `state`, `action` asked for, and the caller's buffer, which held
    /// `before`, now holding `after`: the output, then what was there.
    pub open spec fn describes(
        self,
        state: ReaderView,
        action: Action,
        before: Seq<u8>,
        after: Seq<u8>,
    ) -> bool {
        &&& state == self.state
        &&& action == self.action
        &&& after == self.output + before.skip(self.output.len() as int)
    }
}

impl ReaderView {
    /// The state of a new reader over `sources` sources.
    pub open spec fn initial(
        sources: nat,
        frame_size: nat,
        when_eof: WhenEOF,
        clear_timeout: Option<Interval>,
    ) -> ReaderView {
        ReaderView {
            when_eof,
            frame_size,
            clear_timeout,
            buffers: Seq::new(sources, |i: int| Seq::<u8>::empty()),
            closed: Seq::new(sources, |i: int| false),
            pending: Seq::empty(),
            current: Seq::empty(),
            position: 0,
            phase: Phase::Idle,
        }
    }

    /// The number of sources.
    pub open spec fn sources(self) -> nat {
        self.buffers.len()
    }

    /// Nothing of the current frame is left to hand out.
    pub open spec fn exhausted(self) -> bool {
        self.position >= self.current.len()
    }

    /// Every source has been found closed.
    pub open spec fn all_closed(self) -> bool {
        forall|i: int| 0 <= i < self.closed.len() ==> self.closed[i]
    }

    /// What holds of every state that a reader reaches.
    pub open spec fn wf(self) -> bool {
        &&& self.frame_size >= 1
        &&& self.frame_size <= usize::MAX
        &&& self.buffers.len() >= 1
        &&& self.buffers.len() <= usize::MAX
        &&& self.closed.len() == self.buffers.len()
        &&& (self.clear_timeout matches Some(t) ==> t.wf() && t.fits_wait())
        &&& self.position <= self.current.len()
        &&& (self.current.len() == 0 || self.current.len() == self.frame_size)
        &&& forall|i: int|
            0 <= i < self.buffers.len() ==> (#[trigger] self.buffers[i]).len() <= self.frame_size
        &&& (self.phase != Phase::Finished ==> forall|i: int|
            0 <= i < self.buffers.len() ==> (#[trigger] self.buffers[i]).len() < self.frame_size)
        &&& match self.phase {
            Phase::Idle => true,
            Phase::Polling => self.exhausted(),
            Phase::Reading { source } => {
                &&& self.exhausted()
                &&& source < self.buffers.len()
                &&& self.pending.len() == self.buffers.len()
            },
            Phase::Sleeping => self.when_eof == WhenEOF::Retry && self.all_closed(),
            Phase::Finished => {
                &&& self.exhausted()
                &&& self.when_eof == WhenEOF::Close
                &&& self.all_closed()
            },
        }
    }

    /// Whether `event` answers what the reader is waiting for.
    ///
    /// A new request may come at any time; it abandons whatever the reader
    /// was waiting for.  A readiness wait may report no ready source only if
    /// it had a timeout.  A read may not return more than was asked for.
    pub open spec fn expects(self, event: Event) -> bool {
        match event {
            Event::Start => true,
            Event::Polled { ready, states } => {
                &&& self.phase == Phase::Polling
                &&& states@.len() == self.sources()
                &&& (ready == 0 ==> self.clear_timeout is Some)
            },
            Event::ReadDone { data } => {
                &&& self.phase is Reading
                &&& data@.len() + self.buffers[self.phase->source as int].len() <= self.frame_size
            },
            Event::Slept => self.phase == Phase::Sleeping,
        }
    }

    /// Hands out what fits in `room` bytes of the current frame.
    pub open spec fn deliver(self, room: nat) -> Outcome {
        let left = self.current.len() - self.position;
        let count = if room < left { room as int } else { left };
        Outcome {
            state: ReaderView {
                position: (self.position + count) as nat,
                phase: Phase::Idle,
                ..self
            },
            action: Action::Deliver { count: count as usize },
            output: self.current.subrange(self.position as int, self.position + count),
        }
    }

    /// Asks for a readiness wait over all sources.
    pub open spec fn poll(self) -> Outcome {
        Outcome {
            state: ReaderView { phase: Phase::Polling, ..self },
            action: Action::Poll { timeout: wait_timeout(self.clear_timeout) as i32 },
            output: Seq::empty(),
        }
    }

    /// A request for bytes: served from the current frame if any of it is
    /// left, refused for good once the stream has ended, and else begun
    /// with a readiness wait.
    pub open spec fn start(self, room: nat) -> Outcome {
        if !self.exhausted() {
            self.deliver(room)
        } else if self.phase == Phase::Finished {
            Outcome { state: self, action: Action::EndOfStream, output: Seq::empty() }
        } else {
            self.poll()
        }
    }

    /// The completed frame of source `i` becomes the current frame; what the
    /// source's buffer holds beyond the frame stays in its slot.
    pub open spec fn rotate(self, i: int) -> ReaderView {
        ReaderView {
            current: self.buffers[i].take(self.frame_size as int),
            position: 0,
            buffers: self.buffers.update(i, self.buffers[i].skip(self.frame_size as int)),
            ..self
        }
    }

    /// The end of a round, in which source `ready`, if any, completed a
    /// frame.
    ///
    /// With every source closed the stream ends under `WhenEOF::Close`, and
    /// the reader pauses under `WhenEOF::Retry`.  Otherwise a completed frame
    /// is handed out, and without one the next round begins.
    pub open spec fn conclude(self, ready: Option<usize>, room: nat) -> Outcome {
        if self.all_closed() {
            match self.when_eof {
                WhenEOF::Close => Outcome {
                    state: ReaderView { phase: Phase::Finished, ..self },
                    action: Action::EndOfStream,
                    output: Seq::empty(),
                },
                WhenEOF::Retry => {
                    let turned = match ready {
                        Some(i) => self.rotate(i as int),
                        None => self,
                    };
                    Outcome {
                        state: ReaderView { phase: Phase::Sleeping, ..turned },
                        action: Action::Sleep { pause: retry_pause(self.clear_timeout) },
                        output: Seq::empty(),
                    }
                },
            }
        } else {
            match ready {
                Some(i) => self.rotate(i as int).deliver(room),
                None => self.poll(),
            }
        }
    }

    /// Looks at the sources from `from` on, in ascending order: marks those
    /// reported closed, and stops at the first readable one to read from it.
    /// Without a readable one the round ends.
    pub open spec fn scan(self, from: int, room: nat) -> Outcome {
        let i = next_readable(self.pending, from);
        let marked = ReaderView {
            closed: mark_closed(self.closed, self.pending, from, i),
            ..self
        };
        if i < self.sources() {
            Outcome {
                state: ReaderView { phase: Phase::Reading { source: i as usize }, ..marked },
                action: Action::Read {
                    source: i as usize,
                    len: (self.frame_size - self.buffers[i].len()) as usize,
                },
                output: Seq::empty(),
            }
        } else {
            marked.conclude(None, room)
        }
    }

    /// A readiness wait returned.  If no source was ready the timeout has
    /// expired, and every partial frame is dropped.  Then the sources are
    /// looked at from the first on.
    pub open spec fn polled(self, ready: i32, states: Seq<Readiness>, room: nat) -> Outcome {
        let buffers = if ready == 0 {
            Seq::new(self.buffers.len(), |i: int| Seq::<u8>::empty())
        } else {
            self.buffers
        };
        ReaderView { buffers, pending: states, ..self }.scan(0, room)
    }

    /// A read from the awaited source returned `data`.
    ///
    /// No bytes close the source.  Otherwise the bytes are added to the
    /// source's buffer; a full buffer is a frame and ends the round.  In
    /// every other case the sources after this one are looked at.
    pub open spec fn read_done(self, data: Seq<u8>, room: nat) -> Outcome {
        let i = self.phase->source as int;
        if data.len() == 0 {
            ReaderView { closed: self.closed.update(i, true), ..self }.scan(i + 1, room)
        } else {
            let grown = ReaderView {
                buffers: self.buffers.update(i, self.buffers[i] + data),
                ..self
            };
            if grown.buffers[i].len() == self.frame_size {
                grown.conclude(Some(self.phase->source), room)
            } else {
                grown.scan(i + 1, room)
            }
        }
    }

    /// A pause is over: a frame completed before it is handed out, and
    /// without one the next round begins.
    pub open spec fn slept(self, room: nat) -> Outcome {
        if !self.exhausted() {
            self.deliver(room)
        } else {
            self.poll()
        }
    }

    /// The step that `event` causes, for a caller whose buffer has room for
    /// `room` bytes.
    pub open spec fn step(self, event: Event, room: nat) -> Outcome {
        match event {
            Event::Start => self.start(room),
            Event::Polled { ready, states } => self.polled(ready, states@, room),
            Event::ReadDone { data } => self.read_done(data@, room),
            Event::Slept => self.slept(room),
        }
    }
}

} // verus!
