//! What holds of every step of the reader.

use vstd::prelude::*;
use crate::input::model::{
    mark_closed, next_readable, retry_pause, Action, Event, Phase, ReaderView,
};
use crate::input::readiness::Readiness;
use crate::input::select::WhenEOF;

verus! {

/// The first readable source at or after `from` lies between `from` and the
/// number of sources, is readable if it is a source at all, and no source
/// between `from` and it is readable.
pub proof fn lemma_next_readable(pending: Seq<Readiness>, from: int)
    requires
        0 <= from <= pending.len(),
    ensures
        from <= next_readable(pending, from) <= pending.len(),
        next_readable(pending, from) < pending.len() ==> pending[next_readable(pending, from)]
            == Readiness::Readable,
        forall|j: int|
            from <= j < next_readable(pending, from) ==> pending[j] != Readiness::Readable,
    decreases pending.len() - from,
{
    if from < pending.len() && pending[from] != Readiness::Readable {
        lemma_next_readable(pending, from + 1);
    }
}

impl ReaderView {
    /// What holds of a state between the parts of one step: all of `wf` that
    /// does not depend on what the reader waits for.
    pub open spec fn sound(self) -> bool {
        &&& self.frame_size >= 1
        &&& self.frame_size <= usize::MAX
        &&& self.buffers.len() >= 1
        &&& self.buffers.len() <= usize::MAX
        &&& self.closed.len() == self.buffers.len()
        &&& (self.clear_timeout matches Some(t) ==> t.wf() && t.fits_wait())
        &&& self.position <= self.current.len()
        &&& (self.current.len() == 0 || self.current.len() == self.frame_size)
        &&& forall|i: int|
            0 <= i < self.buffers.len() ==> (#[trigger] self.buffers[i]).len() <= self.frame_size
    }

    /// No buffer holds a whole frame.
    pub open spec fn partial(self) -> bool {
        forall|i: int|
            0 <= i < self.buffers.len() ==> (#[trigger] self.buffers[i]).len() < self.frame_size
    }
}

proof fn lemma_deliver_keeps_wf(pre: ReaderView, room: nat)
    requires
        pre.sound(),
        pre.partial(),
    ensures
        pre.deliver(room).state.wf(),
{
}

proof fn lemma_poll_keeps_wf(pre: ReaderView)
    requires
        pre.sound(),
        pre.partial(),
        pre.exhausted(),
    ensures
        pre.poll().state.wf(),
{
}

proof fn lemma_conclude_keeps_wf(pre: ReaderView, ready: Option<usize>, room: nat)
    requires
        pre.sound(),
        pre.exhausted(),
        match ready {
            Some(i) => {
                &&& i < pre.buffers.len()
                &&& pre.buffers[i as int].len() == pre.frame_size
                &&& forall|j: int|
                    0 <= j < pre.buffers.len() && j != i ==> (#[trigger] pre.buffers[j]).len()
                        < pre.frame_size
            },
            None => pre.partial(),
        },
    ensures
        pre.conclude(ready, room).state.wf(),
{
    match ready {
        Some(i) => {
            lemma_deliver_keeps_wf(pre.rotate(i as int), room);
        },
        None => {
            lemma_poll_keeps_wf(pre);
        },
    }
}

proof fn lemma_scan_keeps_wf(pre: ReaderView, from: int, room: nat)
    requires
        pre.sound(),
        pre.partial(),
        pre.exhausted(),
        pre.pending.len() == pre.buffers.len(),
        0 <= from <= pre.buffers.len(),
    ensures
        pre.scan(from, room).state.wf(),
{
    lemma_next_readable(pre.pending, from);
    let i = next_readable(pre.pending, from);
    let marked = ReaderView { closed: mark_closed(pre.closed, pre.pending, from, i), ..pre };
    if i >= pre.sources() {
        lemma_conclude_keeps_wf(marked, None, room);
    }
}

/// Every step leads from a well-formed state to a well-formed state.
pub proof fn lemma_step_keeps_wf(pre: ReaderView, event: Event, room: nat)
    requires
        pre.wf(),
        pre.expects(event),
    ensures
        pre.step(event, room).state.wf(),
{
    match event {
        Event::Start => {
            if !pre.exhausted() {
                lemma_deliver_keeps_wf(pre, room);
            } else if pre.phase != Phase::Finished {
                lemma_poll_keeps_wf(pre);
            }
        },
        Event::Polled { ready, states } => {
            let buffers = if ready == 0 {
                Seq::new(pre.buffers.len(), |i: int| Seq::<u8>::empty())
            } else {
                pre.buffers
            };
            let base = ReaderView { buffers, pending: states@, ..pre };
            lemma_scan_keeps_wf(base, 0, room);
        },
        Event::ReadDone { data } => {
            let i = pre.phase->source as int;
            if data@.len() == 0 {
                let shut = ReaderView { closed: pre.closed.update(i, true), ..pre };
                lemma_scan_keeps_wf(shut, i + 1, room);
            } else {
                let grown = ReaderView {
                    buffers: pre.buffers.update(i, pre.buffers[i] + data@),
                    ..pre
                };
                if grown.buffers[i].len() == pre.frame_size {
                    lemma_conclude_keeps_wf(grown, Some(pre.phase->source), room);
                } else {
                    lemma_scan_keeps_wf(grown, i + 1, room);
                }
            }
        },
        Event::Slept => {
            if !pre.exhausted() {
                lemma_deliver_keeps_wf(pre, room);
            } else {
                lemma_poll_keeps_wf(pre);
            }
        },
    }
}

/// What a reader was made with never changes: the frame size, what to do at
/// the end of the sources, the inactivity threshold and the number of
/// sources.
pub proof fn lemma_configuration_is_fixed(pre: ReaderView, event: Event, room: nat)
    requires
        pre.wf(),
        pre.expects(event),
    ensures
        pre.step(event, room).state.frame_size == pre.frame_size,
        pre.step(event, room).state.when_eof == pre.when_eof,
        pre.step(event, room).state.clear_timeout == pre.clear_timeout,
        pre.step(event, room).state.sources() == pre.sources(),
{
    match event {
        Event::Start => {},
        Event::Slept => {},
        Event::Polled { ready, states } => {
            lemma_next_readable(states@, 0);
        },
        Event::ReadDone { data } => {
            lemma_next_readable(pre.pending, pre.phase->source as int + 1);
        },
    }
}

/// Under `WhenEOF::Retry` the stream never ends: no step answers with
/// `Action::EndOfStream`, and the reader never reaches `Phase::Finished`.
/// Once every source is closed and nothing is left to hand out, the reader
/// only waits, reads and pauses.
pub proof fn lemma_retry_never_ends(pre: ReaderView, event: Event, room: nat)
    requires
        pre.wf(),
        pre.expects(event),
        pre.when_eof == WhenEOF::Retry,
    ensures
        pre.step(event, room).action != Action::EndOfStream,
        pre.step(event, room).state.phase != Phase::Finished,
        pre.all_closed() && pre.exhausted() && !(event is ReadDone) ==> !(pre.step(
            event,
            room,
        ).action is Deliver),
{
    lemma_step_keeps_wf(pre, event, room);
}

/// The stream ends only under `WhenEOF::Close` and only with every source
/// closed; the step that ends it leaves the reader in `Phase::Finished`.
/// From there every further request is answered with `Action::EndOfStream`
/// and changes nothing.
pub proof fn lemma_end_of_stream(pre: ReaderView, event: Event, room: nat)
    requires
        pre.wf(),
        pre.expects(event),
    ensures
        pre.step(event, room).action == Action::EndOfStream <==> pre.step(event, room).state.phase
            == Phase::Finished,
        pre.step(event, room).state.phase == Phase::Finished ==> pre.when_eof == WhenEOF::Close
            && pre.step(event, room).state.all_closed(),
        pre.phase == Phase::Finished ==> pre.step(event, room).state == pre && pre.step(
            event,
            room,
        ).action == Action::EndOfStream,
{
    lemma_step_keeps_wf(pre, event, room);
    if pre.phase == Phase::Finished {
    } else {
        match event {
            Event::Start => {},
            Event::Slept => {},
            Event::Polled { ready, states } => {
                lemma_next_readable(states@, 0);
            },
            Event::ReadDone { data } => {
                lemma_next_readable(pre.pending, pre.phase->source as int + 1);
            },
        }
    }
}

/// A request is never served with nothing while the caller has room: a
/// delivery into a buffer that is not empty holds at least one byte, never
/// more than the buffer takes, and never more than one frame.
pub proof fn lemma_delivery_is_not_empty(pre: ReaderView, event: Event, room: nat)
    requires
        pre.wf(),
        pre.expects(event),
        pre.step(event, room).action is Deliver,
    ensures
        pre.step(event, room).action->count == pre.step(event, room).output.len(),
        pre.step(event, room).output.len() <= room,
        pre.step(event, room).output.len() <= pre.frame_size,
        room > 0 ==> pre.step(event, room).output.len() >= 1,
{
    lemma_step_keeps_wf(pre, event, room);
    match event {
        Event::Start => {},
        Event::Slept => {},
        Event::Polled { ready, states } => {
            lemma_next_readable(states@, 0);
        },
        Event::ReadDone { data } => {
            lemma_next_readable(pre.pending, pre.phase->source as int + 1);
        },
    }
}

/// While some of the current frame is left, a request is served from it at
/// once: nothing is waited for and no source is touched.
pub proof fn lemma_buffered_bytes_come_first(pre: ReaderView, room: nat)
    requires
        pre.wf(),
        !pre.exhausted(),
    ensures
        pre.step(Event::Start, room) == pre.deliver(room),
        pre.step(Event::Start, room).state.buffers == pre.buffers,
        pre.step(Event::Start, room).state.closed == pre.closed,
        pre.step(Event::Start, room).state.current == pre.current,
        pre.step(Event::Start, room).output == pre.current.subrange(
            pre.position as int,
            (pre.position + pre.step(Event::Start, room).output.len()) as int,
        ),
{
}

/// A read that returns nothing closes the source read from, and so does a
/// readiness wait that finds a source hung up, invalid or failed before it
/// finds one to read from.
pub proof fn lemma_sources_close(pre: ReaderView, event: Event, room: nat)
    requires
        pre.wf(),
        pre.expects(event),
    ensures
        event matches Event::ReadDone { data } && data@.len() == 0 ==> pre.step(
            event,
            room,
        ).state.closed[pre.phase->source as int],
        event matches Event::Polled { states, .. } ==> forall|i: int|
            0 <= i < next_readable(states@, 0) && states@[i] == Readiness::Closed
                ==> #[trigger] pre.step(event, room).state.closed[i],
{
    match event {
        Event::Polled { ready, states } => {
            lemma_next_readable(states@, 0);
        },
        Event::ReadDone { data } => {
            lemma_next_readable(pre.pending, pre.phase->source as int + 1);
        },
        _ => {},
    }
}

/// A source that was found closed stays closed.
pub proof fn lemma_closed_stays_closed(pre: ReaderView, event: Event, room: nat, i: int)
    requires
        pre.wf(),
        pre.expects(event),
        0 <= i < pre.sources(),
        pre.closed[i],
    ensures
        pre.step(event, room).state.closed[i],
{
    match event {
        Event::Start => {},
        Event::Slept => {},
        Event::Polled { ready, states } => {
            lemma_next_readable(states@, 0);
        },
        Event::ReadDone { data } => {
            lemma_next_readable(pre.pending, pre.phase->source as int + 1);
        },
    }
}

/// When a readiness wait finds no source ready, its timeout has expired and
/// every partial frame is dropped, whichever source it came from.
pub proof fn lemma_timeout_drops_partial_frames(
    pre: ReaderView,
    states: Vec<Readiness>,
    room: nat,
)
    requires
        pre.wf(),
        pre.expects(Event::Polled { ready: 0, states }),
    ensures
        forall|i: int|
            0 <= i < pre.sources() ==> (#[trigger] pre.step(
                Event::Polled { ready: 0, states },
                room,
            ).state.buffers[i]).len() == 0,
        pre.step(Event::Polled { ready: 0, states }, room).state.buffers.len() == pre.sources(),
{
    lemma_next_readable(states@, 0);
}

impl ReaderView {
    /// Whether `stream`, the bytes received from source `i` so far, is
    /// accounted for: its end is what the source's buffer holds, and what
    /// comes before is a whole number of frames.
    pub open spec fn holds_tail_of(self, i: int, stream: Seq<u8>) -> bool {
        let cut = stream.len() - self.buffers[i].len();
        &&& cut >= 0
        &&& cut % (self.frame_size as int) == 0
        &&& stream.skip(cut) == self.buffers[i]
    }

    /// Whether `received`, the bytes received from each source so far, are
    /// accounted for.
    pub open spec fn accounts_for(self, received: Seq<Seq<u8>>) -> bool {
        &&& received.len() == self.sources()
        &&& forall|i: int| 0 <= i < self.sources() ==> self.holds_tail_of(i, #[trigger] received[i])
    }

    /// The bytes received from each source once `event` has been taken in:
    /// a read adds its bytes to the stream of the source read from, and an
    /// expired timeout takes the dropped partial frames out of every stream.
    pub open spec fn received_after(self, event: Event, received: Seq<Seq<u8>>) -> Seq<Seq<u8>> {
        match event {
            Event::ReadDone { data } => {
                let i = self.phase->source as int;
                received.update(i, received[i] + data@)
            },
            Event::Polled { ready, states } => {
                if ready == 0 {
                    Seq::new(
                        received.len(),
                        |i: int| received[i].take(received[i].len() - self.buffers[i].len()),
                    )
                } else {
                    received
                }
            },
            _ => received,
        }
    }

    /// The source whose frame `event` completes and makes the current
    /// frame, if there is one: the source read from, where the bytes read
    /// fill its buffer and the stream does not end at this step.
    pub open spec fn completes(self, event: Event) -> Option<int> {
        match event {
            Event::ReadDone { data } => {
                let i = self.phase->source as int;
                if data@.len() > 0 && self.buffers[i].len() + data@.len() == self.frame_size && !(
                self.all_closed() && self.when_eof == WhenEOF::Close) {
                    Some(i)
                } else {
                    None
                }
            },
            _ => None,
        }
    }
}

/// Frames are cut from each source's own stream, in order and at multiples
/// of the frame size.
///
/// If the bytes received from every source are accounted for before a step,
/// they are so after it.  A step that completes a frame makes the last
/// `frame_size` bytes received from that one source the current frame, and
/// these start at a multiple of the frame size in the source's stream: no
/// byte is dropped or repeated at a frame's border, and no frame mixes the
/// bytes of two sources.  Any other step leaves the current frame as it is.
pub proof fn lemma_frames_follow_streams(
    pre: ReaderView,
    event: Event,
    room: nat,
    received: Seq<Seq<u8>>,
)
    requires
        pre.wf(),
        pre.expects(event),
        pre.accounts_for(received),
    ensures
        pre.step(event, room).state.accounts_for(pre.received_after(event, received)),
        match pre.completes(event) {
            Some(i) => {
                let stream = pre.received_after(event, received)[i];
                let start = stream.len() - pre.frame_size;
                &&& start >= 0
                &&& start % (pre.frame_size as int) == 0
                &&& pre.step(event, room).state.current == stream.skip(start)
                &&& pre.step(event, room).state.current.len() == pre.frame_size
            },
            None => pre.step(event, room).state.current == pre.current,
        },
{
    let post = pre.step(event, room).state;
    let after = pre.received_after(event, received);
    let f = pre.frame_size as int;
    match event {
        Event::Start => {},
        Event::Slept => {},
        Event::Polled { ready, states } => {
            lemma_next_readable(states@, 0);
            assert forall|i: int| 0 <= i < post.sources() implies post.holds_tail_of(
                i,
                #[trigger] after[i],
            ) by {
                if ready == 0 {
                    let cut = received[i].len() - pre.buffers[i].len();
                    assert(after[i].skip(cut) =~= post.buffers[i]);
                }
            }
        },
        Event::ReadDone { data } => {
            let s = pre.phase->source as int;
            lemma_next_readable(pre.pending, s + 1);
            let cut = received[s].len() - pre.buffers[s].len();
            assert(after[s].skip(cut) =~= pre.buffers[s] + data@);
            assert forall|i: int| 0 <= i < post.sources() implies post.holds_tail_of(
                i,
                #[trigger] after[i],
            ) by {
                if i == s && pre.completes(event) is Some {
                    assert(post.buffers[s] =~= Seq::<u8>::empty());
                    assert(after[s].skip(after[s].len() as int) =~= Seq::<u8>::empty());
                    assert((cut + f) % f == 0) by (nonlinear_arith)
                        requires
                            cut % f == 0,
                            f > 0,
                    ;
                }
            }
        },
    }
}

/// Every byte handed to the caller comes from the current frame, in order.
///
/// What a step hands out is the part of the current frame that ends at the
/// new position.  Unless the step completes a frame, the current frame is
/// the one from before and the position moves on by what was handed out.
pub proof fn lemma_output_comes_from_current_frame(pre: ReaderView, event: Event, room: nat)
    requires
        pre.wf(),
        pre.expects(event),
    ensures
        ({
            let step = pre.step(event, room);
            &&& step.output.len() <= step.state.position
            &&& step.output == step.state.current.subrange(
                step.state.position - step.output.len(),
                step.state.position as int,
            )
            &&& pre.completes(event) is None ==> step.state.current == pre.current
                && step.state.position == pre.position + step.output.len()
        }),
{
    match event {
        Event::Start => {},
        Event::Slept => {},
        Event::Polled { ready, states } => {
            lemma_next_readable(states@, 0);
        },
        Event::ReadDone { data } => {
            lemma_next_readable(pre.pending, pre.phase->source as int + 1);
        },
    }
}

/// A source's buffer changes in three ways only: a read from the source
/// adds its bytes at the end, a completed frame leaves the buffer empty, and
/// an expired timeout empties every buffer.
pub proof fn lemma_buffer_lifecycle(pre: ReaderView, event: Event, room: nat, i: int)
    requires
        pre.wf(),
        pre.expects(event),
        0 <= i < pre.sources(),
    ensures
        ({
            let after = pre.step(event, room).state.buffers[i];
            match event {
                Event::ReadDone { data } => {
                    if pre.phase->source != i {
                        after == pre.buffers[i]
                    } else if pre.completes(event) is Some {
                        after.len() == 0
                    } else {
                        after == pre.buffers[i] + data@
                    }
                },
                Event::Polled { ready, .. } => {
                    if ready == 0 {
                        after.len() == 0
                    } else {
                        after == pre.buffers[i]
                    }
                },
                _ => after == pre.buffers[i],
            }
        }),
{
    match event {
        Event::Start => {},
        Event::Slept => {},
        Event::Polled { ready, states } => {
            lemma_next_readable(states@, 0);
        },
        Event::ReadDone { data } => {
            lemma_next_readable(pre.pending, pre.phase->source as int + 1);
        },
    }
}

/// A completed frame is handed out at once.
///
/// The step that completes a frame answers with the frame's first bytes, as
/// many as the caller has room for, unless every source is closed: then the
/// reader first pauses under `WhenEOF::Retry`, with the whole frame waiting
/// as the current frame.
pub proof fn lemma_complete_frame_is_handed_out(pre: ReaderView, event: Event, room: nat)
    requires
        pre.wf(),
        pre.expects(event),
        pre.completes(event) is Some,
    ensures
        ({
            let step = pre.step(event, room);
            let count = if room < pre.frame_size {
                room
            } else {
                pre.frame_size
            };
            &&& step.state.current.len() == pre.frame_size
            &&& if pre.all_closed() {
                &&& pre.when_eof == WhenEOF::Retry
                &&& step.action is Sleep
                &&& step.state.position == 0
                &&& step.output.len() == 0
            } else {
                &&& step.action == (Action::Deliver { count: count as usize })
                &&& step.output == step.state.current.take(count as int)
                &&& step.state.position == count
            }
        }),
{
}

/// Once every source is closed, the end of a round is decided by what the
/// reader was made with: under `WhenEOF::Close` the stream ends, and under
/// `WhenEOF::Retry` the reader pauses, for the inactivity threshold if there
/// is one and for ten milliseconds otherwise.  A round goes on only while
/// there is a source left to read from.
pub proof fn lemma_all_closed_decides(pre: ReaderView, event: Event, room: nat)
    requires
        pre.wf(),
        pre.expects(event),
        event is Polled || event is ReadDone,
        pre.step(event, room).state.all_closed(),
    ensures
        ({
            let step = pre.step(event, room);
            match pre.when_eof {
                WhenEOF::Close => step.action == Action::EndOfStream || step.action is Read,
                WhenEOF::Retry => step.action == (Action::Sleep {
                    pause: retry_pause(pre.clear_timeout),
                }) || step.action is Read,
            }
        }),
{
    let post = pre.step(event, room).state;
    match event {
        Event::Polled { ready, states } => {
            lemma_next_readable(states@, 0);
            let upto = next_readable(states@, 0);
            let marked = mark_closed(pre.closed, states@, 0, upto);
            assert forall|j: int| 0 <= j < marked.len() implies marked[j] by {
                assert(post.closed[j]);
            }
        },
        Event::ReadDone { data } => {
            let i = pre.phase->source as int;
            lemma_next_readable(pre.pending, i + 1);
            if data@.len() == 0 {
                let shut = pre.closed.update(i, true);
                let upto = next_readable(pre.pending, i + 1);
                let marked = mark_closed(shut, pre.pending, i + 1, upto);
                assert forall|j: int| 0 <= j < marked.len() implies marked[j] by {
                    assert(post.closed[j]);
                }
            } else if pre.buffers[i].len() + data@.len() == pre.frame_size {
                assert forall|j: int| 0 <= j < pre.closed.len() implies pre.closed[j] by {
                    assert(post.closed[j]);
                }
            } else {
                let upto = next_readable(pre.pending, i + 1);
                let marked = mark_closed(pre.closed, pre.pending, i + 1, upto);
                assert forall|j: int| 0 <= j < marked.len() implies marked[j] by {
                    assert(post.closed[j]);
                }
            }
        },
        _ => {},
    }
}

/// A frame holds the bytes of one source only: if every byte received from
/// the source that completes a frame has the property `of_source`, so has
/// every byte of the frame.
pub proof fn lemma_frame_has_one_origin(
    pre: ReaderView,
    event: Event,
    room: nat,
    received: Seq<Seq<u8>>,
    of_source: spec_fn(u8) -> bool,
)
    requires
        pre.wf(),
        pre.expects(event),
        pre.accounts_for(received),
        pre.completes(event) matches Some(i) && forall|k: int|
            0 <= k < pre.received_after(event, received)[i].len() ==> of_source(
                #[trigger] pre.received_after(event, received)[i][k],
            ),
    ensures
        pre.step(event, room).state.current.len() == pre.frame_size,
        forall|k: int|
            0 <= k < pre.frame_size ==> of_source(#[trigger] pre.step(event, room).state.current[k]),
{
    lemma_frames_follow_streams(pre, event, room, received);
}

impl ReaderView {
    /// Whether `other` is this state but for what the last wait found of
    /// source `u`.
    pub open spec fn agrees_but_for(self, other: ReaderView, u: int) -> bool {
        &&& other == (ReaderView { pending: other.pending, ..self })
        &&& self.pending.len() == other.pending.len()
        &&& forall|j: int|
            0 <= j < self.pending.len() && j != u ==> #[trigger] self.pending[j]
                == other.pending[j]
    }
}

/// Whether `twin` is `event` but for what a wait found of source `u`, of
/// which `event` says that nothing happened.
pub open spec fn same_but_for(event: Event, twin: Event, u: int) -> bool {
    match (event, twin) {
        (Event::Start, Event::Start) => true,
        (Event::Slept, Event::Slept) => true,
        (Event::ReadDone { data }, Event::ReadDone { data: other }) => data@ == other@,
        (
            Event::Polled { ready, states },
            Event::Polled { ready: other_ready, states: other_states },
        ) => {
            &&& ready == other_ready
            &&& states@.len() == other_states@.len()
            &&& 0 <= u < states@.len() ==> states@[u] == Readiness::Idle
            &&& forall|j: int|
                0 <= j < states@.len() && j != u ==> #[trigger] states@[j] == other_states@[j]
        },
        _ => false,
    }
}

proof fn lemma_next_readable_agrees(
    pending: Seq<Readiness>,
    other: Seq<Readiness>,
    from: int,
    u: int,
)
    requires
        0 <= from <= pending.len(),
        pending.len() == other.len(),
        forall|j: int| 0 <= j < pending.len() && j != u ==> #[trigger] pending[j] == other[j],
        next_readable(pending, from) < pending.len(),
        next_readable(pending, from) < u || u < from,
    ensures
        next_readable(other, from) == next_readable(pending, from),
    decreases pending.len() - from,
{
    lemma_next_readable(pending, from);
    if from < pending.len() && pending[from] != Readiness::Readable {
        lemma_next_readable_agrees(pending, other, from + 1, u);
    }
}

/// Until a round comes past a source, it does not matter what the wait found
/// of that source.
///
/// Take a state in which the last wait is taken to have found nothing
/// happening to source `u`, and a twin of it in which the wait found
/// anything else of `u`.  If the step's answer has not come past `u`, the
/// twin's step gives the same answer and the same bytes, and the states
/// after it are twins still.
pub proof fn lemma_unreached_source_does_not_count(
    pre: ReaderView,
    other: ReaderView,
    event: Event,
    twin: Event,
    room: nat,
    u: usize,
)
    requires
        pre.wf(),
        other.wf(),
        pre.agrees_but_for(other, u as int),
        pre.expects(event),
        u < pre.sources(),
        same_but_for(event, twin, u as int),
        event is ReadDone ==> u < pre.pending.len() && pre.pending[u as int] == Readiness::Idle,
        !pre.step(event, room).action.passed(u),
    ensures
        other.expects(twin),
        other.step(twin, room).action == pre.step(event, room).action,
        other.step(twin, room).output == pre.step(event, room).output,
        pre.step(event, room).state.agrees_but_for(other.step(twin, room).state, u as int),
        pre.step(event, room).action is Read ==> u < pre.step(event, room).state.pending.len()
            && pre.step(event, room).state.pending[u as int] == Readiness::Idle,
{
    let mine = pre.step(event, room);
    let theirs = other.step(twin, room);
    match event {
        Event::Start => {},
        Event::Slept => {},
        Event::Polled { ready, states } => {
            let other_states = twin->states@;
            lemma_next_readable(states@, 0);
            let stop = next_readable(states@, 0);
            assert(stop < states@.len());
            assert(stop <= u);
            assert(stop != u);
            lemma_next_readable_agrees(states@, other_states, 0, u as int);
            assert(mark_closed(pre.closed, states@, 0, stop) =~= mark_closed(
                other.closed,
                other_states,
                0,
                stop,
            ));
        },
        Event::ReadDone { data } => {
            let s = pre.phase->source as int;
            lemma_next_readable(pre.pending, s + 1);
            let stop = next_readable(pre.pending, s + 1);
            if mine.action is Read {
                assert(stop < pre.pending.len());
                assert(stop != u);
                lemma_next_readable_agrees(pre.pending, other.pending, s + 1, u as int);
                let shut = if data@.len() == 0 {
                    pre.closed.update(s, true)
                } else {
                    pre.closed
                };
                assert(mark_closed(shut, pre.pending, s + 1, stop) =~= mark_closed(
                    shut,
                    other.pending,
                    s + 1,
                    stop,
                ));
            }
        },
    }
}

} // verus!
