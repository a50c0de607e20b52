//! What holds of a reader over a whole run of steps.

use vstd::prelude::*;
use crate::input::interval::Interval;
use vstd::arithmetic::div_mod::{lemma_mod_add_multiples_vanish, lemma_mod_adds, lemma_small_mod};
use crate::input::laws::{
    lemma_configuration_is_fixed, lemma_frames_follow_streams, lemma_next_readable,
    lemma_output_comes_from_current_frame, lemma_retry_never_ends, lemma_sources_close,
    lemma_step_keeps_wf,
};
use crate::input::model::{Action, Event, Phase, ReaderView};
use crate::input::select::WhenEOF;

verus! {

/// One step as the driver sees it: what it tells the reader, and how many
/// bytes the caller's buffer takes.
pub struct Turn {
    pub event: Event,
    pub room: nat,
}

/// The state that the reader reaches from `start` by taking `turns` in
/// order.
pub open spec fn run(start: ReaderView, turns: Seq<Turn>) -> ReaderView
    decreases turns.len(),
{
    if turns.len() == 0 {
        start
    } else {
        run(start, turns.drop_last()).step(turns.last().event, turns.last().room).state
    }
}

/// Whether every event of `turns` answers what the reader was waiting for
/// when it came.
pub open spec fn follows(start: ReaderView, turns: Seq<Turn>) -> bool
    decreases turns.len(),
{
    turns.len() == 0 || (follows(start, turns.drop_last()) && run(
        start,
        turns.drop_last(),
    ).expects(turns.last().event))
}

/// All the bytes handed to the caller over `turns`, in order.
pub open spec fn delivered(start: ReaderView, turns: Seq<Turn>) -> Seq<u8>
    decreases turns.len(),
{
    if turns.len() == 0 {
        Seq::empty()
    } else {
        delivered(start, turns.drop_last()) + run(start, turns.drop_last()).step(
            turns.last().event,
            turns.last().room,
        ).output
    }
}

/// The bytes received from each source over `turns` and not dropped by an
/// expired timeout.
pub open spec fn received(start: ReaderView, turns: Seq<Turn>) -> Seq<Seq<u8>>
    decreases turns.len(),
{
    if turns.len() == 0 {
        Seq::new(start.sources(), |i: int| Seq::<u8>::empty())
    } else {
        run(start, turns.drop_last()).received_after(
            turns.last().event,
            received(start, turns.drop_last()),
        )
    }
}

/// All the bytes that the reads of `turns` returned, in order.
pub open spec fn input_of(turns: Seq<Turn>) -> Seq<u8>
    decreases turns.len(),
{
    if turns.len() == 0 {
        Seq::empty()
    } else {
        input_of(turns.drop_last()) + match turns.last().event {
            Event::ReadDone { data } => data@,
            _ => Seq::empty(),
        }
    }
}

/// Whether no readiness wait of `turns` ran into its timeout.
pub open spec fn no_expiry(turns: Seq<Turn>) -> bool {
    forall|k: int|
        0 <= k < turns.len() ==> !((#[trigger] turns[k]).event matches Event::Polled { ready, .. }
            && ready == 0)
}

/// A new reader stays well-formed over every run, and the bytes received
/// from each source stay accounted for: each source's buffer holds the end
/// of its stream, behind a whole number of frames.
pub proof fn lemma_run_keeps_account(
    sources: nat,
    frame_size: nat,
    when_eof: WhenEOF,
    clear_timeout: Option<Interval>,
    turns: Seq<Turn>,
)
    requires
        ReaderView::initial(sources, frame_size, when_eof, clear_timeout).wf(),
        follows(ReaderView::initial(sources, frame_size, when_eof, clear_timeout), turns),
    ensures
        run(ReaderView::initial(sources, frame_size, when_eof, clear_timeout), turns).wf(),
        run(ReaderView::initial(sources, frame_size, when_eof, clear_timeout), turns).accounts_for(
            received(ReaderView::initial(sources, frame_size, when_eof, clear_timeout), turns),
        ),
    decreases turns.len(),
{
    let start = ReaderView::initial(sources, frame_size, when_eof, clear_timeout);
    if turns.len() == 0 {
        assert forall|i: int| 0 <= i < start.sources() implies start.holds_tail_of(
            i,
            #[trigger] received(start, turns)[i],
        ) by {
            assert(received(start, turns)[i].skip(0) =~= start.buffers[i]);
        }
    } else {
        let before = turns.drop_last();
        lemma_run_keeps_account(sources, frame_size, when_eof, clear_timeout, before);
        let pre = run(start, before);
        lemma_step_keeps_wf(pre, turns.last().event, turns.last().room);
        lemma_frames_follow_streams(
            pre,
            turns.last().event,
            turns.last().room,
            received(start, before),
        );
    }
}

/// The bytes that `event` brings in.
pub open spec fn fed(event: Event) -> Seq<u8> {
    match event {
        Event::ReadDone { data } => data@,
        _ => Seq::empty(),
    }
}

impl ReaderView {
    /// What is left of the current frame.
    pub open spec fn unread(self) -> Seq<u8> {
        self.current.skip(self.position as int)
    }

    /// What holds of a reader over a single source beyond `wf`: under
    /// `WhenEOF::Close` the stream ends with the step that finds the source
    /// closed, and at the end of the stream no whole frame is held back.
    pub open spec fn single(self) -> bool {
        &&& self.wf()
        &&& self.sources() == 1
        &&& (self.when_eof == WhenEOF::Close && self.closed[0] ==> self.phase == Phase::Finished)
        &&& self.buffers[0].len() < self.frame_size
    }
}

/// One step of a reader over a single source only moves bytes along: from
/// the read into the buffer, from the buffer into the current frame, and
/// from there to the caller.  The current frame is replaced only when
/// nothing of it is left, and then by a whole frame.
proof fn lemma_step_moves_bytes_along(pre: ReaderView, event: Event, room: nat)
    requires
        pre.single(),
        pre.expects(event),
        !(event matches Event::Polled { ready, .. } && ready == 0),
    ensures
        ({
            let step = pre.step(event, room);
            let end = step.state;
            &&& end.single()
            &&& end.frame_size == pre.frame_size
            &&& step.output + end.unread() + end.buffers[0] == pre.unread() + pre.buffers[0] + fed(
                event,
            )
            &&& (step.output.len() + end.unread().len() == pre.unread().len() || (
            pre.unread().len() == 0 && step.output.len() + end.unread().len() == pre.frame_size))
            &&& end.phase == Phase::Finished ==> end.unread().len() == 0
        }),
{
    let step = pre.step(event, room);
    let end = step.state;
    let moved = step.output + end.unread() + end.buffers[0];
    let held = pre.unread() + pre.buffers[0] + fed(event);
    lemma_step_keeps_wf(pre, event, room);
    lemma_configuration_is_fixed(pre, event, room);
    match event {
        Event::Start => {},
        Event::Slept => {},
        Event::Polled { ready, states } => {
            lemma_next_readable(states@, 0);
            assert(moved =~= held);
        },
        Event::ReadDone { data } => {
            lemma_next_readable(pre.pending, 1);
            assert(moved =~= held);
        },
    }
}

proof fn lemma_chain(
    out0: Seq<u8>,
    unread0: Seq<u8>,
    buffer0: Seq<u8>,
    output: Seq<u8>,
    unread: Seq<u8>,
    buffer: Seq<u8>,
    fed: Seq<u8>,
)
    requires
        output + unread + buffer == unread0 + buffer0 + fed,
    ensures
        (out0 + output) + unread + buffer == (out0 + unread0 + buffer0) + fed,
{
    assert((out0 + unread0 + buffer0) + fed =~= out0 + (unread0 + buffer0 + fed));
}

proof fn lemma_whole_frames(whole: int, rest: int, f: int)
    requires
        f >= 1,
        whole >= 0,
        whole % f == 0,
        0 <= rest < f,
    ensures
        (whole + f) % f == 0,
        (whole + rest) % f == rest,
{
    lemma_mod_add_multiples_vanish(whole, f);
    lemma_small_mod(rest as nat, f as nat);
    lemma_mod_adds(whole, rest, f);
}

/// A reader over a single source hands out the source's bytes one for one
/// and in order.
///
/// Over any run in which no timeout expires, what was handed to the caller,
/// then what is left of the current frame, then what the buffer holds, is
/// what the reads returned.  What was handed out and what is left of the
/// current frame make up whole frames.  Once the stream has ended, nothing
/// is left of the current frame, and the buffer holds what the source gave
/// beyond its last whole frame: where the source gave a whole number of
/// frames, the caller has received all of it.  Under `WhenEOF::Close` the
/// stream ends with the read that returns nothing.
pub proof fn lemma_single_source_integrity(
    frame_size: nat,
    when_eof: WhenEOF,
    clear_timeout: Option<Interval>,
    turns: Seq<Turn>,
)
    requires
        ReaderView::initial(1, frame_size, when_eof, clear_timeout).wf(),
        follows(ReaderView::initial(1, frame_size, when_eof, clear_timeout), turns),
        no_expiry(turns),
    ensures
        ({
            let start = ReaderView::initial(1, frame_size, when_eof, clear_timeout);
            let end = run(start, turns);
            let out = delivered(start, turns);
            &&& end.single()
            &&& end.frame_size == frame_size
            &&& end.when_eof == when_eof
            &&& out + end.unread() + end.buffers[0] == input_of(turns)
            &&& (out.len() + end.unread().len()) % frame_size == 0
            &&& end.phase == Phase::Finished ==> {
                &&& out + end.buffers[0] == input_of(turns)
                &&& end.buffers[0].len() == input_of(turns).len() % frame_size
                &&& input_of(turns).len() % frame_size == 0 ==> out == input_of(turns)
            }
            &&& when_eof == WhenEOF::Close && turns.len() > 0 && fed(turns.last().event).len() == 0
                && turns.last().event is ReadDone ==> end.phase == Phase::Finished
        }),
    decreases turns.len(),
{
    let start = ReaderView::initial(1, frame_size, when_eof, clear_timeout);
    let f = frame_size as int;
    if turns.len() > 0 {
        let before = turns.drop_last();
        assert(no_expiry(before));
        lemma_single_source_integrity(frame_size, when_eof, clear_timeout, before);
        let pre = run(start, before);
        let event = turns.last().event;
        let room = turns.last().room;
        let step = pre.step(event, room);
        let end = step.state;
        let out0 = delivered(start, before);
        let out = delivered(start, turns);
        lemma_step_moves_bytes_along(pre, event, room);
        lemma_sources_close(pre, event, room);
        lemma_configuration_is_fixed(pre, event, room);
        lemma_chain(
            out0,
            pre.unread(),
            pre.buffers[0],
            step.output,
            end.unread(),
            end.buffers[0],
            fed(event),
        );
        assert(out == out0 + step.output);
        lemma_whole_frames((out0.len() + pre.unread().len()) as int, 0, f);
        if end.phase == Phase::Finished {
            lemma_whole_frames(out.len() as int, end.buffers[0].len() as int, f);
        }
    }
}

impl ReaderView {
    /// Whether the reader keeps the sources apart, where `origin(i, b)` says
    /// that the byte `b` can have come from source `i`: every buffer holds
    /// bytes of its own source only, and the current frame holds bytes of
    /// one single source.
    pub open spec fn unmixed(self, origin: spec_fn(int, u8) -> bool) -> bool {
        &&& forall|i: int, k: int|
            0 <= i < self.sources() && 0 <= k < self.buffers[i].len() ==> origin(
                i,
                #[trigger] self.buffers[i][k],
            )
        &&& exists|j: int| #[trigger] self.drawn_from(j, origin)
    }

    /// Whether every byte of the current frame can have come from source
    /// `j`.
    pub open spec fn drawn_from(self, j: int, origin: spec_fn(int, u8) -> bool) -> bool {
        &&& 0 <= j < self.sources()
        &&& forall|k: int| 0 <= k < self.current.len() ==> origin(j, #[trigger] self.current[k])
    }

    /// Whether the bytes that `event` brings in can have come from the
    /// source that was read from.
    pub open spec fn brings(self, event: Event, origin: spec_fn(int, u8) -> bool) -> bool {
        event matches Event::ReadDone { data } ==> forall|k: int|
            0 <= k < data@.len() ==> origin(self.phase->source as int, #[trigger] data@[k])
    }
}

/// Whether every read of `turns` brought in bytes that can have come from
/// the source read from.
pub open spec fn tagged(start: ReaderView, turns: Seq<Turn>, origin: spec_fn(int, u8) -> bool) -> bool
    decreases turns.len(),
{
    turns.len() == 0 || (tagged(start, turns.drop_last(), origin) && run(
        start,
        turns.drop_last(),
    ).brings(turns.last().event, origin))
}

proof fn lemma_step_keeps_sources_apart(
    pre: ReaderView,
    event: Event,
    room: nat,
    origin: spec_fn(int, u8) -> bool,
)
    requires
        pre.wf(),
        pre.expects(event),
        pre.unmixed(origin),
        pre.brings(event, origin),
    ensures
        pre.step(event, room).state.unmixed(origin),
{
    let post = pre.step(event, room).state;
    let old_j = choose|j: int| #[trigger] pre.drawn_from(j, origin);
    lemma_configuration_is_fixed(pre, event, room);
    match event {
        Event::Start => {
            assert(post.drawn_from(old_j, origin));
        },
        Event::Slept => {
            assert(post.drawn_from(old_j, origin));
        },
        Event::Polled { ready, states } => {
            lemma_next_readable(states@, 0);
            assert(post.drawn_from(old_j, origin));
        },
        Event::ReadDone { data } => {
            let s = pre.phase->source as int;
            lemma_next_readable(pre.pending, s + 1);
            let grown = pre.buffers[s] + data@;
            assert forall|k: int| 0 <= k < grown.len() implies origin(s, #[trigger] grown[k]) by {}
            if pre.completes(event) is Some {
                assert(post.drawn_from(s, origin));
            } else {
                assert(post.drawn_from(old_j, origin));
            }
        },
    }
}

/// A reader never mixes its sources.
///
/// Let `origin(i, b)` say that the byte `b` can have come from source `i`.
/// Over any run in which every read brings in bytes of the source read
/// from, every buffer holds bytes of its own source only, the current frame
/// holds bytes of one single source, and what the last step handed to the
/// caller is a part of that frame.
pub proof fn lemma_run_keeps_sources_apart(
    sources: nat,
    frame_size: nat,
    when_eof: WhenEOF,
    clear_timeout: Option<Interval>,
    turns: Seq<Turn>,
    origin: spec_fn(int, u8) -> bool,
)
    requires
        ReaderView::initial(sources, frame_size, when_eof, clear_timeout).wf(),
        follows(ReaderView::initial(sources, frame_size, when_eof, clear_timeout), turns),
        tagged(ReaderView::initial(sources, frame_size, when_eof, clear_timeout), turns, origin),
    ensures
        ({
            let start = ReaderView::initial(sources, frame_size, when_eof, clear_timeout);
            let end = run(start, turns);
            &&& end.wf()
            &&& end.unmixed(origin)
            &&& turns.len() > 0 ==> {
                let last = run(start, turns.drop_last()).step(
                    turns.last().event,
                    turns.last().room,
                );
                &&& last.output.len() <= end.position
                &&& last.output == end.current.subrange(
                    end.position - last.output.len(),
                    end.position as int,
                )
            }
        }),
    decreases turns.len(),
{
    let start = ReaderView::initial(sources, frame_size, when_eof, clear_timeout);
    if turns.len() == 0 {
        assert(start.drawn_from(0, origin));
    } else {
        let before = turns.drop_last();
        lemma_run_keeps_sources_apart(sources, frame_size, when_eof, clear_timeout, before, origin);
        let pre = run(start, before);
        lemma_step_keeps_wf(pre, turns.last().event, turns.last().room);
        lemma_step_keeps_sources_apart(pre, turns.last().event, turns.last().room, origin);
        lemma_output_comes_from_current_frame(pre, turns.last().event, turns.last().room);
    }
}

/// Under `WhenEOF::Retry` no run ever ends the stream: whatever the sources
/// do, the reader never reaches `Phase::Finished`, and no step answers with
/// `Action::EndOfStream`.
pub proof fn lemma_retry_run_never_ends(
    sources: nat,
    frame_size: nat,
    clear_timeout: Option<Interval>,
    turns: Seq<Turn>,
)
    requires
        ReaderView::initial(sources, frame_size, WhenEOF::Retry, clear_timeout).wf(),
        follows(ReaderView::initial(sources, frame_size, WhenEOF::Retry, clear_timeout), turns),
    ensures
        ({
            let start = ReaderView::initial(sources, frame_size, WhenEOF::Retry, clear_timeout);
            let end = run(start, turns);
            &&& end.wf()
            &&& end.when_eof == WhenEOF::Retry
            &&& end.phase != Phase::Finished
            &&& turns.len() > 0 ==> run(start, turns.drop_last()).step(
                turns.last().event,
                turns.last().room,
            ).action != Action::EndOfStream
        }),
    decreases turns.len(),
{
    let start = ReaderView::initial(sources, frame_size, WhenEOF::Retry, clear_timeout);
    if turns.len() > 0 {
        let before = turns.drop_last();
        lemma_retry_run_never_ends(sources, frame_size, clear_timeout, before);
        let pre = run(start, before);
        lemma_step_keeps_wf(pre, turns.last().event, turns.last().room);
        lemma_configuration_is_fixed(pre, turns.last().event, turns.last().room);
        lemma_retry_never_ends(pre, turns.last().event, turns.last().room);
    }
}

} // verus!
