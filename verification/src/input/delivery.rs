//! What a reader hands out when every source holds one frame.

use vstd::prelude::*;
use vstd::set_lib::{lemma_int_range, set_int_range};
use crate::input::interval::Interval;
use crate::input::laws::{lemma_configuration_is_fixed, lemma_next_readable, lemma_step_keeps_wf};
use crate::input::model::{Event, Phase, ReaderView};
use crate::input::readiness::Readiness;
use crate::input::select::WhenEOF;
use crate::input::trace::{delivered, follows, received, run, Turn};

verus! {

/// Whether `part` is the beginning of `whole`.
pub open spec fn is_prefix(part: Seq<u8>, whole: Seq<u8>) -> bool {
    part.len() <= whole.len() && whole.take(part.len() as int) == part
}

/// Whether `event`, coming to the reader in state `pre` after `got` was
/// received from the sources, is what sources that hold `content` can cause.
///
/// A read returns what comes next in its source, and returns nothing only at
/// the source's end.  A readiness wait finds something, and finds a source
/// closed only if everything has been read from it.
pub open spec fn faithful_event(
    pre: ReaderView,
    event: Event,
    got: Seq<Seq<u8>>,
    content: Seq<Seq<u8>>,
) -> bool {
    match event {
        Event::ReadDone { data } => {
            let s = pre.phase->source as int;
            &&& is_prefix(got[s] + data@, content[s])
            &&& data@.len() == 0 ==> got[s] == content[s]
        },
        Event::Polled { ready, states } => {
            &&& ready != 0
            &&& forall|i: int|
                0 <= i < states@.len() && i < content.len() && #[trigger] states@[i]
                    == Readiness::Closed ==> got[i] == content[i]
        },
        _ => true,
    }
}

/// Whether every event of `turns` is what sources that hold `content` can
/// cause.
pub open spec fn faithful(start: ReaderView, turns: Seq<Turn>, content: Seq<Seq<u8>>) -> bool
    decreases turns.len(),
{
    turns.len() == 0 || (faithful(start, turns.drop_last(), content) && faithful_event(
        run(start, turns.drop_last()),
        turns.last().event,
        received(start, turns.drop_last()),
        content,
    ))
}

/// The order after `event`, where `order` holds the sources whose frames
/// were completed before it.
pub open spec fn next_order(pre: ReaderView, event: Event, order: Seq<int>) -> Seq<int> {
    match pre.completes(event) {
        Some(i) => order.push(i),
        None => order,
    }
}

/// The sources whose frames were completed over `turns`, in the order in
/// which they were completed.
pub open spec fn emitted(start: ReaderView, turns: Seq<Turn>) -> Seq<int>
    decreases turns.len(),
{
    if turns.len() == 0 {
        Seq::empty()
    } else {
        next_order(
            run(start, turns.drop_last()),
            turns.last().event,
            emitted(start, turns.drop_last()),
        )
    }
}

/// The content of the sources of `order`, one after the other.
pub open spec fn frames_of(order: Seq<int>, content: Seq<Seq<u8>>) -> Seq<u8>
    decreases order.len(),
{
    if order.len() == 0 {
        Seq::empty()
    } else {
        frames_of(order.drop_last(), content) + content[order.last()]
    }
}

impl ReaderView {
    /// What holds of a reader whose sources hold one frame each, after `got`
    /// was received from them and the frames of `order` were completed.
    ///
    /// What was received from a source is the beginning of what it holds.
    /// The source's buffer holds all of it until the frame is whole; then
    /// the frame has left the buffer, and the source stands in `order`,
    /// once.  A source is closed, or reported closed, only after its frame
    /// was completed.
    #[verifier::opaque]
    pub open spec fn on_course(
        self,
        got: Seq<Seq<u8>>,
        order: Seq<int>,
        content: Seq<Seq<u8>>,
    ) -> bool {
        &&& self.wf()
        &&& self.partial()
        &&& got.len() == self.sources()
        &&& content.len() == self.sources()
        &&& forall|i: int|
            0 <= i < self.sources() ==> (#[trigger] content[i]).len() == self.frame_size
        &&& forall|i: int| 0 <= i < self.sources() ==> is_prefix(#[trigger] got[i], content[i])
        &&& forall|i: int|
            0 <= i < self.sources() ==> #[trigger] self.buffers[i] == (if got[i].len()
                == self.frame_size {
                Seq::<u8>::empty()
            } else {
                got[i]
            })
        &&& forall|i: int|
            0 <= i < self.sources() ==> (#[trigger] order.contains(i) <==> got[i].len()
                == self.frame_size)
        &&& forall|i: int|
            0 <= i < self.sources() && #[trigger] self.closed[i] ==> got[i].len()
                == self.frame_size
        &&& forall|i: int|
            0 <= i < self.pending.len() && i < self.sources() && #[trigger] self.pending[i]
                == Readiness::Closed ==> got[i].len() == self.frame_size
        &&& order.no_duplicates()
        &&& forall|a: int| 0 <= a < order.len() ==> 0 <= #[trigger] order[a] < self.sources()
    }
}

proof fn lemma_step_stays_on_course(
    pre: ReaderView,
    event: Event,
    room: nat,
    got: Seq<Seq<u8>>,
    order: Seq<int>,
    content: Seq<Seq<u8>>,
)
    requires
        pre.on_course(got, order, content),
        pre.expects(event),
        faithful_event(pre, event, got, content),
    ensures
        ({
            let step = pre.step(event, room);
            &&& step.state.on_course(
                pre.received_after(event, got),
                next_order(pre, event, order),
                content,
            )
            &&& step.output + step.state.unread() == pre.unread() + (match pre.completes(event) {
                Some(i) => content[i],
                None => Seq::<u8>::empty(),
            })
        }),
{
    reveal(ReaderView::on_course);
    let post = pre.step(event, room).state;
    let got2 = pre.received_after(event, got);
    let order2 = next_order(pre, event, order);
    let f = pre.frame_size;
    lemma_step_keeps_wf(pre, event, room);
    lemma_configuration_is_fixed(pre, event, room);
    match event {
        Event::Start => {},
        Event::Slept => {},
        Event::Polled { ready, states } => {
            lemma_next_readable(states@, 0);
            assert forall|i: int| 0 <= i < post.sources() && #[trigger] post.closed[i] implies got2[i].len()
                == f by {}
        },
        Event::ReadDone { data } => {
            let s = pre.phase->source as int;
            lemma_next_readable(pre.pending, s + 1);
            assert forall|i: int| 0 <= i < post.sources() && #[trigger] post.closed[i] implies got2[i].len()
                == f by {}
            if data@.len() > 0 {
                // The source has more to give, so it is neither closed nor
                // has its frame been completed.
                assert(!pre.closed[s]);
                assert(!order.contains(s));
                assert forall|i: int| 0 <= i < post.sources() implies is_prefix(
                    #[trigger] got2[i],
                    content[i],
                ) by {}
                assert forall|i: int| 0 <= i < post.sources() implies #[trigger] post.buffers[i]
                    == (if got2[i].len() == f {
                    Seq::<u8>::empty()
                } else {
                    got2[i]
                }) by {}
                if pre.buffers[s].len() + data@.len() == f {
                    // The frame is whole: the source takes its place.
                    assert(order2[order.len() as int] == s);
                    assert forall|i: int| 0 <= i < post.sources() implies (
                    #[trigger] order2.contains(i) <==> got2[i].len() == f) by {
                        if i != s && order.contains(i) {
                            let a = choose|a: int| 0 <= a < order.len() && order[a] == i;
                            assert(order2[a] == i);
                        }
                    }
                    assert(order2.no_duplicates());
                } else {
                    assert forall|i: int| 0 <= i < post.sources() implies (
                    #[trigger] order2.contains(i) <==> got2[i].len() == f) by {}
                }
            }
        },
    }
}

/// The frames of `order` lie one after the other, each in a stretch of its
/// own: the stretch of place `k` is the content of the source at place `k`.
pub proof fn lemma_frames_lie_in_order(order: Seq<int>, content: Seq<Seq<u8>>, size: nat, k: int)
    requires
        forall|a: int|
            0 <= a < order.len() ==> 0 <= #[trigger] order[a] < content.len() && content[order[a]].len()
                == size,
        0 <= k < order.len(),
    ensures
        frames_of(order, content).len() == order.len() * size,
        0 <= k * size <= k * size + size <= frames_of(order, content).len(),
        frames_of(order, content).subrange(k * size, k * size + size) == content[order[k]],
    decreases order.len(),
{
    let n = order.len() as int;
    let rest = order.drop_last();
    let before = frames_of(rest, content);
    assert((n - 1) * size + size == n * size) by (nonlinear_arith);
    if n == 1 {
        assert(k * size == 0) by (nonlinear_arith)
            requires
                k == 0,
        ;
    } else {
        assert forall|a: int| 0 <= a < rest.len() implies 0 <= #[trigger] rest[a] < content.len()
            && content[rest[a]].len() == size by {}
        if k < n - 1 {
            lemma_frames_lie_in_order(rest, content, size, k);
        } else {
            lemma_frames_lie_in_order(rest, content, size, 0);
            assert(k * size == before.len()) by (nonlinear_arith)
                requires
                    k == n - 1,
                    before.len() == (n - 1) * size,
            ;
        }
    }
}

proof fn lemma_start_is_on_course(
    sources: nat,
    frame_size: nat,
    when_eof: WhenEOF,
    clear_timeout: Option<Interval>,
    content: Seq<Seq<u8>>,
)
    requires
        ReaderView::initial(sources, frame_size, when_eof, clear_timeout).wf(),
        content.len() == sources,
        forall|i: int| 0 <= i < sources ==> (#[trigger] content[i]).len() == frame_size,
    ensures
        ReaderView::initial(sources, frame_size, when_eof, clear_timeout).on_course(
            Seq::new(sources, |i: int| Seq::<u8>::empty()),
            Seq::empty(),
            content,
        ),
{
    reveal(ReaderView::on_course);
    let start = ReaderView::initial(sources, frame_size, when_eof, clear_timeout);
    let got = Seq::new(sources, |i: int| Seq::<u8>::empty());
    let order = Seq::<int>::empty();
    assert forall|i: int| 0 <= i < start.sources() implies is_prefix(
        #[trigger] got[i],
        content[i],
    ) by {
        assert(content[i].take(0) =~= got[i]);
    }
    assert forall|i: int| 0 <= i < start.sources() implies !(#[trigger] order.contains(i)) by {}
}

proof fn lemma_frames_move_along(
    out: Seq<u8>,
    unread: Seq<u8>,
    output: Seq<u8>,
    left: Seq<u8>,
    frame: Seq<u8>,
    frames: Seq<u8>,
)
    requires
        out + unread == frames,
        output + left == unread + frame,
    ensures
        (out + output) + left == frames + frame,
{
    assert((out + unread) + frame =~= out + (unread + frame));
}

proof fn lemma_run_stays_on_course(
    sources: nat,
    frame_size: nat,
    when_eof: WhenEOF,
    clear_timeout: Option<Interval>,
    turns: Seq<Turn>,
    content: Seq<Seq<u8>>,
)
    requires
        ReaderView::initial(sources, frame_size, when_eof, clear_timeout).wf(),
        content.len() == sources,
        forall|i: int| 0 <= i < sources ==> (#[trigger] content[i]).len() == frame_size,
        follows(ReaderView::initial(sources, frame_size, when_eof, clear_timeout), turns),
        faithful(ReaderView::initial(sources, frame_size, when_eof, clear_timeout), turns, content),
    ensures
        ({
            let start = ReaderView::initial(sources, frame_size, when_eof, clear_timeout);
            let end = run(start, turns);
            &&& end.wf()
            &&& end.on_course(received(start, turns), emitted(start, turns), content)
            &&& end.sources() == sources
            &&& end.frame_size == frame_size
            &&& delivered(start, turns) + end.unread() == frames_of(emitted(start, turns), content)
        }),
    decreases turns.len(),
{
    let start = ReaderView::initial(sources, frame_size, when_eof, clear_timeout);
    if turns.len() == 0 {
        lemma_start_is_on_course(sources, frame_size, when_eof, clear_timeout, content);
    } else {
        let before = turns.drop_last();
        lemma_run_stays_on_course(sources, frame_size, when_eof, clear_timeout, before, content);
        let pre = run(start, before);
        let event = turns.last().event;
        let room = turns.last().room;
        let step = pre.step(event, room);
        let order = emitted(start, before);
        lemma_step_stays_on_course(pre, event, room, received(start, before), order, content);
        lemma_step_keeps_wf(pre, event, room);
        lemma_configuration_is_fixed(pre, event, room);
        let frame = match pre.completes(event) {
            Some(i) => content[i],
            None => Seq::<u8>::empty(),
        };
        lemma_frames_move_along(
            delivered(start, before),
            pre.unread(),
            step.output,
            step.state.unread(),
            frame,
            frames_of(order, content),
        );
        if let Some(i) = pre.completes(event) {
            assert(order.push(i).drop_last() =~= order);
        }
    }
}

/// Where every source holds one frame, every frame comes out, each once.
///
/// Take any run of a new reader in which every event is what sources that
/// hold `content`, a frame each, can cause.  What has been handed to the
/// caller, followed by what is left of the current frame, is made of whole
/// frames: the stretch at place `k` is all that one source holds, no source
/// has more than one place, and no stretch holds bytes of two sources.  Once
/// the stream has ended, every source has its place and the caller has
/// received all of it: as many frames as there are sources.
pub proof fn lemma_every_frame_comes_out_once(
    sources: nat,
    frame_size: nat,
    when_eof: WhenEOF,
    clear_timeout: Option<Interval>,
    turns: Seq<Turn>,
    content: Seq<Seq<u8>>,
)
    requires
        ReaderView::initial(sources, frame_size, when_eof, clear_timeout).wf(),
        content.len() == sources,
        forall|i: int| 0 <= i < sources ==> (#[trigger] content[i]).len() == frame_size,
        follows(ReaderView::initial(sources, frame_size, when_eof, clear_timeout), turns),
        faithful(ReaderView::initial(sources, frame_size, when_eof, clear_timeout), turns, content),
    ensures
        ({
            let start = ReaderView::initial(sources, frame_size, when_eof, clear_timeout);
            let end = run(start, turns);
            let out = delivered(start, turns);
            let order = emitted(start, turns);
            &&& out + end.unread() == frames_of(order, content)
            &&& out.len() + end.unread().len() == order.len() * frame_size
            &&& order.no_duplicates()
            &&& forall|k: int|
                0 <= k < order.len() ==> 0 <= #[trigger] order[k] < sources && (out
                    + end.unread()).subrange(k * frame_size, k * frame_size + frame_size)
                    == content[order[k]]
            &&& end.phase == Phase::Finished ==> {
                &&& out == frames_of(order, content)
                &&& order.len() == sources
                &&& out.len() == sources * frame_size
                &&& forall|j: int| 0 <= j < sources ==> #[trigger] order.contains(j)
            }
        }),
{
    let start = ReaderView::initial(sources, frame_size, when_eof, clear_timeout);
    let end = run(start, turns);
    let out = delivered(start, turns);
    let order = emitted(start, turns);
    lemma_run_stays_on_course(sources, frame_size, when_eof, clear_timeout, turns, content);
    reveal(ReaderView::on_course);
    assert forall|a: int| 0 <= a < order.len() implies 0 <= #[trigger] order[a] < content.len()
        && content[order[a]].len() == frame_size by {}
    assert forall|k: int| 0 <= k < order.len() implies 0 <= #[trigger] order[k] < sources && (out
        + end.unread()).subrange(k * frame_size, k * frame_size + frame_size)
        == content[order[k]] by {
        lemma_frames_lie_in_order(order, content, frame_size, k);
    }
    if order.len() > 0 {
        lemma_frames_lie_in_order(order, content, frame_size, 0);
    } else {
        assert(order.len() * frame_size == 0) by (nonlinear_arith)
            requires
                order.len() == 0,
        ;
    }
    if end.phase == Phase::Finished {
        assert forall|j: int| 0 <= j < sources implies #[trigger] order.contains(j) by {
            assert(end.closed[j]);
        }
        assert(order.to_set() =~= set_int_range(0, sources as int));
        lemma_int_range(0, sources as int);
        order.unique_seq_to_set();
    }
}

} // verus!
