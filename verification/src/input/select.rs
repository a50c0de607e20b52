//! The reader that multiplexes several sources into whole frames.

use vstd::prelude::*;
use vstd::pervasive::unreached;
use crate::input::interval::{Interval, WAIT_FOREVER};
use crate::input::laws::lemma_step_keeps_wf;
use crate::input::model::{
    mark_closed, next_readable, Action, Event, Phase, ReaderView, RETRY_PAUSE_NANOS,
};
use crate::input::readiness::Readiness;

verus! {

/// What the reader does once every source has reached its end.
#[derive(Copy, Clone, Debug, PartialEq, Eq, Structural)]
pub enum WhenEOF {
    /// Signal the end of the stream.
    Close,
    /// Never signal the end: keep waiting for the sources.
    Retry,
}

/// Gathers the bytes of several sources into frames of a fixed size and
/// hands out one whole frame at a time.
///
/// The reader does not touch the sources.  Each call of [`Reader::read`]
/// takes what happened and says what to do next; whoever drives the reader
/// waits, reads and sleeps on its behalf.
pub struct Reader {
    when_eof: WhenEOF,
    // The number of bytes after which another source is selected.
    switch_after: usize,
    // The time after which a partially received frame is discarded.
    clear_timeout: Option<Interval>,
    // A buffer for each source, holding the part of a frame received so far.
    buffers: Vec<Vec<u8>>,
    // For each source, whether it was found closed.
    closed: Vec<bool>,
    // What the last readiness wait found of each source.
    pending: Vec<Readiness>,
    // The frame selected for output.
    current: Vec<u8>,
    // How much of the frame has been put out.
    position: usize,
    phase: Phase,
}

impl View for Reader {
    type V = ReaderView;

    closed spec fn view(&self) -> ReaderView {
        ReaderView {
            when_eof: self.when_eof,
            frame_size: self.switch_after as nat,
            clear_timeout: self.clear_timeout,
            buffers: self.buffers@.map_values(|b: Vec<u8>| b@),
            closed: self.closed@,
            pending: self.pending@,
            current: self.current@,
            position: self.position as nat,
            phase: self.phase,
        }
    }
}

/// Takes the first `frame_size` bytes out of `buffer` as a frame and leaves
/// the bytes after them as the buffer's new content.
pub fn rotate(buffer: &mut Vec<u8>, frame_size: usize) -> (frame: Vec<u8>)
    requires
        frame_size <= old(buffer)@.len(),
    ensures
        frame@ == old(buffer)@.take(frame_size as int),
        final(buffer)@ == old(buffer)@.skip(frame_size as int),
{
    let mut rest = buffer.split_off(frame_size);
    std::mem::swap(buffer, &mut rest);
    rest
}

impl Reader {
    /// A reader over `sources` sources that cuts frames of `switch_after`
    /// bytes.
    pub fn from(
        sources: usize,
        switch_after: usize,
        when_eof: WhenEOF,
        clear_timeout: Option<Interval>,
    ) -> (reader: Reader)
        requires
            sources >= 1,
            switch_after >= 1,
            clear_timeout matches Some(t) ==> t.wf() && t.fits_wait(),
        ensures
            reader@ == ReaderView::initial(
                sources as nat,
                switch_after as nat,
                when_eof,
                clear_timeout,
            ),
            reader@.wf(),
    {
        let mut buffers: Vec<Vec<u8>> = Vec::with_capacity(sources);
        let mut closed: Vec<bool> = Vec::with_capacity(sources);
        let mut i: usize = 0;
        while i < sources
            invariant
                i <= sources,
                buffers@.len() == i,
                closed@.len() == i,
                forall|j: int| 0 <= j < i ==> (#[trigger] buffers@[j])@ == Seq::<u8>::empty(),
                forall|j: int| 0 <= j < i ==> !closed@[j],
            decreases sources - i,
        {
            buffers.push(Vec::with_capacity(switch_after));
            closed.push(false);
            i += 1;
        }
        Reader {
            when_eof,
            switch_after,
            clear_timeout,
            buffers,
            closed,
            pending: Vec::new(),
            current: Vec::new(),
            position: 0,
            phase: Phase::Idle,
        }
    }

    fn all_closed(&self) -> (all: bool)
        ensures
            all == self@.all_closed(),
    {
        let mut i: usize = 0;
        while i < self.closed.len()
            invariant
                i <= self.closed@.len(),
                forall|j: int| 0 <= j < i ==> self.closed@[j],
            decreases self.closed@.len() - i,
        {
            if !self.closed[i] {
                assert(!self@.closed[i as int]);
                return false;
            }
            i += 1;
        }
        true
    }

    fn deliver(&mut self, buf: &mut [u8]) -> (action: Action)
        requires
            old(self)@.position <= old(self)@.current.len(),
        ensures
            old(self)@.deliver(old(buf)@.len()).describes(
                final(self)@,
                action,
                old(buf)@,
                final(buf)@,
            ),
    {
        let left: usize = self.current.len() - self.position;
        let count: usize = if buf.len() < left { buf.len() } else { left };
        let mut k: usize = 0;
        while k < count
            invariant
                k <= count,
                count <= buf@.len(),
                self.position + count <= self.current.len(),
                buf@.len() == old(buf)@.len(),
                buf@ == self.current@.subrange(self.position as int, self.position + k)
                    + old(buf)@.skip(k as int),
                *self == *old(self),
            decreases count - k,
        {
            buf[k] = self.current[self.position + k];
            k += 1;
        }
        self.position = self.position + count;
        self.phase = Phase::Idle;
        Action::Deliver { count }
    }

    fn poll(&mut self) -> (action: Action)
        requires
            old(self)@.clear_timeout matches Some(t) ==> t.wf() && t.fits_wait(),
        ensures
            final(self)@ == old(self)@.poll().state,
            action == old(self)@.poll().action,
    {
        self.phase = Phase::Polling;
        let timeout: i32 = match &self.clear_timeout {
            Some(t) => t.wait_millis(),
            None => WAIT_FOREVER,
        };
        Action::Poll { timeout }
    }

    fn start(&mut self, buf: &mut [u8]) -> (action: Action)
        requires
            old(self)@.wf(),
        ensures
            old(self)@.start(old(buf)@.len()).describes(
                final(self)@,
                action,
                old(buf)@,
                final(buf)@,
            ),
    {
        if self.position < self.current.len() {
            self.deliver(buf)
        } else if self.phase == Phase::Finished {
            Action::EndOfStream
        } else {
            let action = self.poll();
            assert(buf@ =~= Seq::<u8>::empty() + buf@.skip(0));
            action
        }
    }

    fn slept(&mut self, buf: &mut [u8]) -> (action: Action)
        requires
            old(self)@.wf(),
        ensures
            old(self)@.slept(old(buf)@.len()).describes(
                final(self)@,
                action,
                old(buf)@,
                final(buf)@,
            ),
    {
        if self.position < self.current.len() {
            self.deliver(buf)
        } else {
            let action = self.poll();
            assert(buf@ =~= Seq::<u8>::empty() + buf@.skip(0));
            action
        }
    }

    fn turn(&mut self, source: usize)
        requires
            source < old(self)@.buffers.len(),
            old(self)@.frame_size <= old(self)@.buffers[source as int].len(),
        ensures
            final(self)@ == old(self)@.rotate(source as int),
    {
        let frame = rotate(&mut self.buffers[source], self.switch_after);
        self.current = frame;
        self.position = 0;
    }

    fn conclude(&mut self, ready: Option<usize>, buf: &mut [u8]) -> (action: Action)
        requires
            old(self)@.clear_timeout matches Some(t) ==> t.wf() && t.fits_wait(),
            ready matches Some(i) ==> i < old(self)@.buffers.len() && old(self)@.frame_size
                <= old(self)@.buffers[i as int].len(),
        ensures
            old(self)@.conclude(ready, old(buf)@.len()).describes(
                final(self)@,
                action,
                old(buf)@,
                final(buf)@,
            ),
    {
        if self.all_closed() {
            assert(buf@ =~= Seq::<u8>::empty() + buf@.skip(0));
            match self.when_eof {
                WhenEOF::Close => {
                    self.phase = Phase::Finished;
                    Action::EndOfStream
                },
                WhenEOF::Retry => {
                    if let Some(i) = ready {
                        self.turn(i);
                    }
                    self.phase = Phase::Sleeping;
                    let pause = match self.clear_timeout {
                        Some(t) => t,
                        None => Interval { secs: 0, nanos: RETRY_PAUSE_NANOS },
                    };
                    Action::Sleep { pause }
                },
            }
        } else {
            match ready {
                Some(i) => {
                    self.turn(i);
                    self.deliver(buf)
                },
                None => {
                    let action = self.poll();
                    assert(buf@ =~= Seq::<u8>::empty() + buf@.skip(0));
                    action
                },
            }
        }
    }

    fn scan(&mut self, from: usize, buf: &mut [u8]) -> (action: Action)
        requires
            old(self)@.clear_timeout matches Some(t) ==> t.wf() && t.fits_wait(),
            old(self)@.closed.len() == old(self)@.buffers.len(),
            old(self)@.pending.len() == old(self)@.buffers.len(),
            from <= old(self)@.buffers.len(),
            forall|i: int|
                0 <= i < old(self)@.buffers.len() ==> (#[trigger] old(self)@.buffers[i]).len()
                    <= old(self)@.frame_size,
        ensures
            old(self)@.scan(from as int, old(buf)@.len()).describes(
                final(self)@,
                action,
                old(buf)@,
                final(buf)@,
            ),
    {
        let ghost start = self@;
        let mut i: usize = from;
        while i < self.pending.len()
            invariant
                from <= i <= self.pending@.len(),
                start == old(self)@,
                start.closed.len() == start.buffers.len(),
                start.pending.len() == start.buffers.len(),
                forall|j: int|
                    0 <= j < start.buffers.len() ==> (#[trigger] start.buffers[j]).len()
                        <= start.frame_size,
                self@ == (ReaderView {
                    closed: mark_closed(start.closed, start.pending, from as int, i as int),
                    ..start
                }),
                next_readable(start.pending, from as int) == next_readable(start.pending, i as int),
                buf@ == old(buf)@,
            decreases self.pending@.len() - i,
        {
            match self.pending[i] {
                Readiness::Readable => {
                    let len: usize = self.switch_after - self.buffers[i].len();
                    self.phase = Phase::Reading { source: i };
                    assert(buf@ =~= Seq::<u8>::empty() + buf@.skip(0));
                    return Action::Read { source: i, len };
                },
                Readiness::Closed => {
                    self.closed[i] = true;
                },
                Readiness::Idle => {},
            }
            i += 1;
        }
        self.conclude(None, buf)
    }

    fn polled(&mut self, ready: i32, states: Vec<Readiness>, buf: &mut [u8]) -> (action: Action)
        requires
            old(self)@.wf(),
            old(self)@.expects(Event::Polled { ready, states }),
        ensures
            old(self)@.polled(ready, states@, old(buf)@.len()).describes(
                final(self)@,
                action,
                old(buf)@,
                final(buf)@,
            ),
    {
        if ready == 0 {
            // The timeout expired: clear the buffers.
            let mut i: usize = 0;
            while i < self.buffers.len()
                invariant
                    i <= self.buffers@.len(),
                    self@.buffers.len() == old(self)@.buffers.len(),
                    forall|j: int| 0 <= j < i ==> (#[trigger] self@.buffers[j]).len() == 0,
                    forall|j: int|
                        i <= j < self@.buffers.len() ==> #[trigger] self@.buffers[j] == old(
                            self,
                        )@.buffers[j],
                    self@ == (ReaderView { buffers: self@.buffers, ..old(self)@ }),
                decreases self.buffers@.len() - i,
            {
                let ghost before = self@;
                self.buffers[i].clear();
                assert(self@.buffers =~~= before.buffers.update(i as int, Seq::<u8>::empty()));
                i += 1;
            }
        }
        self.pending = states;
        assert(self@ =~~= (ReaderView {
            buffers: if ready == 0 {
                Seq::new(old(self)@.buffers.len(), |i: int| Seq::<u8>::empty())
            } else {
                old(self)@.buffers
            },
            pending: states@,
            ..old(self)@
        }));
        self.scan(0, buf)
    }

    fn read_done(&mut self, data: Vec<u8>, buf: &mut [u8]) -> (action: Action)
        requires
            old(self)@.wf(),
            old(self)@.expects(Event::ReadDone { data }),
        ensures
            old(self)@.read_done(data@, old(buf)@.len()).describes(
                final(self)@,
                action,
                old(buf)@,
                final(buf)@,
            ),
    {
        let source: usize = match self.phase {
            Phase::Reading { source } => source,
            _ => unreached(),
        };
        if data.len() == 0 {
            // The source is at its end.
            self.closed[source] = true;
            self.scan(source + 1, buf)
        } else {
            let ghost received = data@;
            let mut data = data;
            self.buffers[source].append(&mut data);
            assert(self@ =~~= (ReaderView {
                buffers: old(self)@.buffers.update(
                    source as int,
                    old(self)@.buffers[source as int] + received,
                ),
                ..old(self)@
            }));
            if self.buffers[source].len() == self.switch_after {
                self.conclude(Some(source), buf)
            } else {
                self.scan(source + 1, buf)
            }
        }
    }

    /// Takes one step: told what happened, the reader says what to do next.
    ///
    /// A request for bytes begins with `Event::Start`.  The reader answers
    /// each event with an action; the driver carries the action out and
    /// reports with the matching event, until the answer is
    /// `Action::Deliver` or `Action::EndOfStream`, which end the request.
    /// Delivered bytes are written to the start of `buf`.
    pub fn read(&mut self, event: Event, buf: &mut [u8]) -> (action: Action)
        requires
            old(self)@.wf(),
            old(self)@.expects(event),
        ensures
            old(self)@.step(event, old(buf)@.len()).describes(
                final(self)@,
                action,
                old(buf)@,
                final(buf)@,
            ),
            final(self)@.wf(),
    {
        proof {
            lemma_step_keeps_wf(self@, event, buf@.len());
        }
        match event {
            Event::Start => self.start(buf),
            Event::Polled { ready, states } => self.polled(ready, states, buf),
            Event::ReadDone { data } => self.read_done(data, buf),
            Event::Slept => self.slept(buf),
        }
    }

    /// Whether `event` answers what the reader is waiting for, so that
    /// `read` may be called with it.
    pub fn accepts(&self, event: &Event) -> (ok: bool)
        requires
            self@.wf(),
        ensures
            ok == self@.expects(*event),
    {
        match event {
            Event::Start => true,
            Event::Polled { ready, states } => {
                self.phase == Phase::Polling && states.len() == self.buffers.len() && (*ready != 0
                    || self.clear_timeout.is_some())
            },
            Event::ReadDone { data } => match self.phase {
                Phase::Reading { source } => {
                    assert(self@.buffers[source as int].len() <= self@.frame_size);
                    data.len() <= self.switch_after - self.buffers[source].len()
                },
                _ => false,
            },
            Event::Slept => self.phase == Phase::Sleeping,
        }
    }

    /// The number of sources.
    pub fn sources(&self) -> (n: usize)
        ensures
            n == self@.sources(),
    {
        self.buffers.len()
    }

    /// The length of a frame.
    pub fn frame_size(&self) -> (n: usize)
        ensures
            n == self@.frame_size,
    {
        self.switch_after
    }

    /// What the reader does once every source is closed.
    pub fn when_eof(&self) -> (policy: WhenEOF)
        ensures
            policy == self@.when_eof,
    {
        self.when_eof
    }

    /// How long the sources may stay silent before partial frames are
    /// dropped.
    pub fn clear_timeout(&self) -> (timeout: Option<Interval>)
        ensures
            timeout == self@.clear_timeout,
    {
        self.clear_timeout
    }

    /// What the reader is waiting for.
    pub fn phase(&self) -> (phase: Phase)
        ensures
            phase == self@.phase,
    {
        self.phase
    }

    /// Whether source `source` has been found closed.
    pub fn is_closed(&self, source: usize) -> (closed: bool)
        requires
            self@.wf(),
            source < self@.sources(),
        ensures
            closed == self@.closed[source as int],
    {
        self.closed[source]
    }

    /// How many bytes of its next frame source `source` has delivered.
    pub fn buffered(&self, source: usize) -> (n: usize)
        requires
            source < self@.sources(),
        ensures
            n == self@.buffers[source as int].len(),
    {
        self.buffers[source].len()
    }

    /// How many bytes of the current frame are left to hand out.
    pub fn unread(&self) -> (n: usize)
        requires
            self@.wf(),
        ensures
            n == self@.current.len() - self@.position,
    {
        self.current.len() - self.position
    }
}

} // verus!
