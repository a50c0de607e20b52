use std::collections::VecDeque;
use std::io;
use std::io::Read;

use ledcat::input::interval::Interval;
use ledcat::input::model::{Action, Event, Phase};
use ledcat::input::readiness::{
    classify, first_unknown, poll_outcome, polled, polled_with_gaps, readiness_query, Readiness,
};
use ledcat::input::select::{rotate, Reader, WhenEOF};
use ledcat::input::source::{fetch, fetched, FetchError, ReadFd};
use nix::poll::EventFlags;

/// A source as the operating system presents it to a readiness wait.
enum Source {
    /// A regular file: always readable; a read at its end returns nothing.
    /// A read returns at most `chunk` bytes at a time.
    File { data: Vec<u8>, pos: usize, chunk: usize },
    /// A pipe: readable while it holds bytes, and hung up once it is empty
    /// and no writer is left.
    Pipe { queue: VecDeque<u8>, writers: usize },
}

impl Source {
    fn file(data: Vec<u8>) -> Source {
        Source::File { data, pos: 0, chunk: usize::MAX }
    }

    fn pipe() -> Source {
        Source::Pipe { queue: VecDeque::new(), writers: 1 }
    }

    fn revents(&self) -> EventFlags {
        match self {
            Source::File { .. } => EventFlags::POLLIN,
            Source::Pipe { queue, writers } => {
                let mut flags = EventFlags::empty();
                if !queue.is_empty() {
                    flags.insert(EventFlags::POLLIN);
                }
                if *writers == 0 {
                    flags.insert(EventFlags::POLLHUP);
                }
                flags
            }
        }
    }
}

impl ReadFd for Source {
    type Error = io::Error;

    fn as_raw_fd(&self) -> i32 {
        -1
    }

    fn read(&mut self, buf: &mut [u8]) -> io::Result<usize> {
        match self {
            Source::File { data, pos, chunk } => {
                let n: usize = buf.len().min(*chunk).min(data.len() - *pos);
                buf[..n].copy_from_slice(&data[*pos..*pos + n]);
                *pos += n;
                Ok(n)
            }
            Source::Pipe { queue, .. } => {
                let n: usize = buf.len().min(queue.len());
                for (slot, byte) in buf.iter_mut().zip(queue.drain(..n)) {
                    *slot = byte;
                }
                Ok(n)
            }
        }
    }
}

/// A source that does not keep to the rules of reading.
struct Liar {
    claim: io::Result<usize>,
}

impl ReadFd for Liar {
    type Error = io::Error;

    fn as_raw_fd(&self) -> i32 {
        -1
    }

    fn read(&mut self, _: &mut [u8]) -> io::Result<usize> {
        std::mem::replace(&mut self.claim, Ok(0))
    }
}

/// What happens around the reader while it waits.
enum Then {
    /// A writer sends bytes into a pipe.
    Send { source: usize, bytes: Vec<u8> },
    /// A writer closes its end of a pipe.
    Hangup { source: usize },
    /// Nothing, for longer than any timeout.
    Silence,
}

/// Drives a reader the way a program around it would, against sources held
/// in memory.
struct Driver {
    reader: Reader,
    sources: Vec<Source>,
    script: VecDeque<Then>,
    patience: usize,
    actions: Vec<Action>,
}

impl Driver {
    fn new(
        sources: Vec<Source>,
        switch_after: usize,
        when_eof: WhenEOF,
        clear_timeout: Option<Interval>,
    ) -> Driver {
        assert_ne!(sources.len(), 0);
        Driver {
            reader: Reader::from(sources.len(), switch_after, when_eof, clear_timeout),
            sources,
            script: VecDeque::new(),
            patience: 1000,
            actions: Vec::new(),
        }
    }

    fn apply(&mut self, then: Then) -> bool {
        match then {
            Then::Send { source, bytes } => {
                if let Source::Pipe { queue, .. } = &mut self.sources[source] {
                    queue.extend(bytes);
                }
                false
            }
            Then::Hangup { source } => {
                if let Source::Pipe { writers, .. } = &mut self.sources[source] {
                    *writers = 0;
                }
                false
            }
            Then::Silence => true,
        }
    }

    fn tire(&mut self) {
        if self.patience == 0 {
            panic!("Timeout expired");
        }
        self.patience -= 1;
    }

    fn wait(&mut self, timeout: i32) -> Event {
        loop {
            let revents: Vec<EventFlags> = self.sources.iter().map(|s| s.revents()).collect();
            let ready: usize = revents.iter().filter(|r| !r.is_empty()).count();
            if revents.iter().any(|r| r.contains(EventFlags::POLLIN)) {
                return Event::Polled { ready: ready as i32, states: revents.iter().map(classify).collect() };
            }
            // Nobody has data: the world moves on.
            let silent = match self.script.pop_front() {
                Some(then) => self.apply(then),
                None => true,
            };
            if silent {
                if ready == 0 && (timeout < 0 || self.script.is_empty()) {
                    panic!("Timeout expired");
                }
                self.tire();
                return Event::Polled { ready: ready as i32, states: revents.iter().map(classify).collect() };
            }
        }
    }
}

impl io::Read for Driver {
    fn read(&mut self, buf: &mut [u8]) -> io::Result<usize> {
        let mut event = Event::Start;
        loop {
            assert!(self.reader.accepts(&event));
            let action = self.reader.read(event, buf);
            self.actions.push(action);
            event = match action {
                Action::Deliver { count } => return Ok(count),
                Action::EndOfStream => return Ok(0),
                Action::Poll { timeout } => self.wait(timeout),
                Action::Read { source, len } => {
                    assert!(len >= 1);
                    match fetch(&mut self.sources[source], len) {
                        Ok(event) => event,
                        Err(FetchError::Failed(err)) => return Err(err),
                        Err(FetchError::Overrun { .. }) => panic!("the source overran"),
                    }
                }
                Action::Sleep { .. } => {
                    self.tire();
                    Event::Slept
                }
            };
        }
    }
}

fn repeated(value: u8, len: usize) -> Vec<u8> {
    vec![value; len]
}

#[test]
fn read_one_input() {
    let len: usize = 100;
    let num: usize = 16;
    let mut testdata: Vec<u8> = Vec::new();
    for i in 1..num + 1 {
        testdata.extend(repeated(i as u8, len));
    }

    let mut reader = Driver::new(vec![Source::file(testdata.clone())], len, WhenEOF::Close, None);

    for i in 0..num {
        let mut rd_buf = vec![0; len];
        reader.read_exact(&mut rd_buf).unwrap();
        assert_eq!(testdata[len * i..len * (i + 1)], rd_buf[..]);
    }
    assert_eq!(0, io::copy(&mut reader, &mut io::sink()).unwrap());
}

#[test]
fn read_multiple_inputs_order() {
    let len: usize = 100;
    let num: u8 = 16;

    let mut reader = Driver::new(
        (1..num + 1).map(|i| Source::file(repeated(i, len))).collect(),
        len,
        WhenEOF::Close,
        None,
    );

    for i in 1..num + 1 {
        let mut rd_buf = vec![0; len];
        reader.read_exact(&mut rd_buf).unwrap();
        let expected: Vec<u8> = repeated(i, len);
        assert_eq!(expected, rd_buf);
    }
    assert_eq!(0, io::copy(&mut reader, &mut io::sink()).unwrap());
}

#[test]
fn read_eof() {
    let mut reader = Driver::new(
        vec![Source::file(Vec::new()), Source::file(Vec::new())],
        1,
        WhenEOF::Close,
        None,
    );
    assert_eq!(0, io::copy(&mut reader, &mut io::sink()).unwrap());
}

#[test]
#[should_panic(expected = "Timeout expired")]
fn read_eof_retry() {
    let mut reader = Driver::new(vec![Source::file(Vec::new())], 1, WhenEOF::Retry, None);
    io::copy(&mut reader, &mut io::sink()).unwrap();
}

#[test]
fn read_unix_fifo() {
    let len: usize = 10;
    let (pat1, pat2): (u8, u8) = (12, 42);

    let mut reader = Driver::new(vec![Source::pipe(), Source::pipe()], len, WhenEOF::Close, None);

    let mut rd_buf = vec![0; len];

    // Send a partial frame over fifo 1...
    reader.apply(Then::Send { source: 0, bytes: repeated(pat1, len - 1) });

    // Send and receive a full frame over fifo 2.
    let testdata: Vec<u8> = repeated(pat2, len);
    reader.apply(Then::Send { source: 1, bytes: testdata.clone() });
    reader.read_exact(&mut rd_buf).unwrap();
    assert_eq!(testdata, rd_buf);
    rd_buf.resize(len, 0);

    // ...and complete that first frame over fifo 1.
    reader.apply(Then::Send { source: 0, bytes: repeated(pat1, 1) });
    reader.read_exact(&mut rd_buf).unwrap();
    let expected: Vec<u8> = repeated(pat1, len);
    assert_eq!(expected, rd_buf);

    reader.apply(Then::Hangup { source: 0 });
    reader.apply(Then::Hangup { source: 1 });
    assert_eq!(0, io::copy(&mut reader, &mut io::sink()).unwrap());
}

#[test]
fn clear_timeout() {
    let len: usize = 10;
    let timeout = Interval::new(0, 100_000_000); // 100ms

    let mut reader = Driver::new(vec![Source::pipe()], len, WhenEOF::Close, Some(timeout));

    // Send a partial frame over the fifo.
    reader.script.push_back(Then::Send { source: 0, bytes: repeated(1, len - 1) });
    // Wait for the clear timeout to expire and the partial frame to be discarded.
    reader.script.push_back(Then::Silence);
    // Send a full frame over the fifo.
    reader.script.push_back(Then::Send { source: 0, bytes: repeated(2, len) });

    // Read a full frame, it should not contain data from the first partially sent frame.
    let mut rd_buf = vec![0; len];
    reader.read_exact(&mut rd_buf).unwrap();
    assert_eq!(vec![2; len], rd_buf);
    assert!(reader.actions.contains(&Action::Poll { timeout: 100 }));
}

#[test]
fn frames_survive_any_chunking() {
    let len: usize = 10;
    let frames: usize = 7;
    let testdata: Vec<u8> = (0..len * frames).map(|i| (i * 7 % 251) as u8).collect();
    for chunk in 1..len + 3 {
        let source = Source::File { data: testdata.clone(), pos: 0, chunk };
        let mut reader = Driver::new(vec![source], len, WhenEOF::Close, None);
        let mut out: Vec<u8> = Vec::new();
        for _ in 0..frames {
            let mut rd_buf = vec![0; len];
            assert_eq!(len, reader.read(&mut rd_buf).unwrap());
            out.extend(rd_buf);
        }
        assert_eq!(testdata, out);
        let mut rd_buf = vec![0; len];
        assert_eq!(0, reader.read(&mut rd_buf).unwrap());
        assert_eq!(0, reader.read(&mut rd_buf).unwrap());
        assert_eq!(Phase::Finished, reader.reader.phase());
    }
}

#[test]
fn trailing_partial_frame_is_never_delivered() {
    let mut reader = Driver::new(vec![Source::file(repeated(9, 25))], 10, WhenEOF::Close, None);
    let mut out: Vec<u8> = Vec::new();
    assert_eq!(20, io::copy(&mut reader, &mut out).unwrap());
    assert_eq!(repeated(9, 20), out);
    assert_eq!(5, reader.reader.buffered(0));
}

#[test]
fn frames_are_never_mixed() {
    let len: usize = 8;
    let mut reader = Driver::new(
        vec![Source::pipe(), Source::pipe(), Source::pipe()],
        len,
        WhenEOF::Close,
        None,
    );
    // The writers take turns, a few bytes at a time.
    for round in 0..4 {
        for source in 0..3 {
            let bytes = repeated(10 + source as u8, if round < 3 { 2 + source } else { 8 });
            reader.script.push_back(Then::Send { source, bytes });
        }
    }
    for source in 0..3 {
        reader.script.push_back(Then::Hangup { source });
    }
    let mut seen: Vec<u8> = Vec::new();
    loop {
        let mut rd_buf = vec![0; len];
        let n: usize = reader.read(&mut rd_buf).unwrap();
        if n == 0 {
            break;
        }
        assert_eq!(len, n);
        assert!(rd_buf.iter().all(|b| *b == rd_buf[0]));
        seen.push(rd_buf[0]);
    }
    assert!(seen.len() >= 3);
    assert!(seen.contains(&10) && seen.contains(&11) && seen.contains(&12));
}

#[test]
fn lowest_source_wins_a_tie() {
    let mut reader = Reader::from(3, 2, WhenEOF::Close, None);
    let mut buf = [0u8; 2];
    assert_eq!(Action::Poll { timeout: -1 }, reader.read(Event::Start, &mut buf));
    let states = vec![Readiness::Idle, Readiness::Readable, Readiness::Readable];
    assert_eq!(
        Action::Read { source: 1, len: 2 },
        reader.read(Event::Polled { ready: 2, states }, &mut buf)
    );
    assert_eq!(Phase::Reading { source: 1 }, reader.phase());
    assert_eq!(
        Action::Deliver { count: 2 },
        reader.read(Event::ReadDone { data: vec![5, 6] }, &mut buf)
    );
    assert_eq!([5, 6], buf);
    // The third source was not read from in that round.
    assert_eq!(0, reader.buffered(2));
    assert_eq!(Phase::Idle, reader.phase());
}

#[test]
fn a_frame_is_handed_out_in_pieces() {
    let mut reader = Reader::from(1, 10, WhenEOF::Close, None);
    let mut buf = [0u8; 4];
    reader.read(Event::Start, &mut buf);
    reader.read(Event::Polled { ready: 1, states: vec![Readiness::Readable] }, &mut buf);
    let frame: Vec<u8> = (1..11).collect();
    assert_eq!(
        Action::Deliver { count: 4 },
        reader.read(Event::ReadDone { data: frame }, &mut buf)
    );
    assert_eq!([1, 2, 3, 4], buf);
    assert_eq!(6, reader.unread());
    assert_eq!(Action::Deliver { count: 4 }, reader.read(Event::Start, &mut buf));
    assert_eq!([5, 6, 7, 8], buf);
    assert_eq!(Action::Deliver { count: 2 }, reader.read(Event::Start, &mut buf));
    assert_eq!([9, 10, 7, 8], buf);
    assert_eq!(Action::Poll { timeout: -1 }, reader.read(Event::Start, &mut buf));
    // A caller without room gets nothing, and nothing is lost.
    let mut reader = Reader::from(1, 3, WhenEOF::Close, None);
    let mut none = [0u8; 0];
    reader.read(Event::Start, &mut none);
    reader.read(Event::Polled { ready: 1, states: vec![Readiness::Readable] }, &mut none);
    assert_eq!(
        Action::Deliver { count: 0 },
        reader.read(Event::ReadDone { data: vec![1, 2, 3] }, &mut none)
    );
    assert_eq!(3, reader.unread());
}

#[test]
fn reads_never_cross_a_frame() {
    let mut reader = Reader::from(2, 10, WhenEOF::Close, None);
    let mut buf = [0u8; 10];
    reader.read(Event::Start, &mut buf);
    let states = vec![Readiness::Readable, Readiness::Readable];
    assert_eq!(
        Action::Read { source: 0, len: 10 },
        reader.read(Event::Polled { ready: 2, states }, &mut buf)
    );
    assert_eq!(
        Action::Read { source: 1, len: 10 },
        reader.read(Event::ReadDone { data: vec![1; 7] }, &mut buf)
    );
    assert_eq!(
        Action::Poll { timeout: -1 },
        reader.read(Event::ReadDone { data: vec![2; 4] }, &mut buf)
    );
    assert_eq!(7, reader.buffered(0));
    assert_eq!(4, reader.buffered(1));
    let states = vec![Readiness::Readable, Readiness::Idle];
    assert_eq!(
        Action::Read { source: 0, len: 3 },
        reader.read(Event::Polled { ready: 1, states }, &mut buf)
    );
    // More than was asked for is not accepted.
    assert!(!reader.accepts(&Event::ReadDone { data: vec![1; 4] }));
    assert!(reader.accepts(&Event::ReadDone { data: vec![1; 3] }));
    assert!(!reader.accepts(&Event::Slept));
    assert!(!reader.accepts(&Event::Polled { ready: 1, states: vec![Readiness::Idle; 2] }));
    assert!(reader.accepts(&Event::Start));
}

#[test]
fn timeout_drops_every_partial_frame() {
    let timeout = Interval::new(1, 500_000_000);
    let mut reader = Reader::from(2, 10, WhenEOF::Close, Some(timeout));
    let mut buf = [0u8; 10];
    assert_eq!(Action::Poll { timeout: 1500 }, reader.read(Event::Start, &mut buf));
    let states = vec![Readiness::Readable, Readiness::Readable];
    reader.read(Event::Polled { ready: 2, states }, &mut buf);
    reader.read(Event::ReadDone { data: vec![1; 9] }, &mut buf);
    assert_eq!(
        Action::Poll { timeout: 1500 },
        reader.read(Event::ReadDone { data: vec![2; 3] }, &mut buf)
    );
    assert_eq!(9, reader.buffered(0));
    assert_eq!(3, reader.buffered(1));
    // Without a timeout a wait cannot come back empty-handed.
    let patient = Reader::from(2, 10, WhenEOF::Close, None);
    assert!(!patient.accepts(&Event::Polled { ready: 0, states: vec![Readiness::Idle; 2] }));
    let states = vec![Readiness::Idle, Readiness::Idle];
    assert!(reader.accepts(&Event::Polled { ready: 0, states: states.clone() }));
    assert_eq!(
        Action::Poll { timeout: 1500 },
        reader.read(Event::Polled { ready: 0, states }, &mut buf)
    );
    assert_eq!(0, reader.buffered(0));
    assert_eq!(0, reader.buffered(1));
}

#[test]
fn short_timeouts_do_not_wait() {
    let mut reader = Reader::from(1, 10, WhenEOF::Close, Some(Interval::new(0, 999_999)));
    let mut buf = [0u8; 10];
    assert_eq!(Action::Poll { timeout: 0 }, reader.read(Event::Start, &mut buf));
    assert_eq!(Some(Interval::new(0, 999_999)), reader.clear_timeout());
}

#[test]
fn retry_pauses_and_goes_on() {
    let mut reader = Reader::from(2, 4, WhenEOF::Retry, None);
    let mut buf = [0u8; 4];
    assert_eq!(Action::Poll { timeout: -1 }, reader.read(Event::Start, &mut buf));
    let states = vec![Readiness::Closed, Readiness::Readable];
    assert_eq!(
        Action::Read { source: 1, len: 4 },
        reader.read(Event::Polled { ready: 2, states }, &mut buf)
    );
    assert!(reader.is_closed(0));
    assert!(!reader.is_closed(1));
    // The second source is at its end: every source is closed now.
    assert_eq!(
        Action::Sleep { pause: Interval::new(0, 10_000_000) },
        reader.read(Event::ReadDone { data: Vec::new() }, &mut buf)
    );
    assert!(reader.is_closed(1));
    assert_eq!(Phase::Sleeping, reader.phase());
    assert_eq!(Action::Poll { timeout: -1 }, reader.read(Event::Slept, &mut buf));
    // A closed source that delivers after all is still read, after a pause.
    let states = vec![Readiness::Idle, Readiness::Readable];
    reader.read(Event::Polled { ready: 1, states }, &mut buf);
    assert_eq!(
        Action::Sleep { pause: Interval::new(0, 10_000_000) },
        reader.read(Event::ReadDone { data: vec![8; 4] }, &mut buf)
    );
    assert_eq!(Action::Deliver { count: 4 }, reader.read(Event::Slept, &mut buf));
    assert_eq!([8; 4], buf);
    assert!(reader.is_closed(0) && reader.is_closed(1));
}

#[test]
fn retry_pauses_for_the_clear_timeout() {
    let timeout = Interval::new(0, 250_000_000);
    let mut reader = Reader::from(1, 4, WhenEOF::Retry, Some(timeout));
    let mut buf = [0u8; 4];
    assert_eq!(Action::Poll { timeout: 250 }, reader.read(Event::Start, &mut buf));
    assert_eq!(
        Action::Sleep { pause: timeout },
        reader.read(Event::Polled { ready: 1, states: vec![Readiness::Closed] }, &mut buf)
    );
    assert_eq!(WhenEOF::Retry, reader.when_eof());
}

#[test]
fn close_ends_the_stream_for_good() {
    let mut reader = Reader::from(2, 4, WhenEOF::Close, None);
    let mut buf = [0u8; 4];
    reader.read(Event::Start, &mut buf);
    let states = vec![Readiness::Closed, Readiness::Idle];
    // One source is still open: the reader waits again.
    assert_eq!(
        Action::Poll { timeout: -1 },
        reader.read(Event::Polled { ready: 1, states }, &mut buf)
    );
    let states = vec![Readiness::Idle, Readiness::Closed];
    assert_eq!(
        Action::EndOfStream,
        reader.read(Event::Polled { ready: 1, states }, &mut buf)
    );
    assert_eq!(Phase::Finished, reader.phase());
    assert_eq!(Action::EndOfStream, reader.read(Event::Start, &mut buf));
    assert_eq!(Action::EndOfStream, reader.read(Event::Start, &mut buf));
    assert_eq!([0; 4], buf);
}

#[test]
fn close_ends_the_stream_before_a_late_frame() {
    let mut reader = Reader::from(2, 2, WhenEOF::Close, None);
    let mut buf = [0u8; 2];
    reader.read(Event::Start, &mut buf);
    let states = vec![Readiness::Idle, Readiness::Readable];
    reader.read(Event::Polled { ready: 1, states }, &mut buf);
    // The second source is at its end.
    assert_eq!(
        Action::Poll { timeout: -1 },
        reader.read(Event::ReadDone { data: Vec::new() }, &mut buf)
    );
    assert!(reader.is_closed(1));
    // The first source hangs up in the round in which the second delivers
    // after all: with every source closed the stream ends.
    let states = vec![Readiness::Closed, Readiness::Readable];
    assert_eq!(
        Action::Read { source: 1, len: 2 },
        reader.read(Event::Polled { ready: 2, states }, &mut buf)
    );
    assert_eq!(
        Action::EndOfStream,
        reader.read(Event::ReadDone { data: vec![7, 8] }, &mut buf)
    );
    assert_eq!(Phase::Finished, reader.phase());
    assert_eq!(0, reader.unread());
    assert_eq!(Action::EndOfStream, reader.read(Event::Start, &mut buf));
    assert_eq!([0, 0], buf);
}

#[test]
fn a_request_may_start_over() {
    let mut reader = Reader::from(1, 4, WhenEOF::Close, None);
    let mut buf = [0u8; 4];
    reader.read(Event::Start, &mut buf);
    reader.read(Event::Polled { ready: 1, states: vec![Readiness::Readable] }, &mut buf);
    // The read failed: the next request begins with a new wait.
    assert_eq!(Action::Poll { timeout: -1 }, reader.read(Event::Start, &mut buf));
    assert_eq!(Phase::Polling, reader.phase());
    assert_eq!(1, reader.sources());
    assert_eq!(4, reader.frame_size());
}

#[test]
fn rotate_keeps_what_lies_beyond_the_frame() {
    let mut buffer: Vec<u8> = vec![1, 2, 3, 4, 5];
    let frame = rotate(&mut buffer, 3);
    assert_eq!(vec![1, 2, 3], frame);
    assert_eq!(vec![4, 5], buffer);
    let frame = rotate(&mut buffer, 2);
    assert_eq!(vec![4, 5], frame);
    assert!(buffer.is_empty());
}

#[test]
fn readiness_follows_the_event_flags() {
    let revents = vec![
        EventFlags::POLLIN,
        EventFlags::POLLHUP,
        EventFlags::POLLIN | EventFlags::POLLHUP,
        EventFlags::empty(),
        EventFlags::POLLNVAL,
        EventFlags::POLLERR,
        EventFlags::POLLOUT,
        EventFlags::POLLIN | EventFlags::POLLERR,
    ];
    let expected = vec![
        Readiness::Readable,
        Readiness::Closed,
        Readiness::Readable,
        Readiness::Idle,
        Readiness::Closed,
        Readiness::Closed,
        Readiness::Idle,
        Readiness::Readable,
    ];
    let found: Vec<Readiness> = revents.iter().map(classify).collect();
    assert_eq!(expected, found);
    assert_eq!(Readiness::Closed, Readiness::from_report(false, true));
    assert_eq!(Readiness::Readable, Readiness::from_report(true, true));
    assert_eq!(Readiness::Idle, Readiness::from_report(false, false));
}

#[test]
fn a_wait_is_reported_only_if_every_source_is_known() {
    let found = vec![Some(Readiness::Idle), Some(Readiness::Readable), Some(Readiness::Closed)];
    match polled(2, &found) {
        Some(Event::Polled { ready, states }) => {
            assert_eq!(2, ready);
            assert_eq!(vec![Readiness::Idle, Readiness::Readable, Readiness::Closed], states);
        }
        other => panic!("unexpected: {:?}", other),
    }
    let found = vec![Some(Readiness::Readable), None, Some(Readiness::Closed)];
    assert!(polled(2, &found).is_none());
    match polled(0, &Vec::new()) {
        Some(Event::Polled { ready, states }) => {
            assert_eq!(0, ready);
            assert!(states.is_empty());
        }
        other => panic!("unexpected: {:?}", other),
    }
}

#[test]
fn a_query_reports_every_entry() {
    // A query without entries always has its event.
    match poll_outcome(3, &Vec::new()) {
        Some(Event::Polled { ready, states }) => {
            assert_eq!(3, ready);
            assert!(states.is_empty());
        }
        other => panic!("unexpected: {:?}", other),
    }
    // Before any wait nothing has happened to a source.
    let sources = vec![Source::pipe(), Source::pipe(), Source::file(Vec::new())];
    let query = readiness_query(&sources);
    assert_eq!(3, query.len());
    match poll_outcome(0, &query) {
        Some(Event::Polled { ready, states }) => {
            assert_eq!(0, ready);
            assert_eq!(vec![Readiness::Idle; 3], states);
        }
        other => panic!("unexpected: {:?}", other),
    }
}

#[test]
fn an_unknown_source_counts_only_when_the_round_reaches_it() {
    let found = vec![Some(Readiness::Readable), Some(Readiness::Closed), None, None];
    assert_eq!(Some(2), first_unknown(&found));
    assert_eq!(None, first_unknown(&vec![Some(Readiness::Idle), Some(Readiness::Closed)]));
    assert_eq!(None, first_unknown(&Vec::new()));
    assert_eq!(Some(0), first_unknown(&vec![None, Some(Readiness::Idle)]));

    let mut reader = Reader::from(4, 2, WhenEOF::Close, None);
    let mut buf = [0u8; 2];
    reader.read(Event::Start, &mut buf);
    let event = polled_with_gaps(2, &found);
    match &event {
        Event::Polled { ready, states } => {
            assert_eq!(2, *ready);
            assert_eq!(
                &vec![Readiness::Readable, Readiness::Closed, Readiness::Idle, Readiness::Idle],
                states
            );
        }
        other => panic!("unexpected: {:?}", other),
    }
    // The round stops at the first source: it has not come to the third.
    let action = reader.read(event, &mut buf);
    assert_eq!(Action::Read { source: 0, len: 2 }, action);
    assert!(!action.has_passed(0));
    assert!(!action.has_passed(2));
    // A frame ends the round before the third source.
    let action = reader.read(Event::ReadDone { data: vec![4, 4] }, &mut buf);
    assert_eq!(Action::Deliver { count: 2 }, action);
    assert!(!action.has_passed(2));
    // A round that reads from a later source, or runs to its end, has come
    // past the third.
    assert!(Action::Read { source: 3, len: 1 }.has_passed(2));
    assert!(!Action::Read { source: 2, len: 1 }.has_passed(2));
    assert!(Action::Poll { timeout: -1 }.has_passed(2));
    assert!(Action::EndOfStream.has_passed(2));
    assert!(Action::Sleep { pause: Interval::new(0, 1) }.has_passed(2));
}

#[test]
fn every_source_delivers_its_frame_once() {
    let len: usize = 12;
    let num: usize = 9;
    for stride in 1..6 {
        let sources: Vec<Source> = (0..num)
            .map(|i| Source::File {
                data: repeated(100 + i as u8, len),
                pos: 0,
                chunk: 1 + (i * stride) % 7,
            })
            .collect();
        let mut reader = Driver::new(sources, len, WhenEOF::Close, None);
        let mut out: Vec<u8> = Vec::new();
        assert_eq!((num * len) as u64, io::copy(&mut reader, &mut out).unwrap());
        let mut seen: Vec<u8> = Vec::new();
        for frame in out.chunks(len) {
            assert!(frame.iter().all(|b| *b == frame[0]));
            assert!(!seen.contains(&frame[0]));
            seen.push(frame[0]);
        }
        assert_eq!(num, seen.len());
    }
}

#[test]
fn fetch_reports_what_was_read() {
    let mut source = Source::file(vec![1, 2, 3, 4, 5]);
    match fetch(&mut source, 3) {
        Ok(Event::ReadDone { data }) => assert_eq!(vec![1, 2, 3], data),
        other => panic!("unexpected: {:?}", other),
    }
    match fetch(&mut source, 3) {
        Ok(Event::ReadDone { data }) => assert_eq!(vec![4, 5], data),
        other => panic!("unexpected: {:?}", other),
    }
    match fetch(&mut source, 3) {
        Ok(Event::ReadDone { data }) => assert!(data.is_empty()),
        other => panic!("unexpected: {:?}", other),
    }
}

#[test]
fn fetch_refuses_a_source_that_overruns() {
    let mut liar = Liar { claim: Ok(4) };
    match fetch(&mut liar, 3) {
        Err(FetchError::Overrun { asked, claimed }) => {
            assert_eq!(3, asked);
            assert_eq!(4, claimed);
        }
        other => panic!("unexpected: {:?}", other),
    }
    let mut liar = Liar { claim: Ok(3) };
    match fetch(&mut liar, 3) {
        Ok(Event::ReadDone { data }) => assert_eq!(vec![0, 0, 0], data),
        other => panic!("unexpected: {:?}", other),
    }
}

#[test]
fn fetched_keeps_what_the_source_counted() {
    let outcome: io::Result<usize> = Ok(2);
    match fetched(vec![9, 8, 7], 3, outcome) {
        Ok(Event::ReadDone { data }) => assert_eq!(vec![9, 8], data),
        other => panic!("unexpected: {:?}", other),
    }
    let outcome: io::Result<usize> = Ok(0);
    match fetched(vec![9, 8, 7], 3, outcome) {
        Ok(Event::ReadDone { data }) => assert!(data.is_empty()),
        other => panic!("unexpected: {:?}", other),
    }
    let outcome: io::Result<usize> = Ok(4);
    match fetched(vec![9, 8, 7], 3, outcome) {
        Err(FetchError::Overrun { asked, claimed }) => {
            assert_eq!(3, asked);
            assert_eq!(4, claimed);
        }
        other => panic!("unexpected: {:?}", other),
    }
}

#[test]
fn fetch_hands_on_a_failure() {
    let mut liar = Liar { claim: Err(io::Error::new(io::ErrorKind::Other, "broken")) };
    match fetch(&mut liar, 3) {
        Err(FetchError::Failed(err)) => assert_eq!(io::ErrorKind::Other, err.kind()),
        other => panic!("unexpected: {:?}", other),
    }
}
