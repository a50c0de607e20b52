//! What a readiness wait reports of a source.

use vstd::prelude::*;
use nix::poll::{EventFlags, PollFd};
use crate::input::model::Event;
use crate::input::source::ReadFd;

verus! {

/// The event flags that a readiness wait hands back for one descriptor.
#[verifier::external_type_specification]
#[verifier::external_body]
pub struct ExEventFlags(EventFlags);

/// One entry of a readiness query: a descriptor, the events asked for, and,
/// after the wait, the events that occurred.
#[verifier::external_type_specification]
#[verifier::external_body]
pub struct ExPollFd(PollFd);

/// The events of a source that decide what becomes of it.
#[derive(Copy, Clone, Debug, PartialEq, Eq, Structural)]
pub enum PollEvent {
    /// There is data to read.
    Input,
    /// The peer hung up.
    HangUp,
    /// The descriptor is not open.
    Invalid,
    /// The descriptor is in error.
    Error,
}

/// The events that a set of event flags holds, among those of `PollEvent`:
/// `Input` if the flags contain `POLLIN`, and `HangUp`, `Invalid` and `Error`
/// if they have a flag in common with `POLLHUP`, `POLLNVAL` and `POLLERR`.
pub uninterp spec fn events_of(flags: EventFlags) -> Set<PollEvent>;

/// The descriptor that an entry of a readiness query watches.
pub uninterp spec fn watched(entry: PollFd) -> i32;

/// Whether an entry of a readiness query asks if there is data to read.
pub uninterp spec fn asks_for_input(entry: PollFd) -> bool;

/// The events that the last wait reported for an entry of its query, or
/// nothing if the system reported events that nix does not know.
pub uninterp spec fn reported_of(entry: PollFd) -> Option<EventFlags>;

/// Whether `events` tell of a hang-up, an invalid descriptor or an error.
pub open spec fn tells_of_hangup(events: Set<PollEvent>) -> bool {
    events.contains(PollEvent::HangUp) || events.contains(PollEvent::Invalid) || events.contains(
        PollEvent::Error,
    )
}

/// What a readiness wait found of one source.
#[derive(Copy, Clone, Debug, PartialEq, Eq, Structural)]
pub enum Readiness {
    /// Bytes, or the end of the source, can be read without waiting.
    Readable,
    /// The source hung up, is invalid or failed, and offers nothing to read.
    Closed,
    /// Nothing happened.
    Idle,
}

/// Calls nix's `EventFlags::contains` with `POLLIN`.  The contract claims
/// what the method is documented to do: it tells whether the flags hold the
/// event that there is data to read.
#[verifier::external_body]
fn has_input(flags: &EventFlags) -> (readable: bool)
    ensures
        readable == events_of(*flags).contains(PollEvent::Input),
{
    flags.contains(EventFlags::POLLIN)
}

/// Calls nix's `EventFlags::intersects` with `POLLHUP`, `POLLNVAL` and
/// `POLLERR` together.  The contract claims what the method is documented
/// to do: it tells whether the flags have a flag in common with one of the
/// three at least.
#[verifier::external_body]
fn has_hangup(flags: &EventFlags) -> (hung_up: bool)
    ensures
        hung_up == tells_of_hangup(events_of(*flags)),
{
    flags.intersects(EventFlags::POLLHUP | EventFlags::POLLNVAL | EventFlags::POLLERR)
}

/// Calls nix's `PollFd::new` with `POLLIN`.  The contract claims what the
/// constructor stores: the entry watches the descriptor `fd`, and it asks
/// whether there is data to read.
#[verifier::external_body]
fn watch(fd: i32) -> (entry: PollFd)
    ensures
        watched(entry) == fd,
        asks_for_input(entry),
{
    PollFd::new(fd, EventFlags::POLLIN)
}

/// Calls nix's `PollFd::revents`.  The contract claims that the answer
/// depends on the entry alone: it is read off the entry, and is nothing if
/// the entry holds events that nix does not know.
#[verifier::external_body]
fn reported(entry: &PollFd) -> (revents: Option<EventFlags>)
    ensures
        revents == reported_of(*entry),
{
    entry.revents()
}

impl Readiness {
    /// Readable wins over a hang-up: what is left in a pipe whose writer is
    /// gone can still be read.
    pub open spec fn of(readable: bool, hung_up: bool) -> Readiness {
        if readable {
            Readiness::Readable
        } else if hung_up {
            Readiness::Closed
        } else {
            Readiness::Idle
        }
    }

    /// What becomes of a source with `events`: it is read from if there is
    /// data to read; it is closed if there is none and it hung up, is
    /// invalid or failed; and nothing happens to it otherwise.
    pub open spec fn found(events: Set<PollEvent>) -> Readiness {
        Readiness::of(events.contains(PollEvent::Input), tells_of_hangup(events))
    }

    /// Sorts a source by the two things its event flags can tell.
    pub fn from_report(readable: bool, hung_up: bool) -> (state: Readiness)
        ensures
            state == Readiness::of(readable, hung_up),
    {
        if readable {
            Readiness::Readable
        } else if hung_up {
            Readiness::Closed
        } else {
            Readiness::Idle
        }
    }
}

/// Sorts a source by the event flags that a readiness wait returned for it.
pub fn classify(flags: &EventFlags) -> (state: Readiness)
    ensures
        state == Readiness::found(events_of(*flags)),
{
    let readable = has_input(flags);
    let hung_up = has_hangup(flags);
    Readiness::from_report(readable, hung_up)
}

/// What the last wait found of the source behind an entry of its query, or
/// nothing if the system reported events that nix does not know.
pub open spec fn finding_of(entry: PollFd) -> Option<Readiness> {
    match reported_of(entry) {
        Some(flags) => Some(Readiness::found(events_of(flags))),
        None => None,
    }
}

/// Builds the query for a readiness wait: one entry for each source, in
/// order, which watches the descriptor that the source gave as its own and
/// asks whether there is data to read.
pub fn readiness_query<S: ReadFd>(inputs: &Vec<S>) -> (query: Vec<PollFd>)
    ensures
        query@.len() == inputs@.len(),
        forall|j: int|
            0 <= j < inputs@.len() ==> inputs@[j].has_descriptor(watched(#[trigger] query@[j]))
                && asks_for_input(query@[j]),
{
    let mut query: Vec<PollFd> = Vec::with_capacity(inputs.len());
    let mut i: usize = 0;
    while i < inputs.len()
        invariant
            i <= inputs@.len(),
            query@.len() == i,
            forall|j: int|
                0 <= j < i ==> inputs@[j].has_descriptor(watched(#[trigger] query@[j]))
                    && asks_for_input(query@[j]),
        decreases inputs@.len() - i,
    {
        query.push(watch(inputs[i].as_raw_fd()));
        i += 1;
    }
    query
}

/// Reads off a query what the wait found of each source, in order; of a
/// source of which the system reported something that nix does not know,
/// nothing.
pub fn findings(query: &Vec<PollFd>) -> (found: Vec<Option<Readiness>>)
    ensures
        found@.len() == query@.len(),
        forall|j: int| 0 <= j < query@.len() ==> #[trigger] found@[j] == finding_of(query@[j]),
{
    let mut found: Vec<Option<Readiness>> = Vec::with_capacity(query.len());
    let mut i: usize = 0;
    while i < query.len()
        invariant
            i <= query@.len(),
            found@.len() == i,
            forall|j: int| 0 <= j < i ==> #[trigger] found@[j] == finding_of(query@[j]),
        decreases query@.len() - i,
    {
        let state = match reported(&query[i]) {
            Some(flags) => Some(classify(&flags)),
            None => None,
        };
        found.push(state);
        i += 1;
    }
    found
}

/// Whether something was found of every source.
pub open spec fn all_known(found: Seq<Option<Readiness>>) -> bool {
    forall|i: int| 0 <= i < found.len() ==> (#[trigger] found[i]) is Some
}

/// Whether `event` reports a readiness wait that returned `ready` and found
/// `found` of the sources: there is an event if and only if something was
/// found of every source, and the event hands on `ready` and what was found,
/// in order.
pub open spec fn reports_wait(event: Option<Event>, ready: i32, found: Seq<Option<Readiness>>) -> bool {
    &&& event is Some <==> all_known(found)
    &&& event matches Some(e) ==> e matches Event::Polled { ready: r, states } && r == ready
        && states@.len() == found.len() && forall|i: int|
        0 <= i < found.len() ==> found[i] == Some(#[trigger] states@[i])
}

/// The event that reports a readiness wait which returned `ready` and found
/// `found` of the sources.  There is an event if and only if something was
/// found of every source.
pub fn polled(ready: i32, found: &Vec<Option<Readiness>>) -> (event: Option<Event>)
    ensures
        reports_wait(event, ready, found@),
{
    let mut states: Vec<Readiness> = Vec::with_capacity(found.len());
    let mut i: usize = 0;
    while i < found.len()
        invariant
            i <= found@.len(),
            states@.len() == i,
            forall|j: int| 0 <= j < i ==> (#[trigger] found@[j]) is Some,
            forall|j: int| 0 <= j < i ==> found@[j] == Some(#[trigger] states@[j]),
        decreases found@.len() - i,
    {
        match found[i] {
            Some(state) => states.push(state),
            None => return None,
        }
        i += 1;
    }
    Some(Event::Polled { ready, states })
}

/// The first source of which nothing was found, if there is one.
pub fn first_unknown(found: &Vec<Option<Readiness>>) -> (first: Option<usize>)
    ensures
        first is None <==> all_known(found@),
        first matches Some(u) ==> u < found@.len() && found@[u as int] is None && forall|j: int|
            0 <= j < u ==> (#[trigger] found@[j]) is Some,
{
    let mut i: usize = 0;
    while i < found.len()
        invariant
            i <= found@.len(),
            forall|j: int| 0 <= j < i ==> (#[trigger] found@[j]) is Some,
        decreases found@.len() - i,
    {
        if found[i].is_none() {
            return Some(i);
        }
        i += 1;
    }
    None
}

/// What the reader is told of a source: what was found of it, and where
/// nothing was found, that nothing happened.
pub open spec fn stand_in(finding: Option<Readiness>) -> Readiness {
    match finding {
        Some(state) => state,
        None => Readiness::Idle,
    }
}

/// The event that reports a readiness wait of which not everything is known:
/// it hands on `ready` and what was found, in order, and lets a source of
/// which nothing was found stand as idle.  The round that steps on it must
/// not come past such a source.
pub fn polled_with_gaps(ready: i32, found: &Vec<Option<Readiness>>) -> (event: Event)
    ensures
        event matches Event::Polled { ready: r, states } && r == ready && states@
            == found@.map_values(|finding: Option<Readiness>| stand_in(finding)),
{
    let mut states: Vec<Readiness> = Vec::with_capacity(found.len());
    let mut i: usize = 0;
    while i < found.len()
        invariant
            i <= found@.len(),
            states@.len() == i,
            forall|j: int| 0 <= j < i ==> #[trigger] states@[j] == stand_in(found@[j]),
        decreases found@.len() - i,
    {
        let state = match found[i] {
            Some(state) => state,
            None => Readiness::Idle,
        };
        states.push(state);
        i += 1;
    }
    assert(states@ =~= found@.map_values(|finding: Option<Readiness>| stand_in(finding)));
    Event::Polled { ready, states }
}

/// Reads the outcome of a readiness wait off its query: the event that
/// hands on `ready` and, for each entry in order, what the wait found of the
/// source behind it.
///
/// There is no event if and only if the system reported of some source
/// something that nix does not know.
pub fn poll_outcome(ready: i32, query: &Vec<PollFd>) -> (event: Option<Event>)
    ensures
        reports_wait(event, ready, query@.map_values(|entry: PollFd| finding_of(entry))),
{
    let found = findings(query);
    assert(found@ =~= query@.map_values(|entry: PollFd| finding_of(entry)));
    polled(ready, &found)
}

} // verus!
