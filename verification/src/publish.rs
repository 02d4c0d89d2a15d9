//! The publishing socket (iopub).

use crate::multipart::Multipart;
use crate::octets::{frames, frames_from};
use crate::roster::{
    kept, law_entering, law_leaving, lemma_kept_numbered, lemma_without_numbered, numbered,
    without, Roster,
};
use vstd::prelude::*;

verus! {

/// The connected subscribers, oldest first, each under a number of its own. `S` is the
/// handle through which a subscriber is reached.
pub struct PubPeers<S> {
    subscribers: Roster<S>,
}

impl<S> View for PubPeers<S> {
    type V = Seq<(u64, S)>;

    closed spec fn view(&self) -> Seq<(u64, S)> {
        self.subscribers@
    }
}

impl<S> PubPeers<S> {
    /// The number of the next subscriber.
    pub closed spec fn upcoming(self) -> u64 {
        self.subscribers.upcoming()
    }

    /// The numbers tell the subscribers apart, and the next one will have a new one.
    pub open spec fn wf(self) -> bool {
        numbered(self@, self.upcoming())
    }

    /// Nobody is connected.
    pub fn new() -> (peers: PubPeers<S>)
        ensures
            peers.wf(),
            peers@ == Seq::<(u64, S)>::empty(),
            peers.upcoming() == 0,
    {
        PubPeers { subscribers: Roster::new() }
    }

    /// Whether a number is left for another subscriber.
    pub fn has_room(&self) -> (room: bool)
        ensures
            room == (self.upcoming() < u64::MAX),
    {
        self.subscribers.has_room()
    }

    /// Lets a subscriber in after its handshake, under a number of its own.
    pub fn enter(&mut self, handle: S) -> (number: u64)
        requires
            old(self).wf(),
            old(self).upcoming() < u64::MAX,
        ensures
            final(self).wf(),
            number == old(self).upcoming(),
            final(self)@ == old(self)@.push((number, handle)),
            final(self).upcoming() == number + 1,
    {
        self.subscribers.enter(handle)
    }

    /// How many subscribers there are.
    pub fn len(&self) -> (count: usize)
        ensures
            count == self@.len(),
    {
        self.subscribers.len()
    }

    /// The handle of a subscriber.
    pub fn handle(&self, index: usize) -> (handle: &S)
        requires
            index < self@.len(),
        ensures
            *handle == self@[index as int].1,
    {
        self.subscribers.get(index)
    }

    /// Begins a broadcast: the message, whole, for every connected subscriber, oldest first.
    pub fn deliveries(&self, message: &Multipart) -> (out: Vec<(&S, Multipart)>)
        ensures
            out@.len() == self@.len(),
            forall|i: int|
                0 <= i < out@.len() ==> *(#[trigger] out@[i]).0 == self@[i].1 && frames(
                    out@[i].1@,
                ) == frames(message@),
    {
        let mut out: Vec<(&S, Multipart)> = Vec::new();
        let mut i: usize = 0;
        while i < self.len()
            invariant
                i <= self@.len(),
                out@.len() == i,
                forall|j: int|
                    0 <= j < i ==> *(#[trigger] out@[j]).0 == self@[j].1 && frames(out@[j].1@)
                        == frames(message@),
            decreases self@.len() - i,
        {
            let copy = frames_from(message, 0);
            assert(frames(message@).skip(0) =~= frames(message@));
            out.push((self.handle(i), copy));
            i += 1;
        }
        out
    }

    /// Ends a broadcast: `delivered` says for each subscriber whether the message could be
    /// handed over. Those that it could not be handed to are removed.
    pub fn on_broadcast(&mut self, delivered: &[bool])
        requires
            old(self).wf(),
            delivered@.len() == old(self)@.len(),
        ensures
            final(self).wf(),
            final(self)@ == kept(old(self)@, delivered@),
            final(self).upcoming() == old(self).upcoming(),
            forall|i: int|
                0 <= i < delivered@.len() ==> final(self)@.contains(#[trigger] old(self)@[i])
                    == delivered@[i],
            forall|entry: (u64, S)| #[trigger]
                final(self)@.contains(entry) ==> old(self)@.contains(entry),
    {
        self.subscribers.retain(delivered);
    }

    /// Removes a subscriber on disconnect. One that is not there any more stays away.
    pub fn leave(&mut self, number: u64)
        requires
            old(self).wf(),
        ensures
            final(self).wf(),
            final(self)@ == without(old(self)@, number),
            final(self).upcoming() == old(self).upcoming(),
            forall|entry: (u64, S)| #[trigger]
                final(self)@.contains(entry) == (old(self)@.contains(entry) && entry.0 != number),
    {
        self.subscribers.leave(number);
    }
}

/// What happens on a publishing socket.
pub enum PubEvent<S> {
    /// A subscriber enters.
    Enter(S),
    /// The subscriber with this number disconnects.
    Leave(u64),
    /// A message is broadcast; it could be handed to those subscribers.
    Broadcast(Seq<Seq<u8>>, Seq<bool>),
}

/// The subscribers and the number of the next one.
pub type PubState<S> = (Seq<(u64, S)>, u64);

/// The state after an event.
pub open spec fn after<S>(state: PubState<S>, event: PubEvent<S>) -> PubState<S> {
    match event {
        PubEvent::Enter(handle) => (state.0.push((state.1, handle)), (state.1 + 1) as u64),
        PubEvent::Leave(number) => (without(state.0, number), state.1),
        PubEvent::Broadcast(_, delivered) => (kept(state.0, delivered), state.1),
    }
}

/// The state after some events, from the beginning.
pub open spec fn after_all<S>(events: Seq<PubEvent<S>>) -> PubState<S>
    decreases events.len(),
{
    if events.len() == 0 {
        (Seq::empty(), 0)
    } else {
        after(after_all(events.drop_last()), events.last())
    }
}

/// Whether events can happen: a number is left for each subscriber that enters, and each
/// broadcast has an outcome for each subscriber.
pub open spec fn possible<S>(events: Seq<PubEvent<S>>) -> bool
    decreases events.len(),
{
    events.len() == 0 || {
        let before = after_all(events.drop_last());
        &&& possible(events.drop_last())
        &&& match events.last() {
            PubEvent::Enter(_) => before.1 < u64::MAX,
            PubEvent::Leave(_) => true,
            PubEvent::Broadcast(_, delivered) => delivered.len() == before.0.len(),
        }
    }
}

/// The messages that are broadcast.
pub open spec fn broadcasts<S>(events: Seq<PubEvent<S>>) -> Seq<Seq<Seq<u8>>>
    decreases events.len(),
{
    if events.len() == 0 {
        Seq::empty()
    } else {
        let before = broadcasts(events.drop_last());
        match events.last() {
            PubEvent::Broadcast(message, _) => before.push(message),
            _ => before,
        }
    }
}

/// What the subscriber with a number is handed of a message that is handed to each.
pub open spec fn handed<S>(
    subscribers: Seq<(u64, S)>,
    message: Seq<Seq<u8>>,
    number: u64,
) -> Seq<Seq<Seq<u8>>>
    decreases subscribers.len(),
{
    if subscribers.len() == 0 {
        Seq::empty()
    } else {
        let before = handed(subscribers.drop_last(), message, number);
        if subscribers.last().0 == number {
            before.push(message)
        } else {
            before
        }
    }
}

/// What the subscriber with a number is handed in the course of some events.
pub open spec fn inbox<S>(events: Seq<PubEvent<S>>, number: u64) -> Seq<Seq<Seq<u8>>>
    decreases events.len(),
{
    if events.len() == 0 {
        Seq::empty()
    } else {
        let before = inbox(events.drop_last(), number);
        match events.last() {
            PubEvent::Broadcast(message, _) => before + handed(
                after_all(events.drop_last()).0,
                message,
                number,
            ),
            _ => before,
        }
    }
}

/// Whether the subscriber with a number is connected.
pub open spec fn connected<S>(subscribers: Seq<(u64, S)>, number: u64) -> bool {
    exists|i: int| 0 <= i < subscribers.len() && (#[trigger] subscribers[i]).0 == number
}

/// The numbers stay in order in the course of events.
proof fn lemma_stays_numbered<S>(events: Seq<PubEvent<S>>)
    requires
        possible(events),
    ensures
        numbered(after_all(events).0, after_all(events).1),
    decreases events.len(),
{
    if events.len() > 0 {
        let (subscribers, next) = after_all(events.drop_last());
        lemma_stays_numbered(events.drop_last());
        match events.last() {
            PubEvent::Enter(_) => {},
            PubEvent::Leave(number) => lemma_without_numbered(subscribers, number, next),
            PubEvent::Broadcast(_, delivered) => lemma_kept_numbered(subscribers, delivered, next),
        }
    }
}

/// A message is handed once to a subscriber that is connected, and not at all to one that
/// is not.
pub proof fn law_handed_once<S>(
    subscribers: Seq<(u64, S)>,
    message: Seq<Seq<u8>>,
    number: u64,
    next: u64,
)
    requires
        numbered(subscribers, next),
    ensures
        handed(subscribers, message, number) == if connected(subscribers, number) {
            seq![message]
        } else {
            Seq::empty()
        },
    decreases subscribers.len(),
{
    if subscribers.len() > 0 {
        let front = subscribers.drop_last();
        let last = subscribers.last();
        assert(numbered(front, last.0));
        law_handed_once(front, message, number, last.0);
        assert(subscribers[subscribers.len() - 1] == last);
        if last.0 == number {
            assert(!connected(front, number));
            assert(handed(subscribers, message, number) =~= seq![message]);
        } else {
            if connected(front, number) {
                let i = choose|i: int|
                    0 <= i < front.len() && (#[trigger] front[i]).0 == number;
                assert(subscribers[i].0 == number);
            }
            if connected(subscribers, number) {
                let i = choose|i: int|
                    0 <= i < subscribers.len() && (#[trigger] subscribers[i]).0 == number;
                assert(front[i].0 == number);
            }
        }
    }
}

/// A subscriber that is connected after an event was so before, unless it entered.
proof fn lemma_was_connected<S>(state: PubState<S>, event: PubEvent<S>, number: u64)
    requires
        numbered(state.0, state.1),
        connected(after(state, event).0, number),
        event is Enter ==> number != state.1,
    ensures
        connected(state.0, number),
{
    let now = after(state, event).0;
    let i = choose|i: int| 0 <= i < now.len() && (#[trigger] now[i]).0 == number;
    assert(now.contains(now[i]));
    match event {
        PubEvent::Enter(handle) => law_entering(state.0, (state.1, handle), now[i]),
        PubEvent::Leave(left) => law_leaving(state.0, left, now[i]),
        PubEvent::Broadcast(_, delivered) => lemma_kept_numbered(state.0, delivered, state.1),
    }
    assert(state.0.contains(now[i]));
    let j = choose|j: int| 0 <= j < state.0.len() && state.0[j] == now[i];
    assert(state.0[j].0 == number);
}

/// Numbers that were not given out yet belong to nobody, and nothing was handed to them.
proof fn lemma_nobody_yet<S>(events: Seq<PubEvent<S>>, number: u64)
    requires
        possible(events),
        number >= after_all(events).1,
    ensures
        !connected(after_all(events).0, number),
        inbox(events, number) == Seq::<Seq<Seq<u8>>>::empty(),
    decreases events.len(),
{
    lemma_stays_numbered(events);
    if events.len() > 0 {
        let front = events.drop_last();
        let (subscribers, next) = after_all(front);
        lemma_nobody_yet(front, number);
        lemma_stays_numbered(front);
        if let PubEvent::Broadcast(message, _) = events.last() {
            law_handed_once(subscribers, message, number, next);
            assert(inbox(events, number) =~= Seq::empty());
        }
    }
}

/// The number of a subscriber is below that of the next one from its entry on.
proof fn lemma_number_given<S>(events: Seq<PubEvent<S>>, entry: int)
    requires
        possible(events),
        0 <= entry < events.len(),
        events[entry] is Enter,
    ensures
        possible(events.take(entry)),
        after_all(events.take(entry)).1 < after_all(events).1,
    decreases events.len(),
{
    let front = events.drop_last();
    if entry < front.len() {
        lemma_number_given(front, entry);
        assert(front.take(entry) =~= events.take(entry));
    } else {
        assert(front =~= events.take(entry));
    }
}

/// Every connected subscriber gets every message: one that is still connected was handed
/// each message that was broadcast since it entered, once, whole and in order, whoever else
/// entered, left or could not be reached.
pub proof fn law_broadcast_reaches_everyone<S>(events: Seq<PubEvent<S>>, entry: int)
    requires
        possible(events),
        0 <= entry < events.len(),
        events[entry] is Enter,
        connected(after_all(events).0, after_all(events.take(entry)).1),
    ensures
        inbox(events, after_all(events.take(entry)).1) == broadcasts(events.skip(entry + 1)),
    decreases events.len(),
{
    let front = events.drop_last();
    let last = events.last();
    let number = after_all(events.take(entry)).1;
    let state = after_all(front);
    let since = events.skip(entry + 1);
    if entry == events.len() - 1 {
        assert(front =~= events.take(entry));
        lemma_nobody_yet(front, number);
        assert(since =~= Seq::empty());
    } else {
        assert(front.take(entry) =~= events.take(entry));
        assert(since.drop_last() =~= front.skip(entry + 1));
        assert(since.last() == last);
        lemma_stays_numbered(front);
        lemma_number_given(front, entry);
        lemma_was_connected(state, last, number);
        law_broadcast_reaches_everyone(front, entry);
        if let PubEvent::Broadcast(message, _) = last {
            law_handed_once(state.0, message, number, state.1);
            assert(inbox(events, number) =~= inbox(front, number).push(message));
        }
    }
}

} // verus!
