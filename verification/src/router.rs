//! The router sockets (shell, control and stdin).

use crate::multipart::Multipart;
use crate::octets::{frames, frames_from, octets, same_bytes};
use crate::roster::{law_leaving, numbered, without, Roster};
use bytes::Bytes;
use vstd::prelude::*;

verus! {

/// `rand::random`, as a byte. Nothing is claimed of the byte.
#[verifier::external_body]
fn random_byte() -> (byte: u8)
{
    rand::random::<u8>()
}

/// The identity that a peer gets which does not announce one: a zero byte, then `random`.
pub fn assigned_identity(random: [u8; 4]) -> (identity: Vec<u8>)
    ensures
        identity@ == seq![0u8] + random@,
{
    let mut identity: Vec<u8> = Vec::new();
    identity.push(0);
    identity.push(random[0]);
    identity.push(random[1]);
    identity.push(random[2]);
    identity.push(random[3]);
    assert(identity@ =~= seq![0u8] + random@);
    identity
}

/// Draws an identity for a peer that does not announce one.
pub fn assign_identity() -> (identity: Vec<u8>)
    ensures
        exists|random: [u8; 4]| identity@ == seq![0u8] + #[trigger] random@,
{
    let random: [u8; 4] = [random_byte(), random_byte(), random_byte(), random_byte()];
    assigned_identity(random)
}

/// A connected peer: the number of its connection, and its identity and handle.
pub type PeerEntry<S> = (u64, (Seq<u8>, S));

/// The handle of the first peer with this identity.
pub open spec fn first_peer<S>(peers: Seq<PeerEntry<S>>, identity: Seq<u8>) -> Option<S>
    decreases peers.len(),
{
    if peers.len() == 0 {
        None
    } else if peers[0].1.0 == identity {
        Some(peers[0].1.1)
    } else {
        first_peer(peers.skip(1), identity)
    }
}

/// Where an outgoing message goes and what is left of it: the first frame names the peer.
pub open spec fn route_of<S>(peers: Seq<PeerEntry<S>>, message: Seq<Seq<u8>>) -> Option<
    (S, Seq<Seq<u8>>),
> {
    if message.len() == 0 {
        None
    } else {
        match first_peer(peers, message[0]) {
            Some(handle) => Some((handle, message.skip(1))),
            None => None,
        }
    }
}

/// A message from the peer with this identity, as it is delivered.
pub open spec fn delivered_parts(identity: Seq<u8>, parts: Seq<Seq<u8>>) -> Seq<Seq<u8>> {
    seq![identity] + parts
}

/// A reply to the sender of a message is routed to the first peer with the identity under
/// which the message was delivered, without that identity.
pub proof fn law_reply_reaches_sender<S>(
    peers: Seq<PeerEntry<S>>,
    identity: Seq<u8>,
    parts: Seq<Seq<u8>>,
    reply: Seq<Seq<u8>>,
)
    ensures
        delivered_parts(identity, parts)[0] == identity,
        route_of(peers, delivered_parts(identity, reply)) == match first_peer(peers, identity) {
            Some(handle) => Some((handle, reply)),
            None => None,
        },
{
    assert(delivered_parts(identity, reply).skip(1) =~= reply);
}

/// An identity is reached through the first peer that has it, and is out of reach if no
/// connected peer has it.
pub proof fn law_first_peer_is_reached<S>(peers: Seq<PeerEntry<S>>, identity: Seq<u8>)
    ensures
        forall|i: int|
            0 <= i < peers.len() && (#[trigger] peers[i]).1.0 == identity && (forall|j: int|
                0 <= j < i ==> (#[trigger] peers[j]).1.0 != identity) ==> first_peer(
                peers,
                identity,
            ) == Some(peers[i].1.1),
        first_peer(peers, identity) is Some <==> exists|i: int|
            0 <= i < peers.len() && (#[trigger] peers[i]).1.0 == identity,
    decreases peers.len(),
{
    if peers.len() > 0 {
        let rest = peers.skip(1);
        law_first_peer_is_reached(rest, identity);
        assert forall|i: int| 1 <= i < peers.len() implies #[trigger] peers[i] == rest[i - 1] by {}
        assert forall|i: int| 0 <= i < rest.len() implies #[trigger] rest[i] == peers[i + 1] by {}
        assert forall|i: int|
            0 <= i < peers.len() && (#[trigger] peers[i]).1.0 == identity && (forall|j: int|
                0 <= j < i ==> (#[trigger] peers[j]).1.0 != identity) implies first_peer(
            peers,
            identity,
        ) == Some(peers[i].1.1) by {
            if i > 0 {
                assert(peers[0].1.0 != identity);
                assert forall|j: int| 0 <= j < i - 1 implies (#[trigger] rest[j]).1.0
                    != identity by {
                    assert(rest[j] == peers[j + 1]);
                }
                assert(rest[i - 1] == peers[i]);
            }
        }
        if exists|i: int| 0 <= i < peers.len() && (#[trigger] peers[i]).1.0 == identity {
            let i = choose|i: int| 0 <= i < peers.len() && (#[trigger] peers[i]).1.0 == identity;
            if i > 0 {
                assert(rest[i - 1].1.0 == identity);
            }
        }
        if first_peer(peers, identity) is Some && peers[0].1.0 != identity {
            let i = choose|i: int| 0 <= i < rest.len() && (#[trigger] rest[i]).1.0 == identity;
            assert(peers[i + 1].1.0 == identity);
        }
    }
}

/// A peer that enters can be reached, unless another with the same identity came before;
/// the others can be reached as before.
pub proof fn law_entering_peer<S>(
    peers: Seq<PeerEntry<S>>,
    number: u64,
    identity: Seq<u8>,
    handle: S,
)
    ensures
        first_peer(peers.push((number, (identity, handle))), identity) == match first_peer(
            peers,
            identity,
        ) {
            Some(earlier) => Some(earlier),
            None => Some(handle),
        },
        forall|other: Seq<u8>|
            other != identity ==> #[trigger] first_peer(
                peers.push((number, (identity, handle))),
                other,
            ) == first_peer(peers, other),
    decreases peers.len(),
{
    let all = peers.push((number, (identity, handle)));
    if peers.len() == 0 {
        assert(all.skip(1) =~= Seq::empty());
        assert forall|other: Seq<u8>| other != identity implies #[trigger] first_peer(all, other)
            == first_peer(peers, other) by {
            assert(first_peer(all.skip(1), other) == None::<S>);
        }
    } else {
        law_entering_peer(peers.skip(1), number, identity, handle);
        assert(all.skip(1) =~= peers.skip(1).push((number, (identity, handle))));
        assert forall|other: Seq<u8>| other != identity implies #[trigger] first_peer(all, other)
            == first_peer(peers, other) by {
            assert(first_peer(all.skip(1), other) == first_peer(peers.skip(1), other));
        }
    }
}

/// An identity stays reachable as long as a connected peer has it, and becomes unreachable
/// with the last one.
pub proof fn law_identity_stays_reachable<S>(
    peers: Seq<PeerEntry<S>>,
    number: u64,
    identity: Seq<u8>,
)
    ensures
        first_peer(without(peers, number), identity) is Some <==> exists|i: int|
            0 <= i < peers.len() && (#[trigger] peers[i]).0 != number && peers[i].1.0 == identity,
{
    let left = without(peers, number);
    law_first_peer_is_reached(left, identity);
    if first_peer(left, identity) is Some {
        let i = choose|i: int| 0 <= i < left.len() && (#[trigger] left[i]).1.0 == identity;
        law_leaving(peers, number, left[i]);
        assert(left.contains(left[i]));
        let j = choose|j: int| 0 <= j < peers.len() && peers[j] == left[i];
        assert(peers[j].0 != number && peers[j].1.0 == identity);
    }
    if exists|i: int|
        0 <= i < peers.len() && (#[trigger] peers[i]).0 != number && peers[i].1.0 == identity {
        let i = choose|i: int|
            0 <= i < peers.len() && (#[trigger] peers[i]).0 != number && peers[i].1.0 == identity;
        law_leaving(peers, number, peers[i]);
        assert(peers.contains(peers[i]));
        let j = choose|j: int| 0 <= j < left.len() && left[j] == peers[i];
        assert(left[j].1.0 == identity);
    }
}

/// While the connection through which an identity is reached does not end, the identity is
/// reached through it. The end of a connection with another identity changes nothing.
pub proof fn law_leaving_peer_keeps_routes<S>(
    peers: Seq<PeerEntry<S>>,
    number: u64,
    identity: Seq<u8>,
)
    ensures
        forall|i: int|
            0 <= i < peers.len() && (#[trigger] peers[i]).1.0 == identity && peers[i].0 != number
                && (forall|j: int|
                0 <= j < i ==> (#[trigger] peers[j]).1.0 != identity) ==> first_peer(
                without(peers, number),
                identity,
            ) == first_peer(peers, identity),
        (forall|i: int|
            0 <= i < peers.len() && (#[trigger] peers[i]).0 == number ==> peers[i].1.0 != identity)
            ==> first_peer(without(peers, number), identity) == first_peer(peers, identity),
    decreases peers.len(),
{
    reveal(Seq::filter);
    if peers.len() > 0 {
        let front = peers.drop_last();
        let (last, (owner, handle)) = peers.last();
        law_leaving_peer_keeps_routes(front, number, identity);
        law_entering_peer(front, last, owner, handle);
        law_entering_peer(without(front, number), last, owner, handle);
        assert(peers =~= front.push((last, (owner, handle))));
        assert(without(peers, number) == if last != number {
            without(front, number).push((last, (owner, handle)))
        } else {
            without(front, number)
        });
        assert forall|i: int| 0 <= i < front.len() implies #[trigger] front[i] == peers[i] by {}
        law_first_peer_is_reached(front, identity);
        law_first_peer_is_reached(without(front, number), identity);
        assert forall|i: int|
            0 <= i < peers.len() && (#[trigger] peers[i]).1.0 == identity && peers[i].0 != number
                && (forall|j: int|
                0 <= j < i ==> (#[trigger] peers[j]).1.0 != identity) implies first_peer(
            without(peers, number),
            identity,
        ) == first_peer(peers, identity) by {
            if i < front.len() {
                assert(front[i].1.0 == identity);
                assert forall|j: int| 0 <= j < i implies (#[trigger] front[j]).1.0 != identity by {
                    assert(front[j] == peers[j]);
                }
                assert(first_peer(front, identity) is Some);
            } else {
                assert forall|j: int| 0 <= j < front.len() implies (#[trigger] front[j]).1.0
                    != identity by {
                    assert(front[j] == peers[j]);
                }
                assert(first_peer(front, identity) is None);
                assert(first_peer(without(front, number), identity) is None);
            }
        }
        if forall|i: int|
            0 <= i < peers.len() && (#[trigger] peers[i]).0 == number ==> peers[i].1.0 != identity {
            assert forall|i: int| 0 <= i < front.len() && (#[trigger] front[i]).0
                == number implies front[i].1.0 != identity by {
                assert(front[i] == peers[i]);
            }
            assert(peers[peers.len() - 1] == (last, (owner, handle)));
        }
    }
}

/// Handle to a single accepted peer connection.
pub struct Peer<S> {
    pub identity: Vec<u8>,
    pub out_tx: S,
}

/// The connected peers, oldest first, each under a number of its own. `S` is the handle
/// through which a peer is reached.
pub struct RouterPeers<S> {
    peers: Roster<Peer<S>>,
}

impl<S> View for RouterPeers<S> {
    type V = Seq<PeerEntry<S>>;

    closed spec fn view(&self) -> Seq<PeerEntry<S>> {
        peer_entries(self.peers@)
    }
}

/// The number, identity and handle of a peer.
pub open spec fn peer_entry<S>(peer: (u64, Peer<S>)) -> PeerEntry<S> {
    (peer.0, (peer.1.identity@, peer.1.out_tx))
}

/// The numbers, identities and handles of peers.
pub open spec fn peer_entries<S>(peers: Seq<(u64, Peer<S>)>) -> Seq<PeerEntry<S>> {
    peers.map_values(|peer: (u64, Peer<S>)| peer_entry(peer))
}

/// Those who are left are the same, seen as peers or as entries.
proof fn lemma_entries_without<S>(peers: Seq<(u64, Peer<S>)>, number: u64)
    ensures
        peer_entries(without(peers, number)) == without(peer_entries(peers), number),
    decreases peers.len(),
{
    reveal(Seq::filter);
    if peers.len() > 0 {
        let front = peers.drop_last();
        lemma_entries_without(front, number);
        assert(peer_entries(peers).drop_last() =~= peer_entries(front));
        assert(peer_entries(without(peers, number)) =~= without(peer_entries(peers), number));
    } else {
        assert(peer_entries(without(peers, number)) =~= without(peer_entries(peers), number));
    }
}

impl<S> RouterPeers<S> {
    /// The number of the next connection.
    pub closed spec fn upcoming(self) -> u64 {
        self.peers.upcoming()
    }

    /// The numbers tell the connections apart, and the next one will have a new one.
    pub open spec fn wf(self) -> bool {
        numbered(self@, self.upcoming())
    }

    /// The roster is numbered if its entries are.
    proof fn lemma_wf(self)
        ensures
            self.wf() == self.peers.wf(),
    {
        assert forall|i: int| 0 <= i < self@.len() implies #[trigger] self@[i] == peer_entry(
            self.peers@[i],
        ) by {}
        assert forall|i: int| 0 <= i < self.peers@.len() implies (#[trigger] self.peers@[i]).0
            == self@[i].0 by {}
    }

    /// Nobody is connected.
    pub fn new() -> (peers: RouterPeers<S>)
        ensures
            peers.wf(),
            peers@ == Seq::<PeerEntry<S>>::empty(),
            peers.upcoming() == 0,
    {
        let peers = RouterPeers { peers: Roster::new() };
        assert(peers@ =~= Seq::<PeerEntry<S>>::empty());
        peers
    }

    /// Whether a number is left for another connection.
    pub fn has_room(&self) -> (room: bool)
        ensures
            room == (self.upcoming() < u64::MAX),
    {
        self.peers.has_room()
    }

    /// Lets a peer in after its handshake, under the identity that it announced or else
    /// under the assigned one.
    pub fn enter(&mut self, announced: Option<Vec<u8>>, assigned: Vec<u8>, handle: S) -> (session:
        RouterSession)
        requires
            old(self).wf(),
            old(self).upcoming() < u64::MAX,
        ensures
            final(self).wf(),
            session.name() == match announced {
                Some(identity) => identity@,
                None => assigned@,
            },
            session.number() == old(self).upcoming(),
            final(self)@ == old(self)@.push((session.number(), (session.name(), handle))),
            final(self).upcoming() == session.number() + 1,
    {
        let identity = match announced {
            Some(identity) => identity,
            None => assigned,
        };
        let copy = identity.clone();
        proof {
            self.lemma_wf();
        }
        let number: u64 = self.peers.enter(Peer { identity: copy, out_tx: handle });
        proof {
            self.lemma_wf();
            assert(self@ =~= old(self)@.push((number, (identity@, handle))));
        }
        RouterSession { number, identity }
    }

    /// The handle of the first peer with this identity.
    pub fn find(&self, identity: &[u8]) -> (handle: Option<&S>)
        ensures
            match handle {
                Some(handle) => first_peer(self@, identity@) == Some(*handle),
                None => first_peer(self@, identity@) is None,
            },
    {
        let mut i: usize = 0;
        assert(self@.skip(0) =~= self@);
        while i < self.peers.len()
            invariant
                i <= self.peers@.len(),
                first_peer(self@, identity@) == first_peer(self@.skip(i as int), identity@),
            decreases self.peers@.len() - i,
        {
            assert(self@.skip(i as int)[0] == self@[i as int]);
            assert(self@.skip(i as int).skip(1) =~= self@.skip(i + 1));
            let peer = self.peers.get(i);
            if same_bytes(&peer.identity, identity) {
                return Some(&peer.out_tx);
            }
            i += 1;
        }
        None
    }

    /// Routes an outgoing message: the peer that it goes to, and what that peer gets. A
    /// message without frames, or to an unknown identity, goes nowhere.
    pub fn route(&self, message: &Multipart) -> (route: Option<(&S, Multipart)>)
        ensures
            match route {
                Some((handle, body)) => route_of(self@, frames(message@)) == Some(
                    (*handle, frames(body@)),
                ),
                None => route_of(self@, frames(message@)) is None,
            },
            route matches Some((handle, body)) ==> {
                &&& message@.len() > 0
                &&& first_peer(self@, octets(message@[0])) == Some(*handle)
                &&& body@.len() == message@.len() - 1
                &&& forall|i: int|
                    0 <= i < body@.len() ==> octets(#[trigger] body@[i]) == octets(message@[i + 1])
            },
            route is None ==> message@.len() == 0 || first_peer(
                self@,
                octets(message@[0]),
            ) is None,
    {
        if message.len() == 0 {
            return None;
        }
        assert(frames(message@)[0] == octets(message@[0]));
        match self.find(&message[0]) {
            Some(handle) => Some((handle, frames_from(message, 1))),
            None => None,
        }
    }

    /// Removes the peer whose connection ended. One that is not there any more stays away.
    pub fn leave(&mut self, session: &RouterSession)
        requires
            old(self).wf(),
        ensures
            final(self).wf(),
            final(self)@ == without(old(self)@, session.number()),
            final(self).upcoming() == old(self).upcoming(),
            forall|entry: PeerEntry<S>| #[trigger]
                final(self)@.contains(entry) == (old(self)@.contains(entry) && entry.0
                    != session.number()),
    {
        proof {
            self.lemma_wf();
            lemma_entries_without(self.peers@, session.number());
        }
        self.peers.leave(session.number);
        proof {
            self.lemma_wf();
            assert forall|entry: PeerEntry<S>| #[trigger]
                self@.contains(entry) == (old(self)@.contains(entry) && entry.0
                    != session.number()) by {
                law_leaving(old(self)@, session.number(), entry);
            }
        }
    }
}

/// A connected peer after its handshake, as its own connection knows it.
pub struct RouterSession {
    number: u64,
    identity: Vec<u8>,
}

impl RouterSession {
    /// The number of the connection.
    pub closed spec fn number(self) -> u64 {
        self.number
    }

    /// The identity of the peer.
    pub closed spec fn name(self) -> Seq<u8> {
        self.identity@
    }

    /// The identity of the peer.
    pub fn identity(&self) -> (identity: &[u8])
        ensures
            identity@ == self.name(),
    {
        &self.identity
    }

    /// A message from the peer, as it is delivered: behind the identity of the peer.
    pub fn on_message(&self, parts: Multipart) -> (message: Multipart)
        ensures
            frames(message@) == delivered_parts(self.name(), frames(parts@)),
            message@.len() == parts@.len() + 1,
            octets(message@[0]) == self.name(),
            forall|i: int|
                0 <= i < parts@.len() ==> octets(#[trigger] message@[i + 1]) == octets(parts@[i]),
    {
        let mut parts = parts;
        let ghost before = parts@;
        let mut message: Multipart = Vec::new();
        message.push(Bytes::from(self.identity.clone()));
        message.append(&mut parts);
        assert(frames(message@) =~= delivered_parts(self.name(), frames(before)));
        message
    }
}

/// A delivered message has one frame more than the message that was received: the identity
/// comes first, and each frame of the received message stands one place further on.
pub proof fn law_delivered_by_index(identity: Seq<u8>, parts: Seq<Seq<u8>>, i: int)
    ensures
        delivered_parts(identity, parts).len() == parts.len() + 1,
        delivered_parts(identity, parts)[0] == identity,
        0 <= i < parts.len() ==> delivered_parts(identity, parts)[i + 1] == parts[i],
{
}

/// What a peer is sent of an outgoing message is each frame behind the first, in its place;
/// it goes to a peer whose identity is the first frame, and nowhere if there is none.
pub proof fn law_routed_by_index<S>(
    peers: Seq<PeerEntry<S>>,
    message: Seq<Seq<u8>>,
    i: int,
)
    ensures
        route_of(peers, message) is Some <==> message.len() > 0 && exists|k: int|
            0 <= k < peers.len() && (#[trigger] peers[k]).1.0 == message[0],
        route_of(peers, message) matches Some((handle, body)) ==> {
            &&& first_peer(peers, message[0]) == Some(handle)
            &&& body.len() == message.len() - 1
            &&& 0 <= i < body.len() ==> body[i] == message[i + 1]
        },
{
    if message.len() > 0 {
        law_first_peer_is_reached(peers, message[0]);
    }
}

} // verus!
