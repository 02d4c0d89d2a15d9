//! The reply socket (heartbeat).

use crate::multipart::{frames_bytes, message_frames, write_multipart, Multipart};
use crate::octets::{frames, frames_from, octets};
use bytes::Bytes;
use std::collections::VecDeque;
use vstd::prelude::*;

verus! {

/// A request without the empty frames before its body.
pub open spec fn request_body(parts: Seq<Seq<u8>>) -> Seq<Seq<u8>>
    decreases parts.len(),
{
    if parts.len() > 0 && parts[0].len() == 0 {
        request_body(parts.skip(1))
    } else {
        parts
    }
}

/// Whether the empty frames before a body end at an index: all frames before it are empty,
/// and the frame there, if there is one, is not.
pub open spec fn envelope_ends_at(parts: Seq<Seq<u8>>, start: int) -> bool {
    &&& 0 <= start <= parts.len()
    &&& forall|i: int| 0 <= i < start ==> (#[trigger] parts[i]).len() == 0
    &&& start < parts.len() ==> parts[start].len() > 0
}

/// A reply behind the empty frame that a requesting socket expects.
pub open spec fn reply_parts(reply: Seq<Seq<u8>>) -> Seq<Seq<u8>> {
    seq![Seq::<u8>::empty()] + reply
}

/// The envelope of a reply is one that the receiving side strips again.
pub proof fn law_reply_envelope_is_stripped(reply: Seq<Seq<u8>>)
    ensures
        request_body(reply_parts(reply)) == request_body(reply),
        reply.len() > 0 && reply[0].len() > 0 ==> request_body(reply_parts(reply)) == reply,
{
    assert(reply_parts(reply).skip(1) =~= reply);
}

/// A heartbeat that is answered with its own body comes back as it was sent.
pub proof fn law_heartbeat_is_echoed(body: Seq<Seq<u8>>)
    requires
        body.len() > 0,
        body[0].len() > 0,
    ensures
        reply_parts(request_body(reply_parts(body))) == reply_parts(body),
{
    law_reply_envelope_is_stripped(body);
}

/// Strips the leading empty frames (the request envelope) of a message.
pub fn strip_envelope(parts: &Multipart) -> (body: Multipart)
    ensures
        frames(body@) == request_body(frames(parts@)),
        exists|start: int|
            {
                &&& #[trigger] envelope_ends_at(frames(parts@), start)
                &&& body@.len() == parts@.len() - start
                &&& forall|i: int|
                    0 <= i < body@.len() ==> octets(#[trigger] body@[i]) == octets(
                        parts@[start + i],
                    )
            },
{
    let mut start: usize = 0;
    assert(frames(parts@).skip(0) =~= frames(parts@));
    while start < parts.len() && (*parts[start]).len() == 0
        invariant
            start <= parts@.len(),
            request_body(frames(parts@)) == request_body(frames(parts@).skip(start as int)),
            forall|i: int| 0 <= i < start ==> (#[trigger] frames(parts@)[i]).len() == 0,
        decreases parts@.len() - start,
    {
        assert(frames(parts@).skip(start as int)[0] == octets(parts@[start as int]));
        assert(frames(parts@)[start as int] == octets(parts@[start as int]));
        assert(frames(parts@).skip(start as int).skip(1) =~= frames(parts@).skip(start + 1));
        start += 1;
    }
    proof {
        let rest = frames(parts@).skip(start as int);
        if start < parts@.len() {
            assert(rest[0] == octets(parts@[start as int]));
            assert(frames(parts@)[start as int] == octets(parts@[start as int]));
        }
        assert(envelope_ends_at(frames(parts@), start as int));
        assert(request_body(rest) == rest);
    }
    frames_from(parts, start)
}

/// The bytes of a reply, behind its envelope.
pub fn write_reply(reply: Multipart) -> (bytes: Vec<u8>)
    ensures
        bytes@ == frames_bytes(message_frames(reply_parts(frames(reply@)))),
{
    let ghost before = reply@;
    let mut reply = reply;
    let mut out: Multipart = Vec::new();
    out.push(Bytes::new());
    out.append(&mut reply);
    assert(frames(out@) =~= reply_parts(frames(before)));
    write_multipart(&out)
}

/// What happens on a reply socket.
pub enum RepEvent<S> {
    /// A request from the peer behind the handle.
    Request(S),
    /// A reply.
    Reply,
}

/// The peers that wait for a reply after an event: a request is put last, a reply serves
/// the first.
pub open spec fn queue_after<S>(queue: Seq<S>, event: RepEvent<S>) -> Seq<S> {
    match event {
        RepEvent::Request(handle) => queue.push(handle),
        RepEvent::Reply => if queue.len() > 0 {
            queue.skip(1)
        } else {
            queue
        },
    }
}

/// The peer that the next reply goes to, if one waits.
pub open spec fn next_in<S>(queue: Seq<S>) -> Option<S> {
    if queue.len() > 0 {
        Some(queue[0])
    } else {
        None
    }
}

/// Where replies go: the peers whose requests wait for one, oldest first. `S` is the
/// handle through which a peer is reached.
pub struct PendingReplies<S> {
    queue: VecDeque<S>,
}

impl<S> View for PendingReplies<S> {
    type V = Seq<S>;

    closed spec fn view(&self) -> Seq<S> {
        self.queue@
    }
}

impl<S> PendingReplies<S> {
    /// No request waits.
    pub fn new() -> (pending: PendingReplies<S>)
        ensures
            pending@ == Seq::<S>::empty(),
    {
        PendingReplies { queue: VecDeque::new() }
    }

    /// Notes that the peer behind `handle` waits for a reply, and returns the request to
    /// pass on.
    pub fn on_request(&mut self, handle: S, parts: &Multipart) -> (body: Multipart)
        ensures
            final(self)@ == queue_after(old(self)@, RepEvent::Request(handle)),
            final(self)@ == old(self)@.push(handle),
            exists|start: int|
                {
                    &&& #[trigger] envelope_ends_at(frames(parts@), start)
                    &&& body@.len() == parts@.len() - start
                    &&& forall|i: int|
                        0 <= i < body@.len() ==> octets(#[trigger] body@[i]) == octets(
                            parts@[start + i],
                        )
                },
            frames(body@) == request_body(frames(parts@)),
    {
        self.queue.push_back(handle);
        strip_envelope(parts)
    }

    /// The peer that the next reply goes to. A reply that nobody waits for goes nowhere.
    pub fn on_reply(&mut self) -> (handle: Option<S>)
        ensures
            handle == next_in(old(self)@),
            final(self)@ == queue_after(old(self)@, RepEvent::Reply),
            old(self)@.len() > 0 ==> {
                &&& handle == Some(old(self)@[0])
                &&& final(self)@ == old(self)@.skip(1)
            },
            old(self)@.len() == 0 ==> handle is None && final(self)@ == old(self)@,
    {
        let ghost before = self@;
        let handle = self.queue.pop_front();
        assert(before.len() > 0 ==> self@ =~= before.skip(1));
        handle
    }
}

/// The peers that made requests, in that order.
pub open spec fn requesters<S>(events: Seq<RepEvent<S>>) -> Seq<S>
    decreases events.len(),
{
    if events.len() == 0 {
        Seq::empty()
    } else {
        let before = requesters(events.drop_last());
        match events.last() {
            RepEvent::Request(handle) => before.push(handle),
            RepEvent::Reply => before,
        }
    }
}

/// The peers that still wait for a reply.
pub open spec fn waiting<S>(events: Seq<RepEvent<S>>) -> Seq<S>
    decreases events.len(),
{
    if events.len() == 0 {
        Seq::empty()
    } else {
        queue_after(waiting(events.drop_last()), events.last())
    }
}

/// The peers that got a reply, in that order.
pub open spec fn replied<S>(events: Seq<RepEvent<S>>) -> Seq<S>
    decreases events.len(),
{
    if events.len() == 0 {
        Seq::empty()
    } else {
        let before = replied(events.drop_last());
        match (events.last(), next_in(waiting(events.drop_last()))) {
            (RepEvent::Reply, Some(handle)) => before.push(handle),
            _ => before,
        }
    }
}

/// Replies reach the peers in the order of their requests: those that got one, followed by
/// those that still wait, are all that made a request.
pub proof fn law_replies_follow_requests<S>(events: Seq<RepEvent<S>>)
    ensures
        replied(events) + waiting(events) == requesters(events),
    decreases events.len(),
{
    if events.len() == 0 {
        assert(replied(events) + waiting(events) =~= requesters(events));
    } else {
        law_replies_follow_requests(events.drop_last());
        assert(replied(events) + waiting(events) =~= requesters(events));
    }
}

/// A request without its envelope: if the first `start` frames are empty and the next one is
/// not, or there is none, the body has the frames from there on, each in its place.
pub proof fn law_envelope_is_all_that_goes(parts: Seq<Seq<u8>>, start: int)
    requires
        0 <= start <= parts.len(),
        forall|i: int| 0 <= i < start ==> (#[trigger] parts[i]).len() == 0,
        start < parts.len() ==> parts[start].len() > 0,
    ensures
        envelope_ends_at(parts, start),
        request_body(parts).len() == parts.len() - start,
        forall|i: int|
            0 <= i < request_body(parts).len() ==> #[trigger] request_body(parts)[i] == parts[start
                + i],
    decreases start,
{
    if start > 0 {
        let rest = parts.skip(1);
        assert(parts[0].len() == 0);
        assert forall|i: int| 0 <= i < start - 1 implies (#[trigger] rest[i]).len() == 0 by {
            assert(rest[i] == parts[i + 1]);
        }
        law_envelope_is_all_that_goes(rest, start - 1);
        assert forall|i: int| 0 <= i < request_body(parts).len() implies #[trigger] request_body(
            parts,
        )[i] == parts[start + i] by {
            assert(request_body(rest)[i] == rest[start - 1 + i]);
        }
    }
}

/// Only one index can be the end of the envelope.
pub proof fn law_envelope_ends_once(parts: Seq<Seq<u8>>, start: int, other: int)
    requires
        envelope_ends_at(parts, start),
        envelope_ends_at(parts, other),
    ensures
        start == other,
        0 <= start <= parts.len(),
        forall|i: int| 0 <= i < start ==> (#[trigger] parts[i]).len() == 0,
        start < parts.len() ==> parts[start].len() > 0,
{
    if start < other {
        assert(parts[start].len() == 0);
    }
    if other < start {
        assert(parts[other].len() == 0);
    }
}

/// A reply goes out behind one empty frame, each of its frames in its place.
pub proof fn law_reply_parts_by_index(reply: Seq<Seq<u8>>, i: int)
    ensures
        reply_parts(reply).len() == reply.len() + 1,
        reply_parts(reply)[0].len() == 0,
        0 <= i < reply.len() ==> reply_parts(reply)[i + 1] == reply[i],
{
}

/// A request is put behind all that wait, and a reply serves the one that waited longest;
/// the others keep their places.
pub proof fn law_queue_is_fair<S>(queue: Seq<S>, handle: S)
    ensures
        queue_after(queue, RepEvent::Request(handle)) == queue.push(handle),
        queue.len() > 0 ==> {
            &&& next_in(queue) == Some(queue[0])
            &&& queue_after(queue, RepEvent::Reply).len() == queue.len() - 1
            &&& forall|i: int|
                0 <= i < queue.len() - 1 ==> #[trigger] queue_after(queue, RepEvent::Reply)[i]
                    == queue[i + 1]
        },
        queue.len() == 0 ==> {
            &&& next_in(queue) is None
            &&& queue_after(queue, RepEvent::Reply) == queue
        },
{
}

/// The peers that made requests are those of the request events, in that order.
pub proof fn law_requesters<S>(events: Seq<RepEvent<S>>, event: RepEvent<S>)
    ensures
        requesters(Seq::<RepEvent<S>>::empty()) == Seq::<S>::empty(),
        requesters(events.push(event)) == match event {
            RepEvent::Request(handle) => requesters(events).push(handle),
            RepEvent::Reply => requesters(events),
        },
{
    assert(events.push(event).drop_last() =~= events);
}

} // verus!
