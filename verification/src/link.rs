//! One peer of a socket, from its greeting to its last message.
//!
//! A link is fed the bytes that the peer sends and says what they bring. It does not matter
//! in which pieces they come: what a link has said is what [`conversation`] says of all
//! bytes together.

use crate::frame::{
    frame_bytes, law_frame_read_back, law_frame_stands_alone, law_reader_wants_no_more,
    read_frame, Frame, FrameModel, FrameReader,
};
use crate::multipart::{
    frames_bytes, law_message_read_back, message_frames, receive, step, Multipart,
    MultipartReader, Received, Step,
};
use crate::octets::frames;
use crate::zmtp::{
    announced_identity, greeting_accepted, greeting_bytes, ready_frame, Opening, SocketType,
    ZmtpError,
};
use vstd::prelude::*;

verus! {

/// What the bytes of a peer bring.
pub enum LinkEvent {
    /// The greeting of the peer is accepted; these bytes, the `READY` command, are to be sent.
    Greeted(Vec<u8>),
    /// The peer is ready, with the identity that it announced, if any.
    Ready(Option<Vec<u8>>),
    /// A message.
    Message(Multipart),
    /// The peer broke the protocol; nothing more comes of it.
    Failed(ZmtpError),
}

/// What an event says.
pub enum Happening {
    Greeted(Seq<u8>),
    Ready(Option<Seq<u8>>),
    Message(Seq<Seq<u8>>),
    Failed(ZmtpError),
}

impl View for LinkEvent {
    type V = Happening;

    open spec fn view(&self) -> Happening {
        match self {
            LinkEvent::Greeted(ready) => Happening::Greeted(ready@),
            LinkEvent::Ready(Some(identity)) => Happening::Ready(Some(identity@)),
            LinkEvent::Ready(None) => Happening::Ready(None),
            LinkEvent::Message(message) => Happening::Message(frames(message@)),
            LinkEvent::Failed(error) => Happening::Failed(*error),
        }
    }
}

/// What at most one event says.
pub open spec fn said(event: Option<LinkEvent>) -> Seq<Happening> {
    match event {
        Some(event) => seq![event@],
        None => Seq::empty(),
    }
}

/// Where a link stands.
pub enum Phase {
    /// The greeting of the peer comes next.
    Greeting,
    /// The `READY` command of the peer comes next.
    Handshake,
    /// Messages come; the parts of one may have come already.
    Open(Seq<Seq<u8>>),
    /// Frames come, and are dropped: subscriptions are not looked at.
    Draining,
    /// Nothing more is read.
    Closed,
}

/// The phase after the handshake: a publishing socket takes no messages.
pub open spec fn opened(socket_type: SocketType) -> Phase {
    if socket_type == SocketType::Pub {
        Phase::Draining
    } else {
        Phase::Open(Seq::empty())
    }
}

/// What a greeting brings, and the phase after it.
pub open spec fn on_greeting(socket_type: SocketType, identity: Seq<u8>, peer: Seq<u8>) -> (
    Seq<Happening>,
    Phase,
) {
    if greeting_accepted(peer) {
        (
            seq![Happening::Greeted(frame_bytes(ready_frame(socket_type, identity)))],
            Phase::Handshake,
        )
    } else {
        (seq![Happening::Failed(ZmtpError::BadGreeting)], Phase::Closed)
    }
}

/// What a frame brings after the greeting, and the phase after it.
pub open spec fn on_frame(socket_type: SocketType, phase: Phase, frame: FrameModel) -> (
    Seq<Happening>,
    Phase,
) {
    match phase {
        Phase::Handshake => if frame.command {
            (seq![Happening::Ready(announced_identity(frame.body))], opened(socket_type))
        } else {
            (seq![Happening::Failed(ZmtpError::ExpectedCommand)], Phase::Closed)
        },
        Phase::Open(parts) => match step(parts, frame) {
            Step::Wait(parts) => (Seq::empty(), Phase::Open(parts)),
            Step::Message(message) => (
                seq![Happening::Message(message)],
                Phase::Open(Seq::empty()),
            ),
            Step::Violation => (
                seq![Happening::Failed(ZmtpError::CommandWithinMessage)],
                Phase::Closed,
            ),
        },
        _ => (Seq::empty(), phase),
    }
}

/// What comes of a peer that sends `stream`, from a phase on.
pub open spec fn conversation(
    socket_type: SocketType,
    identity: Seq<u8>,
    phase: Phase,
    stream: Seq<u8>,
) -> Seq<Happening>
    decreases stream.len(),
{
    if phase is Closed {
        Seq::empty()
    } else if phase is Greeting {
        if stream.len() < 64 {
            Seq::empty()
        } else {
            let (events, next) = on_greeting(socket_type, identity, stream.take(64));
            events + conversation(socket_type, identity, next, stream.skip(64))
        }
    } else {
        match read_frame(stream) {
            None => Seq::empty(),
            Some((frame, size)) => {
                let (events, next) = on_frame(socket_type, phase, frame);
                events + conversation(socket_type, identity, next, stream.skip(size as int))
            },
        }
    }
}

/// The bytes of messages, one after the other.
pub open spec fn messages_bytes(messages: Seq<Seq<Seq<u8>>>) -> Seq<u8>
    decreases messages.len(),
{
    if messages.len() == 0 {
        Seq::empty()
    } else {
        frames_bytes(message_frames(messages[0])) + messages_bytes(messages.skip(1))
    }
}

/// Whether a message has parts, and their lengths are those of buffers in memory.
pub open spec fn sendable(message: Seq<Seq<u8>>) -> bool {
    &&& message.len() > 0
    &&& forall|i: int| 0 <= i < message.len() ==> (#[trigger] message[i]).len() <= usize::MAX
}

/// After the handshake a stream brings the messages that are received from it one by one.
pub proof fn law_messages_one_by_one(
    socket_type: SocketType,
    identity: Seq<u8>,
    parts: Seq<Seq<u8>>,
    stream: Seq<u8>,
)
    ensures
        conversation(socket_type, identity, Phase::Open(parts), stream) == match receive(
            parts,
            stream,
        ) {
            Received::Message(message, rest) => seq![Happening::Message(message)] + conversation(
                socket_type,
                identity,
                Phase::Open(Seq::empty()),
                rest,
            ),
            Received::Violation => seq![Happening::Failed(ZmtpError::CommandWithinMessage)],
            Received::Incomplete => Seq::empty(),
        },
    decreases stream.len(),
{
    if let Some((frame, size)) = read_frame(stream) {
        let rest = stream.skip(size as int);
        let (events, next) = on_frame(socket_type, Phase::Open(parts), frame);
        let tail = conversation(socket_type, identity, next, rest);
        match step(parts, frame) {
            Step::Wait(parts) => {
                law_messages_one_by_one(socket_type, identity, parts, rest);
                assert(events + tail =~= tail);
            },
            Step::Violation => {
                assert(events + tail =~= events);
            },
            _ => {},
        }
    }
}

/// All messages of a peer that is ready are delivered, in the order in which they were
/// sent.
pub proof fn law_messages_are_delivered(
    socket_type: SocketType,
    identity: Seq<u8>,
    messages: Seq<Seq<Seq<u8>>>,
)
    requires
        forall|i: int| 0 <= i < messages.len() ==> sendable(#[trigger] messages[i]),
    ensures
        conversation(
            socket_type,
            identity,
            Phase::Open(Seq::empty()),
            messages_bytes(messages),
        ) == messages.map_values(|message: Seq<Seq<u8>>| Happening::Message(message)),
    decreases messages.len(),
{
    let delivered = |message: Seq<Seq<u8>>| Happening::Message(message);
    let stream = messages_bytes(messages);
    if messages.len() == 0 {
        assert(messages.map_values(delivered) =~= Seq::empty());
    } else {
        let first = messages[0];
        let others = messages.skip(1);
        assert(sendable(first));
        assert forall|i: int| 0 <= i < others.len() implies sendable(#[trigger] others[i]) by {
            assert(others[i] == messages[i + 1]);
        }
        law_message_read_back(first, messages_bytes(others));
        law_messages_one_by_one(socket_type, identity, Seq::empty(), stream);
        law_messages_are_delivered(socket_type, identity, others);
        assert(messages.map_values(delivered) =~= seq![delivered(first)] + others.map_values(
            delivered,
        ));
    }
}

/// A peer that sends an accepted greeting and a command is answered with the `READY`
/// command of this side, becomes ready with the identity that it announced, and goes on
/// with what it sends after that.
pub proof fn law_peer_becomes_ready(
    socket_type: SocketType,
    identity: Seq<u8>,
    greeting: Seq<u8>,
    command: FrameModel,
    rest: Seq<u8>,
)
    requires
        greeting.len() == 64,
        greeting_accepted(greeting),
        command.command,
        command.body.len() <= usize::MAX,
    ensures
        conversation(
            socket_type,
            identity,
            Phase::Greeting,
            greeting + frame_bytes(command) + rest,
        ) == seq![
            Happening::Greeted(frame_bytes(ready_frame(socket_type, identity))),
            Happening::Ready(announced_identity(command.body)),
        ] + conversation(socket_type, identity, opened(socket_type), rest),
{
    let bytes = frame_bytes(command);
    assert(greeting + bytes + rest =~= greeting + (bytes + rest));
    lemma_after_greeting(socket_type, identity, greeting, bytes + rest);
    law_frame_read_back(command, Seq::empty());
    assert(bytes + Seq::<u8>::empty() =~= bytes);
    lemma_after_frame(socket_type, identity, Phase::Handshake, bytes, rest);
    let tail = conversation(socket_type, identity, opened(socket_type), rest);
    let greeted = Happening::Greeted(frame_bytes(ready_frame(socket_type, identity)));
    let ready = Happening::Ready(announced_identity(command.body));
    assert(seq![greeted] + (seq![ready] + tail) =~= seq![greeted, ready] + tail);
}

/// A peer whose greeting is not accepted gets nothing but an error, whatever it sends.
pub proof fn law_bad_greeting_ends_it(
    socket_type: SocketType,
    identity: Seq<u8>,
    greeting: Seq<u8>,
    rest: Seq<u8>,
)
    requires
        greeting.len() == 64,
        !greeting_accepted(greeting),
    ensures
        conversation(socket_type, identity, Phase::Greeting, greeting + rest) == seq![
            Happening::Failed(ZmtpError::BadGreeting),
        ],
{
    lemma_after_greeting(socket_type, identity, greeting, rest);
    let failed = seq![Happening::Failed(ZmtpError::BadGreeting)];
    assert(failed + conversation(socket_type, identity, Phase::Closed, rest) =~= failed);
}

/// A peer that sends a frame other than a command for its handshake gets nothing more but
/// an error.
pub proof fn law_handshake_needs_command(
    socket_type: SocketType,
    identity: Seq<u8>,
    frame: FrameModel,
    rest: Seq<u8>,
)
    requires
        !frame.command,
        frame.body.len() <= usize::MAX,
    ensures
        conversation(socket_type, identity, Phase::Handshake, frame_bytes(frame) + rest) == seq![
            Happening::Failed(ZmtpError::ExpectedCommand),
        ],
{
    let bytes = frame_bytes(frame);
    law_frame_read_back(frame, Seq::empty());
    assert(bytes + Seq::<u8>::empty() =~= bytes);
    lemma_after_frame(socket_type, identity, Phase::Handshake, bytes, rest);
    let failed = seq![Happening::Failed(ZmtpError::ExpectedCommand)];
    assert(failed + conversation(socket_type, identity, Phase::Closed, rest) =~= failed);
}

/// A publishing socket makes nothing of what its subscribers send.
pub proof fn law_subscriptions_are_dropped(
    socket_type: SocketType,
    identity: Seq<u8>,
    stream: Seq<u8>,
)
    ensures
        conversation(socket_type, identity, Phase::Draining, stream) == Seq::<Happening>::empty(),
    decreases stream.len(),
{
    if let Some((frame, size)) = read_frame(stream) {
        let rest = stream.skip(size as int);
        law_subscriptions_are_dropped(socket_type, identity, rest);
        assert(Seq::<Happening>::empty() + Seq::<Happening>::empty() =~= Seq::empty());
    }
}

/// The state of a link.
enum LinkState {
    Greeting,
    Handshake(FrameReader),
    Open(FrameReader, MultipartReader),
    Draining(FrameReader),
    Closed,
}

/// A connection to one peer.
pub struct PeerLink {
    opening: Opening,
    state: LinkState,
}

/// There is no complete frame before the bytes that a frame reader needs.
proof fn lemma_frame_needs(reader: FrameReader, stream: Seq<u8>)
    requires
        reader.wf(),
        stream.len() < reader.needed(),
    ensures
        read_frame(reader.taken() + stream) is None,
{
    law_reader_wants_no_more(reader, stream);
}

/// Takes the bytes that a reader wanted. Returns the frame once all of it was taken, even
/// if its body is empty.
fn feed_frame(reader: &mut FrameReader, bytes: Vec<u8>) -> (frame: Option<Frame>)
    requires
        old(reader).wf(),
        old(reader).needed() > 0,
        bytes@.len() == old(reader).needed(),
    ensures
        final(reader).wf(),
        final(reader).needed() > 0,
        match frame {
            Some(frame) => {
                &&& final(reader).taken() == Seq::<u8>::empty()
                &&& read_frame(old(reader).taken() + bytes@) == Some(
                    (frame@, (old(reader).taken() + bytes@).len()),
                )
            },
            None => final(reader).taken() == old(reader).taken() + bytes@,
        },
{
    let ghost before = reader.taken() + bytes@;
    let frame = reader.feed(bytes);
    match frame {
        Some(frame) => Some(frame),
        None => {
            if reader.wanted() == 0 {
                assert(reader.taken() + Seq::<u8>::empty() =~= before);
                reader.feed(Vec::new())
            } else {
                None
            }
        },
    }
}

/// A greeting brings what it brings, and the bytes after it what they bring from the next
/// phase on.
proof fn lemma_after_greeting(
    socket_type: SocketType,
    identity: Seq<u8>,
    peer: Seq<u8>,
    rest: Seq<u8>,
)
    requires
        peer.len() == 64,
    ensures
        conversation(socket_type, identity, Phase::Greeting, peer + rest) == on_greeting(
            socket_type,
            identity,
            peer,
        ).0 + conversation(
            socket_type,
            identity,
            on_greeting(socket_type, identity, peer).1,
            rest,
        ),
{
    assert((peer + rest).take(64) =~= peer);
    assert((peer + rest).skip(64) =~= rest);
}

/// A frame brings what it brings, and the bytes after it what they bring from the next
/// phase on.
proof fn lemma_after_frame(
    socket_type: SocketType,
    identity: Seq<u8>,
    phase: Phase,
    bytes: Seq<u8>,
    rest: Seq<u8>,
)
    requires
        !(phase is Greeting),
        !(phase is Closed),
        read_frame(bytes) matches Some((frame, size)) && size == bytes.len(),
    ensures
        conversation(socket_type, identity, phase, bytes + rest) == on_frame(
            socket_type,
            phase,
            (read_frame(bytes)->0).0,
        ).0 + conversation(
            socket_type,
            identity,
            on_frame(socket_type, phase, (read_frame(bytes)->0).0).1,
            rest,
        ),
{
    law_frame_stands_alone(bytes, rest);
    assert((bytes + rest).skip(bytes.len() as int) =~= rest);
}

impl PeerLink {
    /// The kind of the socket on this side.
    pub closed spec fn socket_type(self) -> SocketType {
        self.opening.socket_type
    }

    /// The identity that this side announces.
    pub closed spec fn identity(self) -> Seq<u8> {
        self.opening.identity@
    }

    /// Where the link stands.
    pub closed spec fn phase(self) -> Phase {
        match self.state {
            LinkState::Greeting => Phase::Greeting,
            LinkState::Handshake(_) => Phase::Handshake,
            LinkState::Open(_, message) => Phase::Open(message@),
            LinkState::Draining(_) => Phase::Draining,
            LinkState::Closed => Phase::Closed,
        }
    }

    /// The bytes that were taken since the last complete piece.
    pub closed spec fn pending(self) -> Seq<u8> {
        match self.state {
            LinkState::Greeting => Seq::empty(),
            LinkState::Handshake(frame) => frame.taken(),
            LinkState::Open(frame, _) => frame.taken(),
            LinkState::Draining(frame) => frame.taken(),
            LinkState::Closed => Seq::empty(),
        }
    }

    /// How many bytes have to be read next.
    pub closed spec fn needed(self) -> nat {
        match self.state {
            LinkState::Greeting => 64,
            LinkState::Handshake(frame) => frame.needed(),
            LinkState::Open(frame, _) => frame.needed(),
            LinkState::Draining(frame) => frame.needed(),
            LinkState::Closed => 0,
        }
    }

    /// More bytes are needed until the link is closed, and nothing is held back.
    pub closed spec fn wf(self) -> bool {
        match self.state {
            LinkState::Greeting => true,
            LinkState::Handshake(frame) => frame.wf() && frame.needed() > 0,
            LinkState::Open(frame, _) => frame.wf() && frame.needed() > 0,
            LinkState::Draining(frame) => frame.wf() && frame.needed() > 0,
            LinkState::Closed => true,
        }
    }

    /// What comes of the peer if it goes on with `stream`.
    pub open spec fn foresees(self, stream: Seq<u8>) -> Seq<Happening> {
        conversation(self.socket_type(), self.identity(), self.phase(), self.pending() + stream)
    }

    /// Starts a link. Also returns the greeting, which is to be sent at once.
    pub fn open(socket_type: SocketType, identity: Vec<u8>) -> (opening: (PeerLink, [u8; 64]))
        ensures
            opening.0.wf(),
            opening.0.socket_type() == socket_type,
            opening.0.identity() == identity@,
            opening.0.phase() is Greeting,
            opening.0.pending() == Seq::<u8>::empty(),
            opening.0.needed() == 64,
            opening.1@ == greeting_bytes(),
    {
        let opening = Opening { socket_type, identity };
        let greeting = opening.greeting();
        (PeerLink { opening, state: LinkState::Greeting }, greeting)
    }

    /// How many bytes have to be read next; none once the link is closed. Fewer bring
    /// nothing, so that no byte is awaited which the piece does not have.
    pub fn wanted(&self) -> (count: usize)
        requires
            self.wf(),
        ensures
            count == self.needed(),
            count == 0 <==> self.phase() is Closed,
            forall|stream: Seq<u8>|
                stream.len() < count ==> #[trigger] self.foresees(stream) == Seq::<
                    Happening,
                >::empty(),
    {
        proof {
            assert forall|stream: Seq<u8>| stream.len() < self.needed() implies #[trigger]
                self.foresees(stream) == Seq::<Happening>::empty() by {
                match self.state {
                    LinkState::Handshake(reader) => lemma_frame_needs(reader, stream),
                    LinkState::Open(reader, _) => lemma_frame_needs(reader, stream),
                    LinkState::Draining(reader) => lemma_frame_needs(reader, stream),
                    _ => {},
                }
            }
        }
        match &self.state {
            LinkState::Greeting => 64,
            LinkState::Handshake(frame) => frame.wanted(),
            LinkState::Open(frame, _) => frame.wanted(),
            LinkState::Draining(frame) => frame.wanted(),
            LinkState::Closed => 0,
        }
    }

    /// Takes the bytes that were wanted, and says what they bring.
    pub fn feed(&mut self, bytes: Vec<u8>) -> (event: Option<LinkEvent>)
        requires
            old(self).wf(),
            bytes@.len() == old(self).needed(),
        ensures
            final(self).wf(),
            final(self).socket_type() == old(self).socket_type(),
            final(self).identity() == old(self).identity(),
            old(self).foresees(bytes@) == said(event),
            final(self).foresees(Seq::empty()) == Seq::<Happening>::empty(),
            final(self).phase() is Closed <==> {
                ||| old(self).phase() is Closed
                ||| event matches Some(LinkEvent::Failed(_))
            },
            forall|rest: Seq<u8>|
                #[trigger] old(self).foresees(bytes@ + rest) == old(self).foresees(bytes@)
                    + final(self).foresees(rest),
    {
        let ghost before = *self;
        let mut state = LinkState::Closed;
        std::mem::swap(&mut state, &mut self.state);
        match state {
            LinkState::Greeting => {
                let event = match self.opening.on_greeting(&bytes) {
                    Ok(()) => {
                        self.state = LinkState::Handshake(FrameReader::new());
                        LinkEvent::Greeted(self.opening.ready())
                    },
                    Err(error) => LinkEvent::Failed(error),
                };
                proof {
                    lemma_complete(before, *self, bytes@, seq![event@]);
                }
                Some(event)
            },
            LinkState::Handshake(reader) => {
                let mut reader = reader;
                match feed_frame(&mut reader, bytes) {
                    Some(frame) => {
                        let event = match self.opening.on_ready(&frame) {
                            Ok(identity) => {
                                if self.opening.socket_type == SocketType::Pub {
                                    self.state = LinkState::Draining(reader);
                                } else {
                                    self.state = LinkState::Open(reader, MultipartReader::new());
                                }
                                LinkEvent::Ready(identity)
                            },
                            Err(error) => LinkEvent::Failed(error),
                        };
                        proof {
                            lemma_complete(before, *self, bytes@, seq![event@]);
                        }
                        Some(event)
                    },
                    None => {
                        self.state = LinkState::Handshake(reader);
                        proof {
                            lemma_incomplete(before, *self, bytes@);
                        }
                        None
                    },
                }
            },
            LinkState::Open(reader, message) => {
                let mut reader = reader;
                let mut message = message;
                match feed_frame(&mut reader, bytes) {
                    Some(frame) => {
                        let event = match message.accept(frame) {
                            Ok(complete) => {
                                self.state = LinkState::Open(reader, message);
                                match complete {
                                    Some(complete) => Some(LinkEvent::Message(complete)),
                                    None => None,
                                }
                            },
                            Err(error) => Some(LinkEvent::Failed(error)),
                        };
                        proof {
                            lemma_complete(
                                before,
                                *self,
                                bytes@,
                                said(event),
                            );
                        }
                        event
                    },
                    None => {
                        self.state = LinkState::Open(reader, message);
                        proof {
                            lemma_incomplete(before, *self, bytes@);
                        }
                        None
                    },
                }
            },
            LinkState::Draining(reader) => {
                let mut reader = reader;
                let frame = feed_frame(&mut reader, bytes);
                self.state = LinkState::Draining(reader);
                proof {
                    if frame is Some {
                        lemma_complete(before, *self, bytes@, Seq::empty());
                    } else {
                        lemma_incomplete(before, *self, bytes@);
                    }
                }
                None
            },
            LinkState::Closed => None,
        }
    }
}

/// A link that was fed a part of a piece has nothing to say yet.
proof fn lemma_incomplete(before: PeerLink, after: PeerLink, bytes: Seq<u8>)
    requires
        after.wf(),
        after.state is Handshake || after.state is Open || after.state is Draining,
        after.opening == before.opening,
        after.phase() == before.phase(),
        after.pending() == before.pending() + bytes,
    ensures
        before.foresees(bytes) == Seq::<Happening>::empty(),
        after.foresees(Seq::empty()) == Seq::<Happening>::empty(),
        forall|rest: Seq<u8>|
            #[trigger] before.foresees(bytes + rest) == before.foresees(bytes) + after.foresees(
                rest,
            ),
{
    match after.state {
        LinkState::Handshake(reader) => lemma_frame_needs(reader, Seq::empty()),
        LinkState::Open(reader, _) => lemma_frame_needs(reader, Seq::empty()),
        LinkState::Draining(reader) => lemma_frame_needs(reader, Seq::empty()),
        _ => {},
    }
    assert(after.pending() + Seq::<u8>::empty() =~= after.pending());
    assert forall|rest: Seq<u8>| #[trigger] before.foresees(bytes + rest) == before.foresees(bytes)
        + after.foresees(rest) by {
        assert(before.pending() + (bytes + rest) =~= after.pending() + rest);
        assert(before.foresees(bytes) + after.foresees(rest) =~= after.foresees(rest));
    }
}

/// A link that was fed all of a piece says what the piece brings.
proof fn lemma_complete(
    before: PeerLink,
    after: PeerLink,
    bytes: Seq<u8>,
    events: Seq<Happening>,
)
    requires
        !(before.phase() is Closed),
        after.opening == before.opening,
        after.pending() == Seq::<u8>::empty(),
        before.phase() is Greeting ==> {
            &&& before.pending() == Seq::<u8>::empty()
            &&& bytes.len() == 64
            &&& (events, after.phase()) == on_greeting(
                before.socket_type(),
                before.identity(),
                bytes,
            )
        },
        !(before.phase() is Greeting) ==> {
            &&& read_frame(before.pending() + bytes) matches Some((frame, size))
            &&& size == (before.pending() + bytes).len()
            &&& (events, after.phase()) == on_frame(before.socket_type(), before.phase(), frame)
        },
    ensures
        before.foresees(bytes) == events,
        after.foresees(Seq::empty()) == Seq::<Happening>::empty(),
        forall|rest: Seq<u8>|
            #[trigger] before.foresees(bytes + rest) == events + after.foresees(rest),
{
    let all = before.pending() + bytes;
    assert(after.pending() + Seq::<u8>::empty() =~= Seq::<u8>::empty());
    assert(after.foresees(Seq::empty()) =~= Seq::empty());
    assert forall|rest: Seq<u8>| #[trigger] before.foresees(bytes + rest) == events
        + after.foresees(rest) by {
        assert(before.pending() + (bytes + rest) =~= all + rest);
        assert(after.pending() + rest =~= rest);
        if before.phase() is Greeting {
            assert(all =~= bytes);
            lemma_after_greeting(before.socket_type(), before.identity(), bytes, rest);
        } else {
            lemma_after_frame(
                before.socket_type(),
                before.identity(),
                before.phase(),
                all,
                rest,
            );
        }
    }
    assert(bytes + Seq::<u8>::empty() =~= bytes);
    assert(before.foresees(bytes + Seq::<u8>::empty()) == events + after.foresees(Seq::empty()));
    assert(events + Seq::<Happening>::empty() =~= events);
}

/// What an event says is what it carries: the bytes to send, the identity, the frames of the
/// message, or the error.
pub proof fn law_events_say_what_they_carry(event: LinkEvent)
    ensures
        event matches LinkEvent::Greeted(ready) ==> event@ == Happening::Greeted(ready@),
        event matches LinkEvent::Ready(Some(identity)) ==> event@ == Happening::Ready(
            Some(identity@),
        ),
        event matches LinkEvent::Ready(None) ==> event@ == Happening::Ready(None),
        event matches LinkEvent::Message(message) ==> {
            &&& event@ matches Happening::Message(parts)
            &&& parts.len() == message@.len()
            &&& forall|i: int|
                0 <= i < parts.len() ==> #[trigger] parts[i] == crate::octets::octets(message@[i])
        },
        event matches LinkEvent::Failed(error) ==> event@ == Happening::Failed(error),
        said(Some(event)) == seq![event@],
        said(None) == Seq::<Happening>::empty(),
{
}

/// Messages are written one after the other, with nothing before, between or behind them.
pub proof fn law_messages_bytes_joined(left: Seq<Seq<Seq<u8>>>, right: Seq<Seq<Seq<u8>>>)
    ensures
        messages_bytes(Seq::empty()) == Seq::<u8>::empty(),
        left.len() == 1 ==> messages_bytes(left) == frames_bytes(message_frames(left[0])),
        messages_bytes(left + right) == messages_bytes(left) + messages_bytes(right),
    decreases left.len(),
{
    if left.len() == 0 {
        assert(left + right =~= right);
        assert(messages_bytes(left) + messages_bytes(right) =~= messages_bytes(right));
    } else {
        let others = left.skip(1);
        law_messages_bytes_joined(others, right);
        assert((left + right).skip(1) =~= others + right);
        assert((left + right)[0] == left[0]);
        assert(messages_bytes(left + right) =~= messages_bytes(left) + messages_bytes(right));
        if left.len() == 1 {
            assert(others =~= Seq::empty());
            assert(messages_bytes(left) =~= frames_bytes(message_frames(left[0])));
        }
    }
}

/// What messages are followed by is read as if the messages had not been there.
proof fn lemma_messages_then(
    socket_type: SocketType,
    identity: Seq<u8>,
    messages: Seq<Seq<Seq<u8>>>,
    rest: Seq<u8>,
)
    requires
        forall|i: int| 0 <= i < messages.len() ==> sendable(#[trigger] messages[i]),
    ensures
        conversation(
            socket_type,
            identity,
            Phase::Open(Seq::empty()),
            messages_bytes(messages) + rest,
        ) == Seq::new(messages.len(), |i: int| Happening::Message(messages[i])) + conversation(
            socket_type,
            identity,
            Phase::Open(Seq::empty()),
            rest,
        ),
    decreases messages.len(),
{
    let open = Phase::Open(Seq::empty());
    let tail = conversation(socket_type, identity, open, rest);
    let delivered = Seq::new(messages.len(), |i: int| Happening::Message(messages[i]));
    if messages.len() == 0 {
        assert(messages_bytes(messages) + rest =~= rest);
        assert(delivered + tail =~= tail);
    } else {
        let first = messages[0];
        let others = messages.skip(1);
        assert(sendable(first));
        assert forall|i: int| 0 <= i < others.len() implies sendable(#[trigger] others[i]) by {
            assert(others[i] == messages[i + 1]);
        }
        let stream = messages_bytes(messages) + rest;
        assert(stream =~= frames_bytes(message_frames(first)) + (messages_bytes(others) + rest));
        law_message_read_back(first, messages_bytes(others) + rest);
        law_messages_one_by_one(socket_type, identity, Seq::empty(), stream);
        lemma_messages_then(socket_type, identity, others, rest);
        let later = Seq::new(others.len(), |i: int| Happening::Message(others[i]));
        assert(delivered =~= seq![Happening::Message(first)] + later);
        assert(delivered + tail =~= seq![Happening::Message(first)] + (later + tail));
    }
}

/// The conversation with a well-behaved peer, from its greeting on. It is answered with the
/// `READY` command, becomes ready, and then, on a `REP` or `ROUTER` socket, each message
/// that it sends is delivered, in order, each part in its place. On a `PUB` socket nothing
/// more comes of it.
pub proof fn law_whole_conversation(
    socket_type: SocketType,
    identity: Seq<u8>,
    greeting: Seq<u8>,
    command: FrameModel,
    messages: Seq<Seq<Seq<u8>>>,
)
    requires
        greeting.len() == 64,
        greeting[0] == 0xFF,
        greeting[9] == 0x7F,
        command.command,
        command.body.len() <= usize::MAX,
        forall|i: int| 0 <= i < messages.len() ==> (#[trigger] messages[i]).len() > 0,
        forall|i: int, j: int|
            0 <= i < messages.len() && 0 <= j < messages[i].len() ==> (
            #[trigger] messages[i][j]).len() <= usize::MAX,
    ensures
        ({
            let events = conversation(
                socket_type,
                identity,
                Phase::Greeting,
                greeting + frame_bytes(command) + messages_bytes(messages),
            );
            &&& events[0] == Happening::Greeted(frame_bytes(ready_frame(socket_type, identity)))
            &&& events[1] == Happening::Ready(announced_identity(command.body))
            &&& socket_type == SocketType::Rep || socket_type == SocketType::Router ==> {
                &&& events.len() == 2 + messages.len()
                &&& forall|i: int|
                    0 <= i < messages.len() ==> #[trigger] events[2 + i] == Happening::Message(
                        messages[i],
                    )
            }
            &&& socket_type == SocketType::Pub ==> events.len() == 2
        }),
{
    let stream = messages_bytes(messages);
    assert forall|i: int| 0 <= i < messages.len() implies sendable(#[trigger] messages[i]) by {
        assert forall|j: int| 0 <= j < messages[i].len() implies (#[trigger] messages[i][j]).len()
            <= usize::MAX by {}
    }
    law_peer_becomes_ready(socket_type, identity, greeting, command, stream);
    if socket_type == SocketType::Pub {
        law_subscriptions_are_dropped(socket_type, identity, stream);
    } else {
        law_messages_are_delivered(socket_type, identity, messages);
    }
}

/// After the handshake a peer of a `REP` or `ROUTER` socket can go on as it likes: what it
/// sends behind some messages brings what it would bring without them, after them.
pub proof fn law_messages_and_then(
    socket_type: SocketType,
    identity: Seq<u8>,
    greeting: Seq<u8>,
    command: FrameModel,
    messages: Seq<Seq<Seq<u8>>>,
    rest: Seq<u8>,
)
    requires
        socket_type == SocketType::Rep || socket_type == SocketType::Router,
        greeting.len() == 64,
        greeting[0] == 0xFF,
        greeting[9] == 0x7F,
        command.command,
        command.body.len() <= usize::MAX,
        forall|i: int| 0 <= i < messages.len() ==> (#[trigger] messages[i]).len() > 0,
        forall|i: int, j: int|
            0 <= i < messages.len() && 0 <= j < messages[i].len() ==> (
            #[trigger] messages[i][j]).len() <= usize::MAX,
    ensures
        ({
            let opening = greeting + frame_bytes(command);
            let events = conversation(
                socket_type,
                identity,
                Phase::Greeting,
                opening + messages_bytes(messages) + rest,
            );
            let without = conversation(
                socket_type,
                identity,
                Phase::Greeting,
                opening + rest,
            );
            &&& events.len() == without.len() + messages.len()
            &&& without.len() >= 2
            &&& events[0] == without[0]
            &&& events[1] == without[1]
            &&& forall|i: int|
                0 <= i < messages.len() ==> #[trigger] events[2 + i] == Happening::Message(
                    messages[i],
                )
            &&& forall|i: int|
                2 <= i < without.len() ==> events[messages.len() + i] == #[trigger] without[i]
        }),
{
    let stream = messages_bytes(messages) + rest;
    assert forall|i: int| 0 <= i < messages.len() implies sendable(#[trigger] messages[i]) by {
        assert forall|j: int| 0 <= j < messages[i].len() implies (#[trigger] messages[i][j]).len()
            <= usize::MAX by {}
    }
    let opening = greeting + frame_bytes(command);
    assert(opening + messages_bytes(messages) + rest =~= opening + stream);
    law_peer_becomes_ready(socket_type, identity, greeting, command, stream);
    law_peer_becomes_ready(socket_type, identity, greeting, command, rest);
    lemma_messages_then(socket_type, identity, messages, rest);
    let delivered = Seq::new(messages.len(), |i: int| Happening::Message(messages[i]));
    assert(delivered.len() == messages.len());
}

/// Commands that a peer of a `REP` or `ROUTER` socket sends between its messages make no
/// difference.
pub proof fn law_later_commands_are_ignored(
    socket_type: SocketType,
    identity: Seq<u8>,
    greeting: Seq<u8>,
    command: FrameModel,
    later: FrameModel,
    rest: Seq<u8>,
)
    requires
        greeting.len() == 64,
        greeting[0] == 0xFF,
        greeting[9] == 0x7F,
        command.command,
        command.body.len() <= usize::MAX,
        later.command,
        later.body.len() <= usize::MAX,
    ensures
        conversation(
            socket_type,
            identity,
            Phase::Greeting,
            greeting + frame_bytes(command) + frame_bytes(later) + rest,
        ) == conversation(
            socket_type,
            identity,
            Phase::Greeting,
            greeting + frame_bytes(command) + rest,
        ),
{
    let bytes = frame_bytes(later);
    let opening = greeting + frame_bytes(command);
    assert(opening + bytes + rest =~= opening + (bytes + rest));
    law_peer_becomes_ready(socket_type, identity, greeting, command, bytes + rest);
    law_peer_becomes_ready(socket_type, identity, greeting, command, rest);
    law_frame_read_back(later, Seq::empty());
    assert(bytes + Seq::<u8>::empty() =~= bytes);
    let phase = opened(socket_type);
    lemma_after_frame(socket_type, identity, phase, bytes, rest);
    let tail = conversation(socket_type, identity, phase, rest);
    assert(Seq::<Happening>::empty() + tail =~= tail);
}

/// A command behind a part that says that more follow is an error, and the end.
proof fn lemma_interrupted_message(
    socket_type: SocketType,
    identity: Seq<u8>,
    part: FrameModel,
    later: FrameModel,
    rest: Seq<u8>,
)
    requires
        !part.command,
        part.more,
        part.body.len() <= usize::MAX,
        later.command,
        later.body.len() <= usize::MAX,
    ensures
        conversation(
            socket_type,
            identity,
            Phase::Open(Seq::empty()),
            frame_bytes(part) + (frame_bytes(later) + rest),
        ) == seq![Happening::Failed(ZmtpError::CommandWithinMessage)],
{
    let stream = frame_bytes(part) + (frame_bytes(later) + rest);
    let parts = Seq::<Seq<u8>>::empty().push(part.body);
    law_frame_read_back(part, frame_bytes(later) + rest);
    law_frame_read_back(later, rest);
    assert(stream.skip(frame_bytes(part).len() as int) =~= frame_bytes(later) + rest);
    assert(receive(parts, frame_bytes(later) + rest) is Violation);
    assert(receive(Seq::empty(), stream) is Violation);
    law_messages_one_by_one(socket_type, identity, Seq::empty(), stream);
}

/// A command between the parts of a message ends a `REP` or `ROUTER` conversation with an
/// error, whatever follows.
pub proof fn law_interrupted_message_ends_it(
    socket_type: SocketType,
    identity: Seq<u8>,
    greeting: Seq<u8>,
    command: FrameModel,
    part: FrameModel,
    later: FrameModel,
    rest: Seq<u8>,
)
    requires
        socket_type == SocketType::Rep || socket_type == SocketType::Router,
        greeting.len() == 64,
        greeting[0] == 0xFF,
        greeting[9] == 0x7F,
        command.command,
        command.body.len() <= usize::MAX,
        !part.command,
        part.more,
        part.body.len() <= usize::MAX,
        later.command,
        later.body.len() <= usize::MAX,
    ensures
        ({
            let events = conversation(
                socket_type,
                identity,
                Phase::Greeting,
                greeting + frame_bytes(command) + frame_bytes(part) + frame_bytes(later) + rest,
            );
            &&& events.len() == 3
            &&& events[2] == Happening::Failed(ZmtpError::CommandWithinMessage)
        }),
{
    let opening = greeting + frame_bytes(command);
    let first = frame_bytes(part);
    let second = frame_bytes(later);
    assert(opening + first + second + rest =~= opening + (first + (second + rest)));
    law_peer_becomes_ready(socket_type, identity, greeting, command, first + (second + rest));
    lemma_interrupted_message(socket_type, identity, part, later, rest);
}

/// Whatever a subscriber sends after its handshake, nothing comes of it on a `PUB` socket.
pub proof fn law_subscribers_are_not_heard(
    identity: Seq<u8>,
    greeting: Seq<u8>,
    command: FrameModel,
    rest: Seq<u8>,
)
    requires
        greeting.len() == 64,
        greeting[0] == 0xFF,
        greeting[9] == 0x7F,
        command.command,
        command.body.len() <= usize::MAX,
    ensures
        conversation(
            SocketType::Pub,
            identity,
            Phase::Greeting,
            greeting + frame_bytes(command) + rest,
        ) == seq![
            Happening::Greeted(frame_bytes(ready_frame(SocketType::Pub, identity))),
            Happening::Ready(announced_identity(command.body)),
        ],
{
    law_peer_becomes_ready(SocketType::Pub, identity, greeting, command, rest);
    law_subscriptions_are_dropped(SocketType::Pub, identity, rest);
    let both = seq![
        Happening::Greeted(frame_bytes(ready_frame(SocketType::Pub, identity))),
        Happening::Ready(announced_identity(command.body)),
    ];
    assert(both + Seq::<Happening>::empty() =~= both);
}

/// A peer whose first and tenth bytes are not those of the signature gets an error and
/// nothing else; one that has not sent its whole greeting gets nothing yet.
pub proof fn law_greeting_comes_first(
    socket_type: SocketType,
    identity: Seq<u8>,
    stream: Seq<u8>,
)
    ensures
        stream.len() < 64 ==> conversation(socket_type, identity, Phase::Greeting, stream) == Seq::<
            Happening,
        >::empty(),
        stream.len() >= 64 && (stream[0] != 0xFF || stream[9] != 0x7F) ==> conversation(
            socket_type,
            identity,
            Phase::Greeting,
            stream,
        ) == seq![Happening::Failed(ZmtpError::BadGreeting)],
{
    if stream.len() >= 64 && (stream[0] != 0xFF || stream[9] != 0x7F) {
        let greeting = stream.take(64);
        law_bad_greeting_ends_it(socket_type, identity, greeting, stream.skip(64));
        assert(greeting + stream.skip(64) =~= stream);
    }
}

/// A peer whose first frame is no command gets an error after the greetings, and nothing
/// else.
pub proof fn law_command_comes_second(
    socket_type: SocketType,
    identity: Seq<u8>,
    greeting: Seq<u8>,
    frame: FrameModel,
    rest: Seq<u8>,
)
    requires
        greeting.len() == 64,
        greeting[0] == 0xFF,
        greeting[9] == 0x7F,
        !frame.command,
        frame.body.len() <= usize::MAX,
    ensures
        conversation(
            socket_type,
            identity,
            Phase::Greeting,
            greeting + frame_bytes(frame) + rest,
        ) == seq![
            Happening::Greeted(frame_bytes(ready_frame(socket_type, identity))),
            Happening::Failed(ZmtpError::ExpectedCommand),
        ],
{
    let bytes = frame_bytes(frame);
    assert(greeting + bytes + rest =~= greeting + (bytes + rest));
    lemma_after_greeting(socket_type, identity, greeting, bytes + rest);
    law_handshake_needs_command(socket_type, identity, frame, rest);
    let greeted = Happening::Greeted(frame_bytes(ready_frame(socket_type, identity)));
    let failed = Happening::Failed(ZmtpError::ExpectedCommand);
    assert(seq![greeted] + seq![failed] =~= seq![greeted, failed]);
}

/// Bytes that do not complete a frame bring nothing yet, whether the peer is to make itself
/// known or has begun a message.
pub proof fn law_unfinished_frame_waits(
    socket_type: SocketType,
    identity: Seq<u8>,
    greeting: Seq<u8>,
    part: Seq<u8>,
)
    requires
        greeting.len() == 64,
        greeting[0] == 0xFF,
        greeting[9] == 0x7F,
        read_frame(part) is None,
    ensures
        conversation(socket_type, identity, Phase::Greeting, greeting + part) == seq![
            Happening::Greeted(frame_bytes(ready_frame(socket_type, identity))),
        ],
        forall|command: FrameModel|
            command.command && command.body.len() <= usize::MAX ==> (#[trigger] conversation(
                socket_type,
                identity,
                Phase::Greeting,
                greeting + frame_bytes(command) + part,
            )).len() == 2,
{
    lemma_after_greeting(socket_type, identity, greeting, part);
    let greeted = seq![Happening::Greeted(frame_bytes(ready_frame(socket_type, identity)))];
    assert(greeted + Seq::<Happening>::empty() =~= greeted);
    assert forall|command: FrameModel|
        command.command && command.body.len() <= usize::MAX implies (#[trigger] conversation(
        socket_type,
        identity,
        Phase::Greeting,
        greeting + frame_bytes(command) + part,
    )).len() == 2 by {
        law_peer_becomes_ready(socket_type, identity, greeting, command, part);
    }
}

/// What a link foresees is the conversation from where it stands, with the bytes that it
/// took already before those that come.
pub proof fn law_link_follows_the_conversation(link: PeerLink, stream: Seq<u8>)
    ensures
        link.foresees(stream) == conversation(
            link.socket_type(),
            link.identity(),
            link.phase(),
            link.pending() + stream,
        ),
{
}

/// How a frame is written makes no difference: with any form that is read as the same frame,
/// be its size longer than need be or its unused flags set, the conversation goes on alike.
pub proof fn law_form_of_a_frame(
    socket_type: SocketType,
    identity: Seq<u8>,
    greeting: Seq<u8>,
    phase: Phase,
    bytes: Seq<u8>,
    rest: Seq<u8>,
)
    requires
        greeting.len() == 64,
        greeting[0] == 0xFF,
        greeting[9] == 0x7F,
        read_frame(bytes) matches Some((frame, size)) && size == bytes.len(),
    ensures
        conversation(socket_type, identity, Phase::Greeting, greeting + bytes + rest)
            == conversation(
            socket_type,
            identity,
            Phase::Greeting,
            greeting + frame_bytes((read_frame(bytes)->0).0) + rest,
        ),
        !(phase is Greeting) ==> conversation(socket_type, identity, phase, bytes + rest)
            == conversation(
            socket_type,
            identity,
            phase,
            frame_bytes((read_frame(bytes)->0).0) + rest,
        ),
{
    let frame = (read_frame(bytes)->0).0;
    let written = frame_bytes(frame);
    crate::frame::law_read_frame_is_exact(bytes);
    law_frame_read_back(frame, Seq::empty());
    assert(written + Seq::<u8>::empty() =~= written);
    assert(greeting + bytes + rest =~= greeting + (bytes + rest));
    assert(greeting + written + rest =~= greeting + (written + rest));
    lemma_after_greeting(socket_type, identity, greeting, bytes + rest);
    lemma_after_greeting(socket_type, identity, greeting, written + rest);
    lemma_after_frame(socket_type, identity, Phase::Handshake, bytes, rest);
    lemma_after_frame(socket_type, identity, Phase::Handshake, written, rest);
    if !(phase is Greeting) && !(phase is Closed) {
        lemma_after_frame(socket_type, identity, phase, bytes, rest);
        lemma_after_frame(socket_type, identity, phase, written, rest);
    }
}

/// A link that is closed says nothing more.
pub proof fn law_closed_link_is_silent(socket_type: SocketType, identity: Seq<u8>, stream: Seq<u8>)
    ensures
        conversation(socket_type, identity, Phase::Closed, stream) == Seq::<Happening>::empty(),
{
}

} // verus!
