//! Messages of several frames.

use crate::frame::{
    frame_bytes, law_frame_read_back, law_frame_stands_alone, read_frame, write_frame, Frame,
    FrameModel,
};
use crate::octets::{frames, octets};
use crate::zmtp::ZmtpError;
use bytes::Bytes;
use vstd::prelude::*;

verus! {

/// One direction of a parsed multipart message.
pub type Multipart = Vec<Bytes>;

/// The frames that carry a message.
pub open spec fn message_frames(parts: Seq<Seq<u8>>) -> Seq<FrameModel> {
    Seq::new(
        parts.len(),
        |i: int| FrameModel { body: parts[i], more: i + 1 < parts.len(), command: false },
    )
}

/// The bytes of `frames`, one frame after the other.
pub open spec fn frames_bytes(frames: Seq<FrameModel>) -> Seq<u8>
    decreases frames.len(),
{
    if frames.len() == 0 {
        Seq::empty()
    } else {
        frames_bytes(frames.drop_last()) + frame_bytes(frames.last())
    }
}

/// What becomes of the parts read so far when a frame arrives.
pub enum Step {
    /// The message goes on.
    Wait(Seq<Seq<u8>>),
    /// The message is complete.
    Message(Seq<Seq<u8>>),
    /// A command interrupts the message.
    Violation,
}

/// The step from `parts` with `frame`: a command is dropped before a message and an error
/// within one, the last frame of a message completes it.
pub open spec fn step(parts: Seq<Seq<u8>>, frame: FrameModel) -> Step {
    if frame.command {
        if parts.len() == 0 {
            Step::Wait(parts)
        } else {
            Step::Violation
        }
    } else if frame.more {
        Step::Wait(parts.push(frame.body))
    } else {
        Step::Message(parts.push(frame.body))
    }
}

/// What a stream of bytes brings.
pub enum Received {
    /// A message, and the bytes after it.
    Message(Seq<Seq<u8>>, Seq<u8>),
    /// A command within a message.
    Violation,
    /// The stream ends before the message does.
    Incomplete,
}

/// What is read from `bytes` when the frames in `parts` have been read before.
pub open spec fn receive(parts: Seq<Seq<u8>>, bytes: Seq<u8>) -> Received
    decreases bytes.len(),
{
    match read_frame(bytes) {
        None => Received::Incomplete,
        Some((frame, size)) => match step(parts, frame) {
            Step::Wait(parts) => receive(parts, bytes.skip(size as int)),
            Step::Message(message) => Received::Message(message, bytes.skip(size as int)),
            Step::Violation => Received::Violation,
        },
    }
}

/// The frames of a message are read one by one; the first `count` of them are followed by
/// the others.
proof fn lemma_receive_frames(parts: Seq<Seq<u8>>, count: nat, rest: Seq<u8>)
    requires
        count < parts.len(),
        forall|i: int| 0 <= i < parts.len() ==> (#[trigger] parts[i]).len() <= usize::MAX,
    ensures
        receive(Seq::empty(), frames_bytes(message_frames(parts).take(count as int)) + rest)
            == receive(parts.take(count as int), rest),
    decreases count,
{
    let carried = message_frames(parts);
    if count == 0 {
        assert(carried.take(0) =~= Seq::empty());
        assert(parts.take(0) =~= Seq::empty());
        assert(frames_bytes(carried.take(0)) + rest =~= rest);
    } else {
        let before = (count - 1) as nat;
        let last = carried[before as int];
        assert(carried.take(count as int).drop_last() =~= carried.take(before as int));
        assert(carried.take(count as int).last() == last);
        lemma_receive_frames(parts, before, frame_bytes(last) + rest);
        assert(frames_bytes(carried.take(count as int)) + rest =~= frames_bytes(
            carried.take(before as int),
        ) + (frame_bytes(last) + rest));
        assert(parts[before as int].len() <= usize::MAX);
        law_frame_read_back(last, rest);
        assert((frame_bytes(last) + rest).skip(frame_bytes(last).len() as int) =~= rest);
        assert(parts.take(before as int).push(last.body) =~= parts.take(count as int));
    }
}

/// A stream of bytes is received frame by frame: each frame makes one step, and the bytes
/// after it make the following ones.
pub proof fn law_received_by_steps(parts: Seq<Seq<u8>>, bytes: Seq<u8>, rest: Seq<u8>)
    requires
        read_frame(bytes) matches Some((frame, size)) && size == bytes.len(),
    ensures
        receive(parts, bytes + rest) == match step(parts, (read_frame(bytes)->0).0) {
            Step::Wait(parts) => receive(parts, rest),
            Step::Message(message) => Received::Message(message, rest),
            Step::Violation => Received::Violation,
        },
{
    law_frame_stands_alone(bytes, rest);
    assert((bytes + rest).skip(bytes.len() as int) =~= rest);
}

/// A message that was written is read back, and what follows it is left alone.
pub proof fn law_message_read_back(parts: Seq<Seq<u8>>, rest: Seq<u8>)
    requires
        parts.len() > 0,
        forall|i: int| 0 <= i < parts.len() ==> (#[trigger] parts[i]).len() <= usize::MAX,
    ensures
        receive(Seq::empty(), frames_bytes(message_frames(parts)) + rest) == Received::Message(
            parts,
            rest,
        ),
{
    let carried = message_frames(parts);
    let before = (parts.len() - 1) as nat;
    let last = carried.last();
    assert(carried.drop_last() =~= carried.take(before as int));
    lemma_receive_frames(parts, before, frame_bytes(last) + rest);
    assert(frames_bytes(carried) + rest =~= frames_bytes(carried.take(before as int)) + (
    frame_bytes(last) + rest));
    assert(parts[before as int].len() <= usize::MAX);
    law_frame_read_back(last, rest);
    assert((frame_bytes(last) + rest).skip(frame_bytes(last).len() as int) =~= rest);
    assert(parts.take(before as int).push(last.body) =~= parts);
}

/// Commands between messages, such as `SUBSCRIBE`, are skipped.
pub proof fn law_commands_are_skipped(command: FrameModel, rest: Seq<u8>)
    requires
        command.command,
        command.body.len() <= usize::MAX,
    ensures
        receive(Seq::empty(), frame_bytes(command) + rest) == receive(Seq::empty(), rest),
{
    law_frame_read_back(command, rest);
    assert((frame_bytes(command) + rest).skip(frame_bytes(command).len() as int) =~= rest);
}

/// A command after the first frame of a message is a protocol error.
pub proof fn law_command_within_message(
    parts: Seq<Seq<u8>>,
    count: nat,
    command: FrameModel,
    rest: Seq<u8>,
)
    requires
        0 < count < parts.len(),
        forall|i: int| 0 <= i < parts.len() ==> (#[trigger] parts[i]).len() <= usize::MAX,
        command.command,
        command.body.len() <= usize::MAX,
    ensures
        receive(
            Seq::empty(),
            frames_bytes(message_frames(parts).take(count as int)) + (frame_bytes(command) + rest),
        ) == Received::Violation,
{
    lemma_receive_frames(parts, count, frame_bytes(command) + rest);
    law_frame_read_back(command, rest);
}

/// Encodes a message. An empty message has no frames and no bytes.
pub fn write_multipart(parts: &[Bytes]) -> (bytes: Vec<u8>)
    ensures
        bytes@ == frames_bytes(message_frames(frames(parts@))),
{
    let ghost carried = message_frames(frames(parts@));
    let mut bytes: Vec<u8> = Vec::new();
    let mut i: usize = 0;
    assert(carried.take(0) =~= Seq::empty());
    while i < parts.len()
        invariant
            i <= parts@.len(),
            carried == message_frames(frames(parts@)),
            bytes@ == frames_bytes(carried.take(i as int)),
        decreases parts@.len() - i,
    {
        let more = i + 1 < parts.len();
        let mut frame = write_frame(&parts[i], more, false);
        bytes.append(&mut frame);
        assert(carried.take(i + 1).drop_last() =~= carried.take(i as int));
        assert(carried[i as int].body == octets(parts@[i as int]));
        i += 1;
    }
    assert(carried.take(i as int) =~= carried);
    bytes
}

/// Collects the frames of a message.
pub struct MultipartReader {
    parts: Multipart,
}

impl View for MultipartReader {
    type V = Seq<Seq<u8>>;

    closed spec fn view(&self) -> Seq<Seq<u8>> {
        frames(self.parts@)
    }
}

impl MultipartReader {
    /// Starts before a message.
    pub fn new() -> (reader: MultipartReader)
        ensures
            reader@ == Seq::<Seq<u8>>::empty(),
    {
        let reader = MultipartReader { parts: Vec::new() };
        assert(reader@ =~= Seq::<Seq<u8>>::empty());
        reader
    }

    /// Takes the next frame. Returns the message once it is complete; the reader then
    /// stands before the next message.
    pub fn accept(&mut self, frame: Frame) -> (message: Result<Option<Multipart>, ZmtpError>)
        ensures
            match step(old(self)@, frame@) {
                Step::Wait(parts) => message == Ok::<Option<Multipart>, ZmtpError>(None)
                    && final(self)@ == parts,
                Step::Message(parts) => {
                    &&& message matches Ok(Some(message))
                    &&& frames(message@) == parts
                    &&& final(self)@ == Seq::<Seq<u8>>::empty()
                },
                Step::Violation => message == Err::<Option<Multipart>, ZmtpError>(
                    ZmtpError::CommandWithinMessage,
                ) && final(self)@ == old(self)@,
            },
            frame.command && old(self)@.len() == 0 ==> message == Ok::<
                Option<Multipart>,
                ZmtpError,
            >(None) && final(self)@ == old(self)@,
            frame.command && old(self)@.len() > 0 ==> message == Err::<
                Option<Multipart>,
                ZmtpError,
            >(ZmtpError::CommandWithinMessage),
            !frame.command && frame.more ==> message == Ok::<Option<Multipart>, ZmtpError>(None)
                && final(self)@ == old(self)@.push(octets(frame.body)),
            !frame.command && !frame.more ==> {
                &&& message matches Ok(Some(message))
                &&& message@.len() == old(self)@.len() + 1
                &&& octets(message@[old(self)@.len() as int]) == octets(frame.body)
                &&& forall|i: int|
                    0 <= i < old(self)@.len() ==> octets(#[trigger] message@[i]) == old(self)@[i]
                &&& final(self)@.len() == 0
            },
    {
        if frame.command {
            if self.parts.len() == 0 {
                return Ok(None);
            }
            return Err(ZmtpError::CommandWithinMessage);
        }
        let more = frame.more;
        self.parts.push(frame.body);
        assert(self@ =~= old(self)@.push(frame@.body));
        if more {
            Ok(None)
        } else {
            let message = self.parts.split_off(0);
            assert(frames(message@) =~= old(self)@.push(frame@.body));
            assert forall|i: int| 0 <= i < message@.len() implies octets(#[trigger] message@[i])
                == frames(message@)[i] by {}
            assert(self@ =~= Seq::<Seq<u8>>::empty());
            Ok(Some(message))
        }
    }
}

/// Each part of a message travels in a frame of its own, in its place; all but the last say
/// that more follow, and none is a command.
pub proof fn law_message_frames_by_index(parts: Seq<Seq<u8>>, i: int)
    requires
        0 <= i < parts.len(),
    ensures
        message_frames(parts).len() == parts.len(),
        message_frames(parts)[i].body == parts[i],
        message_frames(parts)[i].more == (i + 1 < parts.len()),
        !message_frames(parts)[i].command,
{
}

/// Frames are written one after the other, with nothing before, between or behind them.
pub proof fn law_frames_bytes_joined(left: Seq<FrameModel>, right: Seq<FrameModel>)
    ensures
        frames_bytes(Seq::empty()) == Seq::<u8>::empty(),
        left.len() == 1 ==> frames_bytes(left) == frame_bytes(left[0]),
        frames_bytes(left + right) == frames_bytes(left) + frames_bytes(right),
    decreases right.len(),
{
    if left.len() == 1 {
        assert(left.drop_last() =~= Seq::empty());
        assert(frames_bytes(left.drop_last()) =~= Seq::empty());
        assert(frames_bytes(left) =~= frame_bytes(left[0]));
    }
    if right.len() == 0 {
        assert(left + right =~= left);
        assert(frames_bytes(left) + frames_bytes(right) =~= frames_bytes(left));
    } else {
        law_frames_bytes_joined(left, right.drop_last());
        assert((left + right).drop_last() =~= left + right.drop_last());
        assert((left + right).last() == right.last());
        assert(frames_bytes(left + right) =~= frames_bytes(left) + frames_bytes(right));
    }
}

/// What a frame does to a message: a command before a message does nothing, a command
/// within one is an error, and any other frame adds its body behind the parts that are
/// there; the message goes on if the frame says so and is complete if not.
pub proof fn law_step(parts: Seq<Seq<u8>>, frame: FrameModel)
    ensures
        frame.command && parts.len() == 0 ==> step(parts, frame) == Step::Wait(parts),
        frame.command && parts.len() > 0 ==> step(parts, frame) is Violation,
        !frame.command && frame.more ==> {
            &&& step(parts, frame) matches Step::Wait(longer)
            &&& longer.len() == parts.len() + 1
            &&& longer[parts.len() as int] == frame.body
            &&& forall|i: int| 0 <= i < parts.len() ==> #[trigger] longer[i] == parts[i]
        },
        !frame.command && !frame.more ==> {
            &&& step(parts, frame) matches Step::Message(message)
            &&& message.len() == parts.len() + 1
            &&& message[parts.len() as int] == frame.body
            &&& forall|i: int| 0 <= i < parts.len() ==> #[trigger] message[i] == parts[i]
        },
{
}

/// Nothing is received from bytes that do not hold a whole frame.
pub proof fn law_nothing_without_a_frame(parts: Seq<Seq<u8>>, bytes: Seq<u8>)
    requires
        read_frame(bytes) is None,
    ensures
        receive(parts, bytes) is Incomplete,
{
}

/// A message is delivered only whole: as long as a byte of it is missing, nothing is.
pub proof fn law_message_is_received_whole(parts: Seq<Seq<u8>>, count: nat, part: Seq<u8>)
    requires
        count < parts.len(),
        forall|i: int| 0 <= i < parts.len() ==> (#[trigger] parts[i]).len() <= usize::MAX,
        read_frame(part) is None,
    ensures
        receive(Seq::empty(), frames_bytes(message_frames(parts).take(count as int)) + part) is
            Incomplete,
{
    lemma_receive_frames(parts, count, part);
}

} // verus!
