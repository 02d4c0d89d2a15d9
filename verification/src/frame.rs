//! ZMTP frames: a flags byte, the size of the body, and the body.
//!
//! A body of at most 255 bytes has a one-byte size, a longer one an eight-byte size in
//! network byte order.

use crate::endian::{
    be_bytes, be_value, law_be_bytes_digits, law_be_bytes_of_value, law_be_value_of_bytes,
    lemma_be_bytes_len, lemma_be_spans, push_be, read_be,
};
use crate::octets::octets;
use bytes::Bytes;
use vstd::arithmetic::power::pow;
use vstd::prelude::*;

verus! {

/// More frames of the same message follow.
pub const FLAG_MORE: u8 = 0x01;

/// The size field is eight bytes wide.
pub const FLAG_LONG: u8 = 0x02;

/// The frame holds a command.
pub const FLAG_COMMAND: u8 = 0x04;

/// A frame as it was read from a peer.
pub struct Frame {
    pub body: Bytes,
    pub more: bool,
    pub command: bool,
}

/// What a frame says.
#[verifier::ext_equal]
pub struct FrameModel {
    pub body: Seq<u8>,
    pub more: bool,
    pub command: bool,
}

impl View for Frame {
    type V = FrameModel;

    open spec fn view(&self) -> FrameModel {
        FrameModel { body: octets(self.body), more: self.more, command: self.command }
    }
}

/// The flags byte of a frame.
pub open spec fn flags_byte(size: nat, more: bool, command: bool) -> u8 {
    ((if more {
        FLAG_MORE as int
    } else {
        0
    }) + (if command {
        FLAG_COMMAND as int
    } else {
        0
    }) + (if size > 255 {
        FLAG_LONG as int
    } else {
        0
    })) as u8
}

/// The bytes that come before a body of `size` bytes.
pub open spec fn header_bytes(size: nat, more: bool, command: bool) -> Seq<u8> {
    seq![flags_byte(size, more, command)] + be_bytes(
        size,
        if size > 255 {
            8
        } else {
            1
        },
    )
}

/// The bytes of a frame.
pub open spec fn frame_bytes(frame: FrameModel) -> Seq<u8> {
    header_bytes(frame.body.len(), frame.more, frame.command) + frame.body
}

/// How wide the size field after `flags` is.
pub open spec fn size_width(flags: u8) -> nat {
    if flags & FLAG_LONG != 0 {
        8
    } else {
        1
    }
}

/// The frame at the start of `bytes` and its length in bytes, if it is there in full.
pub open spec fn read_frame(bytes: Seq<u8>) -> Option<(FrameModel, nat)> {
    let start = 1 + size_width(bytes[0]);
    if bytes.len() == 0 || bytes.len() < start {
        None
    } else {
        let end = start + be_value(bytes.subrange(1, start as int)) as usize;
        if bytes.len() < end {
            None
        } else {
            Some(
                (
                    FrameModel {
                        body: bytes.subrange(start as int, end as int),
                        more: bytes[0] & FLAG_MORE != 0,
                        command: bytes[0] & FLAG_COMMAND != 0,
                    },
                    end as nat,
                ),
            )
        }
    }
}

/// The flags can be told from the flags byte.
proof fn lemma_flags(size: nat, more: bool, command: bool)
    ensures
        (flags_byte(size, more, command) & FLAG_MORE != 0) == more,
        (flags_byte(size, more, command) & FLAG_COMMAND != 0) == command,
        (flags_byte(size, more, command) & FLAG_LONG != 0) == (size > 255),
{
    assert(forall|flags: u8| #![auto]
        flags < 8 ==> {
            &&& (flags & 1u8 != 0) == (flags % 2 == 1)
            &&& (flags & 2u8 != 0) == ((flags / 2) % 2 == 1)
            &&& (flags & 4u8 != 0) == (flags / 4 == 1)
        }) by (bit_vector);
}

/// A frame that was written is read back, and what follows it is left alone.
pub proof fn law_frame_read_back(frame: FrameModel, rest: Seq<u8>)
    requires
        frame.body.len() <= usize::MAX,
    ensures
        read_frame(frame_bytes(frame) + rest) == Some((frame, frame_bytes(frame).len())),
{
    let size = frame.body.len();
    let width: nat = if size > 255 {
        8
    } else {
        1
    };
    let bytes = frame_bytes(frame) + rest;
    lemma_flags(size, frame.more, frame.command);
    lemma_be_spans();
    lemma_be_bytes_len(size, width);
    law_be_value_of_bytes(size, width);
    assert(bytes[0] == flags_byte(size, frame.more, frame.command));
    assert(bytes.subrange(1, 1 + width as int) =~= be_bytes(size, width));
    assert(bytes.subrange(1 + width as int, 1 + width as int + size as int) =~= frame.body);
}

/// What follows a complete frame does not change how it is read.
pub proof fn law_frame_stands_alone(bytes: Seq<u8>, rest: Seq<u8>)
    requires
        read_frame(bytes) is Some,
    ensures
        read_frame(bytes + rest) == read_frame(bytes),
{
    let start = 1 + size_width(bytes[0]);
    let end = start + be_value(bytes.subrange(1, start as int)) as usize;
    assert((bytes + rest).subrange(1, start as int) =~= bytes.subrange(1, start as int));
    assert((bytes + rest).subrange(start as int, end as int) =~= bytes.subrange(
        start as int,
        end as int,
    ));
}

/// Encodes the header of a frame (flags and size). The body is written separately.
pub fn frame_header(size: usize, more: bool, command: bool) -> (header: Vec<u8>)
    ensures
        header@ == header_bytes(size as nat, more, command),
{
    let mut flags: u8 = 0;
    proof {
        assert(0u8 | 1u8 == 1u8 && 0u8 | 4u8 == 4u8 && 1u8 | 4u8 == 5u8) by (bit_vector);
        assert(0u8 | 2u8 == 2u8 && 1u8 | 2u8 == 3u8 && 4u8 | 2u8 == 6u8 && 5u8 | 2u8 == 7u8)
            by (bit_vector);
    }
    if more {
        flags |= FLAG_MORE;
    }
    if command {
        flags |= FLAG_COMMAND;
    }
    let mut header: Vec<u8> = Vec::new();
    if size > 255 {
        flags |= FLAG_LONG;
        header.push(flags);
        push_be(&mut header, size as u64, 8);
    } else {
        header.push(flags);
        push_be(&mut header, size as u64, 1);
    }
    assert(header@ =~= header_bytes(size as nat, more, command));
    header
}

/// Encodes a whole frame.
pub fn write_frame(body: &[u8], more: bool, command: bool) -> (bytes: Vec<u8>)
    ensures
        bytes@ == frame_bytes(FrameModel { body: body@, more, command }),
{
    let mut bytes = frame_header(body.len(), more, command);
    bytes.extend_from_slice(body);
    assert(bytes@ =~= frame_bytes(FrameModel { body: body@, more, command }));
    bytes
}

/// Where the reading of a frame stands.
pub enum FrameReader {
    /// The flags byte comes next.
    Flags,
    /// The size field comes next.
    Size { flags: u8 },
    /// The body comes next.
    Body { flags: u8, size: u64 },
}

impl FrameReader {
    /// The bytes of the frame that were read so far.
    pub open spec fn taken(self) -> Seq<u8> {
        match self {
            FrameReader::Flags => Seq::empty(),
            FrameReader::Size { flags } => seq![flags],
            FrameReader::Body { flags, size } => seq![flags] + be_bytes(
                size as nat,
                size_width(flags),
            ),
        }
    }

    /// How many bytes have to be read next.
    pub open spec fn needed(self) -> nat {
        match self {
            FrameReader::Flags => 1,
            FrameReader::Size { flags } => size_width(flags),
            FrameReader::Body { flags, size } => (size as usize) as nat,
        }
    }

    /// A short size is at most 255.
    pub open spec fn wf(self) -> bool {
        self matches FrameReader::Body { flags, size } ==> (size_width(flags) == 1 ==> size <= 255)
    }

    /// Starts to read a frame.
    pub fn new() -> (reader: FrameReader)
        ensures
            reader == FrameReader::Flags,
            reader.wf(),
            reader.taken() == Seq::<u8>::empty(),
    {
        FrameReader::Flags
    }

    /// How many bytes have to be read next.
    pub fn wanted(&self) -> (count: usize)
        ensures
            count == self.needed(),
    {
        match self {
            FrameReader::Flags => 1,
            FrameReader::Size { flags } => if *flags & FLAG_LONG != 0 {
                8
            } else {
                1
            },
            FrameReader::Body { flags: _, size } => *size as usize,
        }
    }

    /// Takes the bytes that were wanted. Returns the frame once its body was taken; the
    /// reader then stands before the next frame.
    pub fn feed(&mut self, bytes: Vec<u8>) -> (frame: Option<Frame>)
        requires
            old(self).wf(),
            bytes@.len() == old(self).needed(),
        ensures
            final(self).wf(),
            match frame {
                Some(frame) => {
                    &&& *old(self) is Body
                    &&& *final(self) is Flags
                    &&& read_frame(old(self).taken() + bytes@) == Some(
                        (frame@, (old(self).taken() + bytes@).len()),
                    )
                },
                None => {
                    &&& *old(self) is Flags ==> *final(self) is Size
                    &&& *old(self) is Size ==> *final(self) is Body
                    &&& !(*old(self) is Body)
                    &&& final(self).taken() == old(self).taken() + bytes@
                },
            },
    {
        let ghost before = *self;
        match *self {
            FrameReader::Flags => {
                *self = FrameReader::Size { flags: bytes[0] };
                assert(self.taken() =~= before.taken() + bytes@);
                None
            },
            FrameReader::Size { flags } => {
                let size: u64 = read_be(&bytes);
                proof {
                    lemma_be_spans();
                    crate::endian::lemma_be_value_bound(bytes@);
                    law_be_bytes_of_value(bytes@);
                }
                *self = FrameReader::Body { flags, size };
                assert(self.taken() =~= before.taken() + bytes@);
                None
            },
            FrameReader::Body { flags, size } => {
                proof {
                    let width = size_width(flags);
                    let all = before.taken() + bytes@;
                    lemma_be_spans();
                    lemma_be_bytes_len(size as nat, width);
                    law_be_value_of_bytes(size as nat, width);
                    assert(all.subrange(1, 1 + width as int) =~= be_bytes(size as nat, width));
                    assert(all.subrange(1 + width as int, all.len() as int) =~= bytes@);
                }
                *self = FrameReader::Flags;
                Some(
                    Frame {
                        body: Bytes::from(bytes),
                        more: flags & FLAG_MORE != 0,
                        command: flags & FLAG_COMMAND != 0,
                    },
                )
            },
        }
    }
}

/// The bits of the flags byte: one for more frames, two for a long size, four for a command.
pub proof fn law_flag_bits(size: nat, more: bool, command: bool)
    ensures
        FLAG_MORE == 1,
        FLAG_LONG == 2,
        FLAG_COMMAND == 4,
        flags_byte(size, more, command) == (if more {
            1int
        } else {
            0
        }) + (if size > 255 {
            2int
        } else {
            0
        }) + (if command {
            4int
        } else {
            0
        }),
{
}

/// A header is the flags byte followed by the size: in one byte up to 255, and beyond that
/// in eight bytes, most significant first.
pub proof fn law_header_layout(size: nat, more: bool, command: bool)
    ensures
        header_bytes(size, more, command)[0] == (if more {
            1int
        } else {
            0
        }) + (if size > 255 {
            2int
        } else {
            0
        }) + (if command {
            4int
        } else {
            0
        }),
        size <= 255 ==> {
            &&& header_bytes(size, more, command).len() == 2
            &&& header_bytes(size, more, command)[1] == size
        },
        size > 255 ==> {
            &&& header_bytes(size, more, command).len() == 9
            &&& forall|i: int|
                0 <= i < 8 ==> #[trigger] header_bytes(size, more, command)[1 + i] == size as int
                    / pow(256, (7 - i) as nat) % 256
        },
{
    let header = header_bytes(size, more, command);
    if size <= 255 {
        lemma_be_bytes_len(size, 1);
        law_be_bytes_digits(size, 1, 0);
        vstd::arithmetic::power::lemma_pow0(256);
        assert(header[1] == be_bytes(size, 1)[0]);
    } else {
        lemma_be_bytes_len(size, 8);
        assert forall|i: int| 0 <= i < 8 implies #[trigger] header[1 + i] == size as int / pow(
            256,
            (7 - i) as nat,
        ) % 256 by {
            law_be_bytes_digits(size, 8, i);
            assert(header[1 + i] == be_bytes(size, 8)[i]);
        }
    }
}

/// A frame is its header and, behind it, its body byte for byte.
pub proof fn law_frame_layout(frame: FrameModel, i: int)
    ensures
        frame_bytes(frame).len() == frame.body.len() + if frame.body.len() > 255 {
            9int
        } else {
            2
        },
        0 <= i < frame.body.len() ==> frame_bytes(frame)[i + if frame.body.len() > 255 {
            9int
        } else {
            2
        }] == frame.body[i],
        0 <= i < (if frame.body.len() > 255 {
            9int
        } else {
            2
        }) ==> frame_bytes(frame)[i] == header_bytes(
            frame.body.len(),
            frame.more,
            frame.command,
        )[i],
{
    law_header_layout(frame.body.len(), frame.more, frame.command);
}

/// A frame with a size of one byte is read whatever other flags it has, and what follows it
/// is left alone.
pub proof fn law_short_frame_is_read(flags: u8, body: Seq<u8>, rest: Seq<u8>)
    requires
        flags & 2 == 0,
        body.len() <= 255,
    ensures
        read_frame(seq![flags, body.len() as u8] + body + rest) == Some(
            (
                FrameModel { body, more: flags & 1 != 0, command: flags & 4 != 0 },
                2 + body.len(),
            ),
        ),
{
    let bytes = seq![flags, body.len() as u8] + body + rest;
    let size = bytes.subrange(1, 2);
    assert(size =~= seq![body.len() as u8]);
    assert(size.drop_last() =~= Seq::empty());
    assert(be_value(size.drop_last()) == 0);
    assert(be_value(size) == body.len());
    assert(bytes.subrange(2, 2 + body.len() as int) =~= body);
}

/// A frame with a size of eight bytes is read whatever other flags it has, and what follows
/// it is left alone.
pub proof fn law_long_frame_is_read(flags: u8, size: Seq<u8>, body: Seq<u8>, rest: Seq<u8>)
    requires
        flags & 2 != 0,
        size.len() == 8,
        body.len() == be_value(size) as usize,
    ensures
        read_frame(seq![flags] + size + body + rest) == Some(
            (
                FrameModel { body, more: flags & 1 != 0, command: flags & 4 != 0 },
                9 + body.len(),
            ),
        ),
{
    let bytes = seq![flags] + size + body + rest;
    assert(bytes.subrange(1, 9) =~= size);
    assert(bytes.subrange(9, 9 + body.len() as int) =~= body);
}

/// What is read as a frame is there: its size and its body stand behind the flags byte, and
/// the flags are those of the first byte. A frame that lacks a byte is not read.
pub proof fn law_read_frame_is_exact(bytes: Seq<u8>)
    ensures
        read_frame(bytes) matches Some((frame, length)) ==> {
            &&& length <= bytes.len()
            &&& frame.more == (bytes[0] & 1 != 0)
            &&& frame.command == (bytes[0] & 4 != 0)
            &&& bytes[0] & 2 == 0 ==> {
                &&& length == 2 + frame.body.len()
                &&& frame.body.len() == bytes[1]
                &&& frame.body == bytes.subrange(2, length as int)
            }
            &&& bytes[0] & 2 != 0 ==> {
                &&& length == 9 + frame.body.len()
                &&& frame.body.len() == be_value(bytes.subrange(1, 9)) as usize
                &&& frame.body == bytes.subrange(9, length as int)
            }
            &&& forall|count: int|
                0 <= count < length ==> read_frame(#[trigger] bytes.take(count)) is None
        },
{
    if let Some((frame, length)) = read_frame(bytes) {
        let start = 1 + size_width(bytes[0]);
        let field = bytes.subrange(1, start as int);
        if bytes[0] & 2 == 0 {
            assert(field =~= seq![bytes[1]]);
            assert(field.drop_last() =~= Seq::empty());
            assert(be_value(field.drop_last()) == 0);
            assert(be_value(field) == bytes[1]);
        }
        assert forall|count: int| 0 <= count < length implies read_frame(
            #[trigger] bytes.take(count),
        ) is None by {
            let part = bytes.take(count);
            if count > 0 {
                assert(part[0] == bytes[0]);
                if count >= start {
                    assert(part.subrange(1, start as int) =~= field);
                }
            }
        }
    }
}

/// No frame is complete before the bytes that a reader wants next, so that it never waits
/// for a byte that the frame does not have.
pub proof fn law_reader_wants_no_more(reader: FrameReader, stream: Seq<u8>)
    requires
        reader.wf(),
        stream.len() < reader.needed(),
    ensures
        read_frame(reader.taken() + stream) is None,
{
    let bytes = reader.taken() + stream;
    match reader {
        FrameReader::Flags => {
            assert(bytes.len() == 0);
        },
        FrameReader::Size { flags } => {
            assert(bytes[0] == flags);
        },
        FrameReader::Body { flags, size } => {
            let width = size_width(flags);
            lemma_be_spans();
            lemma_be_bytes_len(size as nat, width);
            law_be_value_of_bytes(size as nat, width);
            assert(bytes[0] == flags);
            assert(bytes.subrange(1, 1 + width as int) =~= be_bytes(size as nat, width));
        },
    }
}

/// A frame says what it holds: the bytes of its body, whether more follow, and whether it is
/// a command.
pub proof fn law_frame_says_what_it_holds(frame: Frame)
    ensures
        frame@.body == octets(frame.body),
        frame@.more == frame.more,
        frame@.command == frame.command,
{
}

/// Whatever was read, a reader takes the flags byte first, then the size in one or eight
/// bytes as the flags say, then as many bytes as the size says.
pub proof fn law_what_a_reader_needs(flags: u8, size: u64)
    ensures
        FrameReader::Flags.needed() == 1,
        (FrameReader::Size { flags }).needed() == if flags & 2 != 0 {
            8nat
        } else {
            1
        },
        (FrameReader::Body { flags, size }).needed() == size as usize,
        FrameReader::Flags.taken() == Seq::<u8>::empty(),
        (FrameReader::Size { flags }).taken() == seq![flags],
        (FrameReader::Body { flags, size }).taken() == seq![flags] + be_bytes(
            size as nat,
            if flags & 2 != 0 {
                8
            } else {
                1
            },
        ),
{
}

} // verus!
