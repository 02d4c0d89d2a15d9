//! Byte buffers as they travel between sockets.

use bytes::Bytes;
use vstd::prelude::*;

verus! {

/// `bytes::Bytes`, a cheaply cloneable run of bytes.
#[verifier::external_type_specification]
#[verifier::external_body]
pub struct ExBytes(bytes::Bytes);

/// The bytes that a buffer holds.
pub uninterp spec fn octets(buffer: Bytes) -> Seq<u8>;

/// The bytes of every frame of a message.
pub open spec fn frames(parts: Seq<Bytes>) -> Seq<Seq<u8>> {
    parts.map_values(|part: Bytes| octets(part))
}

/// `Bytes::new` makes a buffer that holds nothing.
pub assume_specification[ Bytes::new ]() -> (buffer: Bytes)
    ensures
        octets(buffer) == Seq::<u8>::empty(),
;

/// `Bytes::clone` makes a second handle to the same bytes.
pub assume_specification[ <Bytes as Clone>::clone ](buffer: &Bytes) -> (copy: Bytes)
    ensures
        octets(copy) == octets(*buffer),
;

/// `Bytes::from` takes over the bytes of a vector.
pub assume_specification[ <Bytes as From<Vec<u8>>>::from ](vec: Vec<u8>) -> (buffer: Bytes)
    ensures
        octets(buffer) == vec@,
;

/// `Bytes::deref` shows the bytes of a buffer.
pub assume_specification[ <Bytes as core::ops::Deref>::deref ](buffer: &Bytes) -> (bytes: &[u8])
    ensures
        bytes@ == octets(*buffer),
;

/// Whether two byte strings are equal.
pub fn same_bytes(left: &[u8], right: &[u8]) -> (same: bool)
    ensures
        same == (left@ == right@),
{
    if left.len() != right.len() {
        return false;
    }
    let mut i: usize = 0;
    while i < left.len()
        invariant
            i <= left@.len() == right@.len(),
            left@.take(i as int) == right@.take(i as int),
        decreases left@.len() - i,
    {
        if left[i] != right[i] {
            assert(left@[i as int] != right@[i as int]);
            return false;
        }
        assert(left@.take(i + 1) =~= left@.take(i as int).push(left@[i as int]));
        assert(right@.take(i + 1) =~= right@.take(i as int).push(right@[i as int]));
        i += 1;
    }
    assert(left@.take(i as int) =~= left@);
    assert(right@.take(i as int) =~= right@);
    true
}

/// A copy of the frames of a message from `start` on.
pub fn frames_from(parts: &[Bytes], start: usize) -> (rest: Vec<Bytes>)
    requires
        start <= parts@.len(),
    ensures
        frames(rest@) == frames(parts@).skip(start as int),
        rest@.len() == parts@.len() - start,
        forall|i: int|
            0 <= i < rest@.len() ==> octets(#[trigger] rest@[i]) == octets(parts@[start + i]),
{
    let mut rest: Vec<Bytes> = Vec::new();
    let mut i: usize = start;
    while i < parts.len()
        invariant
            start <= i <= parts@.len(),
            frames(rest@) == frames(parts@).subrange(start as int, i as int),
            rest@.len() == i - start,
            forall|j: int|
                0 <= j < rest@.len() ==> octets(#[trigger] rest@[j]) == octets(parts@[start + j]),
        decreases parts@.len() - i,
    {
        let ghost before = rest@;
        rest.push(parts[i].clone());
        assert(frames(rest@) =~= frames(before).push(octets(rest@.last())));
        assert(frames(parts@).subrange(start as int, i + 1) =~= frames(parts@).subrange(
            start as int,
            i as int,
        ).push(octets(parts@[i as int])));
        i += 1;
    }
    assert(frames(parts@).subrange(start as int, i as int) =~= frames(parts@).skip(start as int));
    rest
}

/// A message has as many frames as buffers, and each holds the bytes of its buffer.
pub proof fn law_frames_by_index(parts: Seq<Bytes>, i: int)
    requires
        0 <= i < parts.len(),
    ensures
        frames(parts).len() == parts.len(),
        frames(parts)[i] == octets(parts[i]),
{
}

/// Messages with the same bytes in the same places have the same frames, and no others do.
pub proof fn law_frames_tell_messages_apart(left: Seq<Bytes>, right: Seq<Bytes>)
    ensures
        frames(left) == frames(right) <==> left.len() == right.len() && forall|i: int|
            0 <= i < left.len() ==> octets(#[trigger] left[i]) == octets(right[i]),
{
    if frames(left) == frames(right) {
        assert(frames(left).len() == left.len() && frames(right).len() == right.len());
        assert forall|i: int| 0 <= i < left.len() implies octets(#[trigger] left[i]) == octets(
            right[i],
        ) by {
            assert(frames(left)[i] == frames(right)[i]);
        }
    } else {
        if left.len() == right.len() && forall|i: int|
            0 <= i < left.len() ==> octets(#[trigger] left[i]) == octets(right[i]) {
            assert(frames(left) =~= frames(right));
        }
    }
}

} // verus!
