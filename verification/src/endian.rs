//! Unsigned integers in network byte order.

use vstd::arithmetic::div_mod::lemma_div_denominator;
use vstd::arithmetic::power::{lemma_pow0, lemma_pow_positive, pow};
use vstd::prelude::*;

verus! {

/// The number that `bytes` spells, most significant byte first.
pub open spec fn be_value(bytes: Seq<u8>) -> nat
    decreases bytes.len(),
{
    if bytes.len() == 0 {
        0
    } else {
        be_value(bytes.drop_last()) * 256 + bytes.last() as nat
    }
}

/// The lowest `width` base-256 digits of `value`, most significant first.
pub open spec fn be_bytes(value: nat, width: nat) -> Seq<u8>
    decreases width,
{
    if width == 0 {
        Seq::empty()
    } else {
        be_bytes(value / 256, (width - 1) as nat).push((value % 256) as u8)
    }
}

/// How many values fit into `width` bytes.
pub open spec fn be_span(width: nat) -> nat
    decreases width,
{
    if width == 0 {
        1
    } else {
        256 * be_span((width - 1) as nat)
    }
}

/// The spans of the field widths of the wire format.
pub proof fn lemma_be_spans()
    ensures
        be_span(1) == 0x100,
        be_span(4) == 0x1_0000_0000,
        be_span(8) == 0x1_0000_0000_0000_0000,
{
    reveal_with_fuel(be_span, 9);
}

/// A field of `width` bytes is that long.
pub proof fn lemma_be_bytes_len(value: nat, width: nat)
    ensures
        be_bytes(value, width).len() == width,
    decreases width,
{
    if width > 0 {
        lemma_be_bytes_len(value / 256, (width - 1) as nat);
    }
}

/// Fields of `width` bytes hold values below the span.
pub proof fn lemma_be_value_bound(bytes: Seq<u8>)
    ensures
        be_value(bytes) < be_span(bytes.len()),
    decreases bytes.len(),
{
    if bytes.len() > 0 {
        lemma_be_value_bound(bytes.drop_last());
    }
}

/// A number that fits into a field is read back from it.
pub proof fn law_be_value_of_bytes(value: nat, width: nat)
    requires
        value < be_span(width),
    ensures
        be_value(be_bytes(value, width)) == value,
    decreases width,
{
    if width > 0 {
        law_be_value_of_bytes(value / 256, (width - 1) as nat);
        let bytes = be_bytes(value, width);
        assert(bytes.drop_last() =~= be_bytes(value / 256, (width - 1) as nat));
    }
}

/// Writing the number that a field holds gives the field again.
pub proof fn law_be_bytes_of_value(bytes: Seq<u8>)
    ensures
        be_bytes(be_value(bytes), bytes.len()) == bytes,
    decreases bytes.len(),
{
    if bytes.len() > 0 {
        let front = bytes.drop_last();
        law_be_bytes_of_value(front);
        assert((be_value(front) * 256 + bytes.last() as nat) / 256 == be_value(front));
        assert((be_value(front) * 256 + bytes.last() as nat) % 256 == bytes.last() as nat);
        assert(front.push(bytes.last()) =~= bytes);
    }
}

/// Appends the lowest `width` base-256 digits of `value` to `out`.
pub fn push_be(out: &mut Vec<u8>, value: u64, width: usize)
    ensures
        final(out)@ == old(out)@ + be_bytes(value as nat, width as nat),
    decreases width,
{
    if width > 0 {
        push_be(out, value / 256, width - 1);
        out.push((value % 256) as u8);
    }
}

/// Reads a field of at most eight bytes.
pub fn read_be(bytes: &[u8]) -> (value: u64)
    requires
        bytes@.len() <= 8,
    ensures
        value == be_value(bytes@),
{
    let mut value: u64 = 0;
    let mut i: usize = 0;
    while i < bytes.len()
        invariant
            i <= bytes@.len() <= 8,
            value == be_value(bytes@.take(i as int)),
        decreases bytes@.len() - i,
    {
        proof {
            lemma_be_value_bound(bytes@.take(i + 1));
            reveal_with_fuel(be_span, 9);
            assert(bytes@.take(i + 1).drop_last() =~= bytes@.take(i as int));
        }
        value = value * 256 + bytes[i] as u64;
        i += 1;
    }
    assert(bytes@.take(i as int) =~= bytes@);
    value
}

/// A field of `width` bytes can hold as many values as `width` digits of base 256.
pub proof fn law_be_span_is_power(width: nat)
    ensures
        be_span(width) == pow(256, width),
    decreases width,
{
    reveal(pow);
    if width > 0 {
        law_be_span_is_power((width - 1) as nat);
    }
}

/// Each byte of a field is the base-256 digit of its place, most significant first.
pub proof fn law_be_bytes_digits(value: nat, width: nat, i: int)
    requires
        0 <= i < width,
    ensures
        be_bytes(value, width).len() == width,
        be_bytes(value, width)[i] == value as int / pow(256, (width - 1 - i) as nat) % 256,
    decreases width,
{
    lemma_be_bytes_len(value, width);
    let upper = (width - 1) as nat;
    lemma_be_bytes_len(value / 256, upper);
    if i == width - 1 {
        lemma_pow0(256);
    } else {
        law_be_bytes_digits(value / 256, upper, i);
        let place = (width - 2 - i) as nat;
        assert(pow(256, place + 1) == 256 * pow(256, place)) by {
            reveal(pow);
        }
        lemma_pow_positive(256, place);
        lemma_div_denominator(value as int, 256, pow(256, place));
    }
}

/// A number is read from a field so that each byte is the digit of its place.
pub proof fn law_be_value_digits(bytes: Seq<u8>, i: int)
    requires
        0 <= i < bytes.len(),
    ensures
        be_value(bytes) < pow(256, bytes.len()),
        bytes[i] == be_value(bytes) as int / pow(256, (bytes.len() - 1 - i) as nat) % 256,
{
    lemma_be_value_bound(bytes);
    law_be_span_is_power(bytes.len());
    law_be_bytes_of_value(bytes);
    law_be_bytes_digits(be_value(bytes), bytes.len(), i);
}

} // verus!
