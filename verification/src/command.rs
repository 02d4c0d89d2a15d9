//! ZMTP command bodies: a command name followed by metadata properties.
//!
//! ```text
//! command  = name-size name *property
//! property = key-size key value-size value
//! ```
//!
//! The name and the keys are prefixed by one byte, the values by four.

use crate::endian::{
    be_bytes, be_value, law_be_bytes_digits, law_be_bytes_of_value, law_be_value_of_bytes,
    lemma_be_bytes_len, lemma_be_spans, lemma_be_value_bound, push_be, read_be,
};
use crate::text::{law_lossy_of_utf8, lossy, lossy_text};
use vstd::arithmetic::power::{lemma_pow0, pow};
use vstd::hash_map::StringHashMap;
use vstd::prelude::*;
use vstd::utf8::encode_utf8;

verus! {

/// A metadata property: the bytes of its key and of its value.
pub type Property = (Seq<u8>, Seq<u8>);

/// The properties that a list of texts stands for.
pub open spec fn utf8_properties(metadata: Seq<(&str, &str)>) -> Seq<Property> {
    metadata.map_values(|entry: (&str, &str)| (encode_utf8(entry.0@), encode_utf8(entry.1@)))
}

/// Whether the lengths of a property fit into its two size fields.
pub open spec fn property_fits(property: Property) -> bool {
    property.0.len() < 0x100 && property.1.len() < 0x1_0000_0000
}

/// Whether all of `properties` fit.
pub open spec fn properties_fit(properties: Seq<Property>) -> bool {
    forall|i: int| 0 <= i < properties.len() ==> property_fits(#[trigger] properties[i])
}

/// The bytes of one property. A length that does not fit into its field is cut down to
/// the low bytes.
pub open spec fn property_bytes(property: Property) -> Seq<u8> {
    be_bytes(property.0.len(), 1) + property.0 + be_bytes(property.1.len(), 4) + property.1
}

/// The bytes of all properties, one after the other.
pub open spec fn properties_bytes(properties: Seq<Property>) -> Seq<u8>
    decreases properties.len(),
{
    if properties.len() == 0 {
        Seq::empty()
    } else {
        properties_bytes(properties.drop_last()) + property_bytes(properties.last())
    }
}

/// The body of a command.
pub open spec fn command_bytes(name: Seq<u8>, properties: Seq<Property>) -> Seq<u8> {
    be_bytes(name.len(), 1) + name + properties_bytes(properties)
}

/// The properties that `bytes` is made of, if it is made of properties.
pub open spec fn read_properties(bytes: Seq<u8>) -> Option<Seq<Property>>
    decreases bytes.len(),
{
    if bytes.len() == 0 {
        Some(Seq::empty())
    } else {
        let key_end = 1 + bytes[0];
        let value_start = key_end + 4;
        let value_end = value_start + be_value(bytes.subrange(key_end, value_start));
        if value_start > bytes.len() || value_end > bytes.len() {
            None
        } else {
            let key = bytes.subrange(1, key_end);
            let value = bytes.subrange(value_start, value_end);
            match read_properties(bytes.skip(value_end)) {
                Some(rest) => Some(seq![(key, value)] + rest),
                None => None,
            }
        }
    }
}

/// The mapping that a list of properties describes. Keys are read as text; of two equal
/// keys the later one counts.
pub open spec fn property_map(properties: Seq<Property>) -> Map<Seq<char>, Seq<u8>>
    decreases properties.len(),
{
    if properties.len() == 0 {
        Map::empty()
    } else {
        property_map(properties.drop_last()).insert(
            lossy(properties.last().0),
            properties.last().1,
        )
    }
}

/// The name and the metadata of the command with this body, if it is well formed.
pub open spec fn read_command(body: Seq<u8>) -> Option<(Seq<char>, Map<Seq<char>, Seq<u8>>)> {
    if body.len() == 0 || body.len() < 1 + body[0] {
        None
    } else {
        match read_properties(body.skip(1 + body[0])) {
            Some(properties) => Some(
                (lossy(body.subrange(1, 1 + body[0])), property_map(properties)),
            ),
            None => None,
        }
    }
}

/// The mapping that a table of byte vectors holds.
pub open spec fn metadata(table: StringHashMap<Vec<u8>>) -> Map<Seq<char>, Seq<u8>> {
    table@.map_values(|value: Vec<u8>| value@)
}

/// The command that a parse result stands for.
pub open spec fn command_model(command: Option<(String, StringHashMap<Vec<u8>>)>) -> Option<
    (Seq<char>, Map<Seq<char>, Seq<u8>>),
> {
    match command {
        Some((name, table)) => Some((name@, metadata(table))),
        None => None,
    }
}

/// The mapping that a list of texts describes; of two equal keys the later one counts.
pub open spec fn text_map(metadata: Seq<(&str, &str)>) -> Map<Seq<char>, Seq<u8>>
    decreases metadata.len(),
{
    if metadata.len() == 0 {
        Map::empty()
    } else {
        text_map(metadata.drop_last()).insert(metadata.last().0@, encode_utf8(metadata.last().1@))
    }
}

/// The first property comes first in the bytes.
proof fn lemma_properties_bytes_cons(first: Property, rest: Seq<Property>)
    ensures
        properties_bytes(seq![first] + rest) == property_bytes(first) + properties_bytes(rest),
    decreases rest.len(),
{
    let all = seq![first] + rest;
    if rest.len() == 0 {
        assert(all.drop_last() =~= Seq::empty());
        assert(properties_bytes(all.drop_last()) =~= Seq::empty());
        assert(properties_bytes(all) =~= property_bytes(first) + properties_bytes(rest));
    } else {
        lemma_properties_bytes_cons(first, rest.drop_last());
        assert(all.drop_last() =~= seq![first] + rest.drop_last());
        assert(properties_bytes(all) =~= property_bytes(first) + properties_bytes(rest));
    }
}

/// Properties whose lengths fit are read back as they were written.
pub proof fn law_properties_read_back(properties: Seq<Property>)
    requires
        properties_fit(properties),
    ensures
        read_properties(properties_bytes(properties)) == Some(properties),
    decreases properties.len(),
{
    if properties.len() > 0 {
        let (key, value) = properties[0];
        let rest = properties.drop_first();
        assert(properties =~= seq![(key, value)] + rest);
        lemma_properties_bytes_cons((key, value), rest);
        assert forall|i: int| 0 <= i < rest.len() implies property_fits(#[trigger] rest[i]) by {
            assert(rest[i] == properties[i + 1]);
        }
        law_properties_read_back(rest);

        let bytes = properties_bytes(properties);
        let key_size = be_bytes(key.len(), 1);
        let value_size = be_bytes(value.len(), 4);
        lemma_be_bytes_len(key.len(), 1);
        lemma_be_bytes_len(value.len(), 4);
        lemma_be_spans();
        assert(property_fits(properties[0]));
        law_be_value_of_bytes(key.len(), 1);
        law_be_value_of_bytes(value.len(), 4);
        assert(key_size.drop_last() =~= Seq::empty());
        assert(be_value(key_size.drop_last()) == 0);
        assert(bytes[0] == key.len());
        let value_start = 1 + key.len() + 4;
        let value_end = value_start + value.len();
        assert(bytes.subrange(1, 1 + key.len() as int) =~= key);
        assert(bytes.subrange(1 + key.len() as int, value_start as int) =~= value_size);
        assert(bytes.subrange(value_start as int, value_end as int) =~= value);
        assert(bytes.skip(value_end as int) =~= properties_bytes(rest));
    }
}

/// Only the written form of properties is read as properties.
pub proof fn law_read_properties_is_exact(bytes: Seq<u8>)
    ensures
        read_properties(bytes) matches Some(properties) ==> {
            &&& properties_fit(properties)
            &&& properties_bytes(properties) == bytes
        },
    decreases bytes.len(),
{
    if bytes.len() > 0 && read_properties(bytes) is Some {
        let key_end = 1 + bytes[0];
        let value_start = key_end + 4;
        let value_size = bytes.subrange(key_end, value_start);
        let value_end = value_start + be_value(value_size);
        let key = bytes.subrange(1, key_end);
        let value = bytes.subrange(value_start, value_end);
        let tail = bytes.skip(value_end);
        let rest = read_properties(tail)->0;
        law_read_properties_is_exact(tail);
        lemma_properties_bytes_cons((key, value), rest);
        lemma_be_spans();
        lemma_be_value_bound(value_size);
        law_be_bytes_of_value(value_size);
        assert(be_value(Seq::<u8>::empty()) == 0);
        assert(seq![bytes[0]].drop_last() =~= Seq::empty());
        law_be_bytes_of_value(seq![bytes[0]]);
        assert(be_bytes(key.len(), 1) =~= seq![bytes[0]]);
        assert(property_bytes((key, value)) =~= bytes.take(value_end));
        let properties = seq![(key, value)] + rest;
        assert forall|i: int| 0 <= i < properties.len() implies property_fits(
            #[trigger] properties[i],
        ) by {
            if i > 0 {
                assert(properties[i] == rest[i - 1]);
            }
        }
        assert(properties_bytes(properties) =~= bytes);
    }
}

/// The name of a command comes first in its body, and the properties follow.
pub proof fn lemma_command_name(name: Seq<u8>, properties: Seq<Property>)
    requires
        name.len() < 0x100,
    ensures
        command_bytes(name, properties).len() > 0,
        command_bytes(name, properties)[0] == name.len(),
        command_bytes(name, properties).subrange(1, 1 + name.len() as int) == name,
        command_bytes(name, properties).skip(1 + name.len() as int) == properties_bytes(properties),
{
    let body = command_bytes(name, properties);
    let name_size = be_bytes(name.len(), 1);
    lemma_be_bytes_len(name.len(), 1);
    lemma_be_spans();
    law_be_value_of_bytes(name.len(), 1);
    assert(name_size.drop_last() =~= Seq::empty());
    assert(be_value(name_size.drop_last()) == 0);
    assert(body.subrange(1, 1 + name.len() as int) =~= name);
    assert(body.skip(1 + name.len() as int) =~= properties_bytes(properties));
}

/// A command whose name and properties fit is parsed into its name and its metadata.
pub proof fn law_command_read_back(name: Seq<u8>, properties: Seq<Property>)
    requires
        name.len() < 0x100,
        properties_fit(properties),
    ensures
        read_command(command_bytes(name, properties)) == Some(
            (lossy(name), property_map(properties)),
        ),
{
    lemma_command_name(name, properties);
    law_properties_read_back(properties);
}

/// Keys that are text map to the same entries as the text.
proof fn lemma_text_map(metadata: Seq<(&str, &str)>)
    ensures
        property_map(utf8_properties(metadata)) == text_map(metadata),
    decreases metadata.len(),
{
    if metadata.len() > 0 {
        lemma_text_map(metadata.drop_last());
        law_lossy_of_utf8(metadata.last().0@);
        assert(utf8_properties(metadata).drop_last() =~= utf8_properties(metadata.drop_last()));
    }
}

/// The metadata of a `READY` command whose keys are shorter than 256 bytes, and whose
/// values are shorter than 2^32, is what a peer reads from it.
pub proof fn law_ready_read_back(metadata: Seq<(&str, &str)>)
    requires
        properties_fit(utf8_properties(metadata)),
    ensures
        read_command(command_bytes(encode_utf8("READY"@), utf8_properties(metadata))) == Some(
            ("READY"@, text_map(metadata)),
        ),
{
    reveal_strlit("READY");
    assert(vstd::utf8::is_ascii_chars("READY"@));
    vstd::utf8::is_ascii_chars_encode_utf8("READY"@);
    law_command_read_back(encode_utf8("READY"@), utf8_properties(metadata));
    law_lossy_of_utf8("READY"@);
    lemma_text_map(metadata);
}

/// Builds the body of a `READY` command with the given metadata fields.
pub fn build_ready_command(metadata: &[(&str, &str)]) -> (body: Vec<u8>)
    ensures
        body@ == command_bytes(encode_utf8("READY"@), utf8_properties(metadata@)),
{
    let mut body: Vec<u8> = Vec::new();
    let name = "READY".as_bytes();
    push_be(&mut body, name.len() as u64, 1);
    body.extend_from_slice(name);
    let ghost start = body@;
    let ghost properties = utf8_properties(metadata@);
    assert(start =~= be_bytes(name@.len(), 1) + name@);
    assert(properties.take(0) =~= Seq::empty());
    assert(start =~= start + properties_bytes(properties.take(0)));
    let mut i: usize = 0;
    while i < metadata.len()
        invariant
            i <= metadata@.len(),
            properties == utf8_properties(metadata@),
            body@ == start + properties_bytes(properties.take(i as int)),
        decreases metadata@.len() - i,
    {
        let (key, value) = metadata[i];
        let key = key.as_bytes();
        let value = value.as_bytes();
        let ghost before = body@;
        push_be(&mut body, key.len() as u64, 1);
        body.extend_from_slice(key);
        push_be(&mut body, value.len() as u64, 4);
        body.extend_from_slice(value);
        proof {
            let property: Property = (key@, value@);
            assert(properties[i as int] == property);
            assert(body@ =~= before + property_bytes(property));
            assert(properties.take(i + 1).drop_last() =~= properties.take(i as int));
            assert(body@ =~= start + properties_bytes(properties.take(i + 1)));
        }
        i += 1;
    }
    assert(properties.take(i as int) =~= properties);
    body
}

/// Parses the body of a command into its name and its metadata, whatever the command.
pub fn parse_command(body: &[u8]) -> (command: Option<(String, StringHashMap<Vec<u8>>)>)
    ensures
        command_model(command) == read_command(body@),
        command is Some <==> read_command(body@) is Some,
        command matches Some((name, table)) ==> {
            &&& read_command(body@) matches Some((title, metadata))
            &&& name@ == title
            &&& table@.dom() == metadata.dom()
            &&& forall|key: Seq<char>| #[trigger]
                table@.contains_key(key) ==> table@[key]@ == metadata[key]
        },
{
    if body.len() == 0 {
        return None;
    }
    let name_len: usize = body[0] as usize;
    if body.len() - 1 < name_len {
        return None;
    }
    let name = lossy_text(&body[1..1 + name_len]);
    let start: usize = 1 + name_len;
    let mut p: usize = start;
    let mut table: StringHashMap<Vec<u8>> = StringHashMap::new();
    let ghost mut done: Seq<Property> = Seq::empty();
    assert(metadata(table) =~= property_map(done));
    assert(forall|rest: Seq<Property>| #[trigger] (done + rest) =~= rest);
    while p < body.len()
        invariant
            start <= p <= body@.len(),
            1 + body@[0] == start,
            name@ == lossy(body@.subrange(1, start as int)),
            metadata(table) == property_map(done),
            read_properties(body@.skip(start as int)) == match read_properties(
                body@.skip(p as int),
            ) {
                Some(rest) => Some(done + rest),
                None => None,
            },
        decreases body@.len() - p,
    {
        let ghost rest = body@.skip(p as int);
        let key_len: usize = body[p] as usize;
        if body.len() - p < 1 + key_len + 4 {
            return None;
        }
        let key = lossy_text(&body[p + 1..p + 1 + key_len]);
        let value_start: usize = p + 1 + key_len + 4;
        let value_len: u64 = read_be(&body[p + 1 + key_len..value_start]);
        proof {
            assert(body@.subrange(p + 1 + key_len, value_start as int) =~= rest.subrange(
                1 + key_len,
                1 + key_len + 4,
            ));
        }
        if ((body.len() - value_start) as u64) < value_len {
            return None;
        }
        let value_end: usize = value_start + value_len as usize;
        let value = vstd::slice::slice_to_vec(&body[value_start..value_end]);
        proof {
            let property: Property = (
                body@.subrange(p + 1, p + 1 + key_len),
                body@.subrange(value_start as int, value_end as int),
            );
            assert(rest.subrange(1, 1 + key_len) =~= property.0);
            assert(rest.subrange(value_start - p, value_end - p) =~= property.1);
            assert(rest.skip(value_end - p) =~= body@.skip(value_end as int));
            assert(done.push(property).drop_last() =~= done);
            assert(forall|tail: Seq<Property>|
                #[trigger] (done.push(property) + tail) =~= done + (seq![property] + tail));
            done = done.push(property);
        }
        let ghost before = table;
        table.insert(key, value);
        assert(metadata(table) =~= metadata(before).insert(key@, value@));
        p = value_end;
    }
    assert(done + Seq::<Property>::empty() =~= done);
    Some((name, table))
}

/// The properties of a list of texts are their UTF-8 forms, each in its place.
pub proof fn law_utf8_properties_by_index(metadata: Seq<(&str, &str)>, i: int)
    requires
        0 <= i < metadata.len(),
    ensures
        utf8_properties(metadata).len() == metadata.len(),
        utf8_properties(metadata)[i].0 == encode_utf8(metadata[i].0@),
        utf8_properties(metadata)[i].1 == encode_utf8(metadata[i].1@),
{
}

/// A property is the length of its key in one byte, the key, the length of its value in four
/// bytes, most significant first, and the value.
pub proof fn law_property_layout(property: Property)
    ensures
        property_bytes(property).len() == 5 + property.0.len() + property.1.len(),
        property_bytes(property)[0] == property.0.len() as int % 256,
        forall|i: int|
            0 <= i < property.0.len() ==> #[trigger] property_bytes(property)[1 + i]
                == property.0[i],
        forall|i: int|
            0 <= i < 4 ==> #[trigger] property_bytes(property)[1 + property.0.len() + i]
                == property.1.len() as int / pow(256, (3 - i) as nat) % 256,
        forall|i: int|
            0 <= i < property.1.len() ==> #[trigger] property_bytes(property)[5 + property.0.len()
                + i] == property.1[i],
{
    let bytes = property_bytes(property);
    let keys = property.0.len();
    let values = property.1.len();
    lemma_be_bytes_len(keys, 1);
    lemma_be_bytes_len(values, 4);
    law_be_bytes_digits(keys, 1, 0);
    lemma_pow0(256);
    assert(bytes[0] == be_bytes(keys, 1)[0]);
    assert forall|i: int| 0 <= i < 4 implies #[trigger] bytes[1 + keys + i] == values as int / pow(
        256,
        (3 - i) as nat,
    ) % 256 by {
        law_be_bytes_digits(values, 4, i);
        assert(bytes[1 + keys + i] == be_bytes(values, 4)[i]);
    }
}

/// Properties are written one after the other, with nothing before, between or behind them.
pub proof fn law_properties_bytes_joined(left: Seq<Property>, right: Seq<Property>)
    ensures
        properties_bytes(Seq::empty()) == Seq::<u8>::empty(),
        left.len() == 1 ==> properties_bytes(left) == property_bytes(left[0]),
        properties_bytes(left + right) == properties_bytes(left) + properties_bytes(right),
    decreases right.len(),
{
    if left.len() == 1 {
        assert(left.drop_last() =~= Seq::empty());
        assert(properties_bytes(left.drop_last()) =~= Seq::empty());
        assert(properties_bytes(left) =~= property_bytes(left[0]));
    }
    if right.len() == 0 {
        assert(left + right =~= left);
        assert(properties_bytes(left) + properties_bytes(right) =~= properties_bytes(left));
    } else {
        law_properties_bytes_joined(left, right.drop_last());
        assert((left + right).drop_last() =~= left + right.drop_last());
        assert((left + right).last() == right.last());
        assert(properties_bytes(left + right) =~= properties_bytes(left) + properties_bytes(right));
    }
}

/// A command is the length of its name in one byte, the name, and the properties.
pub proof fn law_command_layout(name: Seq<u8>, properties: Seq<Property>)
    ensures
        command_bytes(name, properties).len() == 1 + name.len() + properties_bytes(
            properties,
        ).len(),
        command_bytes(name, properties)[0] == name.len() as int % 256,
        forall|i: int|
            0 <= i < name.len() ==> #[trigger] command_bytes(name, properties)[1 + i] == name[i],
        forall|i: int|
            0 <= i < properties_bytes(properties).len() ==> #[trigger] command_bytes(
                name,
                properties,
            )[1 + name.len() + i] == properties_bytes(properties)[i],
{
    lemma_be_bytes_len(name.len(), 1);
    law_be_bytes_digits(name.len(), 1, 0);
    lemma_pow0(256);
    assert(command_bytes(name, properties)[0] == be_bytes(name.len(), 1)[0]);
}

/// Only the written form of a command is read as a command: what is read has a name and
/// properties that make up the body to the last byte.
pub proof fn law_read_command_is_exact(body: Seq<u8>)
    ensures
        read_command(body) matches Some((name, metadata)) ==> exists|
            written: Seq<u8>,
            properties: Seq<Property>,
        |
            {
                &&& body == #[trigger] command_bytes(written, properties)
                &&& written.len() < 0x100
                &&& properties_fit(properties)
                &&& name == lossy(written)
                &&& metadata == property_map(properties)
            },
{
    if read_command(body) is Some {
        let end = 1 + body[0];
        let written = body.subrange(1, end);
        let properties = read_properties(body.skip(end))->0;
        law_read_properties_is_exact(body.skip(end));
        law_be_bytes_of_value(seq![body[0]]);
        assert(seq![body[0]].drop_last() =~= Seq::empty());
        assert(be_value(Seq::<u8>::empty()) == 0);
        assert(be_bytes(written.len(), 1) =~= seq![body[0]]);
        assert(command_bytes(written, properties) =~= body);
    }
}

/// The metadata of a list of properties has for a key the value of the last property that
/// has the key.
pub proof fn law_last_property_counts(properties: Seq<Property>, key: Seq<char>, i: int)
    requires
        0 <= i < properties.len(),
        lossy(properties[i].0) == key,
        forall|j: int| i < j < properties.len() ==> lossy((#[trigger] properties[j]).0) != key,
    ensures
        property_map(properties).contains_key(key),
        property_map(properties)[key] == properties[i].1,
    decreases properties.len(),
{
    let front = properties.drop_last();
    if i < front.len() {
        assert(lossy(properties[properties.len() - 1].0) != key);
        assert forall|j: int| i < j < front.len() implies lossy((#[trigger] front[j]).0) != key by {
            assert(front[j] == properties[j]);
        }
        law_last_property_counts(front, key, i);
    }
}

/// The metadata of a list of properties has no key that no property has.
pub proof fn law_absent_property(properties: Seq<Property>, key: Seq<char>)
    requires
        forall|i: int| 0 <= i < properties.len() ==> lossy((#[trigger] properties[i]).0) != key,
    ensures
        !property_map(properties).contains_key(key),
    decreases properties.len(),
{
    if properties.len() > 0 {
        let front = properties.drop_last();
        assert(lossy(properties[properties.len() - 1].0) != key);
        assert forall|i: int| 0 <= i < front.len() implies lossy((#[trigger] front[i]).0)
            != key by {
            assert(front[i] == properties[i]);
        }
        law_absent_property(front, key);
    }
}

/// What a peer reads from the metadata of a `READY` command has for a key the UTF-8 form of
/// the value of the last entry with that key.
pub proof fn law_last_text_counts(metadata: Seq<(&str, &str)>, key: Seq<char>, i: int)
    requires
        0 <= i < metadata.len(),
        metadata[i].0@ == key,
        forall|j: int| i < j < metadata.len() ==> (#[trigger] metadata[j]).0@ != key,
    ensures
        text_map(metadata).contains_key(key),
        text_map(metadata)[key] == encode_utf8(metadata[i].1@),
    decreases metadata.len(),
{
    let front = metadata.drop_last();
    if i < front.len() {
        assert(metadata[metadata.len() - 1].0@ != key);
        assert forall|j: int| i < j < front.len() implies (#[trigger] front[j]).0@ != key by {
            assert(front[j] == metadata[j]);
        }
        law_last_text_counts(front, key, i);
    }
}

/// What a peer reads from the metadata of a `READY` command has no key that no entry has.
pub proof fn law_absent_text(metadata: Seq<(&str, &str)>, key: Seq<char>)
    requires
        forall|i: int| 0 <= i < metadata.len() ==> (#[trigger] metadata[i]).0@ != key,
    ensures
        !text_map(metadata).contains_key(key),
    decreases metadata.len(),
{
    if metadata.len() > 0 {
        let front = metadata.drop_last();
        assert(metadata[metadata.len() - 1].0@ != key);
        assert forall|i: int| 0 <= i < front.len() implies (#[trigger] front[i]).0@ != key by {
            assert(front[i] == metadata[i]);
        }
        law_absent_text(front, key);
    }
}

/// Properties fit if every key has at most 255 bytes and every value fewer than 2^32.
pub proof fn law_what_fits(properties: Seq<Property>)
    ensures
        properties_fit(properties) <==> forall|i: int|
            0 <= i < properties.len() ==> (#[trigger] properties[i]).0.len() <= 255
                && properties[i].1.len() <= 0xffff_ffff,
{
    if properties_fit(properties) {
        assert forall|i: int| 0 <= i < properties.len() implies (#[trigger] properties[i]).0.len()
            <= 255 && properties[i].1.len() <= 0xffff_ffff by {
            assert(property_fits(properties[i]));
        }
    }
}

} // verus!
