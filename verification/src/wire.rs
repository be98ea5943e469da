//! The wire format of a TXT record: a chain of segments, each one length byte
//! and that many bytes, which hold a key and, behind a delimiter, its value.

use crate::attribute::{segment, valid_record, Attribute, DELIMITER};
use vstd::prelude::*;

verus! {

/// One attribute as it travels: the length of its segment in one byte, then
/// the segment.
pub open spec fn encoded(a: Attribute) -> Seq<u8> {
    seq![segment(a).len() as u8] + segment(a)
}

/// The wire form of a record: its attributes, encoded one after the other in
/// their order.
pub open spec fn wire(s: Seq<Attribute>) -> Seq<u8>
    decreases s.len(),
{
    if s.len() == 0 {
        Seq::empty()
    } else {
        encoded(s.first()) + wire(s.drop_first())
    }
}

/// The attribute that a segment holds. What stands before the first delimiter
/// is the key and what follows it the value; a segment without a delimiter is
/// a flag.
pub open spec fn decoded(seg: Seq<u8>) -> Attribute {
    match seg.index_of_first(DELIMITER) {
        Some(i) => Attribute { key: seg.take(i), value: Some(seg.skip(i + 1)) },
        None => Attribute { key: seg, value: None },
    }
}

/// The attributes of a chain of segments, or `None` where a length byte asks
/// for more bytes than follow it.
pub open spec fn segments(bytes: Seq<u8>) -> Option<Seq<Attribute>>
    decreases bytes.len(),
{
    if bytes.len() == 0 {
        Some(Seq::empty())
    } else {
        let n = bytes[0] as int;
        if 1 + n > bytes.len() {
            None
        } else {
            match segments(bytes.skip(1 + n)) {
                Some(rest) => Some(seq![decoded(bytes.subrange(1, 1 + n))] + rest),
                None => None,
            }
        }
    }
}

/// What a byte string stands for: the attributes of its segments, where the
/// segments are whole and the attributes make a valid record.
pub open spec fn parsed(bytes: Seq<u8>) -> Option<Seq<Attribute>> {
    match segments(bytes) {
        Some(s) => if valid_record(s) {
            Some(s)
        } else {
            None
        },
        None => None,
    }
}

/// A byte string shown as text: each byte becomes the character with that
/// code point.
pub open spec fn text_of(bytes: Seq<u8>) -> Seq<char> {
    Seq::new(bytes.len(), |i: int| bytes[i] as char)
}

/// Encoding one more attribute at the end adds its bytes at the end.
pub proof fn lemma_wire_push(s: Seq<Attribute>, a: Attribute)
    ensures
        wire(s.push(a)) == wire(s) + encoded(a),
    decreases s.len(),
{
    if s.len() == 0 {
        assert(s.push(a).drop_first() =~= s);
    } else {
        assert(s.push(a).drop_first() =~= s.drop_first().push(a));
        lemma_wire_push(s.drop_first(), a);
    }
}

/// A segment holds exactly the bytes of the attribute read from it.
pub proof fn lemma_segment_of_decoded(seg: Seq<u8>)
    ensures
        segment(decoded(seg)) == seg,
{
    seg.index_of_first_ensures(DELIMITER);
}

/// An attribute whose key holds no delimiter is read back from its segment
/// as it was.
pub proof fn lemma_decoded_of_segment(a: Attribute)
    requires
        !a.key.contains(DELIMITER),
    ensures
        decoded(segment(a)) == a,
{
    let seg = segment(a);
    seg.index_of_first_ensures(DELIMITER);
    match a.value {
        Some(v) => {
            let k = a.key.len() as int;
            assert(seg[k] == DELIMITER);
            let i = seg.index_of_first(DELIMITER).unwrap();
            assert(seg.take(i) =~= a.key);
            assert(seg.skip(i + 1) =~= v);
        },
        None => {},
    }
}

/// Reading the wire form of a valid record gives the record back: the
/// attributes, their order, their keys and their values.
pub proof fn lemma_parsed_of_wire(s: Seq<Attribute>)
    requires
        valid_record(s),
    ensures
        parsed(wire(s)) == Some(s),
    decreases s.len(),
{
    if s.len() > 0 {
        let a = s.first();
        let rest = s.drop_first();
        let w = wire(s);
        let n = segment(a).len() as int;
        lemma_parsed_of_wire(rest);
        assert(w.subrange(1, 1 + n) =~= segment(a));
        assert(w.skip(1 + n) =~= wire(rest));
        lemma_decoded_of_segment(a);
    }
}

/// Whatever can be read as a chain of segments is the wire form of what was
/// read from it.
pub proof fn lemma_wire_of_segments(bytes: Seq<u8>)
    requires
        segments(bytes) is Some,
    ensures
        wire(segments(bytes).unwrap()) == bytes,
    decreases bytes.len(),
{
    if bytes.len() > 0 {
        let n = bytes[0] as int;
        let seg = bytes.subrange(1, 1 + n);
        let rest = segments(bytes.skip(1 + n)).unwrap();
        let s = seq![decoded(seg)] + rest;
        lemma_wire_of_segments(bytes.skip(1 + n));
        lemma_segment_of_decoded(seg);
        assert(s.drop_first() =~= rest);
    }
}

/// Writing and reading undo each other. A byte string is read as a record
/// exactly when it is the wire form of a valid record, and then as that one:
/// no two records share a wire form, and no byte string but its wire form is
/// read as a record.
pub proof fn lemma_wire_and_parsed_are_inverse(bytes: Seq<u8>, s: Seq<Attribute>)
    ensures
        parsed(bytes) == Some(s) <==> valid_record(s) && wire(s) == bytes,
{
    if parsed(bytes) == Some(s) {
        lemma_wire_of_segments(bytes);
    }
    if valid_record(s) && wire(s) == bytes {
        lemma_parsed_of_wire(s);
    }
}

} // verus!
