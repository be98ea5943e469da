//! The TXT record of a service: the attributes that travel with its
//! advertisement, kept in the order in which their keys were first inserted.

use crate::attribute::{
    fold_byte, fold_key, has_key, inserted, keys_of, lemma_inserted_valid, lemma_position_unique,
    lemma_removed_valid, lookup, position, removed, same_key, segment, storable, valid_record,
    values_of, Attribute, DELIMITER, MAX_SEGMENT_LEN,
};
use crate::error::Error;
use crate::wire::{
    decoded, lemma_parsed_of_wire, lemma_segment_of_decoded, lemma_wire_of_segments,
    lemma_wire_push, parsed, segments, text_of, wire,
};
use vstd::prelude::*;
use vstd::slice::*;

verus! {

/// The view of an optional byte string.
pub open spec fn value_view(value: Option<&[u8]>) -> Option<Seq<u8>> {
    match value {
        Some(v) => Some(v@),
        None => None,
    }
}

/// The view of an optional byte string that is owned.
pub open spec fn owned_value_view(value: Option<Vec<u8>>) -> Option<Seq<u8>> {
    match value {
        Some(v) => Some(v@),
        None => None,
    }
}

/// The attributes that a list of owned pairs stands for.
pub open spec fn pairs_view(pairs: Seq<(Vec<u8>, Option<Vec<u8>>)>) -> Seq<Attribute> {
    Seq::new(
        pairs.len(),
        |i: int| Attribute { key: pairs[i].0@, value: owned_value_view(pairs[i].1) },
    )
}

/// The byte strings that a list of owned keys stands for.
pub open spec fn keys_view(keys: Seq<Vec<u8>>) -> Seq<Seq<u8>> {
    Seq::new(keys.len(), |i: int| keys[i]@)
}

/// The optional byte strings that a list of owned values stands for.
pub open spec fn values_view(values: Seq<Option<Vec<u8>>>) -> Seq<Option<Seq<u8>>> {
    Seq::new(values.len(), |i: int| owned_value_view(values[i]))
}

#[derive(Debug, PartialEq, Eq)]
struct Entry {
    key: Vec<u8>,
    value: Option<Vec<u8>>,
}

impl Entry {
    spec fn attribute(self) -> Attribute {
        Attribute { key: self.key@, value: owned_value_view(self.value) }
    }

    fn key_copy(&self) -> (key: Vec<u8>)
        ensures
            key@ == self.key@,
    {
        slice_to_vec(self.key.as_slice())
    }

    fn value_copy(&self) -> (value: Option<Vec<u8>>)
        ensures
            owned_value_view(value) == owned_value_view(self.value),
    {
        match &self.value {
            Some(v) => Some(slice_to_vec(v.as_slice())),
            None => None,
        }
    }
}

/// `String::push` of the standard library: the character is added at the end
/// of the text, and the text before it stays as it was.
#[verifier::external_body]
fn push_char(text: &mut String, c: char)
    ensures
        final(text)@ == old(text)@.push(c),
{
    text.push(c)
}

fn fold(b: u8) -> (r: u8)
    ensures
        r == fold_byte(b),
{
    if 0x41 <= b && b <= 0x5A {
        b + 0x20
    } else {
        b
    }
}

fn keys_match(a: &[u8], b: &[u8]) -> (r: bool)
    ensures
        r == same_key(a@, b@),
{
    if a.len() != b.len() {
        return false;
    }
    let mut i: usize = 0;
    while i < a.len()
        invariant
            a@.len() == b@.len(),
            i <= a@.len(),
            forall|j: int| 0 <= j < i ==> fold_byte(a@[j]) == fold_byte(b@[j]),
        decreases a@.len() - i,
    {
        if fold(a[i]) != fold(b[i]) {
            assert(fold_key(a@)[i as int] != fold_key(b@)[i as int]);
            return false;
        }
        i += 1;
    }
    assert(fold_key(a@) =~= fold_key(b@));
    true
}

fn holds_delimiter(bytes: &[u8]) -> (r: bool)
    ensures
        r == bytes@.contains(DELIMITER),
{
    let mut i: usize = 0;
    while i < bytes.len()
        invariant
            i <= bytes@.len(),
            forall|j: int| 0 <= j < i ==> bytes@[j] != DELIMITER,
        decreases bytes@.len() - i,
    {
        if bytes[i] == DELIMITER {
            return true;
        }
        i += 1;
    }
    false
}

fn fits_segment(key: &[u8], value: Option<&[u8]>) -> (r: bool)
    ensures
        r == (segment(Attribute { key: key@, value: value_view(value) }).len() <= MAX_SEGMENT_LEN),
{
    match value {
        Some(v) => key.len() < MAX_SEGMENT_LEN && v.len() <= MAX_SEGMENT_LEN - 1 - key.len(),
        None => key.len() <= MAX_SEGMENT_LEN,
    }
}

fn append_bytes(out: &mut Vec<u8>, bytes: &[u8])
    ensures
        final(out)@ == old(out)@ + bytes@,
{
    let mut i: usize = 0;
    while i < bytes.len()
        invariant
            i <= bytes@.len(),
            out@ == old(out)@ + bytes@.take(i as int),
        decreases bytes@.len() - i,
    {
        out.push(bytes[i]);
        i += 1;
    }
}

fn first_delimiter(seg: &[u8]) -> (r: Option<usize>)
    ensures
        match r {
            Some(i) => seg@.index_of_first(DELIMITER) == Some(i as int) && i < seg@.len(),
            None => seg@.index_of_first(DELIMITER) is None,
        },
{
    let mut i: usize = 0;
    while i < seg.len()
        invariant
            i <= seg@.len(),
            forall|j: int| 0 <= j < i ==> seg@[j] != DELIMITER,
        decreases seg@.len() - i,
    {
        if seg[i] == DELIMITER {
            proof {
                seg@.index_of_first_ensures(DELIMITER);
            }
            return Some(i);
        }
        i += 1;
    }
    proof {
        seg@.index_of_first_ensures(DELIMITER);
    }
    None
}

/// The attributes of one service advertisement. Every key occurs once,
/// whatever its case, and every attribute fits one segment of the wire form.
#[derive(Debug, PartialEq, Eq)]
pub struct TxtRecord {
    entries: Vec<Entry>,
}

impl View for TxtRecord {
    type V = Seq<Attribute>;

    closed spec fn view(&self) -> Seq<Attribute> {
        self.entries@.map_values(|e: Entry| e.attribute())
    }
}

impl TxtRecord {
    #[verifier::type_invariant]
    spec fn well_formed(self) -> bool {
        valid_record(self@)
    }

    /// An empty record.
    pub fn new() -> (record: TxtRecord)
        ensures
            record@ == Seq::<Attribute>::empty(),
    {
        TxtRecord { entries: Vec::new() }
    }

    /// The number of attributes.
    pub fn len(&self) -> (n: usize)
        ensures
            n == self@.len(),
            valid_record(self@),
    {
        proof {
            use_type_invariant(self);
        }
        self.entries.len()
    }

    fn find(&self, key: &[u8]) -> (r: Option<usize>)
        ensures
            valid_record(self@),
            self@.len() == self.entries@.len(),
            match r {
                Some(i) => i < self@.len() && has_key(self@, key@) && position(self@, key@) == i,
                None => !has_key(self@, key@),
            },
    {
        proof {
            use_type_invariant(self);
        }
        let mut i: usize = 0;
        while i < self.entries.len()
            invariant
                i <= self.entries@.len(),
                self@.len() == self.entries@.len(),
                valid_record(self@),
                forall|j: int| 0 <= j < i ==> !same_key(self@[j].key, key@),
            decreases self.entries@.len() - i,
        {
            if keys_match(self.entries[i].key.as_slice(), key) {
                proof {
                    lemma_position_unique(self@, key@, i as int);
                }
                return Some(i);
            }
            i += 1;
        }
        None
    }

    /// Whether an attribute goes by `key`, in whatever case.
    pub fn contains_key(&self, key: &[u8]) -> (found: bool)
        ensures
            found == has_key(self@, key@),
            valid_record(self@),
    {
        self.find(key).is_some()
    }

    /// The value stored under `key`, or `None` where the key is absent or
    /// stands for a flag without a value.
    pub fn get(&self, key: &[u8]) -> (value: Option<&[u8]>)
        ensures
            value_view(value) == lookup(self@, key@),
            valid_record(self@),
    {
        match self.find(key) {
            Some(i) => match &self.entries[i].value {
                Some(v) => Some(v.as_slice()),
                None => None,
            },
            None => None,
        }
    }

    /// Gives `key` the value `value`, or makes it a flag where `value` is
    /// `None`. A key that the record holds, in whatever case, keeps its place
    /// and its spelling and gets the new value; a new key goes to the end.
    /// The attribute is refused, and the record left as it was, when the key
    /// is empty or holds the delimiter, or when key, delimiter and value
    /// together are longer than a segment may be.
    pub fn insert(&mut self, key: &[u8], value: Option<&[u8]>) -> (r: Result<(), Error>)
        ensures
            valid_record(old(self)@),
            valid_record(final(self)@),
            storable(key@, value_view(value)) ==> r is Ok && final(self)@ == inserted(
                old(self)@,
                key@,
                value_view(value),
            ),
            !storable(key@, value_view(value)) ==> r == Err::<(), Error>(Error::EncodingError)
                && final(self)@ == old(self)@,
    {
        proof {
            use_type_invariant(&*self);
        }
        if key.len() == 0 || holds_delimiter(key) || !fits_segment(key, value) {
            return Err(Error::EncodingError);
        }
        let stored: Option<Vec<u8>> = match value {
            Some(v) => Some(slice_to_vec(v)),
            None => None,
        };
        let found = self.find(key);
        let mut entries: Vec<Entry> = Vec::new();
        let ghost before = self@;
        proof {
            lemma_inserted_valid(before, key@, value_view(value));
        }
        match found {
            Some(i) => {
                let entry = Entry { key: self.entries[i].key_copy(), value: stored };
                assert(self.entries@.update(i as int, entry).map_values(|e: Entry| e.attribute())
                    =~= inserted(before, key@, value_view(value)));
                std::mem::swap(&mut entries, &mut self.entries);
                entries.set(i, entry);
            },
            None => {
                let entry = Entry { key: slice_to_vec(key), value: stored };
                assert(self.entries@.push(entry).map_values(|e: Entry| e.attribute())
                    =~= inserted(before, key@, value_view(value)));
                std::mem::swap(&mut entries, &mut self.entries);
                entries.push(entry);
            },
        }
        self.entries = entries;
        Ok(())
    }

    /// Takes the attribute that goes by `key` out of the record; the others
    /// keep their order. Fails, and changes nothing, when no attribute goes by
    /// that key.
    pub fn remove(&mut self, key: &[u8]) -> (r: Result<(), Error>)
        ensures
            valid_record(old(self)@),
            valid_record(final(self)@),
            final(self)@ == removed(old(self)@, key@),
            has_key(old(self)@, key@) ==> r is Ok,
            !has_key(old(self)@, key@) ==> r == Err::<(), Error>(Error::NotFoundError),
    {
        proof {
            use_type_invariant(&*self);
        }
        let ghost before = self@;
        proof {
            lemma_removed_valid(before, key@);
        }
        match self.find(key) {
            Some(i) => {
                assert(self.entries@.remove(i as int).map_values(|e: Entry| e.attribute())
                    =~= removed(before, key@));
                let mut entries: Vec<Entry> = Vec::new();
                std::mem::swap(&mut entries, &mut self.entries);
                entries.remove(i);
                self.entries = entries;
                Ok(())
            },
            None => Err(Error::NotFoundError),
        }
    }

    /// The attributes in their order, each as an owned pair of key and value.
    pub fn iter(&self) -> (pairs: Vec<(Vec<u8>, Option<Vec<u8>>)>)
        ensures
            pairs_view(pairs@) == self@,
    {
        let mut pairs: Vec<(Vec<u8>, Option<Vec<u8>>)> = Vec::new();
        let mut i: usize = 0;
        while i < self.entries.len()
            invariant
                i <= self.entries@.len(),
                self@.len() == self.entries@.len(),
                pairs_view(pairs@) == self@.take(i as int),
            decreases self.entries@.len() - i,
        {
            let pair = (self.entries[i].key_copy(), self.entries[i].value_copy());
            pairs.push(pair);
            assert(self@.take(i + 1) =~= self@.take(i as int).push(self@[i as int]));
            i += 1;
        }
        pairs
    }

    /// The keys in their order, spelled as they were first inserted.
    pub fn keys(&self) -> (keys: Vec<Vec<u8>>)
        ensures
            keys_view(keys@) == keys_of(self@),
    {
        let mut keys: Vec<Vec<u8>> = Vec::new();
        let mut i: usize = 0;
        while i < self.entries.len()
            invariant
                i <= self.entries@.len(),
                self@.len() == self.entries@.len(),
                keys_view(keys@) == keys_of(self@).take(i as int),
            decreases self.entries@.len() - i,
        {
            keys.push(self.entries[i].key_copy());
            assert(keys_of(self@).take(i + 1) =~= keys_of(self@).take(i as int).push(
                self@[i as int].key,
            ));
            i += 1;
        }
        keys
    }

    /// The values in the order of their keys; `None` stands for a flag.
    pub fn values(&self) -> (values: Vec<Option<Vec<u8>>>)
        ensures
            values_view(values@) == values_of(self@),
    {
        let mut values: Vec<Option<Vec<u8>>> = Vec::new();
        let mut i: usize = 0;
        while i < self.entries.len()
            invariant
                i <= self.entries@.len(),
                self@.len() == self.entries@.len(),
                values_view(values@) == values_of(self@).take(i as int),
            decreases self.entries@.len() - i,
        {
            values.push(self.entries[i].value_copy());
            assert(values_of(self@).take(i + 1) =~= values_of(self@).take(i as int).push(
                self@[i as int].value,
            ));
            i += 1;
        }
        values
    }

    /// The record in its wire form: for each attribute in order, one byte with
    /// the length of what follows, the key and, for an attribute with a value,
    /// the delimiter and the value. Reading these bytes gives the record back.
    pub fn to_wire_bytes(&self) -> (bytes: Vec<u8>)
        ensures
            bytes@ == wire(self@),
            parsed(bytes@) == Some(self@),
    {
        proof {
            use_type_invariant(self);
        }
        let mut out: Vec<u8> = Vec::new();
        let mut i: usize = 0;
        while i < self.entries.len()
            invariant
                i <= self.entries@.len(),
                self@.len() == self.entries@.len(),
                valid_record(self@),
                out@ == wire(self@.take(i as int)),
            decreases self.entries@.len() - i,
        {
            let entry = &self.entries[i];
            let ghost a = self@[i as int];
            match &entry.value {
                Some(v) => {
                    let n: usize = entry.key.len() + 1 + v.len();
                    out.push(n as u8);
                    append_bytes(&mut out, entry.key.as_slice());
                    out.push(DELIMITER);
                    append_bytes(&mut out, v.as_slice());
                },
                None => {
                    let n: usize = entry.key.len();
                    out.push(n as u8);
                    append_bytes(&mut out, entry.key.as_slice());
                },
            }
            proof {
                lemma_wire_push(self@.take(i as int), a);
                assert(self@.take(i + 1) =~= self@.take(i as int).push(a));
            }
            i += 1;
        }
        proof {
            assert(self@.take(i as int) =~= self@);
            lemma_parsed_of_wire(self@);
        }
        out
    }

    /// The wire form as text, one character for each byte.
    pub fn to_string(&self) -> (text: String)
        ensures
            text@ == text_of(wire(self@)),
    {
        let bytes = self.to_wire_bytes();
        let mut text = String::new();
        let mut i: usize = 0;
        while i < bytes.len()
            invariant
                i <= bytes@.len(),
                text@ == text_of(bytes@.take(i as int)),
            decreases bytes@.len() - i,
        {
            push_char(&mut text, bytes[i] as char);
            i += 1;
        }
        text
    }

    /// Reads a record from its wire form. It succeeds on exactly the byte
    /// strings that are the wire form of a record, and gives that record:
    /// every length byte must have that many bytes after it, every segment a
    /// key that is not empty, and no key may come twice.
    pub fn parse(bytes: &[u8]) -> (r: Result<TxtRecord, Error>)
        ensures
            match r {
                Ok(record) => parsed(bytes@) == Some(record@) && wire(record@) == bytes@,
                Err(e) => parsed(bytes@) is None && e == Error::EncodingError,
            },
    {
        let mut record = TxtRecord::new();
        let mut pos: usize = 0;
        assert(bytes@.skip(0) =~= bytes@);
        while pos < bytes.len()
            invariant
                pos <= bytes@.len(),
                valid_record(record@),
                segments(bytes@) == match segments(bytes@.skip(pos as int)) {
                    Some(rest) => Some(record@ + rest),
                    None => None,
                },
            decreases bytes@.len() - pos,
        {
            let ghost tail = bytes@.skip(pos as int);
            let n: usize = bytes[pos] as usize;
            if n > bytes.len() - pos - 1 {
                return Err(Error::EncodingError);
            }
            let seg = slice_subrange(bytes, pos + 1, pos + 1 + n);
            assert(seg@ =~= tail.subrange(1, 1 + n));
            assert(tail.skip(1 + n) =~= bytes@.skip(pos + 1 + n));
            let ghost a = decoded(seg@);
            let ghost before = record@;
            let ghost rest = segments(bytes@.skip(pos + 1 + n));
            proof {
                lemma_segment_of_decoded(seg@);
                if rest is Some {
                    let all = before + (seq![a] + rest.unwrap());
                    assert(all[before.len() as int] == a);
                }
            }
            let accepted = match first_delimiter(seg) {
                Some(i) => {
                    let key = slice_subrange(seg, 0, i);
                    let value = slice_subrange(seg, i + 1, seg.len());
                    !record.contains_key(key) && record.insert(key, Some(value)).is_ok()
                },
                None => {
                    !record.contains_key(seg) && record.insert(seg, None).is_ok()
                },
            };
            if !accepted {
                proof {
                    if has_key(before, a.key) && rest is Some {
                        let p = position(before, a.key);
                        let all = before + (seq![a] + rest.unwrap());
                        assert(same_key(all[p].key, all[before.len() as int].key));
                    }
                }
                return Err(Error::EncodingError);
            }
            pos = pos + 1 + n;
        }
        proof {
            lemma_wire_of_segments(bytes@);
        }
        Ok(record)
    }
}

} // verus!
