//! The mathematical model of a TXT record: a sequence of attributes in which
//! every key occurs once, with what it means to look a key up, to give it a
//! value and to take it out.

use vstd::prelude::*;
use vstd::seq_lib::*;
use vstd::set_lib::*;

verus! {

/// The byte that parts a key from its value inside a segment.
pub const DELIMITER: u8 = 0x3D;

/// The most bytes that a segment may hold after its length byte.
pub const MAX_SEGMENT_LEN: usize = 255;

/// One attribute: a key, and a value unless the attribute is a bare flag.
pub struct Attribute {
    pub key: Seq<u8>,
    pub value: Option<Seq<u8>>,
}

/// An ASCII capital letter becomes its small letter; every other byte stays.
pub open spec fn fold_byte(b: u8) -> u8 {
    if 0x41 <= b <= 0x5A {
        (b + 0x20) as u8
    } else {
        b
    }
}

/// A key with the case of its ASCII letters taken away.
pub open spec fn fold_key(key: Seq<u8>) -> Seq<u8> {
    key.map_values(|b: u8| fold_byte(b))
}

/// Two spellings name the same key when they differ in ASCII case at most.
pub open spec fn same_key(a: Seq<u8>, b: Seq<u8>) -> bool {
    fold_key(a) == fold_key(b)
}

/// The bytes of an attribute that follow the length byte: the key, and for an
/// attribute with a value the delimiter and the value.
pub open spec fn segment(a: Attribute) -> Seq<u8> {
    match a.value {
        Some(v) => a.key + seq![DELIMITER] + v,
        None => a.key,
    }
}

/// A key is not empty and holds no delimiter.
pub open spec fn valid_key(key: Seq<u8>) -> bool {
    key.len() > 0 && !key.contains(DELIMITER)
}

/// An attribute can be stored when its key is valid and its segment fits the
/// one length byte.
pub open spec fn valid_attribute(a: Attribute) -> bool {
    valid_key(a.key) && segment(a).len() <= MAX_SEGMENT_LEN
}

/// Whether `key` with `value` makes an attribute that can be stored.
pub open spec fn storable(key: Seq<u8>, value: Option<Seq<u8>>) -> bool {
    valid_attribute(Attribute { key, value })
}

/// Whether some attribute of `s` goes by `key`.
pub open spec fn has_key(s: Seq<Attribute>, key: Seq<u8>) -> bool {
    exists|i: int| 0 <= i < s.len() && #[trigger] same_key(s[i].key, key)
}

/// Where in `s` the attribute that goes by `key` stands, if there is one.
pub open spec fn position(s: Seq<Attribute>, key: Seq<u8>) -> int {
    choose|i: int| 0 <= i < s.len() && #[trigger] same_key(s[i].key, key)
}

/// No two attributes of `s` go by the same key.
pub open spec fn distinct_keys(s: Seq<Attribute>) -> bool {
    forall|i: int, j: int| 0 <= i < j < s.len() ==> !#[trigger] same_key(s[i].key, s[j].key)
}

/// What holds of every record: each attribute can be stored, and each key
/// occurs once.
pub open spec fn valid_record(s: Seq<Attribute>) -> bool {
    &&& forall|i: int| 0 <= i < s.len() ==> valid_attribute(#[trigger] s[i])
    &&& distinct_keys(s)
}

/// The value stored under `key`; `None` for an absent key and for a flag.
pub open spec fn lookup(s: Seq<Attribute>, key: Seq<u8>) -> Option<Seq<u8>> {
    if has_key(s, key) {
        s[position(s, key)].value
    } else {
        None
    }
}

/// The record after `key` was given `value`: a key that is present keeps its
/// place and its spelling, a new one goes to the end.
pub open spec fn inserted(s: Seq<Attribute>, key: Seq<u8>, value: Option<Seq<u8>>) -> Seq<
    Attribute,
> {
    if has_key(s, key) {
        let i = position(s, key);
        s.update(i, Attribute { key: s[i].key, value })
    } else {
        s.push(Attribute { key, value })
    }
}

/// The record without the attribute that goes by `key`.
pub open spec fn removed(s: Seq<Attribute>, key: Seq<u8>) -> Seq<Attribute> {
    if has_key(s, key) {
        s.remove(position(s, key))
    } else {
        s
    }
}

/// The keys of a record, in its order.
pub open spec fn keys_of(s: Seq<Attribute>) -> Seq<Seq<u8>> {
    Seq::new(s.len(), |i: int| s[i].key)
}

/// The values of a record, in its order; `None` stands for a flag.
pub open spec fn values_of(s: Seq<Attribute>) -> Seq<Option<Seq<u8>>> {
    Seq::new(s.len(), |i: int| s[i].value)
}

/// The keys of a record without their case, in its order.
pub open spec fn folded_keys(s: Seq<Attribute>) -> Seq<Seq<u8>> {
    Seq::new(s.len(), |i: int| fold_key(s[i].key))
}

/// One call on a record.
pub enum Call {
    Insert { key: Seq<u8>, value: Option<Seq<u8>> },
    Remove { key: Seq<u8> },
}

/// The record after one call. An insertion that cannot be stored and a
/// removal of an absent key leave the record as it was.
pub open spec fn after_call(s: Seq<Attribute>, call: Call) -> Seq<Attribute> {
    match call {
        Call::Insert { key, value } => if storable(key, value) {
            inserted(s, key, value)
        } else {
            s
        },
        Call::Remove { key } => removed(s, key),
    }
}

/// The record after a run of calls on a new record, in their order.
pub open spec fn after_calls(calls: Seq<Call>) -> Seq<Attribute>
    decreases calls.len(),
{
    if calls.len() == 0 {
        Seq::empty()
    } else {
        after_call(after_calls(calls.drop_last()), calls.last())
    }
}

/// The keys that a run of calls inserted, without their case.
pub open spec fn inserted_keys(calls: Seq<Call>) -> Set<Seq<u8>>
    decreases calls.len(),
{
    if calls.len() == 0 {
        Set::empty()
    } else {
        match calls.last() {
            Call::Insert { key, value } => inserted_keys(calls.drop_last()).insert(fold_key(key)),
            Call::Remove { key } => inserted_keys(calls.drop_last()),
        }
    }
}

/// What can be stored, in plain numbers: the key has at least one byte and
/// no delimiter, and the key alone, for a flag, or the key, the delimiter and
/// the value together have 255 bytes at most.
pub proof fn lemma_storable_bounds(key: Seq<u8>, value: Option<Seq<u8>>)
    ensures
        storable(key, value) <==> {
            &&& key.len() > 0
            &&& !key.contains(DELIMITER)
            &&& match value {
                Some(v) => key.len() + 1 + v.len() <= 255,
                None => key.len() <= 255,
            }
        },
{
}

/// In a record with distinct keys the attribute found under a key is the only
/// one that goes by it.
pub proof fn lemma_position_unique(s: Seq<Attribute>, key: Seq<u8>, i: int)
    requires
        distinct_keys(s),
        0 <= i < s.len(),
        same_key(s[i].key, key),
    ensures
        has_key(s, key),
        position(s, key) == i,
{
    let p = position(s, key);
    if p < i {
        assert(same_key(s[p].key, s[i].key));
    } else if i < p {
        assert(same_key(s[i].key, s[p].key));
    }
}

/// Giving a key a value keeps a valid record valid. The key is then present
/// with that value, every other key has the value that it had, and the record
/// has grown by one attribute if the key was new and not at all if it was
/// there.
pub proof fn lemma_inserted_valid(s: Seq<Attribute>, key: Seq<u8>, value: Option<Seq<u8>>)
    requires
        valid_record(s),
        storable(key, value),
    ensures
        valid_record(inserted(s, key, value)),
        has_key(inserted(s, key, value), key),
        lookup(inserted(s, key, value), key) == value,
        has_key(s, key) ==> inserted(s, key, value).len() == s.len(),
        !has_key(s, key) ==> inserted(s, key, value).len() == s.len() + 1,
        forall|other: Seq<u8>|
            !same_key(other, key) ==> #[trigger] lookup(inserted(s, key, value), other) == lookup(
                s,
                other,
            ),
{
    let after = inserted(s, key, value);
    if has_key(s, key) {
        let i = position(s, key);
        assert(fold_key(s[i].key).len() == fold_key(key).len());
        lemma_position_unique(after, key, i);
    } else {
        let n = s.len() as int;
        lemma_position_unique(after, key, n);
    }
    assert forall|other: Seq<u8>| !same_key(other, key) implies #[trigger] lookup(after, other)
        == lookup(s, other) by {
        if has_key(s, other) {
            let p = position(s, other);
            lemma_position_unique(after, other, p);
        }
    }
}

/// Taking a key out keeps a valid record valid. The key is then absent, every
/// other key has the value that it had, and the record has shrunk by one
/// attribute if the key was there and not at all if it was absent.
pub proof fn lemma_removed_valid(s: Seq<Attribute>, key: Seq<u8>)
    requires
        valid_record(s),
    ensures
        valid_record(removed(s, key)),
        !has_key(removed(s, key), key),
        lookup(removed(s, key), key) is None,
        has_key(s, key) ==> removed(s, key).len() == s.len() - 1,
        !has_key(s, key) ==> removed(s, key) == s,
        forall|other: Seq<u8>|
            !same_key(other, key) ==> #[trigger] lookup(removed(s, key), other) == lookup(s, other),
{
    let after = removed(s, key);
    if has_key(s, key) {
        let i = position(s, key);
        assert forall|j: int| 0 <= j < after.len() implies !#[trigger] same_key(
            after[j].key,
            key,
        ) by {
            let k = if j < i {
                j
            } else {
                j + 1
            };
            if same_key(after[j].key, key) {
                if k < i {
                    assert(same_key(s[k].key, s[i].key));
                } else {
                    assert(same_key(s[i].key, s[k].key));
                }
            }
        }
        assert forall|other: Seq<u8>| !same_key(other, key) implies #[trigger] lookup(
            after,
            other,
        ) == lookup(s, other) by {
            if has_key(s, other) {
                let p = position(s, other);
                let q = if p < i {
                    p
                } else {
                    p - 1
                };
                lemma_position_unique(after, other, q);
            }
        }
    }
}

/// Inserting under one key twice, in whatever spellings, leaves what the
/// second value inserted under the first spelling would have left: the second
/// value replaces the first, and the record is no longer than after the
/// first insertion.
pub proof fn lemma_insert_twice_replaces(
    s: Seq<Attribute>,
    key: Seq<u8>,
    first: Option<Seq<u8>>,
    again: Seq<u8>,
    second: Option<Seq<u8>>,
)
    requires
        valid_record(s),
        same_key(key, again),
        storable(key, first),
        storable(again, second),
    ensures
        inserted(inserted(s, key, first), again, second) == inserted(s, key, second),
        inserted(inserted(s, key, first), again, second).len() == inserted(s, key, first).len(),
        lookup(inserted(inserted(s, key, first), again, second), key) == second,
        lookup(inserted(inserted(s, key, first), again, second), again) == second,
{
    let once = inserted(s, key, first);
    assert(fold_key(key).len() == fold_key(again).len());
    lemma_inserted_valid(s, key, first);
    lemma_inserted_valid(s, key, second);
    lemma_inserted_valid(once, again, second);
    let i = if has_key(s, key) {
        position(s, key)
    } else {
        s.len() as int
    };
    lemma_position_unique(once, again, i);
    lemma_position_unique(inserted(once, again, second), key, i);
}

/// A valid record has as many attributes as it has keys.
pub proof fn lemma_len_is_number_of_keys(s: Seq<Attribute>)
    requires
        valid_record(s),
    ensures
        s.len() == folded_keys(s).to_set().len(),
{
    let keys = folded_keys(s);
    assert forall|i: int, j: int| 0 <= i < keys.len() && 0 <= j < keys.len() && i != j implies keys[i]
        != keys[j] by {
        if i < j {
            assert(!same_key(s[i].key, s[j].key));
        } else {
            assert(!same_key(s[j].key, s[i].key));
        }
    }
    keys.unique_seq_to_set();
}

/// After any run of calls the record is valid, each of its keys is one that
/// was inserted, and the inserted keys are finitely many.
pub proof fn lemma_after_calls_keys(calls: Seq<Call>)
    ensures
        valid_record(after_calls(calls)),
        inserted_keys(calls).finite(),
        folded_keys(after_calls(calls)).to_set().subset_of(inserted_keys(calls)),
    decreases calls.len(),
{
    if calls.len() > 0 {
        let before = after_calls(calls.drop_last());
        let after = after_calls(calls);
        lemma_after_calls_keys(calls.drop_last());
        match calls.last() {
            Call::Insert { key, value } => {
                if storable(key, value) {
                    lemma_inserted_valid(before, key, value);
                    assert forall|k: Seq<u8>| folded_keys(after).to_set().contains(
                        k,
                    ) implies inserted_keys(calls).contains(k) by {
                        let i = choose|i: int| 0 <= i < after.len() && folded_keys(after)[i] == k;
                        if i < before.len() {
                            assert(folded_keys(before)[i] == k);
                        }
                    }
                }
            },
            Call::Remove { key } => {
                lemma_removed_valid(before, key);
                if has_key(before, key) {
                    let p = position(before, key);
                    assert forall|k: Seq<u8>| folded_keys(after).to_set().contains(
                        k,
                    ) implies inserted_keys(calls).contains(k) by {
                        let i = choose|i: int| 0 <= i < after.len() && folded_keys(after)[i] == k;
                        let j = if i < p {
                            i
                        } else {
                            i + 1
                        };
                        assert(folded_keys(before)[j] == k);
                    }
                }
            },
        }
    }
}

/// Whatever was called on a record since it was new, it holds no more
/// attributes than distinct keys were inserted into it, where spellings that
/// differ in case only count as one key.
pub proof fn lemma_len_at_most_inserted_keys(calls: Seq<Call>)
    ensures
        after_calls(calls).len() <= inserted_keys(calls).len(),
{
    let record = after_calls(calls);
    lemma_after_calls_keys(calls);
    lemma_len_is_number_of_keys(record);
    lemma_len_subset(folded_keys(record).to_set(), inserted_keys(calls));
}

} // verus!
