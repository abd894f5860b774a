//! The generic JSON document model that the schema parser walks.
//!
//! A schema document arrives as one already-parsed JSON value; the caller
//! (whatever read and decoded the document text) converts it into this
//! tree of plain values. Object entries keep document order and may hold
//! duplicate keys; lookups resolve a key to its *last* occurrence, the
//! accepted behaviour for duplicate keys in JSON objects.

use vstd::prelude::*;

verus! {

/// One JSON value, as handed to the schema parser.
#[derive(Debug, PartialEq, Eq)]
pub enum JsonValue {
    Null,
    Bool(bool),
    /// A JSON number that is a non-negative integer representable in a `u64`.
    Uint(u64),
    /// Any other JSON number: negative, fractional, or out of `u64` range.
    /// The schema grammar accepts no such number anywhere.
    OtherNumber,
    Text(String),
    Array(Vec<JsonValue>),
    /// Object entries in document order; keys may repeat.
    Object(Vec<(String, JsonValue)>),
}

/// The value of `key` in an object's entry list: the last entry with that
/// key wins, as when duplicate JSON object keys silently overwrite.
pub open spec fn lookup(entries: Seq<(String, JsonValue)>, key: Seq<char>) -> Option<JsonValue>
    decreases entries.len(),
{
    if entries.len() == 0 {
        None
    } else if entries.last().0@ == key {
        Some(entries.last().1)
    } else {
        lookup(entries.drop_last(), key)
    }
}

/// Whatever `lookup` finds is one of the entries' values.
pub proof fn lemma_lookup_is_entry(entries: Seq<(String, JsonValue)>, key: Seq<char>)
    requires
        lookup(entries, key) is Some,
    ensures
        exists|i: int|
            0 <= i < entries.len() && entries[i].1 == lookup(entries, key)->Some_0
                && entries[i].0@ == key,
    decreases entries.len(),
{
    if entries.len() == 0 {
    } else if entries.last().0@ == key {
        assert(entries[entries.len() - 1].1 == lookup(entries, key)->Some_0);
    } else {
        lemma_lookup_is_entry(entries.drop_last(), key);
        let j = choose|j: int|
            0 <= j < entries.drop_last().len() && entries.drop_last()[j].1 == lookup(
                entries.drop_last(),
                key,
            )->Some_0 && entries.drop_last()[j].0@ == key;
        assert(entries[j].1 == lookup(entries, key)->Some_0);
    }
}

/// A value found by `lookup` sits strictly inside the entry list, so a
/// recursive descent may step from the list to the value.
pub proof fn lemma_lookup_decreases_to(entries: Seq<(String, JsonValue)>, key: Seq<char>)
    requires
        lookup(entries, key) is Some,
    ensures
        decreases_to!(entries => lookup(entries, key)->Some_0),
{
    lemma_lookup_is_entry(entries, key);
    let i = choose|i: int|
        0 <= i < entries.len() && entries[i].1 == lookup(entries, key)->Some_0 && entries[i].0@
            == key;
    assert(decreases_to!(entries => entries[i]));
    assert(decreases_to!(entries[i] => entries[i].1));
}

/// Equality of two string slices, decided by their character sequences.
pub fn str_eq(a: &str, b: &str) -> (r: bool)
    ensures
        r == (a@ == b@),
{
    let a_owned: String = a.to_owned();
    let b_owned: String = b.to_owned();
    a_owned == b_owned
}

/// Finds `key` in an object's entry list, resolving duplicates to the last
/// occurrence, exactly as `lookup` does.
pub fn obj_get<'a>(entries: &'a Vec<(String, JsonValue)>, key: &str) -> (r: Option<
    &'a JsonValue,
>)
    ensures
        match r {
            Some(v) => lookup(entries@, key@) == Some(*v),
            None => lookup(entries@, key@) is None,
        },
{
    let mut i: usize = entries.len();
    proof {
        assert(entries@.take(i as int) =~= entries@);
    }
    while i > 0
        invariant
            i <= entries@.len(),
            lookup(entries@, key@) == lookup(entries@.take(i as int), key@),
        decreases i,
    {
        i = i - 1;
        if str_eq(entries[i].0.as_str(), key) {
            proof {
                assert(entries@.take(i + 1).last() == entries@[i as int]);
                assert(lookup(entries@.take(i + 1), key@) == Some(entries@[i as int].1));
            }
            return Some(&entries[i].1);
        }
        proof {
            assert(entries@.take(i + 1).last() == entries@[i as int]);
            assert(entries@.take(i + 1).drop_last() =~= entries@.take(i as int));
        }
    }
    proof {
        assert(entries@.take(0) =~= Seq::<(String, JsonValue)>::empty());
    }
    None
}

} // verus!
