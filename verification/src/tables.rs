//! Keyed entry lists and the two document entry points.
//!
//! `Mapper` mappings, `Switch` cases and the top-level type tables are
//! mappings with unique string keys. A JSON object may spell a key twice;
//! the accepted behaviour is that the later value silently overwrites the
//! earlier one. `dedup_entries` says exactly that: entries keep the order
//! in which their keys first appear, and each key holds the value of its
//! last occurrence.

use vstd::prelude::*;

use crate::ast::{ErrorKindV, ParseError, ParseErrorV, PathSegmentV, Type, TypeV};
use crate::grammar::{err_at, in_seg, parse_type_spec};
use crate::json::{lookup, str_eq, JsonValue};

verus! {

/// The first position holding `key`, or `-1` when no entry does.
pub open spec fn first_index_of<V>(s: Seq<(Seq<char>, V)>, key: Seq<char>) -> int
    decreases s.len(),
{
    if s.len() == 0 {
        -1
    } else if s[0].0 == key {
        0
    } else {
        let r = first_index_of(s.drop_first(), key);
        if r < 0 {
            -1
        } else {
            r + 1
        }
    }
}

/// What `first_index_of` finds is the first match, and it finds one
/// whenever there is one.
pub proof fn lemma_first_index_of<V>(s: Seq<(Seq<char>, V)>, key: Seq<char>)
    ensures
        first_index_of(s, key) < 0 ==> forall|m: int|
            0 <= m < s.len() ==> s[m].0 != key,
        first_index_of(s, key) >= 0 ==> {
            let fi = first_index_of(s, key);
            &&& 0 <= fi < s.len()
            &&& s[fi].0 == key
            &&& forall|m: int| 0 <= m < fi ==> s[m].0 != key
        },
    decreases s.len(),
{
    if s.len() == 0 {
    } else if s[0].0 == key {
    } else {
        lemma_first_index_of(s.drop_first(), key);
        assert forall|m: int| 1 <= m < s.len() implies s[m] == s.drop_first()[m - 1] by {}
    }
}

/// One overwrite step: replace the value of `key` in place, or append a
/// new entry when `key` is absent.
pub open spec fn upsert<V>(s: Seq<(Seq<char>, V)>, key: Seq<char>, value: V) -> Seq<
    (Seq<char>, V),
> {
    let fi = first_index_of(s, key);
    if fi < 0 {
        s.push((key, value))
    } else {
        s.update(fi, (key, value))
    }
}

/// Duplicate keys resolved over a whole entry list: keys keep the order of
/// their first appearance, each holding the value of its last occurrence.
pub open spec fn dedup_entries<V>(s: Seq<(Seq<char>, V)>) -> Seq<(Seq<char>, V)>
    decreases s.len(),
{
    if s.len() == 0 {
        Seq::empty()
    } else {
        upsert(dedup_entries(s.drop_last()), s.last().0, s.last().1)
    }
}

/// `upsert` keeps keys unique.
pub proof fn lemma_upsert_unique<V>(s: Seq<(Seq<char>, V)>, key: Seq<char>, value: V)
    requires
        forall|i: int, j: int| 0 <= i < j < s.len() ==> s[i].0 != s[j].0,
    ensures
        forall|i: int, j: int|
            0 <= i < j < upsert(s, key, value).len() ==> upsert(s, key, value)[i].0 != upsert(
                s,
                key,
                value,
            )[j].0,
{
    lemma_first_index_of(s, key);
}

/// After duplicate-key resolution every key appears exactly once.
pub proof fn lemma_dedup_unique<V>(s: Seq<(Seq<char>, V)>)
    ensures
        forall|i: int, j: int|
            0 <= i < j < dedup_entries(s).len() ==> dedup_entries(s)[i].0 != dedup_entries(
                s,
            )[j].0,
    decreases s.len(),
{
    if s.len() > 0 {
        lemma_dedup_unique(s.drop_last());
        lemma_upsert_unique(dedup_entries(s.drop_last()), s.last().0, s.last().1);
    }
}

/// The first `i` entries of a type-table object, each value parsed as a
/// type expression, in document order and before duplicate keys resolve.
pub open spec fn parse_table_entries_prefix(
    entries: Seq<(String, JsonValue)>,
    i: int,
) -> Result<Seq<(Seq<char>, TypeV)>, ParseErrorV>
    decreases i,
{
    if i <= 0 {
        Ok(Seq::empty())
    } else {
        match parse_table_entries_prefix(entries, i - 1) {
            Err(e) => Err(e),
            Ok(front) => match parse_type_spec(entries[i - 1].1) {
                Err(e) => Err(in_seg(PathSegmentV::Key(entries[i - 1].0@), e)),
                Ok(t) => Ok(front.push((entries[i - 1].0@, t))),
            },
        }
    }
}

/// A bare type table: an object mapping type names to type expressions.
pub open spec fn parse_table_spec(v: JsonValue) -> Result<Seq<(Seq<char>, TypeV)>, ParseErrorV> {
    match v {
        JsonValue::Object(entries) => match parse_table_entries_prefix(
            entries@,
            entries@.len() as int,
        ) {
            Err(e) => Err(e),
            Ok(pairs) => Ok(dedup_entries(pairs)),
        },
        _ => Err(err_at(ErrorKindV::ShapeMismatch)),
    }
}

/// The views of a keyed entry list: each key as its character sequence,
/// each value as its view.
pub open spec fn entry_views<T: View>(s: Seq<(String, T)>) -> Seq<(Seq<char>, T::V)> {
    s.map(|i: int, p: (String, T)| (p.0@, p.1@))
}

/// `view_mapping` agrees with the generic entry views.
pub proof fn lemma_view_mapping_map(s: Seq<(String, String)>)
    ensures
        crate::ast::view_mapping(s) =~= entry_views(s),
    decreases s.len(),
{
    if s.len() > 0 {
        lemma_view_mapping_map(s.drop_last());
    }
}

/// `view_cases` agrees with the generic entry views.
pub proof fn lemma_view_cases_map(s: Seq<(String, Type)>)
    ensures
        crate::ast::view_cases(s) =~= entry_views(s),
    decreases s.len(),
{
    if s.len() > 0 {
        lemma_view_cases_map(s.drop_last());
    }
}

/// One overwrite step on an entry list being built: replace the value of
/// `key` in place, or append a new entry.
fn upsert_entry<T: View>(out: &mut Vec<(String, T)>, key: String, value: T)
    ensures
        entry_views(final (out)@) == upsert(entry_views(old(out)@), key@, value@),
{
    let mut j: usize = 0;
    while j < out.len()
        invariant
            j <= out@.len(),
            out@ == old(out)@,
            forall|m: int| 0 <= m < j ==> entry_views(out@)[m].0 != key@,
        decreases out@.len() - j,
    {
        if str_eq(out[j].0.as_str(), key.as_str()) {
            proof {
                assert(entry_views(old(out)@)[j as int] == (
                    old(out)@[j as int].0@,
                    old(out)@[j as int].1@,
                ));
                lemma_first_index_of(entry_views(old(out)@), key@);
                assert forall|m: int| 0 <= m < j as int implies entry_views(old(out)@)[m].0 != key@ by {
                    assert(entry_views(old(out)@)[m] == (old(out)@[m].0@, old(out)@[m].1@));
                    assert(entry_views(out@)[m].0 != key@);
                }
                assert(first_index_of(entry_views(old(out)@), key@) == j as int);
            }
            out[j] = (key, value);
            proof {
                assert forall|m: int|
                    0 <= m < entry_views(out@).len() implies entry_views(out@)[m] == entry_views(old(out)@).update(
                    j as int,
                    (key@, value@),
                )[m] by {
                    assert(entry_views(out@)[m] == (out@[m].0@, out@[m].1@));
                    assert(entry_views(old(out)@)[m] == (old(out)@[m].0@, old(out)@[m].1@));
                }
                assert(entry_views(out@) =~= entry_views(old(out)@).update(j as int, (key@, value@)));
            }
            return ;
        }
        j += 1;
    }
    proof {
        lemma_first_index_of(entry_views(old(out)@), key@);
        if first_index_of(entry_views(old(out)@), key@) >= 0 {
            let fi = first_index_of(entry_views(old(out)@), key@);
            assert(entry_views(old(out)@)[fi] == (old(out)@[fi].0@, old(out)@[fi].1@));
            assert(entry_views(out@)[fi].0 == key@);
            assert(false);
        }
    }
    out.push((key, value));
    proof {
        assert forall|m: int|
            0 <= m < entry_views(out@).len() implies entry_views(out@)[m] == entry_views(old(out)@).push(
            (key@, value@),
        )[m] by {
            assert(entry_views(out@)[m] == (out@[m].0@, out@[m].1@));
            if m < entry_views(old(out)@).len() {
                assert(entry_views(old(out)@)[m] == (old(out)@[m].0@, old(out)@[m].1@));
            }
        }
        assert(entry_views(out@) =~= entry_views(old(out)@).push((key@, value@)));
    }
}

/// Duplicate-key resolution over a whole entry list, exactly as
/// `dedup_entries` says.
pub fn dedup_pairs<T: View>(pairs: Vec<(String, T)>) -> (r: Vec<(String, T)>)
    ensures
        entry_views(r@) == dedup_entries(entry_views(pairs@)),
{
    let ghost orig = pairs@;
    let mut rest = pairs;
    let mut out: Vec<(String, T)> = Vec::new();
    proof {
        assert(entry_views(out@) =~= Seq::<(Seq<char>, T::V)>::empty());
        assert(orig.take(0) =~= Seq::<(String, T)>::empty());
        assert(entry_views(orig.take(0)) =~= Seq::<(Seq<char>, T::V)>::empty());
    }
    while rest.len() > 0
        invariant
            rest@.len() <= orig.len(),
            orig =~= orig.take(orig.len() - rest@.len()) + rest@,
            entry_views(out@) == dedup_entries(
                entry_views(orig.take(orig.len() - rest@.len())),
            ),
        decreases rest@.len(),
    {
        let ghost n = orig.len() - rest@.len();
        let p = rest.remove(0);
        upsert_entry(&mut out, p.0, p.1);
        proof {
            assert(orig[n] == p);
            assert(orig.take(n + 1) =~= orig.take(n).push(p));
            assert(entry_views(orig.take(n + 1)) =~= entry_views(orig.take(n)).push(
                (p.0@, p.1@),
            ));
            assert(entry_views(orig.take(n + 1)).drop_last() =~= entry_views(orig.take(n)));
            assert(orig =~= orig.take(n + 1) + rest@);
        }
    }
    proof {
        assert(orig.take(orig.len() as int) =~= orig);
    }
    out
}

/// A protocol document: an object whose `types` member is a type table.
/// Other members are ignored; a document without `types`, or that is no
/// object, does not match the expected document shape.
pub open spec fn parse_protocol_spec(v: JsonValue) -> Result<
    Seq<(Seq<char>, TypeV)>,
    ParseErrorV,
> {
    match v {
        JsonValue::Object(entries) => match lookup(entries@, "types"@) {
            None => Err(err_at(ErrorKindV::ShapeMismatch)),
            Some(tv) => match parse_table_spec(tv) {
                Err(e) => Err(in_seg(PathSegmentV::Key("types"@), e)),
                Ok(table) => Ok(table),
            },
        },
        _ => Err(err_at(ErrorKindV::ShapeMismatch)),
    }
}

} // verus!

verus! {

/// An error found at one entry settles the parse of every longer prefix
/// of a type-table object.
proof fn lemma_table_prefix_err(entries: Seq<(String, JsonValue)>, j: int, m: int)
    requires
        0 <= j <= m,
        parse_table_entries_prefix(entries, j) is Err,
    ensures
        parse_table_entries_prefix(entries, m) == parse_table_entries_prefix(entries, j),
    decreases m - j,
{
    if m > j {
        lemma_table_prefix_err(entries, j, m - 1);
    }
}

/// A bare type table: an object mapping type names to type expressions,
/// in document order, later entries silently overwriting earlier ones of
/// the same name. In the result every name appears exactly once.
pub fn parse_types_table(v: &JsonValue) -> (r: Result<Vec<(String, Type)>, ParseError>)
    ensures
        match r {
            Ok(t) => parse_table_spec(*v) == Ok::<_, ParseErrorV>(entry_views(t@)),
            Err(e) => parse_table_spec(*v) == Err::<Seq<(Seq<char>, TypeV)>, _>(e@),
        },
        r matches Ok(t) ==> forall|i: int, j: int|
            0 <= i < j < t@.len() ==> t@[i].0@ != t@[j].0@,
{
    match v {
        JsonValue::Object(entries) => {
            let mut out: Vec<(String, Type)> = Vec::new();
            let mut k: usize = 0;
            proof {
                assert(entry_views(out@) =~= Seq::<(Seq<char>, TypeV)>::empty());
            }
            while k < entries.len()
                invariant
                    k <= entries@.len(),
                    *v == JsonValue::Object(*entries),
                    parse_table_entries_prefix(entries@, k as int) == Ok::<_, ParseErrorV>(
                        entry_views(out@),
                    ),
                decreases entries@.len() - k,
            {
                let ghost prev = out@;
                match crate::parser::parse_type(&entries[k].1) {
                    Err(e) => {
                        proof {
                            lemma_table_prefix_err(entries@, k + 1, entries@.len() as int);
                        }
                        return Err(
                            crate::parser::with_key(entries[k].0.as_str(), e),
                        );
                    },
                    Ok(t) => {
                        out.push((entries[k].0.clone(), t));
                        proof {
                            assert(entry_views(out@) =~= entry_views(prev).push(
                                (entries@[k as int].0@, t@),
                            ));
                        }
                    },
                }
                k += 1;
            }
            let ghost pairs_v = entry_views(out@);
            let table = dedup_pairs(out);
            proof {
                lemma_dedup_unique(pairs_v);
                assert forall|i: int, j: int|
                    0 <= i < j < table@.len() implies table@[i].0@ != table@[j].0@ by {
                    assert(entry_views(table@)[i] == (table@[i].0@, table@[i].1@));
                    assert(entry_views(table@)[j] == (table@[j].0@, table@[j].1@));
                }
            }
            Ok(table)
        },
        _ => Err(crate::parser::err_here(crate::ast::ErrorKind::ShapeMismatch)),
    }
}

/// A protocol document: an object whose `types` member holds the type
/// table. Other members are ignored.
pub fn parse_protocol(v: &JsonValue) -> (r: Result<Vec<(String, Type)>, ParseError>)
    ensures
        match r {
            Ok(t) => parse_protocol_spec(*v) == Ok::<_, ParseErrorV>(entry_views(t@)),
            Err(e) => parse_protocol_spec(*v) == Err::<Seq<(Seq<char>, TypeV)>, _>(e@),
        },
        r matches Ok(t) ==> forall|i: int, j: int|
            0 <= i < j < t@.len() ==> t@[i].0@ != t@[j].0@,
{
    match v {
        JsonValue::Object(entries) => match crate::json::obj_get(entries, "types") {
            None => Err(crate::parser::err_here(crate::ast::ErrorKind::ShapeMismatch)),
            Some(tv) => match parse_types_table(tv) {
                Ok(t) => Ok(t),
                Err(e) => Err(crate::parser::with_key("types", e)),
            },
        },
        _ => Err(crate::parser::err_here(crate::ast::ErrorKind::ShapeMismatch)),
    }
}

} // verus!

verus! {

/// The value a key resolves to in an entry list: the last entry with that
/// key wins, as in a JSON object whose later duplicate keys overwrite
/// earlier ones.
pub open spec fn entry_lookup<V>(s: Seq<(Seq<char>, V)>, key: Seq<char>) -> Option<V>
    decreases s.len(),
{
    if s.len() == 0 {
        None
    } else if s.last().0 == key {
        Some(s.last().1)
    } else {
        entry_lookup(s.drop_last(), key)
    }
}

/// On a list with unique keys, one overwrite step changes the value of
/// exactly its own key and leaves every other key's value alone.
pub proof fn lemma_upsert_lookup<V>(s: Seq<(Seq<char>, V)>, k: Seq<char>, v: V, q: Seq<char>)
    requires
        forall|i: int, j: int| 0 <= i < j < s.len() ==> s[i].0 != s[j].0,
    ensures
        q == k ==> entry_lookup(upsert(s, k, v), q) == Some(v),
        q != k ==> entry_lookup(upsert(s, k, v), q) == entry_lookup(s, q),
    decreases s.len(),
{
    lemma_first_index_of(s, k);
    let fi = first_index_of(s, k);
    if fi < 0 {
        let u = s.push((k, v));
        if q != k {
            assert(u.drop_last() =~= s);
        }
    } else {
        let u = s.update(fi, (k, v));
        if fi == s.len() - 1 {
            assert(u.drop_last() =~= s.drop_last());
        } else {
            let s1 = s.drop_last();
            assert(u.last() == s.last());
            assert(u.drop_last() =~= s1.update(fi, (k, v)));
            lemma_first_index_of(s1, k);
            assert(s1[fi] == s[fi]);
            assert(first_index_of(s1, k) == fi);
            lemma_upsert_lookup(s1, k, v, q);
            assert(upsert(s1, k, v) == s1.update(fi, (k, v)));
            if s.last().0 == q {
                assert(entry_lookup(u, q) == Some(s.last().1));
            } else {
                assert(entry_lookup(u, q) == entry_lookup(u.drop_last(), q));
            }
        }
    }
}

/// Duplicate-key resolution keeps exactly the documented meaning: after
/// it, every key resolves to the value of its last occurrence in the
/// original entry list.
pub proof fn lemma_dedup_last_wins<V>(s: Seq<(Seq<char>, V)>, key: Seq<char>)
    ensures
        entry_lookup(dedup_entries(s), key) == entry_lookup(s, key),
    decreases s.len(),
{
    if s.len() > 0 {
        lemma_dedup_last_wins(s.drop_last(), key);
        lemma_dedup_unique(s.drop_last());
        lemma_upsert_lookup(dedup_entries(s.drop_last()), s.last().0, s.last().1, key);
    }
}

} // verus!
