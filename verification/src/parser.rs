//! The executable polymorphic type parser.
//!
//! Every function here returns exactly what the corresponding grammar
//! function says, stated through the views of its result: parsing is a
//! pure function of the input value, so equal documents always yield
//! structurally equal trees or equal errors.

use vstd::prelude::*;

use crate::ast::{BitFieldEntry, ContainerField, Count, ErrorKind, ParseError, ParseErrorV,
    PathSegment, PathSegmentV, Type, TypeV, CountV, ContainerFieldV, BitFieldEntryV,
    view_bitfield_entries, view_container_fields};
use crate::grammar::{err_at, in_arg, in_seg, opt_text_member, opt_type_member,
    parse_bitfield_entries_prefix, parse_bitfield_entry_spec, parse_call_spec,
    parse_container_field_spec, parse_container_fields_prefix, parse_count_member,
    parse_count_spec, parse_field_type_member, parse_mapping_entries_prefix, parse_switch_cases_prefix, parse_type_member,
    parse_type_spec, req_text_member, req_u32_member};
use crate::json::{lookup, lemma_lookup_decreases_to, obj_get, str_eq, JsonValue};
use crate::tables::{dedup_pairs, entry_views, lemma_view_cases_map, lemma_view_mapping_map};

verus! {

/// The view of a parse result, Ok and Err sides alike.
pub open spec fn type_result_view(r: Result<Type, ParseError>) -> Result<TypeV, ParseErrorV> {
    match r {
        Ok(t) => Ok(t@),
        Err(e) => Err(e@),
    }
}

pub open spec fn count_result_view(r: Result<Count, ParseError>) -> Result<CountV, ParseErrorV> {
    match r {
        Ok(c) => Ok(c@),
        Err(e) => Err(e@),
    }
}

pub open spec fn cfield_result_view(r: Result<ContainerField, ParseError>) -> Result<
    ContainerFieldV,
    ParseErrorV,
> {
    match r {
        Ok(f) => Ok(f@),
        Err(e) => Err(e@),
    }
}

/// An error at the value currently being parsed: an empty path.
pub(crate) fn err_here(kind: ErrorKind) -> (e: ParseError)
    ensures
        e@ == err_at(kind@),
{
    let e = ParseError { kind, path: Vec::new() };
    proof {
        assert(e@.path =~= Seq::<PathSegmentV>::empty());
    }
    e
}

/// The same error, seen from one level further out.
fn with_seg(seg: PathSegment, e: ParseError) -> (r: ParseError)
    ensures
        r@ == in_seg(seg@, e@),
{
    let mut path = e.path;
    path.insert(0, seg);
    let r = ParseError { kind: e.kind, path };
    proof {
        assert(r@.path =~= in_seg(seg@, e@).path);
    }
    r
}

/// The same error, seen from inside the argument payload at index 1.
fn with_arg(e: ParseError) -> (r: ParseError)
    ensures
        r@ == in_arg(e@),
{
    with_seg(PathSegment::Index(1), e)
}

/// The same error, seen from under the object key `k`.
pub(crate) fn with_key(k: &str, e: ParseError) -> (r: ParseError)
    ensures
        r@ == in_seg(PathSegmentV::Key(k@), e@),
{
    with_seg(PathSegment::Key(k.to_owned()), e)
}

/// The same error, seen from under the array index `i`.
fn with_index(i: usize, e: ParseError) -> (r: ParseError)
    ensures
        r@ == in_seg(PathSegmentV::Index(i as int), e@),
{
    with_seg(PathSegment::Index(i), e)
}

/// A required string-valued member, spellings `k1` then `k2`.
fn req_text_member_x(
    entries: &Vec<(String, JsonValue)>,
    k1: &str,
    k2: &str,
    fname: &String,
) -> (r: Result<String, ParseError>)
    ensures
        match r {
            Ok(s) => req_text_member(entries@, k1@, k2@, fname@) == Ok::<_, ParseErrorV>(s@),
            Err(e) => req_text_member(entries@, k1@, k2@, fname@) == Err::<Seq<char>, _>(e@),
        },
{
    let (found, key): (Option<&JsonValue>, &str) = match obj_get(entries, k1) {
        Some(v) => (Some(v), k1),
        None => (obj_get(entries, k2), k2),
    };
    match found {
        None => Err(err_here(ErrorKind::MissingOrMalformedArgument(fname.clone()))),
        Some(v) => match v {
            JsonValue::Text(s) => Ok(s.clone()),
            _ => Err(
                with_key(key, err_here(ErrorKind::MissingOrMalformedArgument(fname.clone()))),
            ),
        },
    }
}

/// An optional string-valued member under the key `k`.
fn opt_text_member_x(entries: &Vec<(String, JsonValue)>, k: &str, fname: &String) -> (r: Result<
    Option<String>,
    ParseError,
>)
    ensures
        match r {
            Ok(None) => opt_text_member(entries@, k@, fname@) == Ok::<_, ParseErrorV>(
                None::<Seq<char>>,
            ),
            Ok(Some(s)) => opt_text_member(entries@, k@, fname@) == Ok::<_, ParseErrorV>(
                Some(s@),
            ),
            Err(e) => opt_text_member(entries@, k@, fname@) == Err::<Option<Seq<char>>, _>(e@),
        },
{
    match obj_get(entries, k) {
        None => Ok(None),
        Some(v) => match v {
            JsonValue::Text(s) => Ok(Some(s.clone())),
            _ => Err(
                with_key(k, err_here(ErrorKind::MissingOrMalformedArgument(fname.clone()))),
            ),
        },
    }
}

/// A required unsigned-integer member, spellings `k1` then `k2`.
fn req_u32_member_x(
    entries: &Vec<(String, JsonValue)>,
    k1: &str,
    k2: &str,
    fname: &String,
) -> (r: Result<u32, ParseError>)
    ensures
        match r {
            Ok(n) => req_u32_member(entries@, k1@, k2@, fname@) == Ok::<_, ParseErrorV>(n),
            Err(e) => req_u32_member(entries@, k1@, k2@, fname@) == Err::<u32, _>(e@),
        },
{
    let (found, key): (Option<&JsonValue>, &str) = match obj_get(entries, k1) {
        Some(v) => (Some(v), k1),
        None => (obj_get(entries, k2), k2),
    };
    match found {
        None => Err(err_here(ErrorKind::MissingOrMalformedArgument(fname.clone()))),
        Some(v) => match v {
            JsonValue::Uint(n) => if *n <= u32::MAX as u64 {
                Ok(*n as u32)
            } else {
                Err(
                    with_key(key, err_here(ErrorKind::MissingOrMalformedArgument(fname.clone()))),
                )
            },
            _ => Err(
                with_key(key, err_here(ErrorKind::MissingOrMalformedArgument(fname.clone()))),
            ),
        },
    }
}

/// One `bitfield` entry object.
fn parse_bitfield_entry_x(o: &JsonValue) -> (r: Result<BitFieldEntry, ParseError>)
    ensures
        match r {
            Ok(f) => parse_bitfield_entry_spec(*o) == Ok::<_, ParseErrorV>(
                crate::ast::view_bitfield_entry(f),
            ),
            Err(e) => parse_bitfield_entry_spec(*o) == Err::<BitFieldEntryV, _>(e@),
        },
{
    match o {
        JsonValue::Object(entries) => {
            let name = match obj_get(entries, "name") {
                Some(JsonValue::Text(n)) => n.clone(),
                _ => {
                    return Err(err_here(ErrorKind::MalformedSubField));
                },
            };
            let size = match obj_get(entries, "size") {
                Some(JsonValue::Uint(n)) => {
                    if *n <= u32::MAX as u64 {
                        *n as u32
                    } else {
                        return Err(err_here(ErrorKind::MalformedSubField));
                    }
                },
                _ => {
                    return Err(err_here(ErrorKind::MalformedSubField));
                },
            };
            let signed = match obj_get(entries, "signed") {
                Some(JsonValue::Bool(b)) => *b,
                _ => {
                    return Err(err_here(ErrorKind::MalformedSubField));
                },
            };
            Ok(BitFieldEntry { name, size, signed })
        },
        _ => Err(err_here(ErrorKind::MalformedSubField)),
    }
}

/// An error found at one list position settles the parse of every longer
/// prefix of a `bitfield` argument array.
proof fn lemma_bitfield_prefix_err(items: Seq<JsonValue>, j: int, m: int)
    requires
        0 <= j <= m,
        parse_bitfield_entries_prefix(items, j) is Err,
    ensures
        parse_bitfield_entries_prefix(items, m) == parse_bitfield_entries_prefix(items, j),
    decreases m - j,
{
    if m > j {
        lemma_bitfield_prefix_err(items, j, m - 1);
    }
}

/// The whole `bitfield` argument array, in order.
fn parse_bitfield_entries_x(items: &Vec<JsonValue>) -> (r: Result<Vec<BitFieldEntry>, ParseError>)
    ensures
        match r {
            Ok(fs) => parse_bitfield_entries_prefix(items@, items@.len() as int) == Ok::<
                _,
                ParseErrorV,
            >(view_bitfield_entries(fs@)),
            Err(e) => parse_bitfield_entries_prefix(items@, items@.len() as int) == Err::<
                Seq<BitFieldEntryV>,
                _,
            >(e@),
        },
{
    let mut out: Vec<BitFieldEntry> = Vec::new();
    let mut k: usize = 0;
    proof {
        assert(view_bitfield_entries(out@) =~= Seq::<BitFieldEntryV>::empty());
    }
    while k < items.len()
        invariant
            k <= items@.len(),
            parse_bitfield_entries_prefix(items@, k as int) == Ok::<_, ParseErrorV>(
                view_bitfield_entries(out@),
            ),
        decreases items@.len() - k,
    {
        let ghost prev = out@;
        match parse_bitfield_entry_x(&items[k]) {
            Err(e) => {
                proof {
                    lemma_bitfield_prefix_err(items@, k + 1, items@.len() as int);
                }
                return Err(with_index(k, e));
            },
            Ok(f) => {
                out.push(f);
                proof {
                    assert(out@.drop_last() =~= prev);
                }
            },
        }
        k += 1;
    }
    Ok(out)
}

/// An error found at one entry settles the parse of every longer prefix
/// of a `mapper` mapping object.
proof fn lemma_mapping_prefix_err(entries: Seq<(String, JsonValue)>, j: int, m: int)
    requires
        0 <= j <= m,
        parse_mapping_entries_prefix(entries, j) is Err,
    ensures
        parse_mapping_entries_prefix(entries, m) == parse_mapping_entries_prefix(entries, j),
    decreases m - j,
{
    if m > j {
        lemma_mapping_prefix_err(entries, j, m - 1);
    }
}

/// The whole mapping object of a `mapper`, in document order, duplicate
/// keys not yet resolved.
fn parse_mapping_entries_x(entries: &Vec<(String, JsonValue)>) -> (r: Result<
    Vec<(String, String)>,
    ParseError,
>)
    ensures
        match r {
            Ok(ps) => parse_mapping_entries_prefix(entries@, entries@.len() as int) == Ok::<
                _,
                ParseErrorV,
            >(entry_views(ps@)),
            Err(e) => parse_mapping_entries_prefix(entries@, entries@.len() as int) == Err::<
                Seq<(Seq<char>, Seq<char>)>,
                _,
            >(e@),
        },
{
    let mut out: Vec<(String, String)> = Vec::new();
    let mut k: usize = 0;
    proof {
        assert(entry_views(out@) =~= Seq::<(Seq<char>, Seq<char>)>::empty());
    }
    while k < entries.len()
        invariant
            k <= entries@.len(),
            parse_mapping_entries_prefix(entries@, k as int) == Ok::<_, ParseErrorV>(
                entry_views(out@),
            ),
        decreases entries@.len() - k,
    {
        let ghost prev = out@;
        match &entries[k].1 {
            JsonValue::Text(s) => {
                out.push((entries[k].0.clone(), s.clone()));
                proof {
                    assert(entry_views(out@) =~= entry_views(prev).push(
                        (entries@[k as int].0@, entries@[k as int].1->Text_0@),
                    ));
                }
            },
            _ => {
                proof {
                    lemma_mapping_prefix_err(entries@, k + 1, entries@.len() as int);
                }
                return Err(
                    with_key(
                        entries[k].0.as_str(),
                        err_here(ErrorKind::MalformedSubField),
                    ),
                );
            },
        }
        k += 1;
    }
    Ok(out)
}

} // verus!

verus! {

/// An error found at one field object settles the parse of every longer
/// prefix of a `container` argument array.
proof fn lemma_container_prefix_err(items: Seq<JsonValue>, j: int, m: int)
    requires
        0 <= j <= m <= items.len(),
        parse_container_fields_prefix(items, j) is Err,
    ensures
        parse_container_fields_prefix(items, m) == parse_container_fields_prefix(items, j),
    decreases m - j,
{
    if m > j {
        lemma_container_prefix_err(items, j, m - 1);
    }
}

/// An error found at one case settles the parse of every longer prefix of
/// a `switch` case object.
proof fn lemma_switch_cases_prefix_err(entries: Seq<(String, JsonValue)>, j: int, m: int)
    requires
        0 <= j <= m <= entries.len(),
        parse_switch_cases_prefix(entries, j) is Err,
    ensures
        parse_switch_cases_prefix(entries, m) == parse_switch_cases_prefix(entries, j),
    decreases m - j,
{
    if m > j {
        lemma_switch_cases_prefix_err(entries, j, m - 1);
    }
}

/// A type expression in a type position: a string names another type, a
/// 2-element `[function, argument]` array applies a type function, and any
/// other shape is rejected where it stands, with the path to it.
pub fn parse_type(v: &JsonValue) -> (r: Result<Type, ParseError>)
    ensures
        type_result_view(r) == parse_type_spec(*v),
    decreases *v, 0int, 1int,
{
    match v {
        JsonValue::Text(s) => Ok(Type::TypeReference(s.clone())),
        JsonValue::Array(items) => {
            if items.len() != 2 {
                Err(err_here(ErrorKind::ShapeMismatch))
            } else {
                match &items[0] {
                    JsonValue::Text(name) => {
                        proof {
                            assert(decreases_to!(*v => *items));
                            assert(decreases_to!(*items => items@));
                            assert(decreases_to!(items@ => items@[1]));
                        }
                        parse_call(name, &items[1])
                    },
                    _ => Err(err_here(ErrorKind::MissingFunctionName)),
                }
            }
        },
        _ => Err(err_here(ErrorKind::ShapeMismatch)),
    }
}

/// A count position: a bare non-negative integer is a literal count; any
/// other value must be a type expression yielding the count at decode time.
pub fn parse_count(v: &JsonValue) -> (r: Result<Count, ParseError>)
    ensures
        count_result_view(r) == parse_count_spec(*v),
    decreases *v, 0int, 2int,
{
    match v {
        JsonValue::Uint(n) => {
            if *n <= u32::MAX as u64 {
                Ok(Count::Literal(*n as u32))
            } else {
                Err(err_here(ErrorKind::ShapeMismatch))
            }
        },
        _ => match parse_type(v) {
            Ok(t) => Ok(Count::Dynamic(Box::new(t))),
            Err(e) => Err(e),
        },
    }
}

/// The count member of an argument record, spelled `count` or `countType`.
fn parse_count_member_x(entries: &Vec<(String, JsonValue)>, fname: &String) -> (r: Result<
    Count,
    ParseError,
>)
    ensures
        count_result_view(r) == parse_count_member(entries@, fname@),
    decreases entries@, 0int, 2int,
{
    let (found, key): (Option<&JsonValue>, &str) = match obj_get(entries, "count") {
        Some(cv) => (Some(cv), "count"),
        None => (obj_get(entries, "countType"), "countType"),
    };
    match found {
        None => Err(err_here(ErrorKind::MissingOrMalformedArgument(fname.clone()))),
        Some(cv) => {
            proof {
                if lookup(entries@, "count"@) is Some {
                    lemma_lookup_decreases_to(entries@, "count"@);
                } else {
                    lemma_lookup_decreases_to(entries@, "countType"@);
                }
            }
            match parse_count(cv) {
                Ok(c) => Ok(c),
                Err(e) => Err(with_key(key, e)),
            }
        },
    }
}

/// A required type-valued member, spellings `k1` then `k2`.
fn parse_type_member_x(
    entries: &Vec<(String, JsonValue)>,
    k1: &str,
    k2: &str,
    fname: &String,
) -> (r: Result<Type, ParseError>)
    ensures
        type_result_view(r) == parse_type_member(entries@, k1@, k2@, fname@),
    decreases entries@, 0int, 2int,
{
    let (found, key): (Option<&JsonValue>, &str) = match obj_get(entries, k1) {
        Some(tv) => (Some(tv), k1),
        None => (obj_get(entries, k2), k2),
    };
    match found {
        None => Err(err_here(ErrorKind::MissingOrMalformedArgument(fname.clone()))),
        Some(tv) => {
            proof {
                if lookup(entries@, k1@) is Some {
                    lemma_lookup_decreases_to(entries@, k1@);
                } else {
                    lemma_lookup_decreases_to(entries@, k2@);
                }
            }
            match parse_type(tv) {
                Ok(t) => Ok(t),
                Err(e) => Err(with_key(key, e)),
            }
        },
    }
}

/// An optional type-valued member under the key `k`.
fn opt_type_member_x(entries: &Vec<(String, JsonValue)>, k: &str) -> (r: Result<
    Option<Type>,
    ParseError,
>)
    ensures
        match r {
            Ok(None) => opt_type_member(entries@, k@) == Ok::<_, ParseErrorV>(None::<TypeV>),
            Ok(Some(t)) => opt_type_member(entries@, k@) == Ok::<_, ParseErrorV>(Some(t@)),
            Err(e) => opt_type_member(entries@, k@) == Err::<Option<TypeV>, _>(e@),
        },
    decreases entries@, 0int, 2int,
{
    match obj_get(entries, k) {
        None => Ok(None),
        Some(tv) => {
            proof {
                lemma_lookup_decreases_to(entries@, k@);
            }
            match parse_type(tv) {
                Ok(t) => Ok(Some(t)),
                Err(e) => Err(with_key(k, e)),
            }
        },
    }
}

/// The type member of a container field object, spelled `type` or
/// `field_type`.
fn parse_field_type_member_x(entries: &Vec<(String, JsonValue)>) -> (r: Result<Type, ParseError>)
    ensures
        type_result_view(r) == parse_field_type_member(entries@),
    decreases entries@, 0int, 2int,
{
    let (found, key): (Option<&JsonValue>, &str) = match obj_get(entries, "type") {
        Some(tv) => (Some(tv), "type"),
        None => (obj_get(entries, "field_type"), "field_type"),
    };
    match found {
        None => Err(err_here(ErrorKind::MalformedSubField)),
        Some(tv) => {
            proof {
                if lookup(entries@, "type"@) is Some {
                    lemma_lookup_decreases_to(entries@, "type"@);
                } else {
                    lemma_lookup_decreases_to(entries@, "field_type"@);
                }
            }
            match parse_type(tv) {
                Ok(t) => Ok(t),
                Err(e) => Err(with_key(key, e)),
            }
        },
    }
}

/// One `container` field object: named, or anonymous with `anon: true`.
fn parse_container_field_x(o: &JsonValue) -> (r: Result<ContainerField, ParseError>)
    ensures
        cfield_result_view(r) == parse_container_field_spec(*o),
    decreases *o, 0int, 3int,
{
    match o {
        JsonValue::Object(entries) => {
            proof {
                assert(decreases_to!(*o => *entries));
                assert(decreases_to!(*entries => entries@));
            }
            match obj_get(entries, "name") {
                Some(nv) => match nv {
                    JsonValue::Text(n) => match parse_field_type_member_x(entries) {
                        Ok(t) => Ok(ContainerField::Named { name: n.clone(), field_type: t }),
                        Err(e) => Err(e),
                    },
                    _ => Err(err_here(ErrorKind::MalformedSubField)),
                },
                None => match obj_get(entries, "anon") {
                    Some(av) => match av {
                        JsonValue::Bool(b) => {
                            if *b {
                                match parse_field_type_member_x(entries) {
                                    Ok(t) => Ok(ContainerField::Anon { field_type: t }),
                                    Err(e) => Err(e),
                                }
                            } else {
                                Err(err_here(ErrorKind::MalformedSubField))
                            }
                        },
                        _ => Err(err_here(ErrorKind::MalformedSubField)),
                    },
                    None => Err(err_here(ErrorKind::MalformedSubField)),
                },
            }
        },
        _ => Err(err_here(ErrorKind::MalformedSubField)),
    }
}

/// The whole `container` argument array, in order.
fn parse_container_fields_x(items: &Vec<JsonValue>) -> (r: Result<Vec<ContainerField>, ParseError>)
    ensures
        match r {
            Ok(fs) => parse_container_fields_prefix(items@, items@.len() as int) == Ok::<
                _,
                ParseErrorV,
            >(view_container_fields(fs@)),
            Err(e) => parse_container_fields_prefix(items@, items@.len() as int) == Err::<
                Seq<ContainerFieldV>,
                _,
            >(e@),
        },
    decreases items@, 0int, 4int,
{
    let mut out: Vec<ContainerField> = Vec::new();
    let mut k: usize = 0;
    proof {
        assert(view_container_fields(out@) =~= Seq::<ContainerFieldV>::empty());
    }
    while k < items.len()
        invariant
            k <= items@.len(),
            parse_container_fields_prefix(items@, k as int) == Ok::<_, ParseErrorV>(
                view_container_fields(out@),
            ),
        decreases items@.len() - k,
    {
        let ghost prev = out@;
        proof {
            assert(decreases_to!(items@ => items@[k as int]));
        }
        match parse_container_field_x(&items[k]) {
            Err(e) => {
                proof {
                    lemma_container_prefix_err(items@, k + 1, items@.len() as int);
                }
                return Err(with_index(k, e));
            },
            Ok(f) => {
                out.push(f);
                proof {
                    assert(out@.drop_last() =~= prev);
                }
            },
        }
        k += 1;
    }
    Ok(out)
}

/// The whole case object of a `switch`, in document order, duplicate keys
/// not yet resolved.
fn parse_switch_cases_x(entries: &Vec<(String, JsonValue)>) -> (r: Result<
    Vec<(String, Type)>,
    ParseError,
>)
    ensures
        match r {
            Ok(ps) => parse_switch_cases_prefix(entries@, entries@.len() as int) == Ok::<
                _,
                ParseErrorV,
            >(entry_views(ps@)),
            Err(e) => parse_switch_cases_prefix(entries@, entries@.len() as int) == Err::<
                Seq<(Seq<char>, TypeV)>,
                _,
            >(e@),
        },
    decreases entries@, 0int, 4int,
{
    let mut out: Vec<(String, Type)> = Vec::new();
    let mut k: usize = 0;
    proof {
        assert(entry_views(out@) =~= Seq::<(Seq<char>, TypeV)>::empty());
    }
    while k < entries.len()
        invariant
            k <= entries@.len(),
            parse_switch_cases_prefix(entries@, k as int) == Ok::<_, ParseErrorV>(
                entry_views(out@),
            ),
        decreases entries@.len() - k,
    {
        let ghost prev = out@;
        proof {
            assert(decreases_to!(entries@ => entries@[k as int]));
            assert(decreases_to!(entries@[k as int] => entries@[k as int].1));
        }
        match parse_type(&entries[k].1) {
            Err(e) => {
                proof {
                    lemma_switch_cases_prefix_err(entries@, k + 1, entries@.len() as int);
                }
                return Err(with_key(entries[k].0.as_str(), e));
            },
            Ok(t) => {
                out.push((entries[k].0.clone(), t));
                proof {
                    assert(entry_views(out@) =~= entry_views(prev).push(
                        (entries@[k as int].0@, t@),
                    ));
                }
            },
        }
        k += 1;
    }
    Ok(out)
}

} // verus!

verus! {

/// The application of the type function `name` to the argument payload
/// `arg`. An unrecognized name is reported at the call array; argument
/// trouble is reported inside index 1.
pub fn parse_call(name: &String, arg: &JsonValue) -> (r: Result<Type, ParseError>)
    ensures
        type_result_view(r) == parse_call_spec(name@, *arg),
    decreases *arg, 0int, 3int,
{
    if str_eq(name.as_str(), "pstring") {
        match arg {
            JsonValue::Object(entries) => {
                proof {
                    assert(decreases_to!(*arg => *entries));
                    assert(decreases_to!(*entries => entries@));
                }
                match parse_count_member_x(entries, name) {
                    Err(e) => Err(with_arg(e)),
                    Ok(count) => match opt_text_member_x(entries, "encoding", name) {
                        Err(e) => Err(with_arg(e)),
                        Ok(encoding) => Ok(Type::PString { count, encoding }),
                    },
                }
            },
            _ => Err(with_arg(err_here(ErrorKind::MissingOrMalformedArgument(name.clone())))),
        }
    } else if str_eq(name.as_str(), "array") {
        match arg {
            JsonValue::Object(entries) => {
                proof {
                    assert(decreases_to!(*arg => *entries));
                    assert(decreases_to!(*entries => entries@));
                }
                match parse_count_member_x(entries, name) {
                    Err(e) => Err(with_arg(e)),
                    Ok(count) => match parse_type_member_x(entries, "type", "element_type", name) {
                        Err(e) => Err(with_arg(e)),
                        Ok(element) => Ok(Type::Array { count, element: Box::new(element) }),
                    },
                }
            },
            _ => Err(with_arg(err_here(ErrorKind::MissingOrMalformedArgument(name.clone())))),
        }
    } else if str_eq(name.as_str(), "container") {
        match arg {
            JsonValue::Array(items) => {
                proof {
                    assert(decreases_to!(*arg => *items));
                    assert(decreases_to!(*items => items@));
                }
                match parse_container_fields_x(items) {
                    Err(e) => Err(with_arg(e)),
                    Ok(fields) => Ok(Type::Container { fields }),
                }
            },
            _ => Err(with_arg(err_here(ErrorKind::MissingOrMalformedArgument(name.clone())))),
        }
    } else if str_eq(name.as_str(), "mapper") {
        match arg {
            JsonValue::Object(entries) => match req_text_member_x(entries, "type", "key_type", name)
                {
                Err(e) => Err(with_arg(e)),
                Ok(key_type) => {
                    let (found, mk): (Option<&JsonValue>, &str) = match obj_get(
                        entries,
                        "mappings",
                    ) {
                        Some(mv) => (Some(mv), "mappings"),
                        None => (obj_get(entries, "key_to_type"), "key_to_type"),
                    };
                    match found {
                        None => Err(
                            with_arg(
                                err_here(ErrorKind::MissingOrMalformedArgument(name.clone())),
                            ),
                        ),
                        Some(mv) => match mv {
                            JsonValue::Object(ments) => match parse_mapping_entries_x(ments) {
                                Err(e) => Err(with_arg(with_key(mk, e))),
                                Ok(pairs) => {
                                    let mapping = dedup_pairs(pairs);
                                    proof {
                                        lemma_view_mapping_map(mapping@);
                                    }
                                    Ok(Type::Mapper { key_type, mapping })
                                },
                            },
                            _ => Err(
                                with_arg(
                                    with_key(
                                        mk,
                                        err_here(
                                            ErrorKind::MissingOrMalformedArgument(name.clone()),
                                        ),
                                    ),
                                ),
                            ),
                        },
                    }
                },
            },
            _ => Err(with_arg(err_here(ErrorKind::MissingOrMalformedArgument(name.clone())))),
        }
    } else if str_eq(name.as_str(), "switch") {
        match arg {
            JsonValue::Object(entries) => {
                proof {
                    assert(decreases_to!(*arg => *entries));
                    assert(decreases_to!(*entries => entries@));
                }
                match parse_type_member_x(entries, "compareTo", "compare_to", name) {
                    Err(e) => Err(with_arg(e)),
                    Ok(compare_to) => {
                        let (found, fk): (Option<&JsonValue>, &str) = match obj_get(
                            entries,
                            "fields",
                        ) {
                            Some(cv) => (Some(cv), "fields"),
                            None => (obj_get(entries, "cases"), "cases"),
                        };
                        match found {
                            None => Err(
                                with_arg(
                                    err_here(ErrorKind::MissingOrMalformedArgument(name.clone())),
                                ),
                            ),
                            Some(cv) => match cv {
                                JsonValue::Object(cents) => {
                                    proof {
                                        if lookup(entries@, "fields"@) is Some {
                                            lemma_lookup_decreases_to(entries@, "fields"@);
                                        } else {
                                            lemma_lookup_decreases_to(entries@, "cases"@);
                                        }
                                        assert(decreases_to!(*cv => *cents));
                                        assert(decreases_to!(*cents => cents@));
                                    }
                                    match parse_switch_cases_x(cents) {
                                        Err(e) => Err(with_arg(with_key(fk, e))),
                                        Ok(pairs) => match opt_type_member_x(entries, "default") {
                                            Err(e) => Err(with_arg(e)),
                                            Ok(default_case) => {
                                                let cases = dedup_pairs(pairs);
                                                proof {
                                                    lemma_view_cases_map(cases@);
                                                }
                                                Ok(
                                                    Type::Switch {
                                                        compare_to: Box::new(compare_to),
                                                        cases,
                                                        default_case: match default_case {
                                                            Some(d) => Some(Box::new(d)),
                                                            None => None,
                                                        },
                                                    },
                                                )
                                            },
                                        },
                                    }
                                },
                                _ => Err(
                                    with_arg(
                                        with_key(
                                            fk,
                                            err_here(
                                                ErrorKind::MissingOrMalformedArgument(
                                                    name.clone(),
                                                ),
                                            ),
                                        ),
                                    ),
                                ),
                            },
                        }
                    },
                }
            },
            _ => Err(with_arg(err_here(ErrorKind::MissingOrMalformedArgument(name.clone())))),
        }
    } else if str_eq(name.as_str(), "bitfield") {
        match arg {
            JsonValue::Array(items) => match parse_bitfield_entries_x(items) {
                Err(e) => Err(with_arg(e)),
                Ok(fields) => Ok(Type::BitField { fields }),
            },
            _ => Err(with_arg(err_here(ErrorKind::MissingOrMalformedArgument(name.clone())))),
        }
    } else if str_eq(name.as_str(), "option") {
        match parse_type(arg) {
            Err(e) => Err(with_arg(e)),
            Ok(t) => Ok(Type::Optional(Box::new(t))),
        }
    } else if str_eq(name.as_str(), "buffer") {
        match arg {
            JsonValue::Object(entries) => {
                proof {
                    assert(decreases_to!(*arg => *entries));
                    assert(decreases_to!(*entries => entries@));
                }
                match parse_count_member_x(entries, name) {
                    Err(e) => Err(with_arg(e)),
                    Ok(count) => Ok(Type::Buffer { count }),
                }
            },
            _ => Err(with_arg(err_here(ErrorKind::MissingOrMalformedArgument(name.clone())))),
        }
    } else if str_eq(name.as_str(), "entityMetadataLoop") {
        match arg {
            JsonValue::Object(entries) => match req_u32_member_x(entries, "endVal", "end_val", name)
                {
                Err(e) => Err(with_arg(e)),
                Ok(end_val) => {
                    proof {
                        assert(decreases_to!(*arg => *entries));
                        assert(decreases_to!(*entries => entries@));
                    }
                    match parse_type_member_x(entries, "type", "_type", name) {
                        Err(e) => Err(with_arg(e)),
                        Ok(element) => Ok(
                            Type::EntityMetadataLoop { end_val, element: Box::new(element) },
                        ),
                    }
                },
            },
            _ => Err(with_arg(err_here(ErrorKind::MissingOrMalformedArgument(name.clone())))),
        }
    } else if str_eq(name.as_str(), "entityMetadataItem") {
        match arg {
            JsonValue::Object(entries) => match req_text_member_x(
                entries,
                "compareTo",
                "compare_to",
                name,
            ) {
                Err(e) => Err(with_arg(e)),
                Ok(compare_to) => Ok(Type::EntityMetadataItem { compare_to }),
            },
            _ => Err(with_arg(err_here(ErrorKind::MissingOrMalformedArgument(name.clone())))),
        }
    } else if str_eq(name.as_str(), "particleData") {
        match arg {
            JsonValue::Object(entries) => match req_text_member_x(
                entries,
                "compareTo",
                "compare_to",
                name,
            ) {
                Err(e) => Err(with_arg(e)),
                Ok(compare_to) => Ok(Type::ParticleData { compare_to }),
            },
            _ => Err(with_arg(err_here(ErrorKind::MissingOrMalformedArgument(name.clone())))),
        }
    } else if str_eq(name.as_str(), "topBitSetTerminatedArray") {
        match arg {
            JsonValue::Object(entries) => {
                proof {
                    assert(decreases_to!(*arg => *entries));
                    assert(decreases_to!(*entries => entries@));
                }
                match parse_type_member_x(entries, "type", "_type", name) {
                    Err(e) => Err(with_arg(e)),
                    Ok(element) => Ok(
                        Type::TopBitSetTerminatedArray { element: Box::new(element) },
                    ),
                }
            },
            _ => Err(with_arg(err_here(ErrorKind::MissingOrMalformedArgument(name.clone())))),
        }
    } else {
        Err(err_here(ErrorKind::UnknownFunction(name.clone())))
    }
}

} // verus!
