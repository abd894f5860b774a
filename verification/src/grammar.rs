//! The protodef type grammar, as one mathematical function from a JSON
//! value to a type descriptor or a structured error.
//!
//! `parse_type_spec` is the reference meaning of every "type" position:
//! a string is a type reference; a 2-element array applies a recognized
//! type function to an argument record; everything else is a shape
//! mismatch. The executable parser is proved to return exactly what these
//! functions say, so every contract below is also the contract of the code.
//!
//! Error paths are built relative to the value each function receives and
//! prefixed on the way out, so a reported path leads from the root of the
//! parsed value to the offending node.
//!
//! Aliasing: a logical member may be spelled by more than one key; the
//! spellings are tried in a fixed preference order and the first present
//! wins, also when several are present. Within one object a repeated key
//! resolves to its last occurrence.

use vstd::prelude::*;

use crate::ast::{BitFieldEntryV, ContainerFieldV, CountV, ErrorKindV, ParseErrorV, PathSegmentV,
    TypeV};
use crate::json::{lookup, lemma_lookup_decreases_to, JsonValue};

verus! {

/// An error located at the value currently being parsed.
pub open spec fn err_at(kind: ErrorKindV) -> ParseErrorV {
    ParseErrorV { kind, path: Seq::empty() }
}

/// The same error, seen from one level further out.
pub open spec fn in_seg(seg: PathSegmentV, e: ParseErrorV) -> ParseErrorV {
    ParseErrorV { kind: e.kind, path: seq![seg] + e.path }
}

/// An error inside the argument payload of a function-call array, which
/// always sits at index 1.
pub open spec fn in_arg(e: ParseErrorV) -> ParseErrorV {
    in_seg(PathSegmentV::Index(1), e)
}

/// The value of the first present spelling of a member, `k1` preferred.
pub open spec fn lookup2(
    entries: Seq<(String, JsonValue)>,
    k1: Seq<char>,
    k2: Seq<char>,
) -> Option<JsonValue> {
    if lookup(entries, k1) is Some {
        lookup(entries, k1)
    } else {
        lookup(entries, k2)
    }
}

/// The spelling under which `lookup2` found its value.
pub open spec fn found_key(entries: Seq<(String, JsonValue)>, k1: Seq<char>, k2: Seq<char>) -> Seq<
    char,
> {
    if lookup(entries, k1) is Some {
        k1
    } else {
        k2
    }
}

/// A required string-valued member of an argument record.
pub open spec fn req_text_member(
    entries: Seq<(String, JsonValue)>,
    k1: Seq<char>,
    k2: Seq<char>,
    fname: Seq<char>,
) -> Result<Seq<char>, ParseErrorV> {
    match lookup2(entries, k1, k2) {
        None => Err(err_at(ErrorKindV::MissingOrMalformedArgument(fname))),
        Some(v) => match v {
            JsonValue::Text(s) => Ok(s@),
            _ => Err(
                in_seg(
                    PathSegmentV::Key(found_key(entries, k1, k2)),
                    err_at(ErrorKindV::MissingOrMalformedArgument(fname)),
                ),
            ),
        },
    }
}

/// An optional string-valued member of an argument record.
pub open spec fn opt_text_member(
    entries: Seq<(String, JsonValue)>,
    k: Seq<char>,
    fname: Seq<char>,
) -> Result<Option<Seq<char>>, ParseErrorV> {
    match lookup(entries, k) {
        None => Ok(None),
        Some(v) => match v {
            JsonValue::Text(s) => Ok(Some(s@)),
            _ => Err(
                in_seg(
                    PathSegmentV::Key(k),
                    err_at(ErrorKindV::MissingOrMalformedArgument(fname)),
                ),
            ),
        },
    }
}

/// A required unsigned-integer member of an argument record.
pub open spec fn req_u32_member(
    entries: Seq<(String, JsonValue)>,
    k1: Seq<char>,
    k2: Seq<char>,
    fname: Seq<char>,
) -> Result<u32, ParseErrorV> {
    match lookup2(entries, k1, k2) {
        None => Err(err_at(ErrorKindV::MissingOrMalformedArgument(fname))),
        Some(v) => match v {
            JsonValue::Uint(n) => if n <= u32::MAX as u64 {
                Ok(n as u32)
            } else {
                Err(
                    in_seg(
                        PathSegmentV::Key(found_key(entries, k1, k2)),
                        err_at(ErrorKindV::MissingOrMalformedArgument(fname)),
                    ),
                )
            },
            _ => Err(
                in_seg(
                    PathSegmentV::Key(found_key(entries, k1, k2)),
                    err_at(ErrorKindV::MissingOrMalformedArgument(fname)),
                ),
            ),
        },
    }
}

/// One `bitfield` entry: an object with a string `name`, an unsigned
/// `size` and a boolean `signed`, and nothing less.
pub open spec fn parse_bitfield_entry_spec(o: JsonValue) -> Result<BitFieldEntryV, ParseErrorV> {
    match o {
        JsonValue::Object(entries) => match lookup(entries@, "name"@) {
            Some(JsonValue::Text(n)) => match lookup(entries@, "size"@) {
                Some(JsonValue::Uint(sz)) => if sz <= u32::MAX as u64 {
                    match lookup(entries@, "signed"@) {
                        Some(JsonValue::Bool(b)) => Ok(
                            BitFieldEntryV { name: n@, size: sz as u32, signed: b },
                        ),
                        _ => Err(err_at(ErrorKindV::MalformedSubField)),
                    }
                } else {
                    Err(err_at(ErrorKindV::MalformedSubField))
                },
                _ => Err(err_at(ErrorKindV::MalformedSubField)),
            },
            _ => Err(err_at(ErrorKindV::MalformedSubField)),
        },
        _ => Err(err_at(ErrorKindV::MalformedSubField)),
    }
}

/// The first `i` entries of a `bitfield` argument array, in order.
pub open spec fn parse_bitfield_entries_prefix(items: Seq<JsonValue>, i: int) -> Result<
    Seq<BitFieldEntryV>,
    ParseErrorV,
>
    decreases i,
{
    if i <= 0 {
        Ok(Seq::empty())
    } else {
        match parse_bitfield_entries_prefix(items, i - 1) {
            Err(e) => Err(e),
            Ok(front) => match parse_bitfield_entry_spec(items[i - 1]) {
                Err(e) => Err(in_seg(PathSegmentV::Index(i - 1), e)),
                Ok(f) => Ok(front.push(f)),
            },
        }
    }
}

/// The first `i` entries of a `mapper` mapping object: every value must be
/// a string.
pub open spec fn parse_mapping_entries_prefix(
    entries: Seq<(String, JsonValue)>,
    i: int,
) -> Result<Seq<(Seq<char>, Seq<char>)>, ParseErrorV>
    decreases i,
{
    if i <= 0 {
        Ok(Seq::empty())
    } else {
        match parse_mapping_entries_prefix(entries, i - 1) {
            Err(e) => Err(e),
            Ok(front) => match entries[i - 1].1 {
                JsonValue::Text(s) => Ok(front.push((entries[i - 1].0@, s@))),
                _ => Err(
                    in_seg(
                        PathSegmentV::Key(entries[i - 1].0@),
                        err_at(ErrorKindV::MalformedSubField),
                    ),
                ),
            },
        }
    }
}

/// A type expression in a type position.
///
/// A string names another type; a 2-element array whose first element is a
/// string applies a type function; any other shape is rejected where it
/// stands.
pub open spec fn parse_type_spec(v: JsonValue) -> Result<TypeV, ParseErrorV>
    decreases v, 0int, 1int,
{
    match v {
        JsonValue::Text(s) => Ok(TypeV::TypeReference(s@)),
        JsonValue::Array(items) => {
            if items@.len() != 2 {
                Err(err_at(ErrorKindV::ShapeMismatch))
            } else {
                match items@[0] {
                    JsonValue::Text(name) => {
                        proof {
                            assert(decreases_to!(v => items));
                            assert(decreases_to!(items => items@));
                            assert(decreases_to!(items@ => items@[1]));
                        }
                        parse_call_spec(name@, items@[1])
                    },
                    _ => Err(err_at(ErrorKindV::MissingFunctionName)),
                }
            }
        },
        _ => Err(err_at(ErrorKindV::ShapeMismatch)),
    }
}

/// A count position: a bare non-negative integer is a literal count, and
/// any other value is a nested type expression that yields the count at
/// decode time. A bare number is never read as a type expression.
pub open spec fn parse_count_spec(v: JsonValue) -> Result<CountV, ParseErrorV>
    decreases v, 0int, 2int,
{
    match v {
        JsonValue::Uint(n) => if n <= u32::MAX as u64 {
            Ok(CountV::Literal(n as u32))
        } else {
            Err(err_at(ErrorKindV::ShapeMismatch))
        },
        _ => match parse_type_spec(v) {
            Ok(t) => Ok(CountV::Dynamic(Box::new(t))),
            Err(e) => Err(e),
        },
    }
}

/// The count member of an argument record, spelled `count` or `countType`.
pub open spec fn parse_count_member(
    entries: Seq<(String, JsonValue)>,
    fname: Seq<char>,
) -> Result<CountV, ParseErrorV>
    decreases entries, 0int, 2int,
{
    match lookup2(entries, "count"@, "countType"@) {
        None => Err(err_at(ErrorKindV::MissingOrMalformedArgument(fname))),
        Some(cv) => {
            proof {
                if lookup(entries, "count"@) is Some {
                    lemma_lookup_decreases_to(entries, "count"@);
                } else {
                    lemma_lookup_decreases_to(entries, "countType"@);
                }
            }
            match parse_count_spec(cv) {
                Ok(c) => Ok(c),
                Err(e) => Err(
                    in_seg(PathSegmentV::Key(found_key(entries, "count"@, "countType"@)), e),
                ),
            }
        },
    }
}

/// A required type-valued member of an argument record.
pub open spec fn parse_type_member(
    entries: Seq<(String, JsonValue)>,
    k1: Seq<char>,
    k2: Seq<char>,
    fname: Seq<char>,
) -> Result<TypeV, ParseErrorV>
    decreases entries, 0int, 2int,
{
    match lookup2(entries, k1, k2) {
        None => Err(err_at(ErrorKindV::MissingOrMalformedArgument(fname))),
        Some(tv) => {
            proof {
                if lookup(entries, k1) is Some {
                    lemma_lookup_decreases_to(entries, k1);
                } else {
                    lemma_lookup_decreases_to(entries, k2);
                }
            }
            match parse_type_spec(tv) {
                Ok(t) => Ok(t),
                Err(e) => Err(in_seg(PathSegmentV::Key(found_key(entries, k1, k2)), e)),
            }
        },
    }
}

/// An optional type-valued member of an argument record.
pub open spec fn opt_type_member(
    entries: Seq<(String, JsonValue)>,
    k: Seq<char>,
) -> Result<Option<TypeV>, ParseErrorV>
    decreases entries, 0int, 2int,
{
    match lookup(entries, k) {
        None => Ok(None),
        Some(tv) => {
            proof {
                lemma_lookup_decreases_to(entries, k);
            }
            match parse_type_spec(tv) {
                Ok(t) => Ok(Some(t)),
                Err(e) => Err(in_seg(PathSegmentV::Key(k), e)),
            }
        },
    }
}

/// The type member of a container field object, spelled `type` or
/// `field_type`. A field object without one does not match the field
/// shape; an error inside a present member propagates unchanged, with
/// the member's key prefixed to its path.
pub open spec fn parse_field_type_member(entries: Seq<(String, JsonValue)>) -> Result<
    TypeV,
    ParseErrorV,
>
    decreases entries, 0int, 2int,
{
    match lookup2(entries, "type"@, "field_type"@) {
        None => Err(err_at(ErrorKindV::MalformedSubField)),
        Some(tv) => {
            proof {
                if lookup(entries, "type"@) is Some {
                    lemma_lookup_decreases_to(entries, "type"@);
                } else {
                    lemma_lookup_decreases_to(entries, "field_type"@);
                }
            }
            match parse_type_spec(tv) {
                Ok(t) => Ok(t),
                Err(e) => Err(
                    in_seg(PathSegmentV::Key(found_key(entries, "type"@, "field_type"@)), e),
                ),
            }
        },
    }
}

/// One `container` field object: `{name, type}` for a named field, or
/// `{anon: true, type}` for an anonymous one; anything else is rejected.
pub open spec fn parse_container_field_spec(o: JsonValue) -> Result<ContainerFieldV, ParseErrorV>
    decreases o, 0int, 3int,
{
    match o {
        JsonValue::Object(entries) => {
            proof {
                assert(decreases_to!(o => entries));
                assert(decreases_to!(entries => entries@));
            }
            match lookup(entries@, "name"@) {
                Some(nv) => match nv {
                    JsonValue::Text(n) => match parse_field_type_member(entries@) {
                        Ok(t) => Ok(ContainerFieldV::Named { name: n@, field_type: t }),
                        Err(e) => Err(e),
                    },
                    _ => Err(err_at(ErrorKindV::MalformedSubField)),
                },
                None => match lookup(entries@, "anon"@) {
                    Some(av) => match av {
                        JsonValue::Bool(b) => if b {
                            match parse_field_type_member(entries@) {
                                Ok(t) => Ok(ContainerFieldV::Anon { field_type: t }),
                                Err(e) => Err(e),
                            }
                        } else {
                            Err(err_at(ErrorKindV::MalformedSubField))
                        },
                        _ => Err(err_at(ErrorKindV::MalformedSubField)),
                    },
                    None => Err(err_at(ErrorKindV::MalformedSubField)),
                },
            }
        },
        _ => Err(err_at(ErrorKindV::MalformedSubField)),
    }
}

/// The first `i` field objects of a `container` argument array, in order.
pub open spec fn parse_container_fields_prefix(items: Seq<JsonValue>, i: int) -> Result<
    Seq<ContainerFieldV>,
    ParseErrorV,
>
    decreases items, i, 0int,
    when i <= items.len()
{
    if i <= 0 {
        Ok(Seq::empty())
    } else {
        match parse_container_fields_prefix(items, i - 1) {
            Err(e) => Err(e),
            Ok(front) => {
                proof {
                    assert(decreases_to!(items => items[i - 1]));
                }
                match parse_container_field_spec(items[i - 1]) {
                    Err(e) => Err(in_seg(PathSegmentV::Index(i - 1), e)),
                    Ok(f) => Ok(front.push(f)),
                }
            },
        }
    }
}

/// The first `i` cases of a `switch` case object, each value a type
/// expression, in document order and before duplicate keys resolve.
pub open spec fn parse_switch_cases_prefix(
    entries: Seq<(String, JsonValue)>,
    i: int,
) -> Result<Seq<(Seq<char>, TypeV)>, ParseErrorV>
    decreases entries, i, 0int,
    when i <= entries.len()
{
    if i <= 0 {
        Ok(Seq::empty())
    } else {
        match parse_switch_cases_prefix(entries, i - 1) {
            Err(e) => Err(e),
            Ok(front) => {
                proof {
                    assert(decreases_to!(entries => entries[i - 1]));
                    assert(decreases_to!(entries[i - 1] => entries[i - 1].1));
                }
                match parse_type_spec(entries[i - 1].1) {
                    Err(e) => Err(in_seg(PathSegmentV::Key(entries[i - 1].0@), e)),
                    Ok(t) => Ok(front.push((entries[i - 1].0@, t))),
                }
            },
        }
    }
}

/// Whether `name` is in the closed set of recognized type functions.
pub open spec fn is_recognized_name(name: Seq<char>) -> bool {
    ||| name == "pstring"@
    ||| name == "array"@
    ||| name == "container"@
    ||| name == "mapper"@
    ||| name == "switch"@
    ||| name == "bitfield"@
    ||| name == "option"@
    ||| name == "buffer"@
    ||| name == "entityMetadataLoop"@
    ||| name == "entityMetadataItem"@
    ||| name == "particleData"@
    ||| name == "topBitSetTerminatedArray"@
}

/// The application of the type function `name` to the argument payload
/// `arg`, the second element of a function-call array. Errors are relative
/// to the call array: an unrecognized name is reported at the array, and
/// argument trouble inside index 1.
pub open spec fn parse_call_spec(name: Seq<char>, arg: JsonValue) -> Result<TypeV, ParseErrorV>
    decreases arg, 0int, 3int,
{
    if name == "pstring"@ {
        match arg {
            JsonValue::Object(entries) => {
                proof {
                    assert(decreases_to!(arg => entries));
                    assert(decreases_to!(entries => entries@));
                }
                match parse_count_member(entries@, name) {
                    Err(e) => Err(in_arg(e)),
                    Ok(count) => match opt_text_member(entries@, "encoding"@, name) {
                        Err(e) => Err(in_arg(e)),
                        Ok(encoding) => Ok(TypeV::PString { count, encoding }),
                    },
                }
            },
            _ => Err(in_arg(err_at(ErrorKindV::MissingOrMalformedArgument(name)))),
        }
    } else if name == "array"@ {
        match arg {
            JsonValue::Object(entries) => {
                proof {
                    assert(decreases_to!(arg => entries));
                    assert(decreases_to!(entries => entries@));
                }
                match parse_count_member(entries@, name) {
                    Err(e) => Err(in_arg(e)),
                    Ok(count) => match parse_type_member(entries@, "type"@, "element_type"@, name) {
                        Err(e) => Err(in_arg(e)),
                        Ok(element) => Ok(
                            TypeV::Array { count, element: Box::new(element) },
                        ),
                    },
                }
            },
            _ => Err(in_arg(err_at(ErrorKindV::MissingOrMalformedArgument(name)))),
        }
    } else if name == "container"@ {
        match arg {
            JsonValue::Array(items) => {
                proof {
                    assert(decreases_to!(arg => items));
                    assert(decreases_to!(items => items@));
                }
                match parse_container_fields_prefix(items@, items@.len() as int) {
                    Err(e) => Err(in_arg(e)),
                    Ok(fields) => Ok(TypeV::Container { fields }),
                }
            },
            _ => Err(in_arg(err_at(ErrorKindV::MissingOrMalformedArgument(name)))),
        }
    } else if name == "mapper"@ {
        match arg {
            JsonValue::Object(entries) => match req_text_member(
                entries@,
                "type"@,
                "key_type"@,
                name,
            ) {
                Err(e) => Err(in_arg(e)),
                Ok(key_type) => match lookup2(entries@, "mappings"@, "key_to_type"@) {
                    None => Err(in_arg(err_at(ErrorKindV::MissingOrMalformedArgument(name)))),
                    Some(mv) => match mv {
                        JsonValue::Object(ments) => match parse_mapping_entries_prefix(
                            ments@,
                            ments@.len() as int,
                        ) {
                            Err(e) => Err(
                                in_arg(
                                    in_seg(
                                        PathSegmentV::Key(
                                            found_key(entries@, "mappings"@, "key_to_type"@),
                                        ),
                                        e,
                                    ),
                                ),
                            ),
                            Ok(pairs) => Ok(
                                TypeV::Mapper { key_type, mapping: crate::tables::dedup_entries(pairs) },
                            ),
                        },
                        _ => Err(
                            in_arg(
                                in_seg(
                                    PathSegmentV::Key(
                                        found_key(entries@, "mappings"@, "key_to_type"@),
                                    ),
                                    err_at(ErrorKindV::MissingOrMalformedArgument(name)),
                                ),
                            ),
                        ),
                    },
                },
            },
            _ => Err(in_arg(err_at(ErrorKindV::MissingOrMalformedArgument(name)))),
        }
    } else if name == "switch"@ {
        match arg {
            JsonValue::Object(entries) => {
                proof {
                    assert(decreases_to!(arg => entries));
                    assert(decreases_to!(entries => entries@));
                }
                match parse_type_member(entries@, "compareTo"@, "compare_to"@, name) {
                    Err(e) => Err(in_arg(e)),
                    Ok(compare_to) => match lookup2(entries@, "fields"@, "cases"@) {
                        None => Err(in_arg(err_at(ErrorKindV::MissingOrMalformedArgument(name)))),
                        Some(cv) => match cv {
                            JsonValue::Object(cents) => {
                                proof {
                                    if lookup(entries@, "fields"@) is Some {
                                        lemma_lookup_decreases_to(entries@, "fields"@);
                                    } else {
                                        lemma_lookup_decreases_to(entries@, "cases"@);
                                    }
                                    assert(decreases_to!(cv => cents));
                                    assert(decreases_to!(cents => cents@));
                                }
                                match parse_switch_cases_prefix(cents@, cents@.len() as int) {
                                    Err(e) => Err(
                                        in_arg(
                                            in_seg(
                                                PathSegmentV::Key(
                                                    found_key(entries@, "fields"@, "cases"@),
                                                ),
                                                e,
                                            ),
                                        ),
                                    ),
                                    Ok(pairs) => match opt_type_member(entries@, "default"@) {
                                        Err(e) => Err(in_arg(e)),
                                        Ok(default_case) => Ok(
                                            TypeV::Switch {
                                                compare_to: Box::new(compare_to),
                                                cases: crate::tables::dedup_entries(pairs),
                                                default_case: match default_case {
                                                    Some(d) => Some(Box::new(d)),
                                                    None => None,
                                                },
                                            },
                                        ),
                                    },
                                }
                            },
                            _ => Err(
                                in_arg(
                                    in_seg(
                                        PathSegmentV::Key(found_key(entries@, "fields"@, "cases"@)),
                                        err_at(ErrorKindV::MissingOrMalformedArgument(name)),
                                    ),
                                ),
                            ),
                        },
                    },
                }
            },
            _ => Err(in_arg(err_at(ErrorKindV::MissingOrMalformedArgument(name)))),
        }
    } else if name == "bitfield"@ {
        match arg {
            JsonValue::Array(items) => match parse_bitfield_entries_prefix(
                items@,
                items@.len() as int,
            ) {
                Err(e) => Err(in_arg(e)),
                Ok(fields) => Ok(TypeV::BitField { fields }),
            },
            _ => Err(in_arg(err_at(ErrorKindV::MissingOrMalformedArgument(name)))),
        }
    } else if name == "option"@ {
        match parse_type_spec(arg) {
            Err(e) => Err(in_arg(e)),
            Ok(t) => Ok(TypeV::Optional(Box::new(t))),
        }
    } else if name == "buffer"@ {
        match arg {
            JsonValue::Object(entries) => {
                proof {
                    assert(decreases_to!(arg => entries));
                    assert(decreases_to!(entries => entries@));
                }
                match parse_count_member(entries@, name) {
                    Err(e) => Err(in_arg(e)),
                    Ok(count) => Ok(TypeV::Buffer { count }),
                }
            },
            _ => Err(in_arg(err_at(ErrorKindV::MissingOrMalformedArgument(name)))),
        }
    } else if name == "entityMetadataLoop"@ {
        match arg {
            JsonValue::Object(entries) => match req_u32_member(
                entries@,
                "endVal"@,
                "end_val"@,
                name,
            ) {
                Err(e) => Err(in_arg(e)),
                Ok(end_val) => {
                    proof {
                        assert(decreases_to!(arg => entries));
                        assert(decreases_to!(entries => entries@));
                    }
                    match parse_type_member(entries@, "type"@, "_type"@, name) {
                        Err(e) => Err(in_arg(e)),
                        Ok(element) => Ok(
                            TypeV::EntityMetadataLoop { end_val, element: Box::new(element) },
                        ),
                    }
                },
            },
            _ => Err(in_arg(err_at(ErrorKindV::MissingOrMalformedArgument(name)))),
        }
    } else if name == "entityMetadataItem"@ {
        match arg {
            JsonValue::Object(entries) => match req_text_member(
                entries@,
                "compareTo"@,
                "compare_to"@,
                name,
            ) {
                Err(e) => Err(in_arg(e)),
                Ok(compare_to) => Ok(TypeV::EntityMetadataItem { compare_to }),
            },
            _ => Err(in_arg(err_at(ErrorKindV::MissingOrMalformedArgument(name)))),
        }
    } else if name == "particleData"@ {
        match arg {
            JsonValue::Object(entries) => match req_text_member(
                entries@,
                "compareTo"@,
                "compare_to"@,
                name,
            ) {
                Err(e) => Err(in_arg(e)),
                Ok(compare_to) => Ok(TypeV::ParticleData { compare_to }),
            },
            _ => Err(in_arg(err_at(ErrorKindV::MissingOrMalformedArgument(name)))),
        }
    } else if name == "topBitSetTerminatedArray"@ {
        match arg {
            JsonValue::Object(entries) => {
                proof {
                    assert(decreases_to!(arg => entries));
                    assert(decreases_to!(entries => entries@));
                }
                match parse_type_member(entries@, "type"@, "_type"@, name) {
                    Err(e) => Err(in_arg(e)),
                    Ok(element) => Ok(
                        TypeV::TopBitSetTerminatedArray { element: Box::new(element) },
                    ),
                }
            },
            _ => Err(in_arg(err_at(ErrorKindV::MissingOrMalformedArgument(name)))),
        }
    } else {
        Err(err_at(ErrorKindV::UnknownFunction(name)))
    }
}

} // verus!
