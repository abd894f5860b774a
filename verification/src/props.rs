//! Laws of the type grammar, each proved once and for all inputs.

use vstd::prelude::*;

use crate::ast::{ContainerFieldV, CountV, ErrorKindV, ParseError, ParseErrorV, Type, TypeV};
use crate::grammar::{err_at, is_recognized_name, parse_call_spec,
    parse_container_field_spec, parse_container_fields_prefix, parse_count_member,
    parse_count_spec, parse_type_member, parse_type_spec};
use crate::json::{lookup, JsonValue};
use crate::parser::type_result_view;

verus! {

broadcast use vstd::string::group_string_axioms;

/// Parsing any string in a type position yields exactly a reference to
/// that type name, and never fails.
pub proof fn lemma_string_is_type_reference(s: String)
    ensures
        parse_type_spec(JsonValue::Text(s)) == Ok::<TypeV, ParseErrorV>(
            TypeV::TypeReference(s@),
        ),
{
}

/// A 2-element array whose first element is a string applies exactly the
/// named type function to the second element: a recognized name
/// dispatches to its argument parser, an unknown one fails with an
/// `UnknownFunction` error located at the array itself.
pub proof fn lemma_call_array_dispatch(v: JsonValue, name: String, arg: JsonValue)
    requires
        v is Array,
        v->Array_0@.len() == 2,
        v->Array_0@[0] == JsonValue::Text(name),
        v->Array_0@[1] == arg,
    ensures
        is_recognized_name(name@) ==> parse_type_spec(v) == parse_call_spec(name@, arg),
        !is_recognized_name(name@) ==> parse_type_spec(v) == Err::<TypeV, ParseErrorV>(
            err_at(ErrorKindV::UnknownFunction(name@)),
        ),
{
}

/// Within an `array` call, the argument record's members are parsed by
/// the same grammar that governs every other type position: the count
/// member as a count, the element member as a nested type expression,
/// and the result carries exactly those parses.
pub proof fn lemma_array_call(arg: JsonValue, c: CountV, t: TypeV)
    requires
        arg is Object,
        parse_count_member(arg->Object_0@, "array"@) == Ok::<CountV, ParseErrorV>(c),
        parse_type_member(arg->Object_0@, "type"@, "element_type"@, "array"@) == Ok::<
            TypeV,
            ParseErrorV,
        >(t),
    ensures
        parse_call_spec("array"@, arg) == Ok::<TypeV, ParseErrorV>(
            TypeV::Array { count: c, element: Box::new(t) },
        ),
{
    reveal_strlit("pstring");
    reveal_strlit("array");
    assert("array"@.len() == 5);
    assert("pstring"@.len() == 7);
}

/// Within an `option` call, the whole argument is one nested type
/// position, parsed by the same grammar.
pub proof fn lemma_option_call(arg: JsonValue, t: TypeV)
    requires
        parse_type_spec(arg) == Ok::<TypeV, ParseErrorV>(t),
    ensures
        parse_call_spec("option"@, arg) == Ok::<TypeV, ParseErrorV>(
            TypeV::Optional(Box::new(t)),
        ),
{
    reveal_strlit("pstring");
    reveal_strlit("array");
    reveal_strlit("container");
    reveal_strlit("mapper");
    reveal_strlit("switch");
    reveal_strlit("bitfield");
    reveal_strlit("option");
    assert("pstring"@.len() == 7);
    assert("array"@.len() == 5);
    assert("container"@.len() == 9);
    assert("bitfield"@.len() == 8);
    assert("option"@.len() == 6);
    assert("mapper"@[0] == 'm');
    assert("switch"@[0] == 's');
    assert("option"@[0] == 'o');
}

/// A bare non-negative integer in a count position is always the literal
/// count, never a type expression.
pub proof fn lemma_count_literal(n: u64)
    requires
        n <= u32::MAX as u64,
    ensures
        parse_count_spec(JsonValue::Uint(n)) == Ok::<CountV, ParseErrorV>(
            CountV::Literal(n as u32),
        ),
{
}

/// A string in a count position is always a dynamic count through a type
/// reference.
pub proof fn lemma_count_reference(s: String)
    ensures
        parse_count_spec(JsonValue::Text(s)) == Ok::<CountV, ParseErrorV>(
            CountV::Dynamic(Box::new(TypeV::TypeReference(s@))),
        ),
{
}

/// The two spellings of a count member are synonyms: whether the value
/// sits under `count` or only under `countType`, the member parses to the
/// identical count.
pub proof fn lemma_count_member_alias(
    entries: Seq<(String, JsonValue)>,
    cv: JsonValue,
    fname: Seq<char>,
    c: CountV,
)
    requires
        parse_count_spec(cv) == Ok::<CountV, ParseErrorV>(c),
        lookup(entries, "count"@) == Some(cv) || (lookup(entries, "count"@) is None && lookup(
            entries,
            "countType"@,
        ) == Some(cv)),
    ensures
        parse_count_member(entries, fname) == Ok::<CountV, ParseErrorV>(c),
{
}

/// Container fields come out in the order their objects stand in the
/// argument array, one parsed field per input element.
pub proof fn lemma_container_fields_order(
    items: Seq<JsonValue>,
    i: int,
    fs: Seq<ContainerFieldV>,
)
    requires
        0 <= i <= items.len(),
        parse_container_fields_prefix(items, i) == Ok::<Seq<ContainerFieldV>, ParseErrorV>(fs),
    ensures
        fs.len() == i,
        forall|j: int|
            0 <= j < i ==> parse_container_field_spec(items[j]) == Ok::<
                ContainerFieldV,
                ParseErrorV,
            >(fs[j]),
    decreases i,
{
    if i > 0 {
        let front = parse_container_fields_prefix(items, i - 1)->Ok_0;
        lemma_container_fields_order(items, i - 1, front);
    }
}

/// Parsing is a pure function of the document value: two parses of the
/// same value are the same tree, or the same error, member for member.
pub proof fn lemma_parse_deterministic(
    r1: Result<Type, ParseError>,
    r2: Result<Type, ParseError>,
    v: JsonValue,
)
    requires
        type_result_view(r1) == parse_type_spec(v),
        type_result_view(r2) == parse_type_spec(v),
    ensures
        type_result_view(r1) == type_result_view(r2),
{
}

} // verus!

verus! {

/// Within a `pstring` call, the result carries exactly the parsed count
/// member and the optional encoding member of the argument record.
pub proof fn lemma_pstring_call(arg: JsonValue, c: CountV, enc: Option<Seq<char>>)
    requires
        arg is Object,
        parse_count_member(arg->Object_0@, "pstring"@) == Ok::<CountV, ParseErrorV>(c),
        crate::grammar::opt_text_member(arg->Object_0@, "encoding"@, "pstring"@) == Ok::<
            Option<Seq<char>>,
            ParseErrorV,
        >(enc),
    ensures
        parse_call_spec("pstring"@, arg) == Ok::<TypeV, ParseErrorV>(
            TypeV::PString { count: c, encoding: enc },
        ),
{
}

/// Within a `switch` call, the selector and every case value are parsed
/// by the same grammar as any other type position, the cases keep their
/// object's resolved keys, and the default case is carried when present.
pub proof fn lemma_switch_call(
    arg: JsonValue,
    ct: TypeV,
    cv: JsonValue,
    pairs: Seq<(Seq<char>, TypeV)>,
    d: Option<TypeV>,
)
    requires
        arg is Object,
        parse_type_member(arg->Object_0@, "compareTo"@, "compare_to"@, "switch"@) == Ok::<
            TypeV,
            ParseErrorV,
        >(ct),
        crate::grammar::lookup2(arg->Object_0@, "fields"@, "cases"@) == Some(cv),
        cv is Object,
        crate::grammar::parse_switch_cases_prefix(cv->Object_0@, cv->Object_0@.len() as int)
            == Ok::<Seq<(Seq<char>, TypeV)>, ParseErrorV>(pairs),
        crate::grammar::opt_type_member(arg->Object_0@, "default"@) == Ok::<
            Option<TypeV>,
            ParseErrorV,
        >(d),
    ensures
        parse_call_spec("switch"@, arg) == Ok::<TypeV, ParseErrorV>(
            TypeV::Switch {
                compare_to: Box::new(ct),
                cases: crate::tables::dedup_entries(pairs),
                default_case: match d {
                    Some(t) => Some(Box::new(t)),
                    None => None,
                },
            },
        ),
{
    reveal_strlit("pstring");
    reveal_strlit("array");
    reveal_strlit("container");
    reveal_strlit("mapper");
    reveal_strlit("switch");
    assert("pstring"@.len() == 7);
    assert("array"@.len() == 5);
    assert("container"@.len() == 9);
    assert("mapper"@[0] == 'm');
    assert("switch"@[0] == 's');
}

} // verus!

verus! {

/// Within a `container` call, the result's field list is exactly the
/// parse of the whole argument array.
pub proof fn lemma_container_call(arg: JsonValue, fields: Seq<ContainerFieldV>)
    requires
        arg is Array,
        parse_container_fields_prefix(arg->Array_0@, arg->Array_0@.len() as int) == Ok::<
            Seq<ContainerFieldV>,
            ParseErrorV,
        >(fields),
    ensures
        parse_call_spec("container"@, arg) == Ok::<TypeV, ParseErrorV>(
            TypeV::Container { fields },
        ),
{
    reveal_strlit("pstring");
    reveal_strlit("array");
    reveal_strlit("container");
    assert("pstring"@.len() == 7);
    assert("array"@.len() == 5);
    assert("container"@.len() == 9);
}

/// An `array` call whose argument object spells no count member under
/// either accepted key always fails with a missing-argument error located
/// at the argument payload.
pub proof fn lemma_array_missing_count(arg: JsonValue)
    requires
        arg is Object,
        lookup(arg->Object_0@, "count"@) is None,
        lookup(arg->Object_0@, "countType"@) is None,
    ensures
        parse_call_spec("array"@, arg) == Err::<TypeV, ParseErrorV>(
            crate::grammar::in_arg(
                err_at(ErrorKindV::MissingOrMalformedArgument("array"@)),
            ),
        ),
{
    reveal_strlit("pstring");
    reveal_strlit("array");
    assert("pstring"@.len() == 7);
    assert("array"@.len() == 5);
}

} // verus!
