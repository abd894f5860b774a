//! The type-descriptor model: one variant per recognized type-function, a
//! `Count` union for length positions, and the structured parse error.
//!
//! Each executable type has a mathematical mirror (`TypeV`, `CountV`, ...)
//! built from `Seq` and plain values; the view functions below relate the
//! two, and every parser contract speaks of the mirrors.

use vstd::prelude::*;

verus! {

/// A length position: either a literal non-negative integer, or a nested
/// type expression evaluated at decode time to yield the count.
#[derive(Debug, PartialEq, Eq)]
pub enum Count {
    Literal(u32),
    Dynamic(Box<Type>),
}

/// One field of a `container`: named, or anonymous (contributing no name
/// to the enclosing container's field namespace).
#[derive(Debug, PartialEq, Eq)]
pub enum ContainerField {
    Named { name: String, field_type: Type },
    Anon { field_type: Type },
}

/// One entry of a `bitfield`, in bit layout order.
#[derive(Debug, PartialEq, Eq)]
pub struct BitFieldEntry {
    pub name: String,
    pub size: u32,
    pub signed: bool,
}

/// One type expression of a schema document.
#[derive(Debug, PartialEq, Eq)]
pub enum Type {
    /// Reference to another type by name, resolved later by the consumer.
    TypeReference(String),
    /// A string prefixed by a length descriptor.
    PString { count: Count, encoding: Option<String> },
    /// Homogeneous sequence whose length is given by `count`.
    Array { count: Count, element: Box<Type> },
    /// Ordered record of named or anonymous sub-fields.
    Container { fields: Vec<ContainerField> },
    /// Enumeration: raw key decoded per `key_type`, then looked up.
    Mapper { key_type: String, mapping: Vec<(String, String)> },
    /// Chooses among `cases` by stringified selector value, falling back to
    /// the default case when none matches.
    Switch {
        compare_to: Box<Type>,
        cases: Vec<(String, Type)>,
        default_case: Option<Box<Type>>,
    },
    /// Packed sub-byte fields, in declaration order.
    BitField { fields: Vec<BitFieldEntry> },
    /// Presence flag followed by a value of the inner type when present.
    Optional(Box<Type>),
    /// Opaque byte run whose length is given by `count`.
    Buffer { count: Count },
    /// Repeats `element` until a sentinel equal to `end_val` is read.
    EntityMetadataLoop { end_val: u32, element: Box<Type> },
    /// Discriminated item whose shape depends on a previously-read field.
    EntityMetadataItem { compare_to: String },
    /// Discriminated particle payload, same dependency pattern.
    ParticleData { compare_to: String },
    /// Sequence terminated by an element whose top bit is set.
    TopBitSetTerminatedArray { element: Box<Type> },
}

/// Mathematical mirror of `Count`.
pub enum CountV {
    Literal(u32),
    Dynamic(Box<TypeV>),
}

/// Mathematical mirror of `ContainerField`.
pub enum ContainerFieldV {
    Named { name: Seq<char>, field_type: TypeV },
    Anon { field_type: TypeV },
}

/// Mathematical mirror of `BitFieldEntry`.
pub struct BitFieldEntryV {
    pub name: Seq<char>,
    pub size: u32,
    pub signed: bool,
}

/// Mathematical mirror of `Type`.
pub enum TypeV {
    TypeReference(Seq<char>),
    PString { count: CountV, encoding: Option<Seq<char>> },
    Array { count: CountV, element: Box<TypeV> },
    Container { fields: Seq<ContainerFieldV> },
    Mapper { key_type: Seq<char>, mapping: Seq<(Seq<char>, Seq<char>)> },
    Switch {
        compare_to: Box<TypeV>,
        cases: Seq<(Seq<char>, TypeV)>,
        default_case: Option<Box<TypeV>>,
    },
    BitField { fields: Seq<BitFieldEntryV> },
    Optional(Box<TypeV>),
    Buffer { count: CountV },
    EntityMetadataLoop { end_val: u32, element: Box<TypeV> },
    EntityMetadataItem { compare_to: Seq<char> },
    ParticleData { compare_to: Seq<char> },
    TopBitSetTerminatedArray { element: Box<TypeV> },
}

pub open spec fn view_count(c: Count) -> CountV
    decreases c,
{
    match c {
        Count::Literal(n) => CountV::Literal(n),
        Count::Dynamic(t) => CountV::Dynamic(Box::new(view_type(*t))),
    }
}

pub open spec fn view_container_field(f: ContainerField) -> ContainerFieldV
    decreases f,
{
    match f {
        ContainerField::Named { name, field_type } => ContainerFieldV::Named {
            name: name@,
            field_type: view_type(field_type),
        },
        ContainerField::Anon { field_type } => ContainerFieldV::Anon {
            field_type: view_type(field_type),
        },
    }
}

pub open spec fn view_container_fields(s: Seq<ContainerField>) -> Seq<ContainerFieldV>
    decreases s,
{
    if s.len() == 0 {
        Seq::empty()
    } else {
        view_container_fields(s.drop_last()).push(view_container_field(s.last()))
    }
}

pub open spec fn view_cases(s: Seq<(String, Type)>) -> Seq<(Seq<char>, TypeV)>
    decreases s,
{
    if s.len() == 0 {
        Seq::empty()
    } else {
        view_cases(s.drop_last()).push((s.last().0@, view_type(s.last().1)))
    }
}

pub open spec fn view_bitfield_entry(e: BitFieldEntry) -> BitFieldEntryV {
    BitFieldEntryV { name: e.name@, size: e.size, signed: e.signed }
}

pub open spec fn view_bitfield_entries(s: Seq<BitFieldEntry>) -> Seq<BitFieldEntryV>
    decreases s,
{
    if s.len() == 0 {
        Seq::empty()
    } else {
        view_bitfield_entries(s.drop_last()).push(view_bitfield_entry(s.last()))
    }
}

pub open spec fn view_mapping(s: Seq<(String, String)>) -> Seq<(Seq<char>, Seq<char>)>
    decreases s,
{
    if s.len() == 0 {
        Seq::empty()
    } else {
        view_mapping(s.drop_last()).push((s.last().0@, s.last().1@))
    }
}

pub open spec fn view_type(t: Type) -> TypeV
    decreases t,
{
    match t {
        Type::TypeReference(name) => TypeV::TypeReference(name@),
        Type::PString { count, encoding } => TypeV::PString {
            count: view_count(count),
            encoding: match encoding {
                Some(e) => Some(e@),
                None => None,
            },
        },
        Type::Array { count, element } => TypeV::Array {
            count: view_count(count),
            element: Box::new(view_type(*element)),
        },
        Type::Container { fields } => TypeV::Container { fields: view_container_fields(fields@) },
        Type::Mapper { key_type, mapping } => TypeV::Mapper {
            key_type: key_type@,
            mapping: view_mapping(mapping@),
        },
        Type::Switch { compare_to, cases, default_case } => TypeV::Switch {
            compare_to: Box::new(view_type(*compare_to)),
            cases: view_cases(cases@),
            default_case: match default_case {
                Some(d) => Some(Box::new(view_type(*d))),
                None => None,
            },
        },
        Type::BitField { fields } => TypeV::BitField { fields: view_bitfield_entries(fields@) },
        Type::Optional(inner) => TypeV::Optional(Box::new(view_type(*inner))),
        Type::Buffer { count } => TypeV::Buffer { count: view_count(count) },
        Type::EntityMetadataLoop { end_val, element } => TypeV::EntityMetadataLoop {
            end_val,
            element: Box::new(view_type(*element)),
        },
        Type::EntityMetadataItem { compare_to } => TypeV::EntityMetadataItem {
            compare_to: compare_to@,
        },
        Type::ParticleData { compare_to } => TypeV::ParticleData { compare_to: compare_to@ },
        Type::TopBitSetTerminatedArray { element } => TypeV::TopBitSetTerminatedArray {
            element: Box::new(view_type(*element)),
        },
    }
}

impl View for Type {
    type V = TypeV;

    open spec fn view(&self) -> TypeV {
        view_type(*self)
    }
}

impl View for Count {
    type V = CountV;

    open spec fn view(&self) -> CountV {
        view_count(*self)
    }
}

impl View for ContainerField {
    type V = ContainerFieldV;

    open spec fn view(&self) -> ContainerFieldV {
        view_container_field(*self)
    }
}

/// One step on the JSON path from the document root to a node: an object
/// key or an array index.
#[derive(Debug, PartialEq, Eq)]
pub enum PathSegment {
    Key(String),
    Index(usize),
}

/// Mathematical mirror of `PathSegment`.
pub enum PathSegmentV {
    Key(Seq<char>),
    Index(int),
}

impl View for PathSegment {
    type V = PathSegmentV;

    open spec fn view(&self) -> PathSegmentV {
        match self {
            PathSegment::Key(k) => PathSegmentV::Key(k@),
            PathSegment::Index(i) => PathSegmentV::Index(*i as int),
        }
    }
}

/// Why a parse failed.
///
/// `MissingFunctionName` is the shape failure of a function-call array whose
/// first element is not a string; every other value of the wrong shape in a
/// type position is a `ShapeMismatch`.
#[derive(Debug, PartialEq, Eq)]
pub enum ErrorKind {
    /// The value matches no recognized type-position shape.
    ShapeMismatch,
    /// A 2-element array whose first element is not a string.
    MissingFunctionName,
    /// The function name is not in the closed recognized set.
    UnknownFunction(String),
    /// The second element of a function-call array is absent or does not
    /// fill the argument record of the named function.
    MissingOrMalformedArgument(String),
    /// A nested object (container field, bitfield entry, mapping value)
    /// does not match its required shape.
    MalformedSubField,
}

/// Mathematical mirror of `ErrorKind`.
pub enum ErrorKindV {
    ShapeMismatch,
    MissingFunctionName,
    UnknownFunction(Seq<char>),
    MissingOrMalformedArgument(Seq<char>),
    MalformedSubField,
}

impl View for ErrorKind {
    type V = ErrorKindV;

    open spec fn view(&self) -> ErrorKindV {
        match self {
            ErrorKind::ShapeMismatch => ErrorKindV::ShapeMismatch,
            ErrorKind::MissingFunctionName => ErrorKindV::MissingFunctionName,
            ErrorKind::UnknownFunction(name) => ErrorKindV::UnknownFunction(name@),
            ErrorKind::MissingOrMalformedArgument(name) => ErrorKindV::MissingOrMalformedArgument(
                name@,
            ),
            ErrorKind::MalformedSubField => ErrorKindV::MalformedSubField,
        }
    }
}

/// A parse failure: what went wrong, and the JSON path from the root of the
/// parsed value to the offending node.
#[derive(Debug, PartialEq, Eq)]
pub struct ParseError {
    pub kind: ErrorKind,
    pub path: Vec<PathSegment>,
}

/// Mathematical mirror of `ParseError`.
pub struct ParseErrorV {
    pub kind: ErrorKindV,
    pub path: Seq<PathSegmentV>,
}

impl View for ParseError {
    type V = ParseErrorV;

    open spec fn view(&self) -> ParseErrorV {
        ParseErrorV { kind: self.kind@, path: self.path@.map(|i: int, s: PathSegment| s@) }
    }
}

} // verus!
