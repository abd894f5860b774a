//! Loader for protodef-style schema documents: JSON descriptions of binary
//! wire-format layouts. The library models one JSON document value, inspects
//! every "type" position in it, and builds a strongly typed, recursively
//! nested tree of type descriptors, or reports a structured error carrying
//! the JSON path to the offending node.

pub mod ast;
pub mod grammar;
pub mod json;
pub mod parser;
pub mod props;
pub mod tables;
