//! Extraction of a normalized, deterministic schema manifest from
//! JSON-Schema-shaped documents: named schema definitions, field types and
//! tool-parameter descriptors, all with lexicographically sorted output.

pub mod cli;
pub mod codegen;
pub mod fragment;
pub mod order;
