//! An extensible, dialect-based IR core: a context that registers dialects
//! and interns types, attribute values with a textual syntax that parses and
//! prints, capability queries, and a located error model.

pub mod text;
pub mod location;
pub mod result;
pub mod identifier;
pub mod dialect;
pub mod types;
pub mod context;
pub mod bignum;
pub mod apint;
pub mod attribute;
pub mod builtin_attributes;
pub mod llvm_attributes;
pub mod attr_interfaces;
pub mod printer;
pub mod parser;
pub mod operation;
pub mod op_interfaces;
pub mod llvm_ops;
pub mod laws;
pub mod round_trip;
