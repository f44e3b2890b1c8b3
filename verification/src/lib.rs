//! Toylang: a small language whose types and functions are compiled alongside ordinary Rust code.
//!
//! The library holds everything about Toylang that can be said without a compiler session: the
//! lexer and the parser, the registry of definitions and the layout of its structs, the lowering
//! of function bodies to a control-flow graph, and the decisions that the compiler hooks take.
pub mod callbacks;
pub mod driver;
pub mod execution;
pub mod mir;
pub mod mir_helpers;
pub mod names;
pub mod oracle;
pub mod queries;
pub mod text;
pub mod toylang;
