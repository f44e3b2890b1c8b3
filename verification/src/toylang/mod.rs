//! The language itself.
pub mod ast;
pub mod definitions;
pub mod extent;
pub mod grammar;
pub mod lexer;
pub mod lower;
pub mod meaning;
pub mod messages;
pub mod parser;
pub mod reading;
pub mod refusals;
pub mod registry;
pub mod scope;
pub mod spelling;
pub mod syntax;
pub mod texts;
pub mod typing;
pub mod validity;
