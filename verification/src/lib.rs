//! A front end for a small turtle-graphics language: a token reader, an
//! expression compiler, a parser and an interpreter that turn a program text
//! into line segments and text labels.
pub mod environment;
pub mod error;
pub mod expression;
pub mod interpreter;
pub mod logo_manager;
pub mod names;
pub mod number;
pub mod parser;
pub mod precedence;
pub mod text;
