//! A parser for a small language in which every unit, a sub, is written in
//! square brackets: `[name[ child child ... ]modifier]`.
//!
//! A source text is split into grapheme clusters, wrapped in one outer sub,
//! and parsed by a state machine that calls itself once for every nested sub.
//! The parsed program is an arena of nodes that refer to each other by index.
//!
//! - [`grapheme`], [`literal`], [`digits`]: graphemes and their classes, the
//!   classifier of tokens, decimal numerals.
//! - [`machine`], [`grammar`]: the transition table, and the language as the
//!   run of the machine.
//! - [`parser`], [`program`]: the parser and the parsed program.
//! - [`value`], [`result`]: nodes and values, successes and errors.
//! - [`canon`], [`tree`]: the canonical source of a program, and its picture
//!   as text.
//! - [`position`], [`structure`], [`shape`], [`soundness`], [`roundtrip`],
//!   [`laws`]: what is proved of every parse.

pub mod canon;
pub mod digits;
pub mod grammar;
pub mod grapheme;
pub mod laws;
pub mod literal;
pub mod machine;
pub mod parser;
pub mod position;
pub mod program;
pub mod result;
pub mod roundtrip;
pub mod shape;
pub mod soundness;
pub mod structure;
pub mod tree;
pub mod value;
