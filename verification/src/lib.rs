//! An embeddable scripting-language engine.
//!
//! A source is read through a position-tracking reader
//! ([`char_reader`]), cut into tokens ([`lexer`]) and parsed into a tree in
//! which every name has given way to its address ([`grammar`], [`parser`],
//! [`resolver`], [`ast`]). The tree is evaluated against a store of frames,
//! vectors, maps and strings ([`semantics`], [`eval`], [`store`],
//! [`value`]). The host registers native callables, compiles sources and
//! calls their functions through the engine ([`bleep`]); the operators of
//! the language are native callables like any other, bound to names that
//! a script may bind anew.
//!
//! What a source means is defined twice over: [`grammar`] says which tree
//! its tokens denote, [`semantics`] says what the tree computes. The
//! parser and the evaluator compute exactly that. On top of the two
//! definitions stand the laws of the language: how names resolve
//! ([`resolver`]), how `break` and `return` travel and what persists in the
//! store ([`laws`]), that containers and captured frames are shared
//! ([`store`]), and that a compiled program never reaches for a variable
//! or a constant that is not there ([`resolution`], [`soundness`],
//! [`safety`]).
//!
//! Numbers are double-precision, but the engine does no floating-point
//! arithmetic: it holds a number as the bits of its encoding, and leaves
//! the arithmetic to the native callables of the host.

pub mod ast;
pub mod bleep;
pub mod char_reader;
pub mod debug;
pub mod error;
pub mod eval;
pub mod grammar;
pub mod laws;
pub mod lexer;
pub mod parser;
pub mod resolution;
pub mod resolver;
pub mod safety;
pub mod semantics;
pub mod soundness;
pub mod store;
pub mod text;
pub mod value;
