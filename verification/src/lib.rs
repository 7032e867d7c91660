//! The front end of a compiler for Lily, a small language of the ML family
//! in which indentation delimits blocks.
//!
//! Source text goes through three stages. The lexer reads raw tokens and
//! gives them their layout: explicit `Begin`, `Separator` and `End` tokens in
//! place of indentation. The parser splits the tokens into declaration
//! groups, reads the fixity declarations, and parses every other group with
//! a Pratt parser; a group that fails does not stop the others. The syntax
//! tree of the later stages keeps its nodes in an arena, each kind of node
//! interned.
//!
//! What each stage computes is stated as a function on sequences, and the
//! code is proved to compute it.

pub mod ast;
pub mod chars;
pub mod interner;
pub mod lexer;
pub mod lines;
pub mod parser;
pub mod tc;
pub mod token;
