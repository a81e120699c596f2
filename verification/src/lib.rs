//! The semantic front end of a compiler for a language with modules and
//! generics: the hierarchical scope graph in which declarations are
//! registered and looked up, and the maker that turns the registered
//! declarations into items.
//!
//! - [`name_resolution`] holds module paths, the scope graph with its
//!   collision rules and navigation queries, the mathematical model that the
//!   contracts are stated over, and the laws proved of it.
//! - [`visitors`] holds the maker and the order of its work.
//! - [`ast`] holds the items that the maker produces and the table of
//!   symbols that it assigns them to.
//! - [`parser`] holds the view of a syntax node that the passes work on.
//! - [`common`] holds the error values.
//!
//! Every function is verified against its contract. The two outside
//! collections that a scope is built on, an insertion-ordered map and a
//! write-once cell, are described in `name_resolution::item_map` and
//! `name_resolution::source_cell` by contracts that are taken on trust.

pub mod ast;
pub mod common;
pub mod name_resolution;
pub mod parser;
pub mod visitors;
