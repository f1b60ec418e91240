//! A parser for a small templating language: plain text mixed with
//! `{{ expression }}` interpolations and `{% statement %}` blocks.
//!
//! [`parse`] turns a source into a tree of [`Node`]s, or says at which offset
//! the source stops being a template. The tree borrows its text from the
//! source. Nothing is evaluated and nothing is trimmed: the tree records
//! where trim markers stood and where the whitespace of plain text begins
//! and ends, for whoever renders it.
//!
//! What the parser accepts, and what it makes of it, is defined in
//! [`grammar`], as functions on byte sequences. Every reader in [`token`],
//! [`expr`], [`content`] and [`template`] is proved to do what the grammar
//! says. [`laws`] and [`readings`] hold what follows from the grammar: that
//! splitting plain text loses nothing, that plain text ends at the first
//! opening delimiter, which shapes a tree can have, and how filter chains,
//! comparisons and conditionals read.

pub mod bytes;
pub mod content;
pub mod expr;
pub mod grammar;
pub mod laws;
pub mod lemmas;
pub mod readings;
pub mod shape;
pub mod template;
pub mod text;
pub mod token;
pub mod tree;

pub use crate::content::{split_ws_parts, take_content};
pub use crate::expr::expr_any;
pub use crate::template::{parse, ParseFailure, Rule};
pub use crate::tree::{Cond, Expr, Node, Target, WS};
