//! A small query language over a corpus of wiki-like articles.
//!
//! A command such as
//! `count(set(flatten(map(title:contains("abc"), category))))` is compiled
//! and evaluated in stages, each of which is a module of [`engine`]:
//!
//! - [`engine::tokenizer`] turns the text into tokens,
//! - [`engine::parser`] builds the syntax tree,
//! - [`engine::semantic`] infers and checks the types
//!   ([`engine::semantic_type`]) and writes them into the tree,
//! - [`engine::ir`] lowers the tree to instructions and flattens them into a
//!   schedule,
//! - [`engine::vm`] runs the schedule against the indices of [`index`] and
//!   yields a value ([`engine::value`]),
//! - [`engine::printer`] renders the value.
//!
//! [`engine::query`] does all of it in one call, [`engine::message`] words
//! the errors, and [`engine::safety`] shows that a command which compiles
//! never runs into a malformed schedule.
//!
//! Every function states what it computes over mathematical values: a type
//! such as [`engine::ir::Instruction`] has a view such as
//! [`engine::ir::InstModel`], and the contracts speak of the views.

pub mod engine;
pub mod index;
pub mod model;
pub mod text;
