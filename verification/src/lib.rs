//! Core of a branching-narrative game: a dialogue graph with skill
//! checks, a player model, an in-world clock, and a loader that repairs
//! untrusted input into a playable graph.
//!
//! The data model lives in [`dialogue`] and [`graph`], the defaulting
//! pass in [`validate`], the dice mechanic and traversal side effects in
//! [`resolve`], and the persisted byte format in [`ser`], [`parse`] and
//! [`codec`] - with a proof that saving and loading compose to the
//! identity on well-formed graphs.

pub mod codec;
pub mod dialogue;
pub mod edit;
pub mod graph;
pub mod parse;
pub mod player;
pub mod resolve;
pub mod ser;
pub mod text;
pub mod time;
pub mod validate;
