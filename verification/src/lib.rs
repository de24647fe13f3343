//! Derived keys for objects under generation rules, kept consistent as
//! objects and rules come and go.
//!
//! A *field* names an attribute; an *object* carries attributes; a *rule*
//! derives a key from the attribute that its field names, by copying it or
//! by rewriting it with a regular expression; a *key* is what a rule
//! derived for an object. Whenever an object or a rule is created, changed
//! or deleted, the keys change with it, in the same transaction, so that
//! every rule has exactly one key for every object.
//!
//! - [`rules`], [`objects`], [`fields`], [`keys`], [`error`]: the values,
//!   the evaluation of a rule on an object, and the repositories as
//!   interfaces.
//! - [`evaluator`]: a rule at work on many objects, with its pattern
//!   compiled once.
//! - [`derivation`]: the keys of one object under all rules, and of all
//!   objects under one rule.
//! - [`state`]: what a store holds, and what every operation makes of it.
//! - [`database`]: a store in memory: four tables, and what turns stored
//!   rows into values.
//! - [`repository`]: the repositories on that store, and the decisions on
//!   the keys that every repository shares, on whatever store.
//! - [`subscriber`]: the handler of resync messages.
//! - [`grpc`]: the servers that answer calls from the repositories.
//! - [`laws`]: what holds of all this, proved: every rule keeps exactly one
//!   key for every object, a message that comes twice is handled twice and
//!   changes nothing the second time, a deleted rule takes its keys with it
//!   and no others.
//! - [`consistency`]: the keys are at all times the keys that the rules
//!   derive for the objects, and no others; and when a change of an object
//!   or a rule is sure to succeed.
//! - [`sequences`]: searching rows and collecting outcomes.

pub mod consistency;
pub mod database;
pub mod derivation;
pub mod error;
pub mod evaluator;
pub mod fields;
pub mod grpc;
pub mod keys;
pub mod laws;
pub mod objects;
pub mod repository;
pub mod rules;
pub mod sequences;
pub mod state;
pub mod subscriber;
