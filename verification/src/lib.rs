//! Verified core of the Axiom rules engine.
//!
//! A program is a set of named rules over entities, periods and relations. The
//! modules of this crate hold the rule model, the reference interpreter, the
//! columnar evaluators and the checks that run before them. Every function
//! states what it returns over the mathematical models defined next to it.
pub mod agreement;
pub mod api;
pub mod assessment;
pub mod batch;
pub mod bounds;
pub mod bulk;
pub mod bulk_column;
pub mod catalog;
pub mod cli;
pub mod column;
pub mod compile;
pub mod compiler;
pub mod constant_agreement;
pub mod date;
pub mod date_bounds;
pub mod date_use;
pub mod decimal;
pub mod dense;
pub mod dense_agreement;
pub mod dependencies;
pub mod engine;
pub mod equivalence;
pub mod error;
pub mod error_text;
pub mod exactly_one;
pub mod executor;
pub mod format;
pub mod frames;
pub mod idle;
pub mod inputs;
pub mod kinds;
pub mod laws;
pub mod lazy;
pub mod lifetime;
pub mod lifetime_api;
pub mod lifetime_executor;
pub mod lines;
pub mod lowering;
pub mod member_agreement;
pub mod migrate;
pub mod mixing;
pub mod model;
pub mod module_text;
pub mod pins;
pub mod reading;
pub mod reductions;
pub mod related_agreement;
pub mod relation_direction;
pub mod relation_typing;
pub mod request;
pub mod rewriting;
pub mod schedule;
pub mod semantics;
pub mod termination;
pub mod text;
pub mod trace;
pub mod usages;

use vstd::prelude::*;

verus! {

/// Version of the engine, for bindings that report provenance.
pub const ENGINE_VERSION: &'static str = "0.2.2";

} // verus!
