//! What holds of evaluation and of the operations around it, over all their inputs.
pub mod ambiguity;
pub mod answers;
pub mod arguments;
pub mod batches;
pub mod columns;
pub mod compiling;
pub mod directions;
pub mod exclusive;
pub mod facts;
pub mod formulas;
pub mod framing;
pub mod gates;
pub mod histories;
pub mod judgments;
pub mod lifetimes;
pub mod lowered;
pub mod members;
pub mod migrating;
pub mod naming;
pub mod overriding;
pub mod parts;
pub mod pinning;
pub mod place;
pub mod provisions;
pub mod related;
pub mod rules;
pub mod sites;
pub mod spans;
pub mod splitting;
pub mod traces;
pub mod typing;
pub mod using;
pub mod writing;
