//! Invariant verification for record types.
//!
//! A record type declares, per field, zero or more invariants: boolean
//! expressions over the record's integer fields, given as source text.
//! From such a declaration this library builds a [`constitution::Constitution`],
//! the compile-time artifact behind two capabilities:
//!
//! 1. a synchronous runtime check that evaluates the declared conditions in
//!    declaration order against a live instance and reports the first
//!    violation, and
//! 2. a formal-verification surface that exposes the complete invariant list,
//!    a 256-bit fingerprint of the instance's integer state, a field-value
//!    provider, and a hand-off to an external proof context.
//!
//! Invariant texts are validated against a dedicated expression grammar when
//! the constitution is built; a text that does not parse, or that names an
//! unknown field, aborts generation for the whole type, so no invalid
//! invariant ever reaches a running check.

pub mod decl;
pub mod expr;
pub mod constitution;
pub mod prover;
