//! An attribute-based access-control engine: a declarative condition
//! language over role and ownership predicates, compiled once into a
//! fixed privilege table, and evaluated per access against a
//! per-request, memoizing authorization context.
//!
//! Evaluation itself touches no storage. Where a condition needs a
//! stored fact — the acting user's role rank, or whether the acting user
//! instructs at the target's training location — the evaluator hands the
//! caller a `Pending` demand naming the lookup; the caller fetches the
//! fact, records it in the context, and evaluates again. A context
//! records each fact at most once and holds it for the rest of its life,
//! so a fact is looked up at most once per context however many checks
//! share it.

pub mod compile;
pub mod conditions;
pub mod roles;
pub mod table;
