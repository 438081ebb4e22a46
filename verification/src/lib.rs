//! A compiler from a compact textual description of a finite-state machine's
//! transitions to a complete, validated, dense lookup table.
//!
//! The surface syntax is a comma-separated list of rules of the shape
//! `Prev ( Event )? => Next`, where each symbol is an identifier or the
//! reserved `$` marker standing for the name `Default`.  The compiler
//! discovers the distinct state and event names, assigns each a stable
//! integer id, and resolves every `(state, event)` cell of the table through
//! a deterministic fallback policy: explicit match, self-loop shortcut,
//! designated default state, or a compile error.

pub mod laws;
pub mod parse;
pub mod table;
