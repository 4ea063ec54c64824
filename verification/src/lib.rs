//! Verified core of a keyboard-layout optimizer.
//!
//! A layout is a bijection between the 95 printable ASCII characters
//! (codes 32..=126, stored as code minus 32) and 95 keypress actions
//! (0 = space, 1..=47 = a plain key, 48..=94 = the same key with shift
//! held).  This crate verifies the layout representation and its
//! invariants, the parser and serializer for the 94-character layout
//! text form, the constrained swap neighborhood used by the annealing
//! search, the triple-lookup filter, and the per-word decomposition of
//! the cost function into table accesses.

pub mod layout;
pub mod swap;
pub mod tables;
pub mod objective;
pub mod corpus;
pub mod keyboard;
