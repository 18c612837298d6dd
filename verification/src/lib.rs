//! A node-graph compilation and execution engine for an interactive
//! graphics editor, together with the exact-arithmetic geometry kernel its
//! path nodes operate on.
//!
//! The user edits a [`document::DocumentGraph`]; [`compiler::compile`] turns a
//! snapshot of it into an immutable, topologically ordered
//! [`proto::ProtoGraph`]; [`executor::evaluate`] runs that artifact, consulting
//! a fingerprint-keyed [`cache::Cache`] so unchanged subgraphs are not
//! recomputed. Scalar values and path coordinates are exact rationals
//! ([`num::Rat`]), which keeps every result bit-exact and deterministic.

pub mod bezier;
pub mod broadcast;
pub mod cache;
pub mod compiler;
pub mod document;
pub mod executor;
pub mod num;
pub mod proto;
pub mod registry;
pub mod subpath;
pub mod value;
