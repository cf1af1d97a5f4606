//! Shared core of a family of small single-user record services.
//!
//! Every service follows one pattern: a shared-secret credential gates all
//! mutating requests, records of several variants live in an append-mostly
//! store, and every mutation is followed by a fresh, bounded, ordered
//! listing of current state.  This crate holds that pattern: the credential
//! store and guard, the variant codec with its tagged-input /
//! untagged-output asymmetry, the per-family record stores with their
//! windowing and ordering rules, the composed mutation pipelines, the
//! static-asset resolver, and the lighting-gateway decisions.

pub mod assets;
pub mod auth;
pub mod error;
pub mod exercise;
pub mod gateway;
pub mod habits;
pub mod items;
pub mod wire;
pub mod clock;
pub mod credential;
pub mod text;
