//! Materialization of typed records onto a hierarchical, byte-addressed
//! key-value store.
//!
//! - [`store`] holds the store capability ([`store::Read`], [`store::Write`]),
//!   views of a store under a path ([`store::Store`]) and stores with several
//!   owners ([`store::Registry`], [`store::Shared`]).
//! - [`state`] holds the materialization contract ([`state::State`]) with its
//!   leaves ([`state::Leaf`]) and its records ([`state::Record`]).
//! - [`wiring`] works out, from the declaration of a struct, how its fields
//!   are laid out.
//!
//! A record at path `p` keeps the field declared at position `i` under
//! `p + [i]`, whatever the field is called. Paths concatenate, so a record
//! inside a record at position `j` keeps its own field `i` under
//! `p + [j] + [i]`.

pub mod error;
pub mod state;
pub mod store;
pub mod wiring;

pub use error::Error;
