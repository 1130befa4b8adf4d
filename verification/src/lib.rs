//! Group membership and trust lifecycle engine.
//!
//! The crate keeps the membership, role and audit state of named groups and
//! implements the transitions a user can take through a group: being added,
//! promoted, renewed, transferred, revoked and expired. Every mutation is
//! recorded in an append-only log, and every externally visible transition
//! yields the calls that bring the identity service and the mail sender up to
//! date. The engine itself talks to neither: its caller makes the calls once
//! the change stands, and hands back what became of them.
//!
//! The state lives in a [`store::Store`]. The operations take a store that
//! obeys the rules of its tables ([`store::Store::wf`]) to a store that obeys
//! them. The modules, from the ground up:
//!
//! - [`types`], [`clock`], [`error`], [`model`], [`mail`]: the vocabulary.
//! - [`store`], [`audit`]: the tables, their rules, and a check of the rules.
//! - [`group`], [`member`], [`user`], [`pending`], [`retire`]: the operations
//!   on the tables.
//! - [`lifecycle`], [`expirations`], [`consolidate`], [`import`]: the
//!   transitions of a membership, the scheduled sweeps, the comparison with
//!   the identity service, and the import of whole groups.
//! - [`listing`], [`paging`]: the members of a group as they are shown.
//! - [`api`]: the administrative surface.
//! - [`laws`]: what holds of the operations taken together.

pub mod api;
pub mod audit;
pub mod batch;
pub mod clock;
pub mod consolidate;
pub mod error;
pub mod expirations;
pub mod group;
pub mod import;
pub mod laws;
pub mod lifecycle;
pub mod listing;
pub mod mail;
pub mod member;
pub mod model;
pub mod paging;
pub mod partition;
pub mod pending;
pub mod retire;
pub mod sequences;
pub mod store;
pub mod types;
pub mod user;
