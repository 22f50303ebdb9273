//! Change-notification broker and the helpers that ship with it.
//!
//! The broker keeps a registry of watched resources and a table of client
//! sessions, turns the records of an append-only change log into per-session
//! deltas, and speaks a compact text protocol with its clients. It does no
//! input or output of its own: the caller reads the log and the sockets and
//! hands the broker plain values.
//!
//! - [`model`] says what the broker holds and what each operation does, as
//!   mathematics; [`laws`] proves what holds of it in every reachable state,
//!   [`delivery`] what a whole batch and a whole message deliver.
//! - [`registry`], [`session`], [`server`] are the broker itself.
//! - [`protocol`] reads client messages, [`record`] log records.
//! - [`tail`] and [`handler`] decide what to do on a tick of the log reader
//!   and on a frame of a client connection.
//! - [`vql`] parses search expressions, [`key2slot`] keeps the slot table of
//!   the full-text index; [`ontology`], [`indexer`], [`query`] and
//!   [`camunda`] hold rules of the ontology loader, of the triple-store
//!   indexer, of the query endpoint and of the workflow engine's clients;
//!   [`reload`] tells when a store is to be opened again.
//!
//! Every executable function is verified against its contract, but for two
//! that call code from outside and whose contracts are taken on trust: the
//! checksum of the slot table's file ([`key2slot`]) and the UTF-8 check of
//! the expression parser ([`vql`]).

pub mod text;
pub mod keymap;
pub mod model;
pub mod laws;
pub mod delivery;
pub mod registry;
pub mod session;
pub mod protocol;
pub mod record;
pub mod server;
pub mod tail;
pub mod handler;
pub mod vql;
pub mod key2slot;
pub mod ontology;
pub mod indexer;
pub mod query;
pub mod reload;
pub mod camunda;
