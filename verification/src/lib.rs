//! A verified model of an event-log indexing engine for an
//! ethereum-compatible ledger.
//!
//! The engine discovers imported ledger blocks that are not yet indexed,
//! claims a bounded batch of them, extracts structured log records from each
//! block's transaction receipts (under one of several historical storage
//! schema versions), and commits the records atomically and idempotently
//! into a relational store.
//!
//! The store and the ledger client are outside collaborators; this crate
//! holds the verified core: the record types, the schema-version resolver,
//! the receipt decoder, the batch-claim state machine over an exact model of
//! the two tables, and the one-cycle pipeline with its atomicity and
//! idempotence contracts.

pub mod config;
pub mod extract;
pub mod laws;
pub mod pipeline;
pub mod records;
pub mod schema;
pub mod store;

pub use records::Log;
