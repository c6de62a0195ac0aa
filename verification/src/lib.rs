//! Persistence core of a personal flight-logging application.
//!
//! Two independent components:
//! - a versioned, forward-only schema-migration engine that brings an
//!   embedded store up to date exactly once per schema version, in
//!   strictly ascending version order, aborting on the first failure;
//! - the decision logic of a credential-shielded weather lookup, which
//!   normalizes the outcome of one outbound HTTP exchange into either
//!   the raw response body or a single descriptive failure message.

pub mod engine;
pub mod ledger;
pub mod migration;
pub mod schema;
pub mod store;
pub mod weather;
