//! Change tracking for remotely hosted documents: word-level differences
//! between two snapshots of a text, and the append-only ledger of revisions
//! that a periodic reconciliation builds from them.

pub mod changes;
pub mod extract;
pub mod ledger;
pub mod listing;
pub mod projection;
pub mod reconcile;
pub mod requests;
pub mod sequences;
pub mod strings;
pub mod tokens;
