//! Archival of a remote media catalog: a pagination state machine over a
//! token-based listing, a deduplicating record ledger, and the admission and
//! completion bookkeeping that gives each catalog entry at most one transfer.

pub mod date;
pub mod item;
pub mod media_item_iter;
pub mod metadata;
pub mod archiver;
pub mod style;
