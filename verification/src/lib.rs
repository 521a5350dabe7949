//! Core of a file-organising assistant.
//!
//! The library holds the logic that deserves proof: building classification
//! prompts, parsing and sanitising classifier responses, the transactional
//! file-relocation engine with conflict-safe auto-renaming and rollback, the
//! bounded ledger of corrections and activity, and the debounced watcher state
//! machine.  Everything that touches the outside world (HTTP, the real file
//! system, OCR, persistence) stays in a thin unverified shell that hands this
//! library plain values and takes plain values back.

pub mod text;
pub mod trusted;
pub mod errors;
pub mod prompt;
pub mod fsys;
pub mod relocate;
pub mod ledger;
pub mod classify;
pub mod watch;
pub mod preview;
pub mod scan;
pub mod rulematch;
