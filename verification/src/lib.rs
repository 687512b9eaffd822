//! A verified escrow ledger: a state machine over records addressed by an
//! identifier, held in a key-value store modelled by the ledger itself.
//!
//! Each record is created once, read freely, and settled (released or
//! refunded) at most once, by its sender only. The store abstraction is
//! explicit: `EscrowContract` owns the mapping from identifier to record,
//! and every operation is a single atomic transition whose effect is pinned
//! by the spec-level transition functions in `model`.
//!
//! The `caller` argument of the settlement operations is assumed to be
//! authenticated by the hosting environment before a call reaches this
//! library; the library only compares it against the stored sender.

mod laws;
mod ledger;
mod model;

pub use laws::lemma_authorization;
pub use laws::lemma_create_unique;
pub use laws::lemma_get_deterministic;
pub use laws::lemma_missing_record;
pub use laws::lemma_read_your_write;
pub use laws::lemma_settle_terminal;
pub use ledger::Escrow;
pub use ledger::EscrowContract;
pub use ledger::decide_create;
pub use ledger::decide_settle;
pub use model::EscrowError;
pub use model::EscrowView;
pub use model::LedgerView;
pub use model::spec_create;
pub use model::spec_get;
pub use model::spec_settle;
pub use model::spec_settle_record;
