//! Mathematical model of the escrow ledger.
//!
//! The ledger is modelled as a `Map` from identifier (a sequence of
//! characters) to an `EscrowView`, the spec-level image of a stored record.
//! Each operation of the ledger is modelled by a transition function that
//! returns the new map together with the operation's result; the executable
//! operations in `ledger` are proved to implement these transitions exactly.

use vstd::prelude::*;

verus! {

/// The error taxonomy of the ledger. The four kinds are mutually exclusive
/// per call: each operation reports at most one of them, determined by the
/// first failing check in the documented order.
#[derive(Clone, Copy, Debug, PartialEq, Eq, Structural)]
pub enum EscrowError {
    /// A settlement operation referenced an identifier with no record.
    NotFound,
    /// Creation referenced an identifier that already has a record.
    AlreadyExists,
    /// A settlement operation referenced an already settled record.
    AlreadyCompleted,
    /// The settlement caller does not match the record's sender.
    NotSender,
}

/// Spec-level image of one escrow record.
pub ghost struct EscrowView {
    pub id: Seq<char>,
    pub sender: Seq<char>,
    pub receiver: Seq<char>,
    pub amount: int,
    pub completed: bool,
}

/// Spec-level image of the whole store: identifier to record.
pub type LedgerView = Map<Seq<char>, EscrowView>;

/// Transition of `create`: if the identifier is free, insert a fresh record
/// with `completed == false`; otherwise fail with `AlreadyExists` and leave
/// the map unchanged. No validation of sender, receiver or amount is
/// performed: any values are accepted.
pub open spec fn spec_create(
    m: LedgerView,
    id: Seq<char>,
    sender: Seq<char>,
    receiver: Seq<char>,
    amount: int,
) -> (LedgerView, Result<(), EscrowError>) {
    if m.dom().contains(id) {
        (m, Err(EscrowError::AlreadyExists))
    } else {
        (
            m.insert(id, EscrowView { id, sender, receiver, amount, completed: false }),
            Ok(()),
        )
    }
}

/// Transition of `get`: a pure read, the record if one exists.
pub open spec fn spec_get(m: LedgerView, id: Seq<char>) -> Option<EscrowView> {
    if m.dom().contains(id) {
        Some(m[id])
    } else {
        None
    }
}

/// Settlement decision on one existing record, checks in order: a settled
/// record fails with `AlreadyCompleted`; a caller other than the sender
/// fails with `NotSender`; otherwise the record is settled.
pub open spec fn spec_settle_record(rec: EscrowView, caller: Seq<char>) -> Result<
    EscrowView,
    EscrowError,
> {
    if rec.completed {
        Err(EscrowError::AlreadyCompleted)
    } else if rec.sender != caller {
        Err(EscrowError::NotSender)
    } else {
        Ok(EscrowView { completed: true, ..rec })
    }
}

/// Transition of `release` and of `refund` (the two are one transition):
/// checks in order: a missing record fails with `NotFound`; then the record
/// decision of `spec_settle_record`. On success the record is overwritten
/// with its settled form; on any failure the map is unchanged.
pub open spec fn spec_settle(m: LedgerView, id: Seq<char>, caller: Seq<char>) -> (
    LedgerView,
    Result<(), EscrowError>,
) {
    if !m.dom().contains(id) {
        (m, Err(EscrowError::NotFound))
    } else {
        match spec_settle_record(m[id], caller) {
            Ok(settled) => (m.insert(id, settled), Ok(())),
            Err(e) => (m, Err(e)),
        }
    }
}

} // verus!
