//! Laws of the escrow ledger, stated and proved over the transition
//! functions of `model`. Each executable operation is proved equal to its
//! transition, so these laws carry over to any sequence of calls.

use crate::model::EscrowError;
use crate::model::EscrowView;
use crate::model::LedgerView;
use crate::model::spec_create;
use crate::model::spec_get;
use crate::model::spec_settle;
use vstd::prelude::*;

verus! {

/// Uniqueness: after a `create` for `id` succeeds, a second `create` for
/// the same `id` fails with `AlreadyExists`, regardless of its argument
/// values, and leaves the ledger — the original record included —
/// unchanged.
pub proof fn lemma_create_unique(
    m: LedgerView,
    id: Seq<char>,
    sender1: Seq<char>,
    receiver1: Seq<char>,
    amount1: int,
    sender2: Seq<char>,
    receiver2: Seq<char>,
    amount2: int,
)
    requires
        spec_create(m, id, sender1, receiver1, amount1).1 == Ok::<(), EscrowError>(()),
    ensures
        ({
            let m1 = spec_create(m, id, sender1, receiver1, amount1).0;
            spec_create(m1, id, sender2, receiver2, amount2) == (
                m1,
                Err::<(), EscrowError>(EscrowError::AlreadyExists),
            )
        }),
{
}

/// Read-your-write: after `create(id, sender, receiver, amount)` succeeds,
/// `get(id)` returns a record with exactly those fields and
/// `completed == false`.
pub proof fn lemma_read_your_write(
    m: LedgerView,
    id: Seq<char>,
    sender: Seq<char>,
    receiver: Seq<char>,
    amount: int,
)
    requires
        spec_create(m, id, sender, receiver, amount).1 == Ok::<(), EscrowError>(()),
    ensures
        spec_get(spec_create(m, id, sender, receiver, amount).0, id) == Some(
            EscrowView { id, sender, receiver, amount, completed: false },
        ),
{
}

/// Terminality: once a settlement (`release` or `refund`, both are the one
/// transition `spec_settle`) succeeds for `id`, the next settlement for
/// `id` fails with `AlreadyCompleted`, for any caller, and leaves the
/// ledger unchanged. Since the failing call leaves the ledger unchanged,
/// this extends to every subsequent settlement call.
pub proof fn lemma_settle_terminal(
    m: LedgerView,
    id: Seq<char>,
    caller1: Seq<char>,
    caller2: Seq<char>,
)
    requires
        spec_settle(m, id, caller1).1 == Ok::<(), EscrowError>(()),
    ensures
        ({
            let m1 = spec_settle(m, id, caller1).0;
            spec_settle(m1, id, caller2) == (
                m1,
                Err::<(), EscrowError>(EscrowError::AlreadyCompleted),
            )
        }),
{
}

/// Authorization: settlement of an open record fails with `NotSender`
/// whenever the caller is not the record's sender — the receiver included —
/// and leaves the ledger unchanged, so the record's `completed` flag
/// remains false.
pub proof fn lemma_authorization(m: LedgerView, id: Seq<char>, caller: Seq<char>)
    requires
        m.dom().contains(id),
        !m[id].completed,
        caller != m[id].sender,
    ensures
        spec_settle(m, id, caller) == (m, Err::<(), EscrowError>(EscrowError::NotSender)),
        spec_get(m, id) == Some(m[id]),
        !m[id].completed,
{
}

/// Missing record: on an identifier with no record, settlement fails with
/// `NotFound` and leaves the ledger unchanged, and a read returns the
/// absent value.
pub proof fn lemma_missing_record(m: LedgerView, id: Seq<char>, caller: Seq<char>)
    requires
        !m.dom().contains(id),
    ensures
        spec_settle(m, id, caller) == (m, Err::<(), EscrowError>(EscrowError::NotFound)),
        spec_get(m, id) == None::<EscrowView>,
{
}

/// Idempotent read: the result of `get` is a function of the ledger state
/// alone, so repeated reads with no intervening mutation — `get` itself
/// takes the ledger by shared reference and mutates nothing — return
/// identical values.
pub proof fn lemma_get_deterministic(m1: LedgerView, m2: LedgerView, id: Seq<char>)
    requires
        m1 == m2,
    ensures
        spec_get(m1, id) == spec_get(m2, id),
{
}

} // verus!
