//! The executable escrow ledger.
//!
//! `EscrowContract` owns the store: a vector of records with pairwise
//! distinct identifiers, viewed as a `LedgerView` map. Every operation is
//! proved to implement the corresponding transition function of `model`
//! exactly, so on failure the store is provably unchanged.

use crate::model::EscrowError;
use crate::model::EscrowView;
use crate::model::LedgerView;
use crate::model::spec_create;
use crate::model::spec_get;
use crate::model::spec_settle;
use crate::model::spec_settle_record;
use vstd::prelude::*;

verus! {

/// One escrow record: immutable parties and amount, and the `completed`
/// flag that settlement sets exactly once.
pub struct Escrow {
    pub id: String,
    pub sender: String,
    pub receiver: String,
    pub amount: i128,
    pub completed: bool,
}

impl View for Escrow {
    type V = EscrowView;

    open spec fn view(&self) -> EscrowView {
        EscrowView {
            id: self.id@,
            sender: self.sender@,
            receiver: self.receiver@,
            amount: self.amount as int,
            completed: self.completed,
        }
    }
}

impl Clone for Escrow {
    fn clone(&self) -> (r: Self)
        ensures
            r == *self,
    {
        Escrow {
            id: self.id.clone(),
            sender: self.sender.clone(),
            receiver: self.receiver.clone(),
            amount: self.amount,
            completed: self.completed,
        }
    }
}

/// The identifiers of the stored records are pairwise distinct: the one
/// uniqueness invariant of the store.
pub open spec fn distinct_ids(s: Seq<Escrow>) -> bool {
    forall|i: int, j: int|
        0 <= i < j < s.len() ==> #[trigger] s[i].id@ != #[trigger] s[j].id@
}

/// Some stored record carries the identifier `k`.
pub open spec fn has_id(s: Seq<Escrow>, k: Seq<char>) -> bool {
    exists|i: int| 0 <= i < s.len() && #[trigger] s[i].id@ == k
}

/// The index of the record carrying `k`; meaningful only when `has_id`
/// holds and the identifiers are distinct.
pub open spec fn index_of_id(s: Seq<Escrow>, k: Seq<char>) -> int {
    choose|i: int| 0 <= i < s.len() && #[trigger] s[i].id@ == k
}

/// The stored records as a map from identifier to record view.
pub open spec fn as_ledger(s: Seq<Escrow>) -> LedgerView {
    Map::new(|k: Seq<char>| has_id(s, k), |k: Seq<char>| s[index_of_id(s, k)]@)
}

/// With distinct identifiers, the record at index `i` is the one the
/// ledger map associates with its identifier.
pub proof fn lemma_id_index(s: Seq<Escrow>, i: int)
    requires
        distinct_ids(s),
        0 <= i < s.len(),
    ensures
        has_id(s, s[i].id@),
        index_of_id(s, s[i].id@) == i,
        as_ledger(s).dom().contains(s[i].id@),
        as_ledger(s)[s[i].id@] == s[i]@,
{
    assert(has_id(s, s[i].id@)) by {
        assert(0 <= i < s.len() && s[i].id@ == s[i].id@);
    }
    let j = index_of_id(s, s[i].id@);
    assert(0 <= j < s.len() && s[j].id@ == s[i].id@);
    if i < j {
        assert(s[i].id@ != s[j].id@);
        assert(false);
    }
    if j < i {
        assert(s[j].id@ != s[i].id@);
        assert(false);
    }
}

/// Appending a record with a fresh identifier keeps the identifiers
/// distinct and inserts exactly that record into the ledger map.
pub proof fn lemma_push_new(s: Seq<Escrow>, e: Escrow)
    requires
        distinct_ids(s),
        !has_id(s, e.id@),
    ensures
        distinct_ids(s.push(e)),
        as_ledger(s.push(e)) == as_ledger(s).insert(e.id@, e@),
{
    let s2 = s.push(e);
    assert forall|i: int, j: int|
        0 <= i < j < s2.len() implies #[trigger] s2[i].id@ != #[trigger] s2[j].id@ by {
        if j == s.len() {
            assert(s2[i] == s[i]);
            assert(s2[j] == e);
            if s[i].id@ == e.id@ {
                assert(has_id(s, e.id@)) by {
                    assert(0 <= i < s.len() && s[i].id@ == e.id@);
                }
            }
        } else {
            assert(s2[i] == s[i]);
            assert(s2[j] == s[j]);
        }
    }
    let m1 = as_ledger(s2);
    let m2 = as_ledger(s).insert(e.id@, e@);
    assert forall|k: Seq<char>| #[trigger] m1.dom().contains(k) == m2.dom().contains(k) by {
        if has_id(s2, k) {
            let i = index_of_id(s2, k);
            assert(0 <= i < s2.len() && s2[i].id@ == k);
            if i == s.len() {
                assert(s2[i] == e);
            } else {
                assert(s2[i] == s[i]);
                assert(has_id(s, k)) by {
                    assert(0 <= i < s.len() && s[i].id@ == k);
                }
            }
        }
        if k == e.id@ {
            assert(has_id(s2, k)) by {
                assert(s2[s.len() as int] == e);
                assert(0 <= s.len() && s2[s.len() as int].id@ == k);
            }
        }
        if has_id(s, k) {
            let i = index_of_id(s, k);
            assert(0 <= i < s.len() && s[i].id@ == k);
            assert(has_id(s2, k)) by {
                assert(s2[i] == s[i]);
                assert(0 <= i < s2.len() && s2[i].id@ == k);
            }
        }
    }
    assert forall|k: Seq<char>| #[trigger] m1.dom().contains(k) implies m1[k] == m2[k] by {
        if k == e.id@ {
            assert(s2[s.len() as int] == e);
            lemma_id_index(s2, s.len() as int);
        } else {
            assert(has_id(s, k));
            let i = index_of_id(s, k);
            assert(0 <= i < s.len() && s[i].id@ == k);
            lemma_id_index(s, i);
            assert(s2[i] == s[i]);
            lemma_id_index(s2, i);
        }
    }
    assert(m1 =~= m2);
}

/// Overwriting the record at index `i` with one carrying the same
/// identifier keeps the identifiers distinct and updates exactly that
/// identifier's entry in the ledger map.
pub proof fn lemma_update_id(s: Seq<Escrow>, i: int, e: Escrow)
    requires
        distinct_ids(s),
        0 <= i < s.len(),
        e.id@ == s[i].id@,
    ensures
        distinct_ids(s.update(i, e)),
        as_ledger(s.update(i, e)) == as_ledger(s).insert(e.id@, e@),
{
    let s2 = s.update(i, e);
    assert forall|j: int| 0 <= j < s2.len() implies #[trigger] s2[j].id@ == s[j].id@ by {
        if j != i {
            assert(s2[j] == s[j]);
        }
    }
    assert forall|a: int, b: int|
        0 <= a < b < s2.len() implies #[trigger] s2[a].id@ != #[trigger] s2[b].id@ by {
        assert(s[a].id@ != s[b].id@);
    }
    let m1 = as_ledger(s2);
    let m2 = as_ledger(s).insert(e.id@, e@);
    assert forall|k: Seq<char>| #[trigger] m1.dom().contains(k) == m2.dom().contains(k) by {
        if has_id(s2, k) {
            let j = index_of_id(s2, k);
            assert(0 <= j < s2.len() && s2[j].id@ == k);
            assert(has_id(s, k)) by {
                assert(0 <= j < s.len() && s[j].id@ == k);
            }
        }
        if has_id(s, k) {
            let j = index_of_id(s, k);
            assert(0 <= j < s.len() && s[j].id@ == k);
            assert(has_id(s2, k)) by {
                assert(0 <= j < s2.len() && s2[j].id@ == k);
            }
        }
    }
    assert forall|k: Seq<char>| #[trigger] m1.dom().contains(k) implies m1[k] == m2[k] by {
        if k == e.id@ {
            assert(s2[i] == e);
            lemma_id_index(s2, i);
        } else {
            assert(has_id(s, k));
            let j = index_of_id(s, k);
            assert(0 <= j < s.len() && s[j].id@ == k);
            assert(j != i);
            lemma_id_index(s, j);
            assert(s2[j] == s[j]);
            lemma_id_index(s2, j);
        }
    }
    assert(m1 =~= m2);
}

/// Creation decision for a hosting environment that owns the store:
/// given whether a record already exists under `id`, either the fresh
/// record to write — `completed == false`, the given fields unvalidated —
/// or the error to return. The store is left to the host: on `Ok` it
/// writes the record under `id`, on `Err` it writes nothing.
pub fn decide_create(
    exists: bool,
    id: String,
    sender: String,
    receiver: String,
    amount: i128,
) -> (r: Result<Escrow, EscrowError>)
    ensures
        exists ==> r == Err::<Escrow, EscrowError>(EscrowError::AlreadyExists),
        !exists ==> r is Ok && r->Ok_0@ == (EscrowView {
            id: id@,
            sender: sender@,
            receiver: receiver@,
            amount: amount as int,
            completed: false,
        }),
{
    if exists {
        Err(EscrowError::AlreadyExists)
    } else {
        Ok(Escrow { id, sender, receiver, amount, completed: false })
    }
}

/// Settlement decision for a hosting environment that owns the store:
/// given the stored record and the pre-authenticated caller, either the
/// settled record to write back, or the error to return. Implements
/// `spec_settle_record`: completion state is checked before caller
/// identity. The `NotFound` case is the host's: it reaches this decision
/// only with a record it found.
pub fn decide_settle(rec: &Escrow, caller: &String) -> (r: Result<Escrow, EscrowError>)
    ensures
        (match spec_settle_record(rec@, caller@) {
            Ok(v) => r is Ok && r->Ok_0@ == v,
            Err(e) => r == Err::<Escrow, EscrowError>(e),
        }),
{
    if rec.completed {
        Err(EscrowError::AlreadyCompleted)
    } else if rec.sender == *caller {
        Ok(
            Escrow {
                id: rec.id.clone(),
                sender: rec.sender.clone(),
                receiver: rec.receiver.clone(),
                amount: rec.amount,
                completed: true,
            },
        )
    } else {
        Err(EscrowError::NotSender)
    }
}

/// The escrow ledger: the explicit store abstraction, owning the mapping
/// from identifier to record.
pub struct EscrowContract {
    records: Vec<Escrow>,
}

impl View for EscrowContract {
    type V = LedgerView;

    closed spec fn view(&self) -> LedgerView {
        as_ledger(self.records@)
    }
}

impl EscrowContract {
    /// Well-formedness: stored identifiers are pairwise distinct, so each
    /// identifier addresses at most one record.
    pub closed spec fn wf(&self) -> bool {
        distinct_ids(self.records@)
    }

    /// An empty ledger: no identifier has a record yet.
    pub fn new() -> (r: EscrowContract)
        ensures
            r.wf(),
            r@ == Map::<Seq<char>, EscrowView>::empty(),
    {
        let r = EscrowContract { records: Vec::new() };
        proof {
            assert(r@ =~= Map::<Seq<char>, EscrowView>::empty());
        }
        r
    }

    /// The index of the record for `id`, if one is stored.
    fn find(&self, id: &String) -> (r: Option<usize>)
        ensures
            (match r {
                Some(i) => i < self.records@.len() && self.records@[i as int].id@ == id@,
                None => !has_id(self.records@, id@),
            }),
    {
        let mut k: usize = 0;
        while k < self.records.len()
            invariant
                k <= self.records@.len(),
                forall|j: int| 0 <= j < k ==> #[trigger] self.records@[j].id@ != id@,
            decreases self.records@.len() - k,
        {
            if self.records[k].id == *id {
                return Some(k);
            }
            k += 1;
        }
        None
    }

    /// Create a new escrow record under `id`, with `completed == false`.
    ///
    /// Fails with `AlreadyExists`, leaving the store unchanged, when `id`
    /// already has a record in any state. No validation of `sender`,
    /// `receiver` or `amount` is performed.
    pub fn create(
        &mut self,
        id: String,
        sender: String,
        receiver: String,
        amount: i128,
    ) -> (r: Result<(), EscrowError>)
        requires
            old(self).wf(),
        ensures
            final(self).wf(),
            (final(self)@, r) == spec_create(old(self)@, id@, sender@, receiver@, amount as int),
    {
        match self.find(&id) {
            Some(i) => {
                proof {
                    lemma_id_index(self.records@, i as int);
                }
                Err(EscrowError::AlreadyExists)
            },
            None => {
                let ghost s0 = self.records@;
                let e = Escrow { id, sender, receiver, amount, completed: false };
                proof {
                    lemma_push_new(s0, e);
                }
                self.records.push(e);
                Ok(())
            },
        }
    }

    /// Pure read: the record for `id`, if one exists. Never fails, never
    /// mutates.
    pub fn get(&self, id: &String) -> (r: Option<Escrow>)
        requires
            self.wf(),
        ensures
            (match r {
                Some(rec) => spec_get(self@, id@) == Some(rec@),
                None => spec_get(self@, id@) == None::<EscrowView>,
            }),
    {
        match self.find(id) {
            Some(i) => {
                proof {
                    lemma_id_index(self.records@, i as int);
                }
                Some(self.records[i].clone())
            },
            None => None,
        }
    }

    /// Release the escrow: mark the record for `id` completed. The caller
    /// must be the record's sender.
    pub fn release(&mut self, id: &String, caller: &String) -> (r: Result<(), EscrowError>)
        requires
            old(self).wf(),
        ensures
            final(self).wf(),
            (final(self)@, r) == spec_settle(old(self)@, id@, caller@),
    {
        self.settle(id, caller)
    }

    /// Refund the escrow: mark the record for `id` completed. The caller
    /// must be the record's sender. Deliberately the same transition and
    /// error taxonomy as `release`: the ledger records that settlement
    /// occurred; it does not move funds.
    pub fn refund(&mut self, id: &String, caller: &String) -> (r: Result<(), EscrowError>)
        requires
            old(self).wf(),
        ensures
            final(self).wf(),
            (final(self)@, r) == spec_settle(old(self)@, id@, caller@),
    {
        self.settle(id, caller)
    }

    /// The single settlement transition shared by `release` and `refund`.
    /// Checks, in order: existence, completion state, caller identity.
    fn settle(&mut self, id: &String, caller: &String) -> (r: Result<(), EscrowError>)
        requires
            old(self).wf(),
        ensures
            final(self).wf(),
            (final(self)@, r) == spec_settle(old(self)@, id@, caller@),
    {
        match self.find(id) {
            None => Err(EscrowError::NotFound),
            Some(i) => {
                proof {
                    lemma_id_index(self.records@, i as int);
                }
                match decide_settle(&self.records[i], caller) {
                    Err(e) => Err(e),
                    Ok(updated) => {
                        let ghost s0 = self.records@;
                        proof {
                            lemma_update_id(s0, i as int, updated);
                        }
                        self.records[i] = updated;
                        Ok(())
                    },
                }
            },
        }
    }
}

} // verus!
