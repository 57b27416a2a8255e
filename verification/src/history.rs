//! The transaction history index: a within-run durable mapping from
//! transaction id to the facts needed to dispute it later.
//!
//! Entries are created when a deposit or withdrawal is applied and are never
//! deleted, so repeated or out-of-order dispute chains are rejected
//! idempotently. The marking methods perform pure state transitions; deciding
//! whether a transition is legal is the engine's job, so the two can be
//! checked independently.

use vstd::prelude::*;
use vstd::hash_map::HashMapWithView;
use crate::errors::KrakenError;
use crate::model::TxFact;

verus! {

/// Where a recorded transaction stands in the dispute lifecycle.
#[derive(Clone, Copy, Debug, PartialEq, Eq, Structural)]
pub enum DisputeState {
    /// Never disputed, or disputed and later resolved.
    Undisputed,
    /// Under an active dispute; its amount is held.
    Disputed,
    /// Settled by a chargeback; no further transition is legal.
    ChargedBack,
}

/// Retained fact about one past monetary transaction, keyed by `tx` in the
/// history index. `amount` is the original signed effect on available funds:
/// positive for a deposit, negative for a withdrawal.
#[derive(Clone, Copy, Debug)]
pub struct HistoryEntry {
    pub client: u16,
    pub amount: i128,
    pub dispute_state: DisputeState,
}

impl View for HistoryEntry {
    type V = TxFact;

    open spec fn view(&self) -> TxFact {
        TxFact { client: self.client, amount: self.amount as int, dispute_state: self.dispute_state }
    }
}

/// The history index itself: transaction id to retained fact.
pub struct TransactionHistory {
    map: HashMapWithView<u32, HistoryEntry>,
}

impl View for TransactionHistory {
    type V = Map<u32, TxFact>;

    closed spec fn view(&self) -> Map<u32, TxFact> {
        Map::new(|t: u32| self.map@.contains_key(t), |t: u32| self.map@[t]@)
    }
}

impl TransactionHistory {
    /// An empty index.
    pub fn new() -> (r: TransactionHistory)
        ensures
            r@ == Map::<u32, TxFact>::empty(),
    {
        broadcast use vstd::std_specs::hash::axiom_u32_obeys_hash_table_key_model;

        let r = TransactionHistory { map: HashMapWithView::new() };
        proof {
            assert(r@ =~= Map::<u32, TxFact>::empty());
        }
        r
    }

    /// Insert the fact about a newly applied monetary transaction; fails with
    /// `DuplicateTx`, leaving the index unchanged, if the id is already taken.
    pub fn record(&mut self, tx: u32, client: u16, signed_amount: i128) -> (r: Result<
        (),
        KrakenError,
    >)
        requires
            -(u64::MAX as int) <= signed_amount as int <= u64::MAX as int,
        ensures
            match r {
                Ok(_) => !old(self)@.contains_key(tx) && final(self)@ == old(self)@.insert(
                    tx,
                    TxFact {
                        client,
                        amount: signed_amount as int,
                        dispute_state: DisputeState::Undisputed,
                    },
                ),
                Err(e) => e == KrakenError::DuplicateTx && old(self)@.contains_key(tx)
                    && final(self)@ == old(self)@,
            },
    {
        if self.map.contains_key(&tx) {
            Err(KrakenError::DuplicateTx)
        } else {
            let entry = HistoryEntry { client, amount: signed_amount, dispute_state: DisputeState::Undisputed };
            self.map.insert(tx, entry);
            proof {
                assert(self@ =~= old(self)@.insert(tx, entry@));
            }
            Ok(())
        }
    }

    /// Look up the fact recorded under a transaction id.
    pub fn get(&self, tx: u32) -> (r: Option<&HistoryEntry>)
        ensures
            match r {
                Some(e) => self@.contains_key(tx) && e@ == self@[tx],
                None => !self@.contains_key(tx),
            },
    {
        self.map.get(&tx)
    }

    /// Move an entry into a new dispute state; pure transition, validated by
    /// the caller.
    fn mark(&mut self, tx: u32, state: DisputeState)
        requires
            old(self)@.contains_key(tx),
        ensures
            final(self)@ == old(self)@.insert(
                tx,
                TxFact {
                    client: old(self)@[tx].client,
                    amount: old(self)@[tx].amount,
                    dispute_state: state,
                },
            ),
    {
        let entry = match self.map.get(&tx) {
            Some(e) => *e,
            None => {
                proof {
                    assert(false);
                }
                HistoryEntry { client: 0, amount: 0, dispute_state: DisputeState::Undisputed }
            },
        };
        let updated = HistoryEntry { client: entry.client, amount: entry.amount, dispute_state: state };
        self.map.insert(tx, updated);
        proof {
            assert(self@ =~= old(self)@.insert(tx, updated@));
        }
    }

    /// Mark an entry as under dispute.
    pub fn mark_disputed(&mut self, tx: u32)
        requires
            old(self)@.contains_key(tx),
        ensures
            final(self)@ == old(self)@.insert(
                tx,
                TxFact {
                    client: old(self)@[tx].client,
                    amount: old(self)@[tx].amount,
                    dispute_state: DisputeState::Disputed,
                },
            ),
    {
        self.mark(tx, DisputeState::Disputed);
    }

    /// Mark a disputed entry as resolved: back to the undisputed state.
    pub fn mark_resolved(&mut self, tx: u32)
        requires
            old(self)@.contains_key(tx),
        ensures
            final(self)@ == old(self)@.insert(
                tx,
                TxFact {
                    client: old(self)@[tx].client,
                    amount: old(self)@[tx].amount,
                    dispute_state: DisputeState::Undisputed,
                },
            ),
    {
        self.mark(tx, DisputeState::Undisputed);
    }

    /// Mark a disputed entry as charged back; the entry is finalized.
    pub fn mark_charged_back(&mut self, tx: u32)
        requires
            old(self)@.contains_key(tx),
        ensures
            final(self)@ == old(self)@.insert(
                tx,
                TxFact {
                    client: old(self)@[tx].client,
                    amount: old(self)@[tx].amount,
                    dispute_state: DisputeState::ChargedBack,
                },
            ),
    {
        self.mark(tx, DisputeState::ChargedBack);
    }
}

} // verus!
