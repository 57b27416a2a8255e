//! The ledger engine: the state machine that consumes each record in order,
//! validates it against the history index and the account ledger, and applies
//! the mutation or silently discards the record.
//!
//! The engine's contract ties the executable state to the mathematical model:
//! every processed record takes the view through [`crate::model::step`], so
//! the laws proved in [`crate::model`] hold of a running ledger. The only
//! records the engine discards beyond what `step` discards are those whose
//! resulting balances would not fit the 128-bit machine width
//! ([`crate::model::step_in_range`]); such a record only materialises the
//! client's account entry, like any other discarded record.

use vstd::prelude::*;
use vstd::hash_map::HashMapWithView;
use crate::account::AccountLedger;
use crate::data::{TransactionKind, TransactionRecord};
use crate::history::{DisputeState, TransactionHistory};
use crate::model::{
    account_of, account_ok, applies, empty_ledger, history_ok, run, run_bounded, run_in_range,
    step, step_in_range, touch, AccountState, LedgerModel,
};

verus! {

/// A strictly increasing sequence of client ids.
pub open spec fn sorted_strict(s: Seq<u16>) -> bool {
    forall|i: int, j: int| 0 <= i < j < s.len() ==> s[i] < s[j]
}

/// The ghost account map held by the engine's hash map.
pub open spec fn accounts_view(m: Map<u16, AccountLedger>) -> Map<u16, AccountState> {
    Map::new(|c: u16| m.contains_key(c), |c: u16| m[c]@)
}

/// The single point of mutation of the ledger: per-client accounts, the
/// history index, and the sorted list of clients seen so far.
pub struct LedgerEngine {
    accounts: HashMapWithView<u16, AccountLedger>,
    history: TransactionHistory,
    clients: Vec<u16>,
}

impl View for LedgerEngine {
    type V = LedgerModel;

    closed spec fn view(&self) -> LedgerModel {
        LedgerModel { accounts: accounts_view(self.accounts@), history: self.history@ }
    }
}

impl LedgerEngine {
    /// Internal consistency: the client list mirrors the account map and is
    /// strictly sorted, every stored account is representable, and recorded
    /// amounts fit the amount width.
    pub closed spec fn wf(&self) -> bool {
        &&& sorted_strict(self.clients@)
        &&& forall|c: u16| #[trigger] self.accounts@.contains_key(c) ==> self.clients@.contains(c)
        &&& forall|j: int|
            0 <= j < self.clients@.len() ==> self.accounts@.contains_key(
                #[trigger] self.clients@[j],
            )
        &&& forall|c: u16|
            #[trigger] self.accounts@.contains_key(c) ==> account_ok(self.accounts@[c]@)
        &&& history_ok(self.history@)
    }

    /// A fresh engine over an empty ledger.
    pub fn new() -> (r: LedgerEngine)
        ensures
            r.wf(),
            r@ == empty_ledger(),
    {
        broadcast use vstd::std_specs::hash::axiom_u16_obeys_hash_table_key_model;

        let r = LedgerEngine {
            accounts: HashMapWithView::new(),
            history: TransactionHistory::new(),
            clients: Vec::new(),
        };
        proof {
            assert(r@.accounts =~= empty_ledger().accounts);
            assert(r@.history =~= empty_ledger().history);
            assert(r@ =~= empty_ledger());
        }
        r
    }

    /// First index of `v` whose element is not below `c`.
    fn insert_position(v: &Vec<u16>, c: u16) -> (i: usize)
        requires
            sorted_strict(v@),
        ensures
            i <= v@.len(),
            forall|j: int| 0 <= j < i ==> v@[j] < c,
            i < v@.len() ==> v@[i as int] >= c,
    {
        let mut i: usize = 0;
        while i < v.len() && v[i] < c
            invariant
                i <= v@.len(),
                forall|j: int| 0 <= j < i ==> v@[j] < c,
            decreases v@.len() - i,
        {
            i += 1;
        }
        i
    }

    /// Make the client's account entry exist, creating an empty one on first
    /// reference, and return a copy of it.
    fn ensure_account(&mut self, c: u16) -> (a: AccountLedger)
        requires
            old(self).wf(),
        ensures
            final(self).wf(),
            final(self)@ == touch(old(self)@, c),
            final(self).wf_after_touch_of(c),
            a@ == account_of(old(self)@, c),
            account_ok(a@),
    {
        let found = match self.accounts.get(&c) {
            Some(acct) => Some(*acct),
            None => None,
        };
        match found {
            Some(a) => {
                proof {
                    assert(self@.accounts =~= touch(old(self)@, c).accounts);
                    assert(self@ =~= touch(old(self)@, c));
                }
                a
            },
            None => {
                let a = AccountLedger::new();
                let i = Self::insert_position(&self.clients, c);
                self.accounts.insert(c, a);
                self.clients.insert(i, c);
                proof {
                    let oldc = old(self).clients@;
                    let newc = self.clients@;
                    assert(forall|j: int| 0 <= j < oldc.len() ==> oldc[j] != c) by {
                        assert forall|j: int| 0 <= j < oldc.len() implies oldc[j] != c by {
                            assert(old(self).accounts@.contains_key(oldc[j]));
                        }
                    }
                    assert(newc =~= oldc.insert(i as int, c));
                    assert(sorted_strict(newc)) by {
                        assert forall|p: int, q: int| 0 <= p < q < newc.len() implies newc[p]
                            < newc[q] by {
                            if q < i {
                                assert(newc[p] == oldc[p] && newc[q] == oldc[q]);
                            } else if p > i {
                                assert(newc[p] == oldc[p - 1] && newc[q] == oldc[q - 1]);
                            } else if p < i && q == i {
                                assert(newc[p] == oldc[p] && newc[q] == c);
                            } else if p == i && q > i {
                                assert(newc[p] == c && newc[q] == oldc[q - 1]);
                                assert(i < oldc.len() ==> oldc[i as int] >= c);
                                assert(oldc[q - 1] >= oldc[i as int]);
                            } else if p < i && q > i {
                                assert(newc[p] == oldc[p] && newc[q] == oldc[q - 1]);
                                assert(i < oldc.len() ==> oldc[i as int] >= c);
                            }
                        }
                    }
                    assert(forall|x: u16| #[trigger] self.accounts@.contains_key(x) ==> newc.contains(x)) by {
                        assert forall|x: u16| #[trigger] self.accounts@.contains_key(x) implies newc.contains(
                            x,
                        ) by {
                            if x == c {
                                assert(newc[i as int] == c);
                            } else {
                                assert(old(self).accounts@.contains_key(x));
                                let j = choose|j: int| 0 <= j < oldc.len() && oldc[j] == x;
                                if j < i {
                                    assert(newc[j] == x);
                                } else {
                                    assert(newc[j + 1] == x);
                                }
                            }
                        }
                    }
                    assert(forall|j: int|
                        0 <= j < newc.len() ==> self.accounts@.contains_key(#[trigger] newc[j]))
                        by {
                        assert forall|j: int| 0 <= j < newc.len() implies self.accounts@.contains_key(
                            newc[j],
                        ) by {
                            if j < i {
                                assert(newc[j] == oldc[j]);
                            } else if j == i {
                                assert(newc[j] == c);
                            } else {
                                assert(newc[j] == oldc[j - 1]);
                            }
                        }
                    }
                    assert(account_of(old(self)@, c) == crate::model::empty_account());
                    assert(self@.accounts =~= touch(old(self)@, c).accounts);
                    assert(self@ =~= touch(old(self)@, c));
                }
                a
            },
        }
    }

    /// After `ensure_account(c)`, the account entry for `c` is present.
    closed spec fn wf_after_touch_of(&self, c: u16) -> bool {
        self.accounts@.contains_key(c)
    }

    /// Store an updated account for a client whose entry already exists.
    fn put_account(&mut self, c: u16, a: AccountLedger)
        requires
            old(self).wf(),
            old(self).wf_after_touch_of(c),
            account_ok(a@),
        ensures
            final(self).wf(),
            final(self).wf_after_touch_of(c),
            final(self)@ == (LedgerModel {
                accounts: old(self)@.accounts.insert(c, a@),
                history: old(self)@.history,
            }),
    {
        self.accounts.insert(c, a);
        proof {
            assert(self.clients@.contains(c)) by {
                assert(old(self).accounts@.contains_key(c));
            }
            assert(forall|x: u16| #[trigger] self.accounts@.contains_key(x) ==> old(
                self,
            ).accounts@.contains_key(x));
            assert(self@.accounts =~= old(self)@.accounts.insert(c, a@));
        }
    }

    /// Consume one record: apply it if legal and representable, else discard
    /// it silently. Either way the client's account entry comes to exist.
    pub fn process(&mut self, r: &TransactionRecord)
        requires
            old(self).wf(),
            r.wf(),
        ensures
            final(self).wf(),
            step_in_range(old(self)@, *r) ==> final(self)@ == step(old(self)@, *r),
            !step_in_range(old(self)@, *r) ==> final(self)@ == touch(old(self)@, r.client),
    {
        let ghost s0 = self@;
        let acct = self.ensure_account(r.client);
        if acct.locked {
            proof {
                assert(!applies(s0, *r));
                assert(step(s0, *r) =~= touch(s0, r.client));
            }
            return ;
        }
        match r.kind {
            TransactionKind::DEPOSIT => {
                let amount = r.amount.unwrap();
                if self.history.get(r.tx).is_some() {
                    proof {
                        assert(!applies(s0, *r));
                        assert(step(s0, *r) =~= touch(s0, r.client));
                    }
                } else {
                    let av = acct.available;
                    let hd = acct.held;
                    let sum = av + hd;
                    if av <= i128::MAX - amount as i128 && sum <= i128::MAX - amount as i128 {
                        let mut a2 = acct;
                        a2.credit(amount);
                        self.put_account(r.client, a2);
                        match self.history.record(r.tx, r.client, amount as i128) {
                            Ok(_) => (),
                            Err(_) => {
                                proof {
                                    assert(false);
                                }
                            },
                        }
                        proof {
                            assert(applies(s0, *r));
                            assert(self@.accounts =~= step(s0, *r).accounts);
                            assert(self@.history =~= step(s0, *r).history);
                            assert(self@ =~= step(s0, *r));
                        }
                    } else {
                        proof {
                            assert(!step_in_range(s0, *r));
                        }
                    }
                }
            },
            TransactionKind::WITHDRAW => {
                let amount = r.amount.unwrap();
                if self.history.get(r.tx).is_some() {
                    proof {
                        assert(!applies(s0, *r));
                        assert(step(s0, *r) =~= touch(s0, r.client));
                    }
                } else if acct.available < amount as i128 {
                    proof {
                        assert(!applies(s0, *r));
                        assert(step(s0, *r) =~= touch(s0, r.client));
                    }
                } else {
                    let av = acct.available;
                    let hd = acct.held;
                    let sum = av + hd;
                    if sum >= i128::MIN + amount as i128 {
                        let mut a2 = acct;
                        a2.debit(amount);
                        self.put_account(r.client, a2);
                        match self.history.record(r.tx, r.client, -(amount as i128)) {
                            Ok(_) => (),
                            Err(_) => {
                                proof {
                                    assert(false);
                                }
                            },
                        }
                        proof {
                            assert(applies(s0, *r));
                            assert(self@.accounts =~= step(s0, *r).accounts);
                            assert(self@.history =~= step(s0, *r).history);
                            assert(self@ =~= step(s0, *r));
                        }
                    } else {
                        proof {
                            assert(!step_in_range(s0, *r));
                        }
                    }
                }
            },
            TransactionKind::DISPUTE => {
                let fact = match self.history.get(r.tx) {
                    Some(e) => Some(*e),
                    None => None,
                };
                match fact {
                    None => {
                        proof {
                            assert(!applies(s0, *r));
                            assert(step(s0, *r) =~= touch(s0, r.client));
                        }
                    },
                    Some(f) => {
                        if f.client != r.client || !matches!(
                            f.dispute_state,
                            DisputeState::Undisputed,
                        ) {
                            proof {
                                assert(!applies(s0, *r));
                                assert(step(s0, *r) =~= touch(s0, r.client));
                            }
                        } else {
                            proof {
                                assert(-(u64::MAX as int) <= f.amount as int <= u64::MAX as int);
                            }
                            let ab = if f.amount >= 0 {
                                f.amount
                            } else {
                                -f.amount
                            };
                            let av = acct.available;
                            let hd = acct.held;
                            let sum = av + hd;
                            let avail_ok = if f.amount >= 0 {
                                av >= i128::MIN + f.amount
                            } else {
                                av <= i128::MAX + f.amount
                            };
                            let delta = ab - f.amount;
                            if avail_ok && hd <= i128::MAX - ab && sum <= i128::MAX - delta {
                                let mut a2 = acct;
                                a2.hold(f.amount);
                                self.put_account(r.client, a2);
                                self.history.mark_disputed(r.tx);
                                proof {
                                    assert(applies(s0, *r));
                                    assert(self@.accounts =~= step(s0, *r).accounts);
                                    assert(self@.history =~= step(s0, *r).history);
                                    assert(self@ =~= step(s0, *r));
                                }
                            } else {
                                proof {
                                    assert(!step_in_range(s0, *r));
                                }
                            }
                        }
                    },
                }
            },
            TransactionKind::RESOLVE => {
                let fact = match self.history.get(r.tx) {
                    Some(e) => Some(*e),
                    None => None,
                };
                match fact {
                    None => {
                        proof {
                            assert(!applies(s0, *r));
                            assert(step(s0, *r) =~= touch(s0, r.client));
                        }
                    },
                    Some(f) => {
                        if f.client != r.client || !matches!(
                            f.dispute_state,
                            DisputeState::Disputed,
                        ) {
                            proof {
                                assert(!applies(s0, *r));
                                assert(step(s0, *r) =~= touch(s0, r.client));
                            }
                        } else {
                            proof {
                                assert(-(u64::MAX as int) <= f.amount as int <= u64::MAX as int);
                            }
                            let ab = if f.amount >= 0 {
                                f.amount
                            } else {
                                -f.amount
                            };
                            let av = acct.available;
                            let hd = acct.held;
                            let sum = av + hd;
                            let avail_ok = if f.amount >= 0 {
                                av <= i128::MAX - f.amount
                            } else {
                                av >= i128::MIN - f.amount
                            };
                            let delta = ab - f.amount;
                            if avail_ok && hd >= i128::MIN + ab && sum >= i128::MIN + delta {
                                let mut a2 = acct;
                                a2.release(f.amount);
                                self.put_account(r.client, a2);
                                self.history.mark_resolved(r.tx);
                                proof {
                                    assert(applies(s0, *r));
                                    assert(self@.accounts =~= step(s0, *r).accounts);
                                    assert(self@.history =~= step(s0, *r).history);
                                    assert(self@ =~= step(s0, *r));
                                }
                            } else {
                                proof {
                                    assert(!step_in_range(s0, *r));
                                }
                            }
                        }
                    },
                }
            },
            TransactionKind::CHARGEBACK => {
                let fact = match self.history.get(r.tx) {
                    Some(e) => Some(*e),
                    None => None,
                };
                match fact {
                    None => {
                        proof {
                            assert(!applies(s0, *r));
                            assert(step(s0, *r) =~= touch(s0, r.client));
                        }
                    },
                    Some(f) => {
                        if f.client != r.client || !matches!(
                            f.dispute_state,
                            DisputeState::Disputed,
                        ) {
                            proof {
                                assert(!applies(s0, *r));
                                assert(step(s0, *r) =~= touch(s0, r.client));
                            }
                        } else {
                            proof {
                                assert(-(u64::MAX as int) <= f.amount as int <= u64::MAX as int);
                            }
                            let ab = if f.amount >= 0 {
                                f.amount
                            } else {
                                -f.amount
                            };
                            let hd = acct.held;
                            let sum = acct.available + hd;
                            if hd >= i128::MIN + ab && sum >= i128::MIN + ab {
                                let mut a2 = acct;
                                a2.forfeit(f.amount);
                                a2.lock();
                                self.put_account(r.client, a2);
                                self.history.mark_charged_back(r.tx);
                                proof {
                                    assert(applies(s0, *r));
                                    assert(self@.accounts =~= step(s0, *r).accounts);
                                    assert(self@.history =~= step(s0, *r).history);
                                    assert(self@ =~= step(s0, *r));
                                }
                            } else {
                                proof {
                                    assert(!step_in_range(s0, *r));
                                }
                            }
                        }
                    },
                }
            },
        }
    }

    /// Consume a whole stream of records in order. One discarded record never
    /// aborts the rest: every record is processed, and the final state is the
    /// bounded run of the whole sequence — the model run, wherever every step
    /// stays representable.
    pub fn process_all(&mut self, records: &Vec<TransactionRecord>)
        requires
            old(self).wf(),
            forall|i: int| 0 <= i < records@.len() ==> (#[trigger] records@[i]).wf(),
        ensures
            final(self).wf(),
            final(self)@ == run_bounded(old(self)@, records@),
            run_in_range(old(self)@, records@) ==> final(self)@ == run(old(self)@, records@),
    {
        let ghost s0 = self@;
        let mut i: usize = 0;
        while i < records.len()
            invariant
                self.wf(),
                i <= records@.len(),
                forall|k: int| 0 <= k < records@.len() ==> (#[trigger] records@[k]).wf(),
                self@ == run_bounded(s0, records@.take(i as int)),
            decreases records@.len() - i,
        {
            let ghost prefix = records@.take(i as int);
            let ghost prefix1 = records@.take(i as int + 1);
            proof {
                assert(prefix1 =~= prefix.push(records@[i as int]));
                crate::model::lemma_run_bounded_push(s0, prefix, records@[i as int]);
            }
            self.process(&records[i]);
            i += 1;
        }
        proof {
            assert(records@.take(records@.len() as int) =~= records@);
            if run_in_range(s0, records@) {
                crate::model::lemma_run_bounded_in_range(s0, records@);
            }
        }
    }

    /// A copy of a client's account state; the empty account for a client
    /// never referenced.
    pub fn account(&self, c: u16) -> (a: AccountLedger)
        requires
            self.wf(),
        ensures
            a@ == account_of(self@, c),
            account_ok(a@),
    {
        match self.accounts.get(&c) {
            Some(x) => *x,
            None => AccountLedger::new(),
        }
    }

    /// The clients that appeared so far, in strictly increasing order.
    pub fn client_ids(&self) -> (r: &Vec<u16>)
        requires
            self.wf(),
        ensures
            sorted_strict(r@),
            forall|j: int| 0 <= j < r@.len() ==> self@.accounts.contains_key(#[trigger] r@[j]),
            forall|c: u16| #[trigger] self@.accounts.contains_key(c) ==> r@.contains(c),
    {
        &self.clients
    }
}

} // verus!
