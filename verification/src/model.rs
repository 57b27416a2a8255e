//! The mathematical model of the ledger: ghost state, the one-record
//! transition function `step`, and the laws proved about it.
//!
//! The executable engine promises that each processed record takes its view
//! through `step`, so everything proved here holds of the running ledger.

use vstd::prelude::*;
use crate::data::{TransactionKind, TransactionRecord};
use crate::history::DisputeState;

verus! {

/// Mathematical balance state of one client. `total` is never stored: it is
/// `available + held` by definition.
#[verifier::ext_equal]
pub struct AccountState {
    pub available: int,
    pub held: int,
    pub locked: bool,
}

/// Mathematical fact retained about one past monetary transaction: its owner,
/// its original signed effect on available funds (positive for a deposit,
/// negative for a withdrawal), and where it stands in the dispute lifecycle.
#[verifier::ext_equal]
pub struct TxFact {
    pub client: u16,
    pub amount: int,
    pub dispute_state: DisputeState,
}

/// The whole ledger: per-client account states and the history index keyed by
/// transaction id.
#[verifier::ext_equal]
pub struct LedgerModel {
    pub accounts: Map<u16, AccountState>,
    pub history: Map<u32, TxFact>,
}

pub open spec fn abs_val(a: int) -> int {
    if a >= 0 {
        a
    } else {
        -a
    }
}

pub open spec fn empty_account() -> AccountState {
    AccountState { available: 0, held: 0, locked: false }
}

pub open spec fn empty_ledger() -> LedgerModel {
    LedgerModel { accounts: Map::empty(), history: Map::empty() }
}

/// Accounts are created lazily: a client that never appeared has the empty
/// account.
pub open spec fn account_of(s: LedgerModel, c: u16) -> AccountState {
    if s.accounts.contains_key(c) {
        s.accounts[c]
    } else {
        empty_account()
    }
}

/// Total funds of a client: available plus held.
pub open spec fn total_of(s: LedgerModel, c: u16) -> int {
    account_of(s, c).available + account_of(s, c).held
}

/// Referencing a client materialises its account entry; balances, flags and
/// history are untouched.
pub open spec fn touch(s: LedgerModel, c: u16) -> LedgerModel {
    LedgerModel { accounts: s.accounts.insert(c, account_of(s, c)), history: s.history }
}

/// A deposit applies unless the account is locked or the transaction id is
/// already taken.
pub open spec fn deposit_applies(s: LedgerModel, r: TransactionRecord) -> bool {
    &&& !account_of(s, r.client).locked
    &&& !s.history.contains_key(r.tx)
}

/// A withdrawal additionally needs sufficient available funds.
pub open spec fn withdraw_applies(s: LedgerModel, r: TransactionRecord) -> bool {
    &&& !account_of(s, r.client).locked
    &&& !s.history.contains_key(r.tx)
    &&& account_of(s, r.client).available >= r.amount_units()
}

/// A dispute applies only to a recorded transaction of the same client that
/// is not currently disputed and was never charged back.
pub open spec fn dispute_applies(s: LedgerModel, r: TransactionRecord) -> bool {
    &&& !account_of(s, r.client).locked
    &&& s.history.contains_key(r.tx)
    &&& s.history[r.tx].client == r.client
    &&& s.history[r.tx].dispute_state == DisputeState::Undisputed
}

/// A resolve or chargeback applies only to a transaction of the same client
/// that is currently disputed.
pub open spec fn settle_applies(s: LedgerModel, r: TransactionRecord) -> bool {
    &&& !account_of(s, r.client).locked
    &&& s.history.contains_key(r.tx)
    &&& s.history[r.tx].client == r.client
    &&& s.history[r.tx].dispute_state == DisputeState::Disputed
}

/// Whether a record has any effect at all; a record that does not apply is
/// silently discarded.
pub open spec fn applies(s: LedgerModel, r: TransactionRecord) -> bool {
    match r.kind {
        TransactionKind::DEPOSIT => deposit_applies(s, r),
        TransactionKind::WITHDRAW => withdraw_applies(s, r),
        TransactionKind::DISPUTE => dispute_applies(s, r),
        TransactionKind::RESOLVE => settle_applies(s, r),
        TransactionKind::CHARGEBACK => settle_applies(s, r),
    }
}

/// The effect of one record on the ledger. A record that does not apply only
/// materialises the client's account entry. A record that applies mutates
/// the one account it names and, for monetary kinds, records a history fact;
/// a dispute moves the stored signed amount out of available and its absolute
/// value into held, a resolve reverses that exactly, and a chargeback forfeits
/// the held quantity and locks the account for good.
pub open spec fn step(s: LedgerModel, r: TransactionRecord) -> LedgerModel {
    let a = account_of(s, r.client);
    if !applies(s, r) {
        touch(s, r.client)
    } else {
        match r.kind {
            TransactionKind::DEPOSIT => LedgerModel {
                accounts: s.accounts.insert(
                    r.client,
                    AccountState {
                        available: a.available + r.amount_units(),
                        held: a.held,
                        locked: a.locked,
                    },
                ),
                history: s.history.insert(
                    r.tx,
                    TxFact {
                        client: r.client,
                        amount: r.amount_units(),
                        dispute_state: DisputeState::Undisputed,
                    },
                ),
            },
            TransactionKind::WITHDRAW => LedgerModel {
                accounts: s.accounts.insert(
                    r.client,
                    AccountState {
                        available: a.available - r.amount_units(),
                        held: a.held,
                        locked: a.locked,
                    },
                ),
                history: s.history.insert(
                    r.tx,
                    TxFact {
                        client: r.client,
                        amount: -r.amount_units(),
                        dispute_state: DisputeState::Undisputed,
                    },
                ),
            },
            TransactionKind::DISPUTE => {
                let f = s.history[r.tx];
                LedgerModel {
                    accounts: s.accounts.insert(
                        r.client,
                        AccountState {
                            available: a.available - f.amount,
                            held: a.held + abs_val(f.amount),
                            locked: a.locked,
                        },
                    ),
                    history: s.history.insert(
                        r.tx,
                        TxFact {
                            client: f.client,
                            amount: f.amount,
                            dispute_state: DisputeState::Disputed,
                        },
                    ),
                }
            },
            TransactionKind::RESOLVE => {
                let f = s.history[r.tx];
                LedgerModel {
                    accounts: s.accounts.insert(
                        r.client,
                        AccountState {
                            available: a.available + f.amount,
                            held: a.held - abs_val(f.amount),
                            locked: a.locked,
                        },
                    ),
                    history: s.history.insert(
                        r.tx,
                        TxFact {
                            client: f.client,
                            amount: f.amount,
                            dispute_state: DisputeState::Undisputed,
                        },
                    ),
                }
            },
            TransactionKind::CHARGEBACK => {
                let f = s.history[r.tx];
                LedgerModel {
                    accounts: s.accounts.insert(
                        r.client,
                        AccountState {
                            available: a.available,
                            held: a.held - abs_val(f.amount),
                            locked: true,
                        },
                    ),
                    history: s.history.insert(
                        r.tx,
                        TxFact {
                            client: f.client,
                            amount: f.amount,
                            dispute_state: DisputeState::ChargedBack,
                        },
                    ),
                }
            },
        }
    }
}

/// Running a whole sequence of records from a start state, in order.
pub open spec fn run(s: LedgerModel, rs: Seq<TransactionRecord>) -> LedgerModel
    decreases rs.len(),
{
    if rs.len() == 0 {
        s
    } else {
        run(step(s, rs[0]), rs.skip(1))
    }
}

/// Whether every record of a sequence, run in order, keeps the account it
/// touches representable.
pub open spec fn run_in_range(s: LedgerModel, rs: Seq<TransactionRecord>) -> bool
    decreases rs.len(),
{
    rs.len() == 0 || (step_in_range(s, rs[0]) && run_in_range(step(s, rs[0]), rs.skip(1)))
}

/// The effect of one record on the machine-width ledger: the model step
/// where its result is representable, otherwise only the account entry is
/// materialised and the record is discarded.
pub open spec fn step_bounded(s: LedgerModel, r: TransactionRecord) -> LedgerModel {
    if step_in_range(s, r) {
        step(s, r)
    } else {
        touch(s, r.client)
    }
}

/// Running a whole sequence of records on the machine-width ledger: every
/// record is consumed, and one whose balances would not fit is discarded
/// without aborting the rest.
pub open spec fn run_bounded(s: LedgerModel, rs: Seq<TransactionRecord>) -> LedgerModel
    decreases rs.len(),
{
    if rs.len() == 0 {
        s
    } else {
        run_bounded(step_bounded(s, rs[0]), rs.skip(1))
    }
}

/// Appending one record to a bounded run is one more bounded step.
pub proof fn lemma_run_bounded_push(
    s: LedgerModel,
    rs: Seq<TransactionRecord>,
    r: TransactionRecord,
)
    ensures
        run_bounded(s, rs.push(r)) == step_bounded(run_bounded(s, rs), r),
    decreases rs.len(),
{
    if rs.len() == 0 {
        assert(rs.push(r)[0] == r);
        assert(rs.push(r).skip(1) =~= Seq::<TransactionRecord>::empty());
        assert(run_bounded(s, rs.push(r)) == run_bounded(step_bounded(s, r), rs.push(r).skip(1)));
        assert(run_bounded(step_bounded(s, r), rs.push(r).skip(1)) == step_bounded(s, r));
        assert(run_bounded(s, rs) == s);
    } else {
        assert(rs.push(r)[0] == rs[0]);
        assert(rs.push(r).skip(1) =~= rs.skip(1).push(r));
        lemma_run_bounded_push(step_bounded(s, rs[0]), rs.skip(1), r);
        assert(run_bounded(s, rs.push(r)) == run_bounded(
            step_bounded(s, rs[0]),
            rs.skip(1).push(r),
        ));
        assert(run_bounded(s, rs) == run_bounded(step_bounded(s, rs[0]), rs.skip(1)));
    }
}

/// Where every step of a run stays representable, the bounded run is the
/// model run: the machine discards nothing beyond what the model discards.
pub proof fn lemma_run_bounded_in_range(s: LedgerModel, rs: Seq<TransactionRecord>)
    requires
        run_in_range(s, rs),
    ensures
        run_bounded(s, rs) == run(s, rs),
    decreases rs.len(),
{
    if rs.len() != 0 {
        assert(step_in_range(s, rs[0]));
        lemma_run_bounded_in_range(step(s, rs[0]), rs.skip(1));
    }
}

/// The signed change a monetary record makes to client `c`'s total funds:
/// its amount if it is an applied deposit of `c`, the negation for an applied
/// withdrawal, zero otherwise.
pub open spec fn monetary_delta(s: LedgerModel, r: TransactionRecord, c: u16) -> int {
    if r.client == c && applies(s, r) {
        match r.kind {
            TransactionKind::DEPOSIT => r.amount_units(),
            TransactionKind::WITHDRAW => -r.amount_units(),
            _ => 0,
        }
    } else {
        0
    }
}

/// Sum of the monetary deltas of a sequence for client `c`, each taken in the
/// state where its record runs: applied deposit amounts minus successfully
/// applied withdrawal amounts.
pub open spec fn net_applied(s: LedgerModel, rs: Seq<TransactionRecord>, c: u16) -> int
    decreases rs.len(),
{
    if rs.len() == 0 {
        0
    } else {
        monetary_delta(s, rs[0], c) + net_applied(step(s, rs[0]), rs.skip(1), c)
    }
}

/// Every record of the sequence is a deposit or a withdrawal.
pub open spec fn monetary_only(rs: Seq<TransactionRecord>) -> bool {
    forall|i: int| 0 <= i < rs.len() ==> (#[trigger] rs[i]).kind.is_monetary()
}

/// A record for one client never moves another client's account.
pub proof fn lemma_step_other_client(s: LedgerModel, r: TransactionRecord, c: u16)
    requires
        c != r.client,
    ensures
        account_of(step(s, r), c) == account_of(s, c),
{
}

/// One monetary record changes a client's total funds by exactly its
/// monetary delta: the amount of an applied deposit, the negated amount of an
/// applied withdrawal, nothing otherwise.
pub proof fn lemma_step_total_monetary(s: LedgerModel, r: TransactionRecord, c: u16)
    requires
        r.kind.is_monetary(),
    ensures
        total_of(step(s, r), c) == total_of(s, c) + monetary_delta(s, r, c),
{
    if c != r.client {
        lemma_step_other_client(s, r, c);
    }
}

/// Conservation of funds: over any sequence of deposits and withdrawals,
/// each client's `available + held` changes by the sum of applied deposit
/// amounts minus the sum of successfully applied withdrawal amounts.
pub proof fn lemma_monetary_conservation(s: LedgerModel, rs: Seq<TransactionRecord>, c: u16)
    requires
        monetary_only(rs),
    ensures
        total_of(run(s, rs), c) == total_of(s, c) + net_applied(s, rs, c),
    decreases rs.len(),
{
    if rs.len() != 0 {
        lemma_step_total_monetary(s, rs[0], c);
        assert(monetary_only(rs.skip(1))) by {
            assert(forall|i: int|
                0 <= i < rs.skip(1).len() ==> rs.skip(1)[i] == (#[trigger] rs[i + 1]));
        }
        lemma_monetary_conservation(step(s, rs[0]), rs.skip(1), c);
    }
}

/// A record that does not apply is a no-op: the history is untouched and
/// every client's balances and locked flag are unchanged. In particular,
/// disputing a transaction that does not exist, that belongs to a different
/// client, or that is not in the right dispute state leaves the ledger as it
/// was — no panic, no abort.
pub proof fn lemma_discard_noop(s: LedgerModel, r: TransactionRecord)
    requires
        !applies(s, r),
    ensures
        step(s, r).history == s.history,
        forall|c: u16| account_of(#[trigger] step(s, r), c) == account_of(s, c),
{
    assert(step(s, r) == touch(s, r.client));
    assert forall|c: u16| account_of(#[trigger] step(s, r), c) == account_of(s, c) by {
        if c == r.client {
            assert(account_of(touch(s, r.client), c) == account_of(s, c));
        }
    }
}

/// A second deposit (or withdrawal) reusing a recorded transaction id is
/// discarded: only the first is applied.
pub proof fn lemma_duplicate_tx_noop(s: LedgerModel, r: TransactionRecord)
    requires
        r.kind.is_monetary(),
        s.history.contains_key(r.tx),
    ensures
        step(s, r).history == s.history,
        forall|c: u16| account_of(#[trigger] step(s, r), c) == account_of(s, c),
{
    lemma_discard_noop(s, r);
}

/// A dispute followed immediately by a resolve of the same transaction
/// restores every account and the whole history to their pre-dispute values
/// exactly.
pub proof fn lemma_dispute_resolve_round_trip(
    s: LedgerModel,
    d: TransactionRecord,
    v: TransactionRecord,
)
    requires
        d.kind == TransactionKind::DISPUTE,
        v.kind == TransactionKind::RESOLVE,
        v.tx == d.tx,
        v.client == d.client,
        dispute_applies(s, d),
    ensures
        step(step(s, d), v).history == s.history,
        forall|c: u16| account_of(#[trigger] step(step(s, d), v), c) == account_of(s, c),
{
    let s1 = step(s, d);
    let s2 = step(s1, v);
    let f = s.history[d.tx];
    assert(settle_applies(s1, v));
    assert(s2.history =~= s.history);
    assert forall|c: u16| #[trigger] account_of(s2, c) == account_of(s, c) by {
        if c == d.client {
            assert(account_of(s2, c) =~= account_of(s, c));
        } else {
            lemma_step_other_client(s, d, c);
            lemma_step_other_client(s1, v, c);
        }
    }
}

/// A dispute followed by a chargeback of the same transaction leaves the
/// held funds where they were before the dispute (zero, if they were zero),
/// removes the disputed transaction's stored signed effect from the total —
/// for a disputed deposit, that reduces the total by the deposited amount —
/// and locks the account.
pub proof fn lemma_dispute_chargeback(s: LedgerModel, d: TransactionRecord, b: TransactionRecord)
    requires
        d.kind == TransactionKind::DISPUTE,
        b.kind == TransactionKind::CHARGEBACK,
        b.tx == d.tx,
        b.client == d.client,
        dispute_applies(s, d),
    ensures
        account_of(step(step(s, d), b), d.client).held == account_of(s, d.client).held,
        total_of(step(step(s, d), b), d.client) == total_of(s, d.client)
            - s.history[d.tx].amount,
        account_of(step(step(s, d), b), d.client).locked,
{
    let s1 = step(s, d);
    assert(settle_applies(s1, b));
}

/// A locked account is frozen for good: no later record of any kind, from
/// any client, moves its balances or unlocks it.
pub proof fn lemma_locked_frozen(s: LedgerModel, r: TransactionRecord, c: u16)
    requires
        account_of(s, c).locked,
    ensures
        account_of(step(s, r), c) == account_of(s, c),
{
    if c != r.client {
        lemma_step_other_client(s, r, c);
    } else {
        assert(!applies(s, r));
        lemma_discard_noop(s, r);
    }
}

/// A value representable in the 128-bit balances of the executable ledger.
pub open spec fn in_i128(v: int) -> bool {
    i128::MIN <= v <= i128::MAX
}

/// An account the executable ledger can hold: both balances and their sum
/// are representable.
pub open spec fn account_ok(a: AccountState) -> bool {
    in_i128(a.available) && in_i128(a.held) && in_i128(a.available + a.held)
}

/// A record is applied by the executable engine exactly when the account it
/// produces is representable; otherwise the record is discarded as a machine
/// limit.
pub open spec fn step_in_range(s: LedgerModel, r: TransactionRecord) -> bool {
    account_ok(account_of(step(s, r), r.client))
}

/// History facts the executable engine records: the signed effect of a
/// monetary record always fits the amount's machine width.
pub open spec fn history_ok(h: Map<u32, TxFact>) -> bool {
    forall|t: u32|
        h.contains_key(t) ==> -(u64::MAX as int) <= (#[trigger] h[t]).amount <= u64::MAX as int
}

} // verus!
