//! The record model: transaction kinds, per-kind record structs, and the
//! tagged record that the ledger engine consumes.
//!
//! Amounts are fixed-point: a `u64` counts units of 1/10000, so `5.0` is
//! `50000` units. Monetary kinds (deposit, withdraw) carry an amount;
//! reference kinds (dispute, resolve, chargeback) carry only the `tx` of the
//! monetary record they refer to.

use vstd::prelude::*;
use crate::errors::KrakenError;

verus! {

/// The five kinds of input record.
#[derive(Clone, Copy, Debug, PartialEq, Eq, Structural)]
pub enum TransactionKind {
    DEPOSIT,
    WITHDRAW,
    DISPUTE,
    RESOLVE,
    CHARGEBACK,
}

impl TransactionKind {
    /// The compact numeric tag of this kind.
    pub open spec fn as_byte(self) -> u8 {
        match self {
            TransactionKind::DEPOSIT => 0,
            TransactionKind::WITHDRAW => 1,
            TransactionKind::DISPUTE => 2,
            TransactionKind::RESOLVE => 3,
            TransactionKind::CHARGEBACK => 4,
        }
    }

    /// A monetary kind carries an amount; a reference kind does not.
    pub open spec fn is_monetary(self) -> bool {
        self == TransactionKind::DEPOSIT || self == TransactionKind::WITHDRAW
    }

    /// Convert the kind to its numeric tag. [0-4] fits a `u8`, so no larger
    /// datatype is needed.
    pub fn into(self) -> (v: u8)
        ensures
            v == self.as_byte(),
    {
        match self {
            TransactionKind::DEPOSIT => 0,
            TransactionKind::WITHDRAW => 1,
            TransactionKind::DISPUTE => 2,
            TransactionKind::RESOLVE => 3,
            TransactionKind::CHARGEBACK => 4,
        }
    }

    /// Attempt to match an int in `u8` form to a kind: the inverse of
    /// [`Self::into`] on tags 0 through 4, `EnumError` on anything else.
    pub fn try_from(v: u8) -> (r: Result<TransactionKind, KrakenError>)
        ensures
            match r {
                Ok(k) => k.as_byte() == v,
                Err(e) => v > 4 && e == KrakenError::EnumError,
            },
    {
        match v {
            0 => Ok(TransactionKind::DEPOSIT),
            1 => Ok(TransactionKind::WITHDRAW),
            2 => Ok(TransactionKind::DISPUTE),
            3 => Ok(TransactionKind::RESOLVE),
            4 => Ok(TransactionKind::CHARGEBACK),
            _ => Err(KrakenError::EnumError),
        }
    }

    /// The kind whose lower-case name is `s`, if any.
    pub open spec fn spec_of_name(s: Seq<char>) -> Option<TransactionKind> {
        if s == "deposit"@ {
            Some(TransactionKind::DEPOSIT)
        } else if s == "withdraw"@ {
            Some(TransactionKind::WITHDRAW)
        } else if s == "dispute"@ {
            Some(TransactionKind::DISPUTE)
        } else if s == "resolve"@ {
            Some(TransactionKind::RESOLVE)
        } else if s == "chargeback"@ {
            Some(TransactionKind::CHARGEBACK)
        } else {
            None
        }
    }

    /// Match against a `str` ref holding the exact lower-case kind name.
    pub fn try_from_str(v: &str) -> (r: Result<TransactionKind, KrakenError>)
        ensures
            match r {
                Ok(k) => Self::spec_of_name(v@) == Some(k),
                Err(e) => Self::spec_of_name(v@) is None && e == KrakenError::EnumError,
            },
    {
        if str_eq(v, "deposit") {
            Ok(TransactionKind::DEPOSIT)
        } else if str_eq(v, "withdraw") {
            Ok(TransactionKind::WITHDRAW)
        } else if str_eq(v, "dispute") {
            Ok(TransactionKind::DISPUTE)
        } else if str_eq(v, "resolve") {
            Ok(TransactionKind::RESOLVE)
        } else if str_eq(v, "chargeback") {
            Ok(TransactionKind::CHARGEBACK)
        } else {
            Err(KrakenError::EnumError)
        }
    }
}

/// Character-for-character equality of two string slices.
pub fn str_eq(a: &str, b: &str) -> (r: bool)
    ensures
        r == (a@ == b@),
{
    let alen = a.unicode_len();
    let blen = b.unicode_len();
    if alen != blen {
        proof {
            assert(a@.len() != b@.len());
        }
        return false;
    }
    let mut i: usize = 0;
    while i < alen
        invariant
            alen == a@.len(),
            alen == b@.len(),
            i <= alen,
            forall|j: int| 0 <= j < i ==> a@[j] == b@[j],
        decreases alen - i,
    {
        if a.get_char(i) != b.get_char(i) {
            proof {
                assert(a@[i as int] != b@[i as int]);
            }
            return false;
        }
        i += 1;
    }
    proof {
        assert(a@ =~= b@);
    }
    true
}

/// What every transaction record exposes, whatever its kind.
pub trait Transaction {
    /// Numeric tag of the kind of this record.
    fn get_kind(&self) -> u8;

    /// Transaction id of this record.
    fn get_tx(&self) -> u32;

    /// Amount in 1/10000 units; `None` for reference kinds.
    fn get_amount(&self) -> Option<u64>;

    /// Id of the client this record belongs to.
    fn get_client(&self) -> u16;
}

/// A deposit of an amount into a client's account.
#[derive(Clone, Copy, Debug, PartialEq, Eq, Structural)]
pub struct DepositTransaction {
    pub kind: u8,
    pub tx: u32,
    pub amount: u64,
    pub client: u16,
}

impl Transaction for DepositTransaction {
    fn get_kind(&self) -> (v: u8)
        ensures
            v == self.kind,
    {
        self.kind
    }

    fn get_tx(&self) -> (v: u32)
        ensures
            v == self.tx,
    {
        self.tx
    }

    fn get_amount(&self) -> (v: Option<u64>)
        ensures
            v == Some(self.amount),
    {
        Some(self.amount)
    }

    fn get_client(&self) -> (v: u16)
        ensures
            v == self.client,
    {
        self.client
    }
}

/// A withdrawal of an amount from a client's account.
#[derive(Clone, Copy, Debug, PartialEq, Eq, Structural)]
pub struct WithdrawTransaction {
    pub kind: u8,
    pub tx: u32,
    pub amount: u64,
    pub client: u16,
}

impl Transaction for WithdrawTransaction {
    fn get_kind(&self) -> (v: u8)
        ensures
            v == self.kind,
    {
        self.kind
    }

    fn get_tx(&self) -> (v: u32)
        ensures
            v == self.tx,
    {
        self.tx
    }

    fn get_amount(&self) -> (v: Option<u64>)
        ensures
            v == Some(self.amount),
    {
        Some(self.amount)
    }

    fn get_client(&self) -> (v: u16)
        ensures
            v == self.client,
    {
        self.client
    }
}

impl From<DepositTransaction> for DisputeTransaction {
    /// A deposit can be contested: carry its identifiers over to a dispute,
    /// tagged with the dispute kind.
    fn from(t: DepositTransaction) -> (r: DisputeTransaction) {
        DisputeTransaction { kind: 2, tx: t.tx, client: t.client }
    }
}

impl vstd::std_specs::convert::FromSpecImpl<DepositTransaction> for DisputeTransaction {
    open spec fn obeys_from_spec() -> bool {
        true
    }

    open spec fn from_spec(t: DepositTransaction) -> DisputeTransaction {
        DisputeTransaction { kind: TransactionKind::DISPUTE.as_byte(), tx: t.tx, client: t.client }
    }
}

impl From<WithdrawTransaction> for DisputeTransaction {
    /// A withdrawal can be contested: carry its identifiers over to a
    /// dispute, tagged with the dispute kind.
    fn from(t: WithdrawTransaction) -> (r: DisputeTransaction) {
        DisputeTransaction { kind: 2, tx: t.tx, client: t.client }
    }
}

impl vstd::std_specs::convert::FromSpecImpl<WithdrawTransaction> for DisputeTransaction {
    open spec fn obeys_from_spec() -> bool {
        true
    }

    open spec fn from_spec(t: WithdrawTransaction) -> DisputeTransaction {
        DisputeTransaction { kind: TransactionKind::DISPUTE.as_byte(), tx: t.tx, client: t.client }
    }
}

/// A claim that an earlier monetary transaction was erroneous.
#[derive(Clone, Copy, Debug, PartialEq, Eq, Structural)]
pub struct DisputeTransaction {
    pub kind: u8,
    pub tx: u32,
    pub client: u16,
}

impl Transaction for DisputeTransaction {
    fn get_kind(&self) -> (v: u8)
        ensures
            v == self.kind,
    {
        self.kind
    }

    fn get_tx(&self) -> (v: u32)
        ensures
            v == self.tx,
    {
        self.tx
    }

    fn get_amount(&self) -> (v: Option<u64>)
        ensures
            v is None,
    {
        None
    }

    fn get_client(&self) -> (v: u16)
        ensures
            v == self.client,
    {
        self.client
    }
}

impl From<DisputeTransaction> for ResolveTransaction {
    /// A dispute settled in the client's favour becomes a resolve for the
    /// same transaction, tagged with the resolve kind.
    fn from(t: DisputeTransaction) -> (r: ResolveTransaction) {
        ResolveTransaction { kind: 3, tx: t.tx, client: t.client }
    }
}

impl vstd::std_specs::convert::FromSpecImpl<DisputeTransaction> for ResolveTransaction {
    open spec fn obeys_from_spec() -> bool {
        true
    }

    open spec fn from_spec(t: DisputeTransaction) -> ResolveTransaction {
        ResolveTransaction { kind: TransactionKind::RESOLVE.as_byte(), tx: t.tx, client: t.client }
    }
}

impl From<DisputeTransaction> for ChargebackTransaction {
    /// A dispute settled against the client becomes a chargeback for the
    /// same transaction, tagged with the chargeback kind.
    fn from(t: DisputeTransaction) -> (r: ChargebackTransaction) {
        ChargebackTransaction { kind: 4, tx: t.tx, client: t.client }
    }
}

impl vstd::std_specs::convert::FromSpecImpl<DisputeTransaction> for ChargebackTransaction {
    open spec fn obeys_from_spec() -> bool {
        true
    }

    open spec fn from_spec(t: DisputeTransaction) -> ChargebackTransaction {
        ChargebackTransaction {
            kind: TransactionKind::CHARGEBACK.as_byte(),
            tx: t.tx,
            client: t.client,
        }
    }
}

/// Settlement of a dispute in the client's favour: the hold is released.
#[derive(Clone, Copy, Debug, PartialEq, Eq, Structural)]
pub struct ResolveTransaction {
    pub kind: u8,
    pub tx: u32,
    pub client: u16,
}

impl Transaction for ResolveTransaction {
    fn get_kind(&self) -> (v: u8)
        ensures
            v == self.kind,
    {
        self.kind
    }

    fn get_tx(&self) -> (v: u32)
        ensures
            v == self.tx,
    {
        self.tx
    }

    fn get_amount(&self) -> (v: Option<u64>)
        ensures
            v is None,
    {
        None
    }

    fn get_client(&self) -> (v: u16)
        ensures
            v == self.client,
    {
        self.client
    }
}

/// Settlement of a dispute against the client: held funds are withdrawn and
/// the account is locked.
#[derive(Clone, Copy, Debug, PartialEq, Eq, Structural)]
pub struct ChargebackTransaction {
    pub kind: u8,
    pub tx: u32,
    pub client: u16,
}

impl Transaction for ChargebackTransaction {
    fn get_kind(&self) -> (v: u8)
        ensures
            v == self.kind,
    {
        self.kind
    }

    fn get_tx(&self) -> (v: u32)
        ensures
            v == self.tx,
    {
        self.tx
    }

    fn get_amount(&self) -> (v: Option<u64>)
        ensures
            v is None,
    {
        None
    }

    fn get_client(&self) -> (v: u16)
        ensures
            v == self.client,
    {
        self.client
    }
}

/// One validated input row: a single tagged record with an optional amount,
/// in place of a hierarchy of per-kind structs.
#[derive(Clone, Copy, Debug, PartialEq, Eq, Structural)]
pub struct TransactionRecord {
    pub kind: TransactionKind,
    pub client: u16,
    pub tx: u32,
    pub amount: Option<u64>,
}

impl TransactionRecord {
    /// A structurally valid record carries an amount exactly on the monetary
    /// kinds.
    pub open spec fn wf(self) -> bool {
        self.amount is Some <==> self.kind.is_monetary()
    }

    /// Build a validated record; `MalformedRecord` when the amount is missing
    /// on a monetary kind or present on a reference kind.
    pub fn new(kind: TransactionKind, client: u16, tx: u32, amount: Option<u64>) -> (r: Result<
        TransactionRecord,
        KrakenError,
    >)
        ensures
            match r {
                Ok(rec) => rec == (TransactionRecord { kind, client, tx, amount }) && rec.wf(),
                Err(e) => e == KrakenError::MalformedRecord && !(TransactionRecord {
                    kind,
                    client,
                    tx,
                    amount,
                }).wf(),
            },
    {
        let monetary = match kind {
            TransactionKind::DEPOSIT => true,
            TransactionKind::WITHDRAW => true,
            _ => false,
        };
        if monetary == amount.is_some() {
            Ok(TransactionRecord { kind, client, tx, amount })
        } else {
            Err(KrakenError::MalformedRecord)
        }
    }

    /// The amount this record carries, as a plain integer; 0 for reference
    /// kinds.
    pub open spec fn amount_units(self) -> int {
        match self.amount {
            Some(a) => a as int,
            None => 0,
        }
    }
}

} // verus!
