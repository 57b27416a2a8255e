//! Result projection: the final per-client rows, with amounts rendered to
//! four decimal places and `total` recomputed from `available + held` at
//! emission time as a final consistency check.

use vstd::prelude::*;
use crate::engine::LedgerEngine;
use crate::model::{abs_val, account_of, LedgerModel};

verus! {

/// One output row: a client and its final balances. `total` is recomputed,
/// never read from storage.
#[derive(Clone, Copy, Debug, PartialEq, Eq, Structural)]
pub struct ClientRow {
    pub client: u16,
    pub available: i128,
    pub held: i128,
    pub total: i128,
    pub locked: bool,
}

/// A row faithfully projects the account the ledger holds for its client,
/// with `total` equal to `available + held`.
pub open spec fn row_matches(s: LedgerModel, row: ClientRow) -> bool {
    let a = account_of(s, row.client);
    &&& row.available as int == a.available
    &&& row.held as int == a.held
    &&& row.total as int == a.available + a.held
    &&& row.locked == a.locked
}

/// Project the final ledger into one row per client that appeared in the
/// input, in strictly increasing client order.
pub fn report(engine: &LedgerEngine) -> (rows: Vec<ClientRow>)
    requires
        engine.wf(),
    ensures
        forall|i: int, j: int| 0 <= i < j < rows@.len() ==> rows@[i].client < rows@[j].client,
        forall|i: int|
            0 <= i < rows@.len() ==> row_matches(engine@, #[trigger] rows@[i])
                && engine@.accounts.contains_key(rows@[i].client),
        forall|c: u16|
            #[trigger] engine@.accounts.contains_key(c) ==> exists|i: int|
                0 <= i < rows@.len() && rows@[i].client == c,
{
    let ids = engine.client_ids();
    let mut rows: Vec<ClientRow> = Vec::new();
    let mut i: usize = 0;
    while i < ids.len()
        invariant
            engine.wf(),
            i <= ids@.len(),
            rows@.len() == i,
            crate::engine::sorted_strict(ids@),
            forall|j: int|
                0 <= j < ids@.len() ==> engine@.accounts.contains_key(#[trigger] ids@[j]),
            forall|c: u16| #[trigger] engine@.accounts.contains_key(c) ==> ids@.contains(c),
            forall|k: int|
                0 <= k < i ==> (#[trigger] rows@[k]).client == ids@[k] && row_matches(
                    engine@,
                    rows@[k],
                ),
        decreases ids@.len() - i,
    {
        let c = ids[i];
        let a = engine.account(c);
        let total = a.total();
        rows.push(ClientRow { client: c, available: a.available, held: a.held, total, locked: a.locked });
        i += 1;
    }
    proof {
        assert forall|c: u16| #[trigger] engine@.accounts.contains_key(c) implies exists|k: int|
            0 <= k < rows@.len() && rows@[k].client == c by {
            let j = choose|j: int| 0 <= j < ids@.len() && ids@[j] == c;
            assert(rows@[j].client == c);
        }
    }
    rows
}

/// The decimal digits of a natural number, most significant first, as ASCII
/// bytes.
pub open spec fn dec_digits_bytes(n: nat) -> Seq<u8>
    decreases n,
{
    if n < 10 {
        seq![(48 + n) as u8]
    } else {
        dec_digits_bytes(n / 10).push((48 + n % 10) as u8)
    }
}

/// An amount rendered to exactly four decimal places, as ASCII bytes: an
/// optional minus sign, the whole part, a dot, and the zero-padded fraction.
pub open spec fn format_units_bytes(v: int) -> Seq<u8> {
    let m = abs_val(v);
    let sign: Seq<u8> = if v < 0 {
        seq![45u8]
    } else {
        Seq::empty()
    };
    let f = m % 10000;
    sign + dec_digits_bytes((m / 10000) as nat) + seq![46u8] + seq![
        (48 + f / 1000) as u8,
        (48 + (f / 100) % 10) as u8,
        (48 + (f / 10) % 10) as u8,
        (48 + f % 10) as u8,
    ]
}

/// The characters those ASCII bytes decode to.
pub open spec fn ascii_chars(b: Seq<u8>) -> Seq<char> {
    b.map_values(|x: u8| x as char)
}

/// An amount rendered to four decimal places, as text.
pub open spec fn spec_format_units(v: int) -> Seq<char> {
    ascii_chars(format_units_bytes(v))
}

/// Every decimal digit byte is an ASCII digit.
proof fn lemma_dec_digits_ascii(n: nat)
    ensures
        forall|i: int|
            0 <= i < dec_digits_bytes(n).len() ==> 48 <= #[trigger] dec_digits_bytes(n)[i] <= 57,
    decreases n,
{
    if n < 10 {
        assert(dec_digits_bytes(n)[0] == (48 + n) as u8);
    } else {
        lemma_dec_digits_ascii(n / 10);
        assert forall|i: int| 0 <= i < dec_digits_bytes(n).len() implies 48
            <= #[trigger] dec_digits_bytes(n)[i] <= 57 by {
            if i < dec_digits_bytes(n / 10).len() {
                assert(dec_digits_bytes(n)[i] == dec_digits_bytes(n / 10)[i]);
            } else {
                assert(dec_digits_bytes(n)[i] == (48 + n % 10) as u8);
            }
        }
    }
}

/// Append the decimal digits of `n`, most significant first.
fn push_decimal(out: &mut Vec<u8>, n: u128)
    ensures
        final(out)@ == old(out)@ + dec_digits_bytes(n as nat),
    decreases n,
{
    if n >= 10 {
        push_decimal(out, n / 10);
    }
    out.push(48 + (n % 10) as u8);
    proof {
        if n < 10 {
            assert(out@ =~= old(out)@ + dec_digits_bytes(n as nat));
        } else {
            assert(out@ =~= old(out)@ + dec_digits_bytes(n as nat));
        }
    }
}

/// Relies on String::from_utf8: a buffer of ASCII bytes decodes to the
/// string holding exactly those characters.
#[verifier::external_body]
fn ascii_bytes_to_string(v: Vec<u8>) -> (r: String)
    requires
        forall|i: int| 0 <= i < v@.len() ==> v@[i] < 128,
    ensures
        r@ == ascii_chars(v@),
{
    String::from_utf8(v).unwrap_or_default()
}

/// Render a fixed-point amount (1/10000 units) to text with exactly four
/// decimal places, regardless of trailing zeros.
#[verifier::rlimit(50)]
pub fn format_units(units: i128) -> (s: String)
    ensures
        s@ == spec_format_units(units as int),
{
    let neg = units < 0;
    let mag: u128 = if units >= 0 {
        units as u128
    } else {
        ((-(units + 1)) as u128) + 1
    };
    proof {
        assert(mag as int == abs_val(units as int));
    }
    let mut out: Vec<u8> = Vec::new();
    if neg {
        out.push(45);
    }
    push_decimal(&mut out, mag / 10000);
    out.push(46);
    let f = mag % 10000;
    out.push(48 + (f / 1000) as u8);
    out.push(48 + ((f / 100) % 10) as u8);
    out.push(48 + ((f / 10) % 10) as u8);
    out.push(48 + (f % 10) as u8);
    proof {
        lemma_dec_digits_ascii((mag / 10000) as nat);
        assert(out@ =~= format_units_bytes(units as int));
    }
    ascii_bytes_to_string(out)
}

} // verus!
