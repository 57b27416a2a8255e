//! Parsing of input rows: `type, client, tx, amount` as text, with
//! whitespace around fields tolerated, into validated records.
//!
//! Everything is specified over character sequences: the grammar of an
//! unsigned decimal, of a fixed-point amount with up to four fractional
//! digits, and of a whole comma-separated row. Structurally invalid rows are
//! rejected here, with `MalformedRecord`, before they can reach the engine.

use vstd::prelude::*;
use crate::data::{TransactionKind, TransactionRecord};
use crate::errors::KrakenError;

verus! {

/// Horizontal whitespace tolerated around a field, and the carriage return
/// a line ending may leave behind.
pub open spec fn is_ws(c: char) -> bool {
    c == ' ' || c == '\t' || c == '\r'
}

/// An ASCII decimal digit.
pub open spec fn is_digit(c: char) -> bool {
    48 <= c as u32 <= 57
}

/// The numeric value of a digit character.
pub open spec fn digit_val(c: char) -> int {
    c as u32 - 48
}

/// Every character is a digit.
pub open spec fn all_digits(s: Seq<char>) -> bool {
    forall|i: int| 0 <= i < s.len() ==> is_digit(#[trigger] s[i])
}

/// A non-empty run of digits: the grammar of an unsigned decimal field.
pub open spec fn valid_uint(s: Seq<char>) -> bool {
    s.len() > 0 && all_digits(s)
}

/// The value of a digit string, most significant digit first.
pub open spec fn digits_val(s: Seq<char>) -> int
    decreases s.len(),
{
    if s.len() == 0 {
        0
    } else {
        digits_val(s.take(s.len() - 1)) * 10 + digit_val(s[s.len() - 1])
    }
}

/// The sequence with leading whitespace removed.
pub open spec fn trim_front(s: Seq<char>) -> Seq<char>
    decreases s.len(),
{
    if s.len() > 0 && is_ws(s[0]) {
        trim_front(s.skip(1))
    } else {
        s
    }
}

/// The sequence with trailing whitespace removed.
pub open spec fn trim_back(s: Seq<char>) -> Seq<char>
    decreases s.len(),
{
    if s.len() > 0 && is_ws(s[s.len() - 1]) {
        trim_back(s.take(s.len() - 1))
    } else {
        s
    }
}

/// The sequence with whitespace removed at both ends.
pub open spec fn trim(s: Seq<char>) -> Seq<char> {
    trim_back(trim_front(s))
}

/// Index of the first occurrence of a character, or the length if absent.
pub open spec fn find_char(s: Seq<char>, ch: char) -> int
    decreases s.len(),
{
    if s.len() == 0 {
        0
    } else if s[0] == ch {
        0
    } else {
        1 + find_char(s.skip(1), ch)
    }
}

/// Ten to the `n`.
pub open spec fn pow10(n: nat) -> int
    decreases n,
{
    if n == 0 {
        1
    } else {
        10 * pow10((n - 1) as nat)
    }
}

/// The grammar of an amount: a non-empty whole part of digits, optionally
/// followed by a dot and one to four fractional digits.
pub open spec fn valid_amount(s: Seq<char>) -> bool {
    let d = find_char(s, '.');
    &&& d > 0
    &&& all_digits(s.take(d))
    &&& (d < s.len() ==> {
        let fp = s.skip(d + 1);
        1 <= fp.len() <= 4 && all_digits(fp)
    })
}

/// The value of an amount in 1/10000 units: the whole part scaled by ten
/// thousand plus the fractional digits scaled to four places.
pub open spec fn amount_units_of(s: Seq<char>) -> int {
    let d = find_char(s, '.');
    let ip = digits_val(s.take(d));
    if d == s.len() {
        ip * 10000
    } else {
        let fp = s.skip(d + 1);
        if fp.len() <= 4 {
            ip * 10000 + digits_val(fp) * pow10((4 - fp.len()) as nat)
        } else {
            ip * 10000
        }
    }
}

proof fn lemma_trim_front(s: Seq<char>, lo: int)
    requires
        0 <= lo <= s.len(),
        forall|k: int| 0 <= k < lo ==> is_ws(#[trigger] s[k]),
        lo < s.len() ==> !is_ws(s[lo]),
    ensures
        trim_front(s) == s.skip(lo),
    decreases lo,
{
    if lo == 0 {
        assert(trim_front(s) =~= s.skip(0));
    } else {
        assert(is_ws(s[0]));
        lemma_trim_front(s.skip(1), lo - 1);
        assert(s.skip(1).skip(lo - 1) =~= s.skip(lo));
    }
}

proof fn lemma_trim_back(s: Seq<char>, hi: int)
    requires
        0 <= hi <= s.len(),
        forall|k: int| hi <= k < s.len() ==> is_ws(#[trigger] s[k]),
        hi > 0 ==> !is_ws(s[hi - 1]),
    ensures
        trim_back(s) == s.take(hi),
    decreases s.len(),
{
    if hi == s.len() {
        assert(trim_back(s) =~= s.take(hi));
    } else {
        assert(is_ws(s[s.len() - 1]));
        lemma_trim_back(s.take(s.len() - 1), hi);
    }
}

proof fn lemma_find_char(s: Seq<char>, ch: char, d: int)
    requires
        0 <= d <= s.len(),
        forall|k: int| 0 <= k < d ==> #[trigger] s[k] != ch,
        d < s.len() ==> s[d] == ch,
    ensures
        find_char(s, ch) == d,
    decreases s.len(),
{
    if s.len() == 0 {
    } else if s[0] == ch {
        assert(d == 0);
    } else {
        lemma_find_char(s.skip(1), ch, d - 1);
    }
}

/// The value of a digit string never goes down as the string grows.
proof fn lemma_digits_val_nonneg(s: Seq<char>)
    requires
        all_digits(s),
    ensures
        digits_val(s) >= 0,
    decreases s.len(),
{
    if s.len() > 0 {
        assert(all_digits(s.take(s.len() - 1)));
        lemma_digits_val_nonneg(s.take(s.len() - 1));
    }
}

proof fn lemma_digits_val_prefix_le(s: Seq<char>, i: int)
    requires
        0 <= i <= s.len(),
        all_digits(s),
    ensures
        digits_val(s.take(i)) <= digits_val(s),
    decreases s.len() - i,
{
    if i < s.len() {
        let t = s.take(i + 1);
        assert(t.take(i) =~= s.take(i));
        assert(all_digits(s.take(i)));
        lemma_digits_val_nonneg(s.take(i));
        assert(digits_val(t) == digits_val(s.take(i)) * 10 + digit_val(s[i]));
        lemma_digits_val_prefix_le(s, i + 1);
    } else {
        assert(s.take(i) =~= s);
    }
}

/// Whether a character is tolerated whitespace.
fn is_ws_char(c: char) -> (r: bool)
    ensures
        r == is_ws(c),
{
    c == ' ' || c == '\t' || c == '\r'
}

/// The slice with whitespace removed at both ends.
pub fn trimmed<'a>(s: &'a str) -> (t: &'a str)
    ensures
        t@ == trim(s@),
{
    let n = s.unicode_len();
    let mut lo: usize = 0;
    while lo < n && is_ws_char(s.get_char(lo))
        invariant
            n == s@.len(),
            lo <= n,
            forall|k: int| 0 <= k < lo ==> is_ws(#[trigger] s@[k]),
        decreases n - lo,
    {
        lo += 1;
    }
    let mut hi: usize = n;
    while hi > lo && is_ws_char(s.get_char(hi - 1))
        invariant
            n == s@.len(),
            lo <= hi <= n,
            forall|k: int| hi <= k < n ==> is_ws(#[trigger] s@[k]),
        decreases hi,
    {
        hi -= 1;
    }
    proof {
        lemma_trim_front(s@, lo as int);
        let m = s@.skip(lo as int);
        assert(forall|k: int|
            hi - lo <= k < m.len() ==> is_ws(#[trigger] m[k]) && m[k] == s@[k + lo]);
        lemma_trim_back(m, hi - lo);
        assert(m.take(hi - lo) =~= s@.subrange(lo as int, hi as int));
    }
    s.substring_char(lo, hi)
}

/// Parse a whole slice as an unsigned decimal no larger than `max`.
fn parse_uint(s: &str, max: u64) -> (r: Result<u64, KrakenError>)
    ensures
        match r {
            Ok(v) => valid_uint(s@) && digits_val(s@) <= max && v as int == digits_val(s@),
            Err(e) => e == KrakenError::MalformedRecord && !(valid_uint(s@) && digits_val(s@)
                <= max),
        },
{
    let n = s.unicode_len();
    if n == 0 {
        return Err(KrakenError::MalformedRecord);
    }
    let mut acc: u64 = 0;
    let mut i: usize = 0;
    while i < n
        invariant
            n == s@.len(),
            i <= n,
            forall|k: int| 0 <= k < i ==> is_digit(#[trigger] s@[k]),
            acc <= max,
            acc as int == digits_val(s@.take(i as int)),
        decreases n - i,
    {
        let c = s.get_char(i);
        let cv = c as u32;
        if cv < 48 || cv > 57 {
            proof {
                assert(!is_digit(s@[i as int]));
            }
            return Err(KrakenError::MalformedRecord);
        }
        let d = (cv - 48) as u64;
        let wide: u128 = acc as u128 * 10 + d as u128;
        proof {
            let t = s@.take(i as int + 1);
            assert(t.take(i as int) =~= s@.take(i as int));
            assert(digits_val(t) == digits_val(s@.take(i as int)) * 10 + digit_val(s@[i as int]));
        }
        if wide > max as u128 {
            proof {
                if valid_uint(s@) {
                    lemma_digits_val_prefix_le(s@, i as int + 1);
                }
            }
            return Err(KrakenError::MalformedRecord);
        }
        acc = wide as u64;
        i += 1;
    }
    proof {
        assert(s@.take(n as int) =~= s@);
    }
    Ok(acc)
}

/// Parse a slice already stripped of whitespace as a fixed-point amount.
fn parse_amount_trimmed(s: &str) -> (r: Result<u64, KrakenError>)
    ensures
        match r {
            Ok(v) => valid_amount(s@) && amount_units_of(s@) <= u64::MAX && v as int
                == amount_units_of(s@),
            Err(e) => e == KrakenError::MalformedRecord && !(valid_amount(s@) && amount_units_of(
                s@,
            ) <= u64::MAX),
        },
{
    let n = s.unicode_len();
    let mut d: usize = 0;
    while d < n && s.get_char(d) != '.'
        invariant
            n == s@.len(),
            d <= n,
            forall|k: int| 0 <= k < d ==> #[trigger] s@[k] != '.',
        decreases n - d,
    {
        d += 1;
    }
    proof {
        lemma_find_char(s@, '.', d as int);
    }
    if d == 0 {
        return Err(KrakenError::MalformedRecord);
    }
    let ip_str = s.substring_char(0, d);
    proof {
        assert(ip_str@ =~= s@.take(d as int));
    }
    let ipv = match parse_uint(ip_str, u64::MAX) {
        Ok(v) => v,
        Err(_) => {
            proof {
                if valid_amount(s@) {
                    lemma_digits_val_nonneg(s@.take(d as int));
                    if d < n {
                        let fp = s@.skip(d as int + 1);
                        if fp.len() <= 4 {
                            lemma_digits_val_nonneg(fp);
                            assert(pow10((4 - fp.len()) as nat) >= 1) by {
                                assert(pow10(0) == 1);
                                assert(pow10(1) == 10);
                                assert(pow10(2) == 100);
                                assert(pow10(3) == 1000);
                            }
                        }
                    }
                }
            }
            return Err(KrakenError::MalformedRecord);
        },
    };
    if d == n {
        let wide: u128 = ipv as u128 * 10000;
        if wide > u64::MAX as u128 {
            return Err(KrakenError::MalformedRecord);
        }
        return Ok(wide as u64);
    }
    let fplen = n - d - 1;
    if fplen < 1 || fplen > 4 {
        return Err(KrakenError::MalformedRecord);
    }
    let fp_str = s.substring_char(d + 1, n);
    proof {
        assert(fp_str@ =~= s@.skip(d as int + 1));
    }
    let fpv = match parse_uint(fp_str, u64::MAX) {
        Ok(v) => v,
        Err(_) => {
            proof {
                if valid_amount(s@) {
                    let fp = s@.skip(d as int + 1);
                    let p = pow10((4 - fp.len()) as nat);
                    assert(p >= 1) by {
                        assert(pow10(0) == 1);
                        assert(pow10(1) == 10);
                        assert(pow10(2) == 100);
                        assert(pow10(3) == 1000);
                    }
                    assert(digits_val(fp) > u64::MAX);
                    lemma_digits_val_nonneg(s@.take(d as int));
                    assert(digits_val(fp) * p >= digits_val(fp) * 1) by (nonlinear_arith)
                        requires
                            p >= 1,
                            digits_val(fp) >= 0,
                    ;
                    assert(amount_units_of(s@) > u64::MAX);
                }
            }
            return Err(KrakenError::MalformedRecord);
        },
    };
    let mult: u64 = if fplen == 1 {
        1000
    } else if fplen == 2 {
        100
    } else if fplen == 3 {
        10
    } else {
        1
    };
    proof {
        assert(pow10(0) == 1);
        assert(pow10(1) == 10);
        assert(pow10(2) == 100);
        assert(pow10(3) == 1000);
    }
    proof {
        assert(fpv as int * mult as int <= u64::MAX as int * 1000) by (nonlinear_arith)
            requires
                fpv <= u64::MAX,
                0 <= mult <= 1000,
        ;
    }
    let wide: u128 = ipv as u128 * 10000 + fpv as u128 * mult as u128;
    if wide > u64::MAX as u128 {
        return Err(KrakenError::MalformedRecord);
    }
    Ok(wide as u64)
}

/// Parse a field, tolerating surrounding whitespace, as a fixed-point
/// amount: digits, optionally a dot and one to four fractional digits,
/// valued in 1/10000 units. `MalformedRecord` when the field does not fit
/// that grammar or the value exceeds the amount width.
pub fn parse_amount(s: &str) -> (r: Result<u64, KrakenError>)
    ensures
        match r {
            Ok(v) => valid_amount(trim(s@)) && amount_units_of(trim(s@)) <= u64::MAX && v as int
                == amount_units_of(trim(s@)),
            Err(e) => e == KrakenError::MalformedRecord && !(valid_amount(trim(s@))
                && amount_units_of(trim(s@)) <= u64::MAX),
        },
{
    parse_amount_trimmed(trimmed(s))
}

/// What a row's four fields, each taken with surrounding whitespace
/// ignored, denote: a record, or nothing when any field is malformed. A
/// monetary kind requires a valid amount; a reference kind requires the
/// amount column to be empty or absent.
pub open spec fn parse_fields_spec(
    k: Seq<char>,
    c: Seq<char>,
    t: Seq<char>,
    a: Option<Seq<char>>,
) -> Option<TransactionRecord> {
    match TransactionKind::spec_of_name(trim(k)) {
        Option::None => Option::None,
        Option::Some(kind) => {
            let cl = trim(c);
            let tx = trim(t);
            if !(valid_uint(cl) && digits_val(cl) <= u16::MAX) {
                Option::None
            } else if !(valid_uint(tx) && digits_val(tx) <= u32::MAX) {
                Option::None
            } else {
                let amt = match a {
                    Option::Some(x) => trim(x),
                    Option::None => Seq::empty(),
                };
                if kind.is_monetary() {
                    if valid_amount(amt) && amount_units_of(amt) <= u64::MAX {
                        Option::Some(
                            TransactionRecord {
                                kind,
                                client: digits_val(cl) as u16,
                                tx: digits_val(tx) as u32,
                                amount: Option::Some(amount_units_of(amt) as u64),
                            },
                        )
                    } else {
                        Option::None
                    }
                } else {
                    if amt.len() == 0 {
                        Option::Some(
                            TransactionRecord {
                                kind,
                                client: digits_val(cl) as u16,
                                tx: digits_val(tx) as u32,
                                amount: Option::None,
                            },
                        )
                    } else {
                        Option::None
                    }
                }
            }
        },
    }
}

/// The first occurrence of a character lies within the sequence's bounds.
pub proof fn lemma_find_char_bounds(s: Seq<char>, ch: char)
    ensures
        0 <= find_char(s, ch) <= s.len(),
        find_char(s, ch) < s.len() ==> s[find_char(s, ch)] == ch,
    decreases s.len(),
{
    if s.len() > 0 && s[0] != ch {
        lemma_find_char_bounds(s.skip(1), ch);
    }
}

/// The comma-separated fields of a row, split at every comma.
pub open spec fn split_commas_spec(s: Seq<char>) -> Seq<Seq<char>>
    decreases s.len() via split_commas_spec_decreases
{
    let c = find_char(s, ',');
    if c == s.len() {
        seq![s]
    } else {
        seq![s.take(c)] + split_commas_spec(s.skip(c + 1))
    }
}

#[via_fn]
proof fn split_commas_spec_decreases(s: Seq<char>) {
    lemma_find_char_bounds(s, ',');
}

/// What a whole row denotes: its fields must be `type, client, tx` and an
/// optional `amount` column, each valid.
pub open spec fn parse_line_spec(s: Seq<char>) -> Option<TransactionRecord> {
    let fs = split_commas_spec(s);
    if fs.len() == 3 {
        parse_fields_spec(fs[0], fs[1], fs[2], Option::None)
    } else if fs.len() == 4 {
        parse_fields_spec(fs[0], fs[1], fs[2], Option::Some(fs[3]))
    } else {
        Option::None
    }
}

proof fn lemma_split_suffix(s: Seq<char>, parts: Seq<(usize, usize)>, k: int)
    requires
        parts.len() >= 1,
        0 <= k,
        parts[0].0 == k,
        parts[parts.len() - 1].1 == s.len(),
        forall|i: int| 0 <= i < parts.len() ==> (#[trigger] parts[i]).0 <= parts[i].1 <= s.len(),
        forall|i: int|
            0 <= i < parts.len() - 1 ==> parts[i + 1].0 == (#[trigger] parts[i]).1 + 1
                && s[parts[i].1 as int] == ',',
        forall|i: int, j: int|
            #![trigger parts[i], s[j]]
            0 <= i < parts.len() && parts[i].0 <= j < parts[i].1 ==> s[j] != ',',
    ensures
        split_commas_spec(s.skip(k)).len() == parts.len(),
        forall|i: int|
            0 <= i < parts.len() ==> #[trigger] split_commas_spec(s.skip(k))[i] == s.subrange(
                parts[i].0 as int,
                parts[i].1 as int,
            ),
    decreases parts.len(),
{
    let m = s.skip(k);
    let e = parts[0].1 as int;
    if parts.len() == 1 {
        assert forall|j: int| 0 <= j < m.len() implies #[trigger] m[j] != ',' by {
            assert(m[j] == s[j + k]);
            assert(parts[0].0 <= j + k < parts[0].1 ==> s[j + k] != ',');
        }
        lemma_find_char(m, ',', m.len() as int);
        assert(split_commas_spec(m) =~= seq![m]);
        assert(m =~= s.subrange(k, s.len() as int));
    } else {
        assert(parts[1].0 <= parts[1].1 <= s.len());
        assert(parts[0int + 1].0 == parts[0].1 + 1 && s[parts[0].1 as int] == ',');
        assert(s[e] == ',');
        assert forall|j: int| 0 <= j < e - k implies #[trigger] m[j] != ',' by {
            assert(m[j] == s[j + k]);
            assert(parts[0].0 <= j + k < parts[0].1 ==> s[j + k] != ',');
        }
        assert(m[e - k] == ',');
        lemma_find_char(m, ',', e - k);
        assert(split_commas_spec(m) == seq![m.take(e - k)] + split_commas_spec(
            m.skip(e - k + 1),
        ));
        assert(m.take(e - k) =~= s.subrange(k, e));
        assert(m.skip(e - k + 1) =~= s.skip(e + 1));
        let rest = parts.skip(1);
        assert(rest[0] == parts[1]);
        assert(rest[rest.len() - 1] == parts[parts.len() - 1]);
        assert forall|i: int| 0 <= i < rest.len() implies (#[trigger] rest[i]).0 <= rest[i].1
            <= s.len() by {
            assert(rest[i] == parts[i + 1]);
            assert(parts[i + 1].0 <= parts[i + 1].1 <= s.len());
        }
        assert forall|i: int|
            0 <= i < rest.len() - 1 implies rest[i + 1].0 == (#[trigger] rest[i]).1 + 1 && s[rest[i].1 as int]
            == ',' by {
            assert(rest[i] == parts[i + 1]);
            assert(rest[i + 1] == parts[i + 2]);
            assert(parts[i + 1 + 1].0 == parts[i + 1].1 + 1 && s[parts[i + 1].1 as int] == ',');
        }
        assert forall|i: int, j: int|
            #![trigger rest[i], s[j]]
            0 <= i < rest.len() && rest[i].0 <= j < rest[i].1 implies s[j] != ',' by {
            assert(rest[i] == parts[i + 1]);
            assert(parts[i + 1].0 <= j < parts[i + 1].1 ==> s[j] != ',');
        }
        lemma_split_suffix(s, rest, e + 1);
        assert forall|i: int| 0 <= i < parts.len() implies #[trigger] split_commas_spec(m)[i]
            == s.subrange(parts[i].0 as int, parts[i].1 as int) by {
            if i == 0 {
                assert(split_commas_spec(m)[0] == m.take(e - k));
            } else {
                assert(split_commas_spec(m)[i] == split_commas_spec(s.skip(e + 1))[i - 1]);
                assert(split_commas_spec(s.skip(e + 1))[i - 1] == s.subrange(
                    rest[i - 1].0 as int,
                    rest[i - 1].1 as int,
                ));
            }
        }
    }
}

/// Split a row at every comma, returning the bounds of each field: maximal
/// comma-free segments, adjacent fields separated by exactly one comma.
pub fn split_commas(s: &str) -> (parts: Vec<(usize, usize)>)
    ensures
        parts@.len() >= 1,
        parts@.len() == split_commas_spec(s@).len(),
        forall|i: int|
            0 <= i < parts@.len() ==> (#[trigger] parts@[i]).0 <= parts@[i].1 <= s@.len()
                && split_commas_spec(s@)[i] == s@.subrange(
                parts@[i].0 as int,
                parts@[i].1 as int,
            ),
{
    let n = s.unicode_len();
    let mut parts: Vec<(usize, usize)> = Vec::new();
    let mut start: usize = 0;
    let mut i: usize = 0;
    while i < n
        invariant
            n == s@.len(),
            start <= i <= n,
            start == if parts@.len() == 0 {
                0int
            } else {
                parts@[parts@.len() - 1].1 + 1
            },
            parts@.len() > 0 ==> parts@[0].0 == 0,
            forall|p: int| 0 <= p < parts@.len() ==> (#[trigger] parts@[p]).0 <= parts@[p].1 < n,
            forall|p: int|
                0 <= p < parts@.len() - 1 ==> parts@[p + 1].0 == (#[trigger] parts@[p]).1 + 1,
            forall|p: int|
                0 <= p < parts@.len() ==> s@[(#[trigger] parts@[p]).1 as int] == ',',
            forall|p: int, j: int|
                #![trigger parts@[p], s@[j]]
                0 <= p < parts@.len() && parts@[p].0 <= j < parts@[p].1 ==> s@[j] != ',',
            forall|j: int| start <= j < i ==> #[trigger] s@[j] != ',',
        decreases n - i,
    {
        if s.get_char(i) == ',' {
            parts.push((start, i));
            start = i + 1;
        }
        i += 1;
    }
    parts.push((start, n));
    proof {
        lemma_split_suffix(s@, parts@, 0);
        assert(s@.skip(0) =~= s@);
    }
    parts
}

/// Parse one whole row of `type, client, tx, amount` text into a validated
/// record; `MalformedRecord` exactly when the row denotes nothing.
pub fn parse_record_line(line: &str) -> (r: Result<TransactionRecord, KrakenError>)
    ensures
        match r {
            Ok(rec) => parse_line_spec(line@) == Some(rec) && rec.wf(),
            Err(e) => e == KrakenError::MalformedRecord && parse_line_spec(line@) is None,
        },
{
    let parts = split_commas(line);
    if parts.len() == 3 {
        let p0 = parts[0];
        let p1 = parts[1];
        let p2 = parts[2];
        parse_record_fields(
            line.substring_char(p0.0, p0.1),
            line.substring_char(p1.0, p1.1),
            line.substring_char(p2.0, p2.1),
            None,
        )
    } else if parts.len() == 4 {
        let p0 = parts[0];
        let p1 = parts[1];
        let p2 = parts[2];
        let p3 = parts[3];
        parse_record_fields(
            line.substring_char(p0.0, p0.1),
            line.substring_char(p1.0, p1.1),
            line.substring_char(p2.0, p2.1),
            Some(line.substring_char(p3.0, p3.1)),
        )
    } else {
        Err(KrakenError::MalformedRecord)
    }
}

/// Parse the four fields of one row into a validated record;
/// `MalformedRecord` exactly when the fields denote nothing.
pub fn parse_record_fields(
    kind_s: &str,
    client_s: &str,
    tx_s: &str,
    amount_s: Option<&str>,
) -> (r: Result<TransactionRecord, KrakenError>)
    ensures
        match r {
            Ok(rec) => parse_fields_spec(
                kind_s@,
                client_s@,
                tx_s@,
                match amount_s {
                    Some(a) => Some(a@),
                    None => None,
                },
            ) == Some(rec) && rec.wf(),
            Err(e) => e == KrakenError::MalformedRecord && parse_fields_spec(
                kind_s@,
                client_s@,
                tx_s@,
                match amount_s {
                    Some(a) => Some(a@),
                    None => None,
                },
            ) is None,
        },
{
    let kind = match TransactionKind::try_from_str(trimmed(kind_s)) {
        Ok(k) => k,
        Err(_) => {
            return Err(KrakenError::MalformedRecord);
        },
    };
    let client = match parse_uint(trimmed(client_s), u16::MAX as u64) {
        Ok(v) => v as u16,
        Err(_) => {
            return Err(KrakenError::MalformedRecord);
        },
    };
    let tx = match parse_uint(trimmed(tx_s), u32::MAX as u64) {
        Ok(v) => v as u32,
        Err(_) => {
            return Err(KrakenError::MalformedRecord);
        },
    };
    let monetary = match kind {
        TransactionKind::DEPOSIT => true,
        TransactionKind::WITHDRAW => true,
        _ => false,
    };
    if monetary {
        let amt_str = match amount_s {
            Some(a) => a,
            None => "",
        };
        proof {
            if amount_s is None {
                reveal_strlit("");
                assert(trim(Seq::<char>::empty()) =~= Seq::<char>::empty());
            }
        }
        let amount = match parse_amount(amt_str) {
            Ok(v) => v,
            Err(_) => {
                return Err(KrakenError::MalformedRecord);
            },
        };
        Ok(TransactionRecord { kind, client, tx, amount: Some(amount) })
    } else {
        let empty_amt = match amount_s {
            Some(a) => trimmed(a).unicode_len() == 0,
            None => true,
        };
        if empty_amt {
            Ok(TransactionRecord { kind, client, tx, amount: None })
        } else {
            Err(KrakenError::MalformedRecord)
        }
    }
}

} // verus!
