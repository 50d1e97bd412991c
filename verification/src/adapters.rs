//! The multi-format ingestion engine: one self-contained grammar per
//! benchmarking tool, plus the dispatcher that probes them in a fixed
//! priority order.
//!
//! Every parser is a pure function over the raw report bytes. A parser
//! that does not recognize its format declines with `NoMatch` - probing
//! never fails on foreign input. A parser that has committed to its
//! format but finds the contents broken answers `Malformed`, which is
//! terminal for the whole resolve call: it never falls through to a more
//! permissive grammar.

pub mod c_sharp;
pub mod cpp;
pub mod go;
pub mod java;
pub mod js;
pub mod json;
pub mod magic;
pub mod python;
pub mod ruby;
pub mod rust;

use vstd::prelude::*;
use vstd::slice::slice_subrange;
use vstd::string::StringSliceAdditionalSpecFns;

use crate::model::{bytes_eq, AdapterResults};
use crate::units::{pow10, pow10_u64, lemma_pow10_increases, MetricKind, Unit, UnitError};

verus! {

/// Why a committed report could not be fully read.
#[derive(Clone, Copy, PartialEq, Eq, Structural, Debug)]
pub enum ReportFault {
    /// The grammar's own structure is broken.
    Structure,
    /// A value carries a unit symbol outside the conversion table.
    UnsupportedUnit,
    /// A committed value is not a readable number.
    BadNumber,
}

/// What probing one grammar yields.
pub enum ParseOutcome {
    /// The input is foreign to this grammar.
    NoMatch,
    /// The grammar was recognized, but its contents are broken; the
    /// fault says why the document could not be fully normalized.
    Malformed(ReportFault),
    /// A fully parsed canonical result.
    Found(AdapterResults),
}

/// Any result a parser hands out is well formed and holds at least one
/// benchmark.
pub open spec fn outcome_wf(o: ParseOutcome) -> bool {
    o matches ParseOutcome::Found(r) ==> r.wf() && r@.len() >= 1
}

/// Whether `m` occurs as a contiguous run of bytes in `s`.
pub open spec fn is_sub(s: Seq<u8>, m: Seq<u8>) -> bool {
    exists|i: int| 0 <= i && i + m.len() <= s.len() && #[trigger] s.subrange(i, i + m.len()) == m
}

/// Byte-level substring search.
pub fn contains_sub(s: &[u8], m: &[u8]) -> (r: bool)
    ensures
        r == is_sub(s@, m@),
{
    if m.len() > s.len() {
        proof {
            assert(!is_sub(s@, m@));
        }
        return false;
    }
    if m.len() == 0 {
        proof {
            assert(s@.subrange(0, 0 + m@.len() as int) =~= m@);
        }
        return true;
    }
    let mut i: usize = 0;
    while i <= s.len() - m.len()
        invariant
            1 <= m@.len() <= s@.len(),
            i <= s@.len() - m@.len() + 1,
            forall|j: int| 0 <= j < i ==> #[trigger] s@.subrange(j, j + m@.len() as int) != m@,
        decreases s@.len() - m@.len() + 1 - i,
    {
        let window = slice_subrange(s, i, i + m.len());
        if bytes_eq(window, m) {
            proof {
                assert(s@.subrange(i as int, i as int + m@.len() as int) == m@);
            }
            return true;
        }
        i = i + 1;
    }
    proof {
        assert(!is_sub(s@, m@));
    }
    false
}

/// Splits raw tool output into lines at line feeds, dropping carriage
/// returns.
pub(crate) fn split_lines(input: &[u8]) -> (lines: Vec<Vec<u8>>) {
    let mut lines: Vec<Vec<u8>> = Vec::new();
    let mut cur: Vec<u8> = Vec::new();
    let mut i: usize = 0;
    while i < input.len()
        decreases input@.len() - i,
    {
        let b = input[i];
        if b == 10 {
            lines.push(cur);
            cur = Vec::new();
        } else if b != 13 {
            cur.push(b);
        }
        i = i + 1;
    }
    if cur.len() > 0 {
        lines.push(cur);
    }
    lines
}

/// Splits a line into whitespace-separated tokens.
pub(crate) fn split_tokens(line: &[u8]) -> (toks: Vec<Vec<u8>>) {
    let mut toks: Vec<Vec<u8>> = Vec::new();
    let mut cur: Vec<u8> = Vec::new();
    let mut i: usize = 0;
    while i < line.len()
        decreases line@.len() - i,
    {
        let b = line[i];
        if b == 32 || b == 9 {
            if cur.len() > 0 {
                toks.push(cur);
                cur = Vec::new();
            }
        } else {
            cur.push(b);
        }
        i = i + 1;
    }
    if cur.len() > 0 {
        toks.push(cur);
    }
    toks
}

/// Whether a byte is an ASCII decimal digit.
pub open spec fn is_digit(b: u8) -> bool {
    48 <= b <= 57
}

/// The numeric value of a digit string, most significant first.
pub open spec fn digits_to_nat(ds: Seq<u8>) -> nat
    decreases ds.len(),
{
    if ds.len() == 0 {
        0
    } else {
        digits_to_nat(ds.drop_last()) * 10 + (if ds.last() >= 48 {
            (ds.last() - 48) as nat
        } else {
            0
        })
    }
}

/// Whether a token is digits and separators, then at most one dot,
/// then digits.
pub open spec fn valid_number(s: Seq<u8>) -> bool
    decreases s.len(),
{
    if s.len() == 0 {
        true
    } else if s[0] == 46 {
        valid_fraction(s.drop_first())
    } else if is_digit(s[0]) || s[0] == 44 {
        valid_number(s.drop_first())
    } else {
        false
    }
}

/// Whether every byte is a digit.
pub open spec fn valid_fraction(s: Seq<u8>) -> bool
    decreases s.len(),
{
    if s.len() == 0 {
        true
    } else {
        is_digit(s[0]) && valid_fraction(s.drop_first())
    }
}

/// The digits before the first dot, separators dropped.
pub open spec fn int_digits_of(s: Seq<u8>) -> Seq<u8>
    decreases s.len(),
{
    if s.len() == 0 {
        Seq::empty()
    } else if s[0] == 46 {
        Seq::empty()
    } else if s[0] == 44 {
        int_digits_of(s.drop_first())
    } else {
        seq![s[0]] + int_digits_of(s.drop_first())
    }
}

/// The bytes after the first dot; empty without one.
pub open spec fn frac_digits_of(s: Seq<u8>) -> Seq<u8>
    decreases s.len(),
{
    if s.len() == 0 {
        Seq::empty()
    } else if s[0] == 46 {
        s.drop_first()
    } else {
        frac_digits_of(s.drop_first())
    }
}

/// The value of the first `f` fraction digits, short fractions padded
/// with zeros, longer ones truncated.
pub open spec fn frac_val(fr: Seq<u8>, f: nat) -> nat
    decreases f,
{
    if f == 0 {
        0
    } else {
        frac_val(fr, (f - 1) as nat) * 10 + (if f - 1 < fr.len() && fr[f - 1] >= 48 {
            (fr[f - 1] - 48) as nat
        } else {
            0
        })
    }
}

/// What parsing a decimal token at `f` fraction digits owes: the exact
/// scaled value of a valid token of at most fifteen integer digits
/// whenever that value fits a machine word, nothing otherwise.
pub open spec fn parse_scaled_spec(s: Seq<u8>, f: nat) -> Option<u64> {
    if !valid_number(s) {
        None
    } else {
        let ds = int_digits_of(s);
        if ds.len() == 0 || ds.len() > 15 {
            None
        } else {
            let v = digits_to_nat(ds) * pow10(f) + frac_val(frac_digits_of(s), f);
            if v <= u64::MAX {
                Some(v as u64)
            } else {
                None
            }
        }
    }
}

/// A digit string's value stays below ten to its length.
proof fn lemma_digits_bound(ds: Seq<u8>)
    requires
        forall|i: int| 0 <= i < ds.len() ==> is_digit(#[trigger] ds[i]),
    ensures
        digits_to_nat(ds) < pow10(ds.len() as nat),
    decreases ds.len(),
{
    if ds.len() == 0 {
    } else {
        assert(forall|i: int|
            0 <= i < ds.drop_last().len() ==> #[trigger] ds.drop_last()[i] == ds[i]);
        lemma_digits_bound(ds.drop_last());
    }
}

/// Parses a decimal token - digits with optional `,` thousands
/// separators and an optional fraction - into units of
/// `10^-frac_digits` of the token's own unit, truncating any further
/// fraction digits. Declines on an empty token, a stray character,
/// more than fifteen integer digits, or a value that does not fit.
pub(crate) fn parse_scaled(tok: &[u8], frac_digits: u32) -> (r: Option<u64>)
    requires
        frac_digits <= 12,
    ensures
        r == parse_scaled_spec(tok@, frac_digits as nat),
{
    let n = tok.len();
    let mut ints: Vec<u8> = Vec::new();
    let mut fracs: Vec<u8> = Vec::new();
    let mut seen_dot = false;
    let mut i: usize = 0;
    proof {
        assert(tok@.skip(0) =~= tok@);
        assert(ints@ + int_digits_of(tok@) =~= int_digits_of(tok@));
    }
    while i < n
        invariant
            i <= n,
            n == tok@.len(),
            forall|k: int| 0 <= k < ints@.len() ==> is_digit(#[trigger] ints@[k]),
            forall|k: int| 0 <= k < fracs@.len() ==> is_digit(#[trigger] fracs@[k]),
            !seen_dot ==> {
                &&& fracs@.len() == 0
                &&& (valid_number(tok@) <==> valid_number(tok@.skip(i as int)))
                &&& int_digits_of(tok@) == ints@ + int_digits_of(tok@.skip(i as int))
                &&& frac_digits_of(tok@) == frac_digits_of(tok@.skip(i as int))
            },
            seen_dot ==> {
                &&& (valid_number(tok@) <==> valid_fraction(tok@.skip(i as int)))
                &&& int_digits_of(tok@) == ints@
                &&& frac_digits_of(tok@) == fracs@ + tok@.skip(i as int)
            },
        decreases n - i,
    {
        let b = tok[i];
        proof {
            assert(tok@.skip(i as int)[0] == tok@[i as int]);
            assert(tok@.skip(i as int).drop_first() =~= tok@.skip(i as int + 1));
        }
        if b == 46 {
            if seen_dot {
                proof {
                    assert(!valid_fraction(tok@.skip(i as int)));
                }
                return None;
            }
            seen_dot = true;
            proof {
                assert(int_digits_of(tok@.skip(i as int)) =~= Seq::<u8>::empty());
                assert(int_digits_of(tok@) =~= ints@);
                assert(frac_digits_of(tok@) =~= fracs@ + tok@.skip(i as int + 1));
            }
        } else if b == 44 && !seen_dot {
        } else if b >= 48 && b <= 57 {
            if seen_dot {
                fracs.push(b);
                proof {
                    assert(frac_digits_of(tok@) =~= fracs@ + tok@.skip(i as int + 1));
                }
            } else {
                ints.push(b);
                proof {
                    assert(seq![tok@[i as int]] + int_digits_of(tok@.skip(i as int + 1)) =~= (
                    seq![tok@[i as int]] + int_digits_of(tok@.skip(i as int + 1))));
                    assert(int_digits_of(tok@) =~= ints@ + int_digits_of(
                        tok@.skip(i as int + 1),
                    ));
                }
            }
        } else {
            proof {
                if seen_dot {
                    assert(!valid_fraction(tok@.skip(i as int)));
                } else {
                    assert(!valid_number(tok@.skip(i as int)));
                }
            }
            return None;
        }
        i = i + 1;
    }
    proof {
        assert(tok@.skip(n as int) =~= Seq::<u8>::empty());
        assert(int_digits_of(tok@) =~= ints@);
        if seen_dot {
            assert(frac_digits_of(tok@) =~= fracs@);
        } else {
            assert(frac_digits_of(tok@) =~= fracs@);
        }
        assert(valid_number(tok@));
    }
    if ints.len() == 0 || ints.len() > 15 {
        return None;
    }
    let mut ip: u64 = 0;
    let mut j: usize = 0;
    proof {
        assert(ints@.take(0) =~= Seq::<u8>::empty());
        lemma_pow10_increases(ints@.len() as nat, 15);
        assert(pow10(15) == 1000000000000000) by {
            reveal_with_fuel(pow10, 16);
        }
    }
    while j < ints.len()
        invariant
            j <= ints@.len(),
            ints@.len() <= 15,
            forall|k: int| 0 <= k < ints@.len() ==> is_digit(#[trigger] ints@[k]),
            ip == digits_to_nat(ints@.take(j as int)),
            ip < pow10(j as nat),
            pow10(ints@.len() as nat) <= 1000000000000000,
        decreases ints@.len() - j,
    {
        proof {
            assert(ints@.take(j as int + 1).drop_last() =~= ints@.take(j as int));
            assert(ints@.take(j as int + 1).last() == ints@[j as int]);
            lemma_pow10_increases(j as nat + 1, ints@.len() as nat);
        }
        ip = ip * 10 + (ints[j] - 48) as u64;
        j = j + 1;
    }
    proof {
        assert(ints@.take(ints@.len() as int) =~= ints@);
    }
    let mut fv: u64 = 0;
    let mut p: u32 = 0;
    proof {
        lemma_pow10_increases(frac_digits as nat, 12);
        assert(pow10(12) == 1000000000000) by {
            reveal_with_fuel(pow10, 13);
        }
    }
    while p < frac_digits
        invariant
            p <= frac_digits,
            frac_digits <= 12,
            forall|k: int| 0 <= k < fracs@.len() ==> is_digit(#[trigger] fracs@[k]),
            fv == frac_val(fracs@, p as nat),
            fv < pow10(p as nat),
            pow10(frac_digits as nat) <= 1000000000000,
        decreases frac_digits - p,
    {
        proof {
            lemma_pow10_increases(p as nat + 1, frac_digits as nat);
        }
        let d: u64 = if (p as usize) < fracs.len() {
            (fracs[p as usize] - 48) as u64
        } else {
            0
        };
        fv = fv * 10 + d;
        p = p + 1;
    }
    let scale = pow10_u64(frac_digits);
    match ip.checked_mul(scale) {
        Option::Some(hi) => hi.checked_add(fv),
        Option::None => None,
    }
}

/// Parses a decimal token reported in `unit` straight into milli-units
/// of the kind's canonical unit: the fraction is kept to exactly the
/// decimal places the unit conversion calls for, so nothing is lost.
pub(crate) fn parse_in_unit(tok: &[u8], unit: Unit) -> (r: Option<u64>)
    ensures
        r == parse_scaled_spec(tok@, unit.spec_scale_exp() + 3),
{
    let f: u32 = match unit {
        Unit::Nanos => 3,
        Unit::Micros => 6,
        Unit::Millis => 9,
        Unit::Seconds => 12,
        Unit::OpsPerSec => 3,
        Unit::Bytes => 3,
    };
    parse_scaled(tok, f)
}

/// What a metric key of the generic JSON report schema names.
pub open spec fn spec_kind_unit_of_key(key: Seq<u8>) -> Option<(MetricKind, Unit)> {
    if key == "latency_ns".spec_bytes() {
        Some((MetricKind::Latency, Unit::Nanos))
    } else if key == "latency_us".spec_bytes() {
        Some((MetricKind::Latency, Unit::Micros))
    } else if key == "latency_ms".spec_bytes() {
        Some((MetricKind::Latency, Unit::Millis))
    } else if key == "latency_s".spec_bytes() {
        Some((MetricKind::Latency, Unit::Seconds))
    } else if key == "throughput_ops".spec_bytes() {
        Some((MetricKind::Throughput, Unit::OpsPerSec))
    } else if key == "size_bytes".spec_bytes() {
        Some((MetricKind::FileSize, Unit::Bytes))
    } else {
        None
    }
}

/// Maps a metric key of the generic JSON report schema, such as
/// `latency_ns` or `throughput_ops`, to its kind and reported unit.
pub(crate) fn kind_unit_of_key(key: &[u8]) -> (r: Option<(MetricKind, Unit)>)
    ensures
        r == spec_kind_unit_of_key(key@),
{
    if bytes_eq(key, "latency_ns".as_bytes()) {
        Some((MetricKind::Latency, Unit::Nanos))
    } else if bytes_eq(key, "latency_us".as_bytes()) {
        Some((MetricKind::Latency, Unit::Micros))
    } else if bytes_eq(key, "latency_ms".as_bytes()) {
        Some((MetricKind::Latency, Unit::Millis))
    } else if bytes_eq(key, "latency_s".as_bytes()) {
        Some((MetricKind::Latency, Unit::Seconds))
    } else if bytes_eq(key, "throughput_ops".as_bytes()) {
        Some((MetricKind::Throughput, Unit::OpsPerSec))
    } else if bytes_eq(key, "size_bytes".as_bytes()) {
        Some((MetricKind::FileSize, Unit::Bytes))
    } else {
        None
    }
}

/// First occurrence of `m` in `s` at or after `from`.
pub(crate) fn find_sub(s: &[u8], m: &[u8], from: usize) -> (r: Option<usize>)
    ensures
        r matches Some(j) ==> from <= j && j + m@.len() <= s@.len(),
{
    if m.len() == 0 || m.len() > s.len() || from > s.len() - m.len() {
        return None;
    }
    let mut i: usize = from;
    while i <= s.len() - m.len()
        invariant
            1 <= m@.len() <= s@.len(),
            from <= i <= s@.len() - m@.len() + 1,
        decreases s@.len() - m@.len() + 1 - i,
    {
        let window = slice_subrange(s, i, i + m.len());
        if bytes_eq(window, m) {
            return Some(i);
        }
        i = i + 1;
    }
    None
}

/// Reads the quoted string that follows the next `:` at or after `pos`.
pub(crate) fn read_string_after(s: &[u8], pos: usize) -> (r: Option<(Vec<u8>, usize)>)
    ensures
        r matches Some(p) ==> pos < p.1 <= s@.len(),
{
    let n = s.len();
    if pos >= n {
        return None;
    }
    let mut i: usize = pos;
    while i < n
        invariant
            pos <= i <= n,
            n == s@.len(),
        decreases n - i,
    {
        if s[i] == 58 {
            break ;
        }
        i = i + 1;
    }
    if i >= n {
        return None;
    }
    i = i + 1;
    while i < n
        invariant
            pos < i <= n,
            n == s@.len(),
        decreases n - i,
    {
        let b = s[i];
        if b != 32 && b != 9 && b != 10 && b != 13 {
            break ;
        }
        i = i + 1;
    }
    if i >= n || s[i] != 34 {
        return None;
    }
    i = i + 1;
    let mut content: Vec<u8> = Vec::new();
    while i < n
        invariant
            pos < i <= n,
            n == s@.len(),
        decreases n - i,
    {
        let b = s[i];
        if b == 34 {
            return Some((content, i + 1));
        }
        if b == 92 {
            return None;
        }
        content.push(b);
        i = i + 1;
    }
    None
}

/// Reads the bare number token that follows the next `:` at or after
/// `pos`.
pub(crate) fn read_number_after(s: &[u8], pos: usize) -> (r: Option<(Vec<u8>, usize)>)
    ensures
        r matches Some(p) ==> pos < p.1 <= s@.len(),
{
    let n = s.len();
    if pos >= n {
        return None;
    }
    let mut i: usize = pos;
    while i < n
        invariant
            pos <= i <= n,
            n == s@.len(),
        decreases n - i,
    {
        if s[i] == 58 {
            break ;
        }
        i = i + 1;
    }
    if i >= n {
        return None;
    }
    i = i + 1;
    while i < n
        invariant
            pos < i <= n,
            n == s@.len(),
        decreases n - i,
    {
        let b = s[i];
        if b != 32 && b != 9 && b != 10 && b != 13 {
            break ;
        }
        i = i + 1;
    }
    let mut tok: Vec<u8> = Vec::new();
    while i < n
        invariant
            pos < i <= n,
            n == s@.len(),
        decreases n - i,
    {
        let b = s[i];
        if (b >= 48 && b <= 57) || b == 46 {
            tok.push(b);
            i = i + 1;
        } else {
            break ;
        }
    }
    if tok.len() == 0 {
        return None;
    }
    Some((tok, i))
}

/// Joins tokens `from..to` with single spaces: a benchmark name that
/// was printed with spaces in it.
pub(crate) fn join_tokens(toks: &Vec<Vec<u8>>, from: usize, to: usize) -> (r: Vec<u8>)
    requires
        from <= to <= toks@.len(),
{
    let mut r: Vec<u8> = Vec::new();
    let mut i: usize = from;
    while i < to
        invariant
            from <= i <= to,
            to <= toks@.len(),
        decreases to - i,
    {
        if i > from {
            r.push(32);
        }
        let mut j: usize = 0;
        let t = &toks[i];
        while j < t.len()
            invariant
                j <= t@.len(),
            decreases t@.len() - j,
        {
            r.push(t[j]);
            j = j + 1;
        }
        i = i + 1;
    }
    r
}

/// What a unit suffix token names.
pub open spec fn spec_unit_of_suffix(tok: Seq<u8>) -> Option<Unit> {
    if tok == "ns".spec_bytes() {
        Some(Unit::Nanos)
    } else if tok == "us".spec_bytes() {
        Some(Unit::Micros)
    } else if tok == "ms".spec_bytes() {
        Some(Unit::Millis)
    } else if tok == "s".spec_bytes() {
        Some(Unit::Seconds)
    } else if tok == "ops/sec".spec_bytes() || tok == "ops/s".spec_bytes() {
        Some(Unit::OpsPerSec)
    } else if tok == "bytes".spec_bytes() {
        Some(Unit::Bytes)
    } else {
        None
    }
}

/// Resolves a reported unit symbol, or refuses it: a symbol outside
/// the table means the value cannot be normalized.
pub fn unit_of_symbol(sym: &[u8]) -> (r: Result<Unit, UnitError>)
    ensures
        match spec_unit_of_suffix(sym@) {
            Option::Some(u) => r == Result::<Unit, UnitError>::Ok(u),
            Option::None => r == Result::<Unit, UnitError>::Err(UnitError::UnsupportedUnit),
        },
{
    match unit_of_suffix(sym) {
        Option::Some(u) => Ok(u),
        Option::None => Err(UnitError::UnsupportedUnit),
    }
}

/// Recognizes the unit suffixes the supported tools report.
pub(crate) fn unit_of_suffix(tok: &[u8]) -> (r: Option<Unit>)
    ensures
        r == spec_unit_of_suffix(tok@),
{
    if bytes_eq(tok, "ns".as_bytes()) {
        Some(Unit::Nanos)
    } else if bytes_eq(tok, "us".as_bytes()) {
        Some(Unit::Micros)
    } else if bytes_eq(tok, "ms".as_bytes()) {
        Some(Unit::Millis)
    } else if bytes_eq(tok, "s".as_bytes()) {
        Some(Unit::Seconds)
    } else if bytes_eq(tok, "ops/sec".as_bytes()) {
        Some(Unit::OpsPerSec)
    } else if bytes_eq(tok, "ops/s".as_bytes()) {
        Some(Unit::OpsPerSec)
    } else if bytes_eq(tok, "bytes".as_bytes()) {
        Some(Unit::Bytes)
    } else {
        None
    }
}

/// Splits a trailing unit suffix off a token such as `6.25ns` or
/// `2.0ms`: the digits (and separators) in front, the letters behind.
pub(crate) fn split_value_unit(tok: &[u8]) -> (r: Option<(Vec<u8>, Vec<u8>)>)
    ensures
        r matches Some(p) ==> p.0@.len() >= 1 && p.1@.len() >= 1,
{
    let n = tok.len();
    let mut cut: usize = n;
    while cut > 0
        invariant
            cut <= n,
            n == tok@.len(),
        decreases cut,
    {
        let b = tok[cut - 1];
        if b >= 48 && b <= 57 || b == 46 {
            break ;
        }
        cut = cut - 1;
    }
    if cut == 0 || cut == n {
        return None;
    }
    let mut num: Vec<u8> = Vec::new();
    let mut i: usize = 0;
    while i < cut
        invariant
            cut <= n,
            n == tok@.len(),
            i <= cut,
            num@.len() == i,
        decreases cut - i,
    {
        num.push(tok[i]);
        i = i + 1;
    }
    let mut unit: Vec<u8> = Vec::new();
    let mut j: usize = cut;
    while j < n
        invariant
            cut <= n,
            n == tok@.len(),
            cut <= j <= n,
            unit@.len() == j - cut,
        decreases n - j,
    {
        unit.push(tok[j]);
        j = j + 1;
    }
    Some((num, unit))
}

} // verus!
