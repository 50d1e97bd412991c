//! Metric kinds, reporting units, and normalization to canonical units.
//!
//! Every metric kind has exactly one canonical unit (latency: nanoseconds,
//! throughput: operations per second, file size: bytes). All values are held
//! as fixed-point integers in thousandths (milli-units) of the unit, so the
//! whole pipeline is exact integer arithmetic. Each reporting unit converts
//! to its kind's canonical unit by a power-of-ten factor.

use vstd::prelude::*;

verus! {

/// Why a reported value could not be normalized.
#[derive(Clone, Copy, PartialEq, Eq, Structural, Debug)]
pub enum UnitError {
    /// The unit symbol is not one the normalizer knows.
    UnsupportedUnit,
}

/// What a number measures. Each kind has exactly one canonical unit.
#[derive(Clone, Copy, PartialEq, Eq, Structural, Debug)]
pub enum MetricKind {
    /// Canonical unit: nanoseconds.
    Latency,
    /// Canonical unit: operations per second.
    Throughput,
    /// Canonical unit: bytes.
    FileSize,
}

/// A unit in which a tool reports a number.
#[derive(Clone, Copy, PartialEq, Eq, Structural, Debug)]
pub enum Unit {
    Nanos,
    Micros,
    Millis,
    Seconds,
    OpsPerSec,
    Bytes,
}

/// 10^e as a mathematical integer.
pub open spec fn pow10(e: nat) -> nat
    decreases e,
{
    if e == 0 {
        1
    } else {
        10 * pow10((e - 1) as nat)
    }
}

impl Unit {
    /// The metric kind this unit reports.
    pub open spec fn spec_kind(self) -> MetricKind {
        match self {
            Unit::Nanos | Unit::Micros | Unit::Millis | Unit::Seconds => MetricKind::Latency,
            Unit::OpsPerSec => MetricKind::Throughput,
            Unit::Bytes => MetricKind::FileSize,
        }
    }

    /// Decimal exponent of the factor from this unit to its canonical unit.
    pub open spec fn spec_scale_exp(self) -> nat {
        match self {
            Unit::Nanos => 0,
            Unit::Micros => 3,
            Unit::Millis => 6,
            Unit::Seconds => 9,
            Unit::OpsPerSec => 0,
            Unit::Bytes => 0,
        }
    }

    /// The metric kind this unit reports.
    pub fn kind(&self) -> (k: MetricKind)
        ensures
            k == self.spec_kind(),
    {
        match self {
            Unit::Nanos | Unit::Micros | Unit::Millis | Unit::Seconds => MetricKind::Latency,
            Unit::OpsPerSec => MetricKind::Throughput,
            Unit::Bytes => MetricKind::FileSize,
        }
    }

    fn scale_exp(&self) -> (e: u32)
        ensures
            e == self.spec_scale_exp(),
    {
        match self {
            Unit::Nanos => 0,
            Unit::Micros => 3,
            Unit::Millis => 6,
            Unit::Seconds => 9,
            Unit::OpsPerSec => 0,
            Unit::Bytes => 0,
        }
    }
}

/// 10^e as a u64; e is small enough that the power fits.
pub fn pow10_u64(e: u32) -> (r: u64)
    requires
        pow10(e as nat) <= u64::MAX,
    ensures
        r == pow10(e as nat),
{
    let mut r: u64 = 1;
    let mut i: u32 = 0;
    while i < e
        invariant
            i <= e,
            r == pow10(i as nat),
            pow10(e as nat) <= u64::MAX,
        decreases e - i,
    {
        proof {
            lemma_pow10_increases(i as nat + 1, e as nat);
        }
        r = r * 10;
        i = i + 1;
    }
    r
}

/// pow10 is monotone in its exponent.
pub proof fn lemma_pow10_increases(a: nat, b: nat)
    requires
        a <= b,
    ensures
        pow10(a) <= pow10(b),
    decreases b,
{
    if a < b {
        lemma_pow10_increases(a, (b - 1) as nat);
    }
}

/// pow10 is always positive.
pub proof fn lemma_pow10_pos(e: nat)
    ensures
        pow10(e) >= 1,
{
    lemma_pow10_increases(0, e);
}

/// Converts a value reported in `unit` (in milli-units of that unit) into
/// milli-units of the kind's canonical unit. `None` exactly when the
/// converted value does not fit in a `u64`.
pub fn normalize(raw_milli: u64, unit: Unit) -> (r: Option<u64>)
    ensures
        r is Some <==> raw_milli * pow10(unit.spec_scale_exp()) <= u64::MAX,
        r is Some ==> r->0 == raw_milli * pow10(unit.spec_scale_exp()),
{
    let e = unit.scale_exp();
    proof {
        lemma_pow10_increases(unit.spec_scale_exp(), 9);
        assert(pow10(9) == 1000000000) by {
            reveal_with_fuel(pow10, 10);
        }
    }
    let f = pow10_u64(e);
    raw_milli.checked_mul(f)
}

/// Converts a value in milli-units of the canonical unit back to
/// milli-units of `unit`, truncating toward zero.
pub fn denormalize(canon_milli: u64, unit: Unit) -> (r: u64)
    ensures
        r as nat == canon_milli as nat / pow10(unit.spec_scale_exp()),
{
    let e = unit.scale_exp();
    proof {
        lemma_pow10_increases(unit.spec_scale_exp(), 9);
        assert(pow10(9) == 1000000000) by {
            reveal_with_fuel(pow10, 10);
        }
        lemma_pow10_pos(unit.spec_scale_exp());
    }
    let f = pow10_u64(e);
    canon_milli / f
}

/// Normalizing a value and then denormalizing it back to the unit it was
/// reported in recovers the original value exactly.
pub proof fn lemma_normalize_round_trip(raw_milli: u64, unit: Unit, canon: u64)
    requires
        canon == raw_milli * pow10(unit.spec_scale_exp()),
    ensures
        canon as nat / pow10(unit.spec_scale_exp()) == raw_milli,
{
    let p = pow10(unit.spec_scale_exp());
    lemma_pow10_pos(unit.spec_scale_exp());
    assert((raw_milli as nat * p) / p == raw_milli as nat) by (nonlinear_arith)
        requires
            p >= 1,
    ;
}

} // verus!
