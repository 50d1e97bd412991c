//! The boundary engine: turns a historical series and a statistic
//! configuration into numeric limits for the active sides of the
//! distribution.
//!
//! All values are fixed-point integers in milli-units (thousandths) of a
//! metric's canonical unit, and confidences are given per mille (a value in
//! 0..=1000 standing for a fraction of one). Three test kinds are offered:
//! a z-score test (critical value from a normal-quantile step table), a
//! t-test (the z critical value widened for small samples), and a static
//! percentage test (the boundary sits a fixed percentage of the mean away
//! from it, the configured per-mille value read as that percentage).

use vstd::arithmetic::div_mod::lemma_div_is_ordered;
use vstd::arithmetic::mul::lemma_mul_inequality;
use vstd::prelude::*;

verus! {

/// The statistical test a threshold runs.
#[derive(Clone, Copy, PartialEq, Eq, Structural, Debug)]
pub enum StatisticKind {
    Z,
    T,
    Percentage,
}

/// How a threshold is evaluated: which test, how much history it needs,
/// how much it may use, and the confidence (per mille) per active side.
#[derive(Clone, Copy, PartialEq, Eq, Structural, Debug)]
pub struct StatisticConfig {
    pub test: StatisticKind,
    pub min_sample_size: Option<u32>,
    pub max_sample_size: Option<u32>,
    pub window: Option<u32>,
    pub lower_boundary: Option<u32>,
    pub upper_boundary: Option<u32>,
}

impl StatisticConfig {
    /// Confidences are fractions of one, given per mille; a sample-size
    /// clamp keeps at least one point.
    pub open spec fn wf(self) -> bool {
        &&& self.lower_boundary is Some ==> self.lower_boundary->0 <= 1000
        &&& self.upper_boundary is Some ==> self.upper_boundary->0 <= 1000
        &&& self.max_sample_size is Some ==> self.max_sample_size->0 >= 1
    }
}

/// One numeric limit per active side; a side without a configured
/// confidence has no limit at all.
#[derive(Clone, Copy, PartialEq, Eq, Structural, Debug)]
pub struct BoundaryLimits {
    pub lower: Option<i128>,
    pub upper: Option<i128>,
}

/// What the boundary engine returns: limits, or the explicit signal that
/// too few historical points exist to compute any.
#[derive(Clone, Copy, PartialEq, Eq, Structural, Debug)]
pub enum BoundsOutcome {
    Limits(BoundaryLimits),
    InsufficientData,
}

/// Largest value (milli-units) a history entry may hold, so that sums of
/// squared deviations stay representable.
pub const VALUE_LIMIT: u64 = 1000000000000000;

/// Largest history length the engine accepts.
pub const HISTORY_LIMIT: usize = 1000000;

/// The sum of a series.
pub open spec fn sum_of(s: Seq<u64>) -> int
    decreases s.len(),
{
    if s.len() == 0 {
        0
    } else {
        sum_of(s.drop_last()) + s.last()
    }
}

/// The floor of the arithmetic mean of a non-empty series.
pub open spec fn mean_of(s: Seq<u64>) -> int {
    sum_of(s) / (s.len() as int)
}

/// The sum of squared deviations from `m`.
pub open spec fn sq_dev_sum(s: Seq<u64>, m: int) -> int
    decreases s.len(),
{
    if s.len() == 0 {
        0
    } else {
        sq_dev_sum(s.drop_last(), m) + (s.last() - m) * (s.last() - m)
    }
}

/// The sample variance around the floored mean; zero for fewer than two
/// points (a single observation has no spread).
pub open spec fn variance_of(s: Seq<u64>) -> int {
    if s.len() < 2 {
        0
    } else {
        sq_dev_sum(s, mean_of(s)) / (s.len() - 1)
    }
}

/// The integer square root: the largest `r` with `r * r <= x`.
pub open spec fn sqrt_floor(x: nat) -> nat
    decreases x,
{
    if x == 0 {
        0
    } else {
        let r = sqrt_floor((x - 1) as nat);
        if (r + 1) * (r + 1) <= x {
            r + 1
        } else {
            r
        }
    }
}

/// One-sided normal critical value, in thousandths, for a per-mille
/// confidence: a monotone step table of standard quantiles.
pub open spec fn z_milli(c: nat) -> nat {
    if c >= 999 {
        3090
    } else if c >= 990 {
        2326
    } else if c >= 975 {
        1960
    } else if c >= 950 {
        1645
    } else if c >= 900 {
        1282
    } else if c >= 800 {
        842
    } else if c >= 700 {
        524
    } else if c >= 600 {
        253
    } else {
        0
    }
}

/// t critical value, in thousandths: the z value widened for small
/// samples (the fewer degrees of freedom, the wider).
pub open spec fn t_milli(c: nat, df: nat) -> nat
    recommends
        df >= 1,
{
    z_milli(c) + (2 * z_milli(c)) / (if df >= 1 {
        df
    } else {
        1
    })
}

/// How far from the mean the limit of a side sits, for confidence `c`
/// (per mille) over a retained series with the given statistics.
pub open spec fn width_milli(
    test: StatisticKind,
    c: nat,
    mean: int,
    stddev: nat,
    n: nat,
) -> int {
    match test {
        StatisticKind::Z => (z_milli(c) * stddev) as int / 1000,
        StatisticKind::T => (t_milli(c, (n - 1) as nat) * stddev) as int / 1000,
        StatisticKind::Percentage => (mean * c) / 100000,
    }
}

/// The series after the window is applied: its most recent `window`
/// entries, order kept.
pub open spec fn after_window(h: Seq<u64>, cfg: StatisticConfig) -> Seq<u64> {
    match cfg.window {
        Option::None => h,
        Option::Some(w) => if h.len() > w {
            h.skip(h.len() - w as int)
        } else {
            h
        },
    }
}

/// The series the statistics are computed over: windowed, then clamped to
/// the most recent `max_sample_size` entries.
pub open spec fn retained(h: Seq<u64>, cfg: StatisticConfig) -> Seq<u64> {
    let hw = after_window(h, cfg);
    match cfg.max_sample_size {
        Option::None => hw,
        Option::Some(m) => if hw.len() > m {
            hw.skip(hw.len() - m as int)
        } else {
            hw
        },
    }
}

/// Whether the windowed history is too short to evaluate: shorter than
/// `min_sample_size`, or empty outright.
pub open spec fn insufficient(h: Seq<u64>, cfg: StatisticConfig) -> bool {
    ||| (cfg.min_sample_size is Some && after_window(h, cfg).len() < cfg.min_sample_size->0)
    ||| after_window(h, cfg).len() == 0
}

/// The full boundary computation: window, gate on sample count, clamp,
/// then one limit per configured side.
pub open spec fn boundaries_spec(h: Seq<u64>, cfg: StatisticConfig) -> BoundsOutcome {
    if insufficient(h, cfg) {
        BoundsOutcome::InsufficientData
    } else {
        let s = retained(h, cfg);
        let mean = mean_of(s);
        let sd = sqrt_floor(variance_of(s) as nat);
        BoundsOutcome::Limits(
            BoundaryLimits {
                lower: match cfg.lower_boundary {
                    Option::None => Option::None,
                    Option::Some(c) => Option::Some(
                        (mean - width_milli(cfg.test, c as nat, mean, sd, s.len())) as i128,
                    ),
                },
                upper: match cfg.upper_boundary {
                    Option::None => Option::None,
                    Option::Some(c) => Option::Some(
                        (mean + width_milli(cfg.test, c as nat, mean, sd, s.len())) as i128,
                    ),
                },
            },
        )
    }
}

/// `sqrt_floor` is what its name says.
pub proof fn lemma_sqrt_floor_bounds(x: nat)
    ensures
        sqrt_floor(x) * sqrt_floor(x) <= x,
        x < (sqrt_floor(x) + 1) * (sqrt_floor(x) + 1),
    decreases x,
{
    if x > 0 {
        lemma_sqrt_floor_bounds((x - 1) as nat);
        let r = sqrt_floor((x - 1) as nat);
        if (r + 1) * (r + 1) <= x {
            assert(sqrt_floor(x) == r + 1);
            assert(x == (r + 1) * (r + 1));
            assert(sqrt_floor(x) * sqrt_floor(x) <= x);
            assert(x < (sqrt_floor(x) + 1) * (sqrt_floor(x) + 1)) by (nonlinear_arith)
                requires
                    sqrt_floor(x) == r + 1,
                    x == (r + 1) * (r + 1),
            ;
        } else {
            assert(sqrt_floor(x) == r);
            assert(sqrt_floor(x) * sqrt_floor(x) <= x);
            assert(x < (r + 1) * (r + 1));
            assert(x < (sqrt_floor(x) + 1) * (sqrt_floor(x) + 1)) by (nonlinear_arith)
                requires
                    sqrt_floor(x) == r,
                    x < (r + 1) * (r + 1),
            ;
        }
    } else {
        assert(x == 0);
        assert(sqrt_floor(x) == 0);
        assert(sqrt_floor(x) * sqrt_floor(x) <= x);
        assert(x < (sqrt_floor(x) + 1) * (sqrt_floor(x) + 1)) by (nonlinear_arith)
            requires
                x == 0,
                sqrt_floor(x) == 0,
        ;
    }
}

/// A value strictly below a square has a square root strictly below its
/// base.
pub proof fn lemma_sqrt_floor_lt(x: nat, y: nat)
    requires
        x < y * y,
    ensures
        sqrt_floor(x) < y,
{
    lemma_sqrt_floor_bounds(x);
    if sqrt_floor(x) >= y {
        assert(y * y <= sqrt_floor(x) * sqrt_floor(x)) by (nonlinear_arith)
            requires
                y <= sqrt_floor(x),
        ;
    }
}

/// Any `r` bracketing `x` between consecutive squares is the square root.
pub proof fn lemma_sqrt_floor_unique(x: nat, r: nat)
    requires
        r * r <= x,
        x < (r + 1) * (r + 1),
    ensures
        r == sqrt_floor(x),
{
    let s = sqrt_floor(x);
    lemma_sqrt_floor_bounds(x);
    if r < s {
        assert((r + 1) * (r + 1) <= s * s) by (nonlinear_arith)
            requires
                r + 1 <= s,
        ;
    }
    if s < r {
        assert((s + 1) * (s + 1) <= r * r) by (nonlinear_arith)
            requires
                s + 1 <= r,
        ;
    }
}

/// The z step table never falls as the confidence rises.
pub proof fn lemma_z_monotone(a: nat, b: nat)
    requires
        a <= b,
    ensures
        z_milli(a) <= z_milli(b),
{
}

/// For a fixed retained series, raising a side's confidence never narrows
/// that side's width.
pub proof fn lemma_width_monotone(
    test: StatisticKind,
    c1: nat,
    c2: nat,
    mean: int,
    stddev: nat,
    n: nat,
)
    requires
        c1 <= c2,
        mean >= 0,
        n >= 1,
    ensures
        width_milli(test, c1, mean, stddev, n) <= width_milli(test, c2, mean, stddev, n),
{
    lemma_z_monotone(c1, c2);
    match test {
        StatisticKind::Z => {
            lemma_mul_inequality(z_milli(c1) as int, z_milli(c2) as int, stddev as int);
            lemma_div_is_ordered(
                (z_milli(c1) * stddev) as int,
                (z_milli(c2) * stddev) as int,
                1000,
            );
        },
        StatisticKind::T => {
            let df = (n - 1) as nat;
            if df >= 1 {
                lemma_div_is_ordered(2 * z_milli(c1) as int, 2 * z_milli(c2) as int, df as int);
            }
            lemma_mul_inequality(
                t_milli(c1, df) as int,
                t_milli(c2, df) as int,
                stddev as int,
            );
            lemma_div_is_ordered(
                (t_milli(c1, df) * stddev) as int,
                (t_milli(c2, df) * stddev) as int,
                1000,
            );
        },
        StatisticKind::Percentage => {
            lemma_mul_inequality(c1 as int, c2 as int, mean);
            assert(mean * c1 == c1 * mean) by (nonlinear_arith);
            assert(mean * c2 == c2 * mean) by (nonlinear_arith);
            lemma_div_is_ordered(mean * c1, mean * c2, 100000);
        },
    }
}

/// Boundary monotonicity, upper side: for a fixed history, raising the
/// upper side's confidence never lowers the upper limit - that side of
/// the boundary only widens.
pub proof fn lemma_upper_boundary_monotone(
    h: Seq<u64>,
    cfg1: StatisticConfig,
    cfg2: StatisticConfig,
    c1: u32,
    c2: u32,
)
    requires
        cfg1.wf(),
        cfg1.test == cfg2.test,
        cfg1.min_sample_size == cfg2.min_sample_size,
        cfg1.max_sample_size == cfg2.max_sample_size,
        cfg1.window == cfg2.window,
        cfg1.lower_boundary == cfg2.lower_boundary,
        cfg1.upper_boundary == Some(c1),
        cfg2.upper_boundary == Some(c2),
        c1 <= c2,
        c2 <= 1000,
        !insufficient(h, cfg1),
        h.len() <= HISTORY_LIMIT,
        forall|i: int| 0 <= i < h.len() ==> #[trigger] h[i] <= VALUE_LIMIT,
    ensures
        boundaries_spec(h, cfg1) matches BoundsOutcome::Limits(l1) && boundaries_spec(h, cfg2)
            matches BoundsOutcome::Limits(l2) && l1.upper->0 <= l2.upper->0,
{
    assert(after_window(h, cfg2) == after_window(h, cfg1));
    assert(retained(h, cfg2) == retained(h, cfg1));
    let s = retained(h, cfg1);
    lemma_retained_bounded(h, cfg1, VALUE_LIMIT as int);
    lemma_retained_nonempty(h, cfg1);
    let mean = mean_of(s);
    let sd = sqrt_floor(variance_of(s) as nat);
    lemma_stats_in_range(s);
    lemma_width_monotone(cfg1.test, c1 as nat, c2 as nat, mean, sd, s.len());
    lemma_width_in_range(cfg1.test, c1 as nat, mean, sd, s.len());
    lemma_width_in_range(cfg1.test, c2 as nat, mean, sd, s.len());
}

/// Boundary monotonicity, lower side: for a fixed history, raising the
/// lower side's confidence never raises the lower limit - that side of
/// the boundary only widens.
pub proof fn lemma_lower_boundary_monotone(
    h: Seq<u64>,
    cfg1: StatisticConfig,
    cfg2: StatisticConfig,
    c1: u32,
    c2: u32,
)
    requires
        cfg1.wf(),
        cfg1.test == cfg2.test,
        cfg1.min_sample_size == cfg2.min_sample_size,
        cfg1.max_sample_size == cfg2.max_sample_size,
        cfg1.window == cfg2.window,
        cfg1.upper_boundary == cfg2.upper_boundary,
        cfg1.lower_boundary == Some(c1),
        cfg2.lower_boundary == Some(c2),
        c1 <= c2,
        c2 <= 1000,
        !insufficient(h, cfg1),
        h.len() <= HISTORY_LIMIT,
        forall|i: int| 0 <= i < h.len() ==> #[trigger] h[i] <= VALUE_LIMIT,
    ensures
        boundaries_spec(h, cfg1) matches BoundsOutcome::Limits(l1) && boundaries_spec(h, cfg2)
            matches BoundsOutcome::Limits(l2) && l2.lower->0 <= l1.lower->0,
{
    assert(after_window(h, cfg2) == after_window(h, cfg1));
    assert(retained(h, cfg2) == retained(h, cfg1));
    let s = retained(h, cfg1);
    lemma_retained_bounded(h, cfg1, VALUE_LIMIT as int);
    lemma_retained_nonempty(h, cfg1);
    let mean = mean_of(s);
    let sd = sqrt_floor(variance_of(s) as nat);
    lemma_stats_in_range(s);
    lemma_width_monotone(cfg1.test, c1 as nat, c2 as nat, mean, sd, s.len());
    lemma_width_in_range(cfg1.test, c1 as nat, mean, sd, s.len());
    lemma_width_in_range(cfg1.test, c2 as nat, mean, sd, s.len());
}

/// A history that passed the sample gate retains at least one point.
pub proof fn lemma_retained_nonempty(h: Seq<u64>, cfg: StatisticConfig)
    requires
        cfg.wf(),
        !insufficient(h, cfg),
    ensures
        retained(h, cfg).len() >= 1,
{
}

/// The retained series is a suffix of the history: no longer than it,
/// with every element bounded by any bound on the history's elements.
pub proof fn lemma_retained_bounded(h: Seq<u64>, cfg: StatisticConfig, b: int)
    requires
        forall|i: int| 0 <= i < h.len() ==> #[trigger] h[i] <= b,
    ensures
        retained(h, cfg).len() <= h.len(),
        forall|i: int| 0 <= i < retained(h, cfg).len() ==> #[trigger] retained(h, cfg)[i] <= b,
{
    let hw = after_window(h, cfg);
    assert forall|i: int| 0 <= i < hw.len() implies #[trigger] hw[i] <= b by {
        if cfg.window is Some && h.len() > cfg.window->0 {
            assert(hw[i] == h[i + (h.len() - cfg.window->0 as int)]);
        } else {
            assert(hw[i] == h[i]);
        }
    }
    let r = retained(h, cfg);
    assert forall|i: int| 0 <= i < r.len() implies #[trigger] r[i] <= b by {
        if cfg.max_sample_size is Some && hw.len() > cfg.max_sample_size->0 {
            assert(r[i] == hw[i + (hw.len() - cfg.max_sample_size->0 as int)]);
        } else {
            assert(r[i] == hw[i]);
        }
    }
}

/// A series bounded by `b` has a non-negative sum, no larger than its
/// length times `b`.
pub proof fn lemma_sum_bounds(s: Seq<u64>, b: int)
    requires
        forall|i: int| 0 <= i < s.len() ==> #[trigger] s[i] <= b,
    ensures
        0 <= sum_of(s) <= s.len() * b,
    decreases s.len(),
{
    if s.len() == 0 {
    } else {
        assert(forall|i: int|
            0 <= i < s.drop_last().len() ==> #[trigger] s.drop_last()[i] == s[i]);
        lemma_sum_bounds(s.drop_last(), b);
        assert(s.last() <= b);
        assert((s.len() - 1) * b + b == s.len() * b) by (nonlinear_arith);
    }
}

/// A series whose every deviation from `m` is at most `d` has a bounded
/// sum of squared deviations.
pub proof fn lemma_sq_dev_sum_bounds(s: Seq<u64>, m: int, d: int)
    requires
        d >= 0,
        forall|i: int| 0 <= i < s.len() ==> m - d <= #[trigger] s[i] <= m + d,
    ensures
        0 <= sq_dev_sum(s, m) <= s.len() * (d * d),
    decreases s.len(),
{
    if s.len() == 0 {
    } else {
        assert(forall|i: int|
            0 <= i < s.drop_last().len() ==> #[trigger] s.drop_last()[i] == s[i]);
        lemma_sq_dev_sum_bounds(s.drop_last(), m, d);
        assert(0 <= (s.last() - m) * (s.last() - m) <= d * d) by (nonlinear_arith)
            requires
                m - d <= s.last() <= m + d,
        ;
        assert((s.len() - 1) * (d * d) + d * d == s.len() * (d * d)) by (nonlinear_arith);
    }
}

/// The floored mean of a non-empty bounded series stays within the bound.
pub proof fn lemma_mean_in_range(s: Seq<u64>, b: int)
    requires
        s.len() >= 1,
        b >= 0,
        forall|i: int| 0 <= i < s.len() ==> #[trigger] s[i] <= b,
    ensures
        0 <= mean_of(s) <= b,
{
    lemma_sum_bounds(s, b);
    vstd::arithmetic::div_mod::lemma_div_pos_is_pos(sum_of(s), s.len() as int);
    lemma_div_is_ordered(sum_of(s), s.len() * b, s.len() as int);
    assert((s.len() * b) / (s.len() as int) == b) by (nonlinear_arith)
        requires
            s.len() >= 1,
            b >= 0,
    ;
}

/// The bound on the standard deviation used for range reasoning.
pub const SD_LIMIT: u64 = 1000000000000000000;

/// For a bounded series the statistics stay in range: the mean within the
/// value limit and the standard deviation below `SD_LIMIT`.
pub proof fn lemma_stats_in_range(s: Seq<u64>)
    requires
        1 <= s.len() <= HISTORY_LIMIT,
        forall|i: int| 0 <= i < s.len() ==> #[trigger] s[i] <= VALUE_LIMIT,
    ensures
        0 <= mean_of(s) <= VALUE_LIMIT,
        0 <= variance_of(s) <= s.len() * ((VALUE_LIMIT * VALUE_LIMIT) as int),
        sqrt_floor(variance_of(s) as nat) <= SD_LIMIT,
    decreases s.len(),
{
    lemma_mean_in_range(s, VALUE_LIMIT as int);
    let m = mean_of(s);
    if s.len() >= 2 {
        assert forall|i: int| 0 <= i < s.len() implies m - VALUE_LIMIT <= #[trigger] s[i] <= m
            + VALUE_LIMIT by {}
        lemma_sq_dev_sum_bounds(s, m, VALUE_LIMIT as int);
        vstd::arithmetic::div_mod::lemma_div_pos_is_pos(sq_dev_sum(s, m), s.len() - 1);
        vstd::arithmetic::div_mod::lemma_div_is_ordered_by_denominator(
            sq_dev_sum(s, m),
            1,
            s.len() - 1,
        );
        assert(sq_dev_sum(s, m) / 1 == sq_dev_sum(s, m));
    }
    assert(variance_of(s) < (SD_LIMIT + 1) * (SD_LIMIT + 1)) by (nonlinear_arith)
        requires
            0 <= variance_of(s) <= s.len() * ((VALUE_LIMIT * VALUE_LIMIT) as int),
            s.len() <= HISTORY_LIMIT,
    ;
    lemma_sqrt_floor_lt(variance_of(s) as nat, (SD_LIMIT + 1) as nat);
}

/// The widest a limit can sit from the mean under the range assumptions.
pub const WIDTH_LIMIT: i128 = 100000000000000000000;

/// The width of a side is non-negative and bounded whenever the inputs
/// are in range.
pub proof fn lemma_width_in_range(test: StatisticKind, c: nat, mean: int, stddev: nat, n: nat)
    requires
        0 <= mean <= VALUE_LIMIT,
        stddev <= SD_LIMIT,
        c <= 1000,
        n >= 1,
    ensures
        0 <= width_milli(test, c, mean, stddev, n) <= WIDTH_LIMIT,
{
    assert(z_milli(c) <= 3090);
    match test {
        StatisticKind::Z => {
            lemma_mul_inequality(z_milli(c) as int, 3090, stddev as int);
            assert(3090 * stddev <= 3090 * SD_LIMIT) by (nonlinear_arith)
                requires
                    stddev <= SD_LIMIT,
            ;
            lemma_div_is_ordered(0, (z_milli(c) * stddev) as int, 1000);
            lemma_div_is_ordered((z_milli(c) * stddev) as int, 3090 * SD_LIMIT, 1000);
        },
        StatisticKind::T => {
            let df = (n - 1) as nat;
            if df >= 1 {
                vstd::arithmetic::div_mod::lemma_div_is_ordered_by_denominator(
                    2 * z_milli(c) as int,
                    1,
                    df as int,
                );
            }
            assert(t_milli(c, df) <= 9270);
            lemma_mul_inequality(t_milli(c, df) as int, 9270, stddev as int);
            assert(9270 * stddev <= 9270 * SD_LIMIT) by (nonlinear_arith)
                requires
                    stddev <= SD_LIMIT,
            ;
            lemma_div_is_ordered(0, (t_milli(c, df) * stddev) as int, 1000);
            lemma_div_is_ordered((t_milli(c, df) * stddev) as int, 9270 * SD_LIMIT, 1000);
        },
        StatisticKind::Percentage => {
            assert(0 <= mean * c <= VALUE_LIMIT * 1000) by (nonlinear_arith)
                requires
                    0 <= mean <= VALUE_LIMIT,
                    0 <= c <= 1000,
            ;
            lemma_div_is_ordered(0, mean * c, 100000);
            lemma_div_is_ordered(mean * c, (VALUE_LIMIT * 1000) as int, 100000);
        },
    }
}

/// The insufficient-data gate: a windowed history shorter than the
/// configured minimum sample size yields no limits at all.
pub proof fn lemma_insufficient_data_gate(h: Seq<u64>, cfg: StatisticConfig, mn: u32)
    requires
        cfg.min_sample_size == Some(mn),
        after_window(h, cfg).len() < mn,
    ensures
        boundaries_spec(h, cfg) == BoundsOutcome::InsufficientData,
{
}


/// Table lookup for the one-sided normal critical value.
fn z_lookup(c: u32) -> (z: u64)
    ensures
        z == z_milli(c as nat),
{
    if c >= 999 {
        3090
    } else if c >= 990 {
        2326
    } else if c >= 975 {
        1960
    } else if c >= 950 {
        1645
    } else if c >= 900 {
        1282
    } else if c >= 800 {
        842
    } else if c >= 700 {
        524
    } else if c >= 600 {
        253
    } else {
        0
    }
}

/// Binary-search integer square root for the variance range the engine
/// produces.
fn isqrt(x: u128) -> (r: u64)
    requires
        x <= (SD_LIMIT as u128) * (SD_LIMIT as u128),
    ensures
        r as nat == sqrt_floor(x as nat),
        r <= SD_LIMIT,
{
    let mut lo: u64 = 0;
    let mut hi: u64 = SD_LIMIT;
    proof {
        assert((x as nat) < ((SD_LIMIT + 1) * (SD_LIMIT + 1)) as nat) by (nonlinear_arith)
            requires
                x <= (SD_LIMIT as u128) * (SD_LIMIT as u128),
        ;
    }
    while lo < hi
        invariant
            lo <= hi <= SD_LIMIT,
            (lo as nat) * (lo as nat) <= x as nat,
            (x as nat) < ((hi + 1) as nat) * ((hi + 1) as nat),
        decreases hi - lo,
    {
        let mid = lo + (hi - lo + 1) / 2;
        proof {
            assert((mid as int) * (mid as int) <= (SD_LIMIT as int) * (SD_LIMIT as int))
                by (nonlinear_arith)
                requires
                    0 <= mid <= SD_LIMIT,
            ;
        }
        if (mid as u128) * (mid as u128) <= x {
            lo = mid;
        } else {
            hi = mid - 1;
        }
    }
    proof {
        lemma_sqrt_floor_unique(x as nat, lo as nat);
    }
    lo
}

/// The distance of a side's limit from the mean, for one configured
/// confidence.
fn width_of_side(test: StatisticKind, c: u32, mean: u64, sd: u64, n: u64) -> (w: i128)
    requires
        c <= 1000,
        mean <= VALUE_LIMIT,
        sd <= SD_LIMIT,
        n >= 1,
    ensures
        w == width_milli(test, c as nat, mean as int, sd as nat, n as nat),
        0 <= w <= WIDTH_LIMIT,
{
    proof {
        lemma_width_in_range(test, c as nat, mean as int, sd as nat, n as nat);
    }
    match test {
        StatisticKind::Z => {
            let z = z_lookup(c);
            (((z as u128) * (sd as u128)) / 1000) as i128
        },
        StatisticKind::T => {
            let z = z_lookup(c);
            let df: u64 = if n >= 2 {
                n - 1
            } else {
                1
            };
            let t = z + (2 * z) / df;
            proof {
                if n >= 2 {
                    assert(t as nat == t_milli(c as nat, (n - 1) as nat));
                } else {
                    assert(t as nat == t_milli(c as nat, (n - 1) as nat));
                }
            }
            (((t as u128) * (sd as u128)) / 1000) as i128
        },
        StatisticKind::Percentage => {
            (((mean as u128) * (c as u128)) / 100000) as i128
        },
    }
}

/// Computes the boundary limits for a history under a configuration:
/// the most recent `window` entries are kept, the sample count is gated
/// on `min_sample_size`, the series is clamped to the most recent
/// `max_sample_size` entries, and one limit per configured side is
/// derived from the retained series' statistics.
#[verifier::rlimit(100)]
pub fn compute_boundaries(history: &Vec<u64>, cfg: &StatisticConfig) -> (r: BoundsOutcome)
    requires
        cfg.wf(),
        history@.len() <= HISTORY_LIMIT,
        forall|i: int| 0 <= i < history@.len() ==> #[trigger] history@[i] <= VALUE_LIMIT,
    ensures
        r == boundaries_spec(history@, *cfg),
{
    let n0 = history.len();
    let start1: usize = match cfg.window {
        Option::Some(w) => if n0 > w as usize {
            n0 - w as usize
        } else {
            0
        },
        Option::None => 0,
    };
    proof {
        assert(after_window(history@, *cfg) =~= history@.skip(start1 as int));
    }
    let len1 = n0 - start1;
    let short = match cfg.min_sample_size {
        Option::Some(mn) => (len1 as u64) < mn as u64,
        Option::None => false,
    };
    if short || len1 == 0 {
        return BoundsOutcome::InsufficientData;
    }
    let start2: usize = match cfg.max_sample_size {
        Option::Some(m) => if len1 > m as usize {
            start1 + (len1 - m as usize)
        } else {
            start1
        },
        Option::None => start1,
    };
    let ghost s = retained(history@, *cfg);
    proof {
        assert(history@.skip(start1 as int).skip(start2 as int - start1 as int) =~= history@.skip(
            start2 as int,
        ));
        assert(s =~= history@.skip(start2 as int));
        assert(forall|i: int| 0 <= i < s.len() ==> #[trigger] s[i] == history@[i + start2 as int]);
    }
    let len2 = n0 - start2;

    let mut acc: u128 = 0;
    let mut i: usize = start2;
    proof {
        assert(s.take(0) =~= Seq::<u64>::empty());
    }
    while i < n0
        invariant
            start2 <= i <= n0,
            n0 == history@.len(),
            n0 <= HISTORY_LIMIT,
            s =~= history@.skip(start2 as int),
            forall|j: int| 0 <= j < history@.len() ==> #[trigger] history@[j] <= VALUE_LIMIT,
            acc == sum_of(s.take(i - start2 as int)),
            acc <= (i - start2) as u128 * (VALUE_LIMIT as u128),
            acc <= 1000000000000000000000u128,
        decreases n0 - i,
    {
        let v = history[i];
        proof {
            assert(s.take(i - start2 as int + 1).drop_last() =~= s.take(i - start2 as int));
            assert(s.take(i - start2 as int + 1).last() == history@[i as int]);
            assert(((i - start2) as int + 1) * (VALUE_LIMIT as int) == (i - start2) as int * (
            VALUE_LIMIT as int) + VALUE_LIMIT as int) by (nonlinear_arith);
        }
        acc = acc + v as u128;
        i = i + 1;
    }
    proof {
        assert(s.take(len2 as int) =~= s);
        assert(s.len() == len2);
        assert(len2 >= 1);
        lemma_mean_in_range(s, VALUE_LIMIT as int);
    }
    let mean = (acc / (len2 as u128)) as u64;
    proof {
        assert(mean == mean_of(s));
    }

    let mut acc2: u128 = 0;
    let mut i2: usize = start2;
    proof {
        assert(s.take(0) =~= Seq::<u64>::empty());
    }
    while i2 < n0
        invariant
            start2 <= i2 <= n0,
            n0 == history@.len(),
            n0 <= HISTORY_LIMIT,
            mean <= VALUE_LIMIT,
            s =~= history@.skip(start2 as int),
            forall|j: int| 0 <= j < history@.len() ==> #[trigger] history@[j] <= VALUE_LIMIT,
            acc2 == sq_dev_sum(s.take(i2 - start2 as int), mean as int),
            acc2 <= (i2 - start2) as u128 * ((VALUE_LIMIT as u128) * (VALUE_LIMIT as u128)),
            acc2 <= 1000000000000000000000000000000000000u128,
        decreases n0 - i2,
    {
        let v = history[i2];
        let d: u64 = if v >= mean {
            v - mean
        } else {
            mean - v
        };
        proof {
            assert(s.take(i2 - start2 as int + 1).drop_last() =~= s.take(i2 - start2 as int));
            assert(s.take(i2 - start2 as int + 1).last() == history@[i2 as int]);
            assert((d as int) * (d as int) == (history@[i2 as int] - mean) * (history@[i2 as int]
                - mean)) by (nonlinear_arith)
                requires
                    d == if history@[i2 as int] >= mean {
                        history@[i2 as int] - mean
                    } else {
                        mean as int - history@[i2 as int]
                    },
            ;
            assert((d as u128) * (d as u128) <= (VALUE_LIMIT as u128) * (VALUE_LIMIT as u128))
                by (nonlinear_arith)
                requires
                    d <= VALUE_LIMIT,
            ;
            assert(((i2 - start2) as int + 1) * ((VALUE_LIMIT as int) * (VALUE_LIMIT as int))
                == (i2 - start2) as int * ((VALUE_LIMIT as int) * (VALUE_LIMIT as int)) + (
            VALUE_LIMIT as int) * (VALUE_LIMIT as int)) by (nonlinear_arith);
        }
        acc2 = acc2 + (d as u128) * (d as u128);
        i2 = i2 + 1;
    }
    proof {
        assert(s.take(len2 as int) =~= s);
    }
    let variance: u128 = if len2 < 2 {
        0
    } else {
        acc2 / ((len2 - 1) as u128)
    };
    proof {
        assert(variance == variance_of(s));
        assert((len2 as u128 - 1) * ((VALUE_LIMIT as u128) * (VALUE_LIMIT as u128)) <= (
        HISTORY_LIMIT as u128) * ((VALUE_LIMIT as u128) * (VALUE_LIMIT as u128)))
            by (nonlinear_arith)
            requires
                len2 <= HISTORY_LIMIT,
        ;
        if len2 >= 2 {
            vstd::arithmetic::div_mod::lemma_div_is_ordered_by_denominator(
                acc2 as int,
                1,
                len2 - 1,
            );
        }
        assert(variance <= (SD_LIMIT as u128) * (SD_LIMIT as u128)) by (nonlinear_arith)
            requires
                variance <= (HISTORY_LIMIT as u128) * ((VALUE_LIMIT as u128) * (
                VALUE_LIMIT as u128)),
        ;
    }
    let sd = isqrt(variance);

    let lower = match cfg.lower_boundary {
        Option::Some(c) => {
            let w = width_of_side(cfg.test, c, mean, sd, len2 as u64);
            Option::Some(mean as i128 - w)
        },
        Option::None => Option::None,
    };
    let upper = match cfg.upper_boundary {
        Option::Some(c) => {
            let w = width_of_side(cfg.test, c, mean, sd, len2 as u64);
            Option::Some(mean as i128 + w)
        },
        Option::None => Option::None,
    };
    BoundsOutcome::Limits(BoundaryLimits { lower, upper })
}

} // verus!
