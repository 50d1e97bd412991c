//! The alert generator: compares a new canonical value against computed
//! boundary limits and emits one alert record per violated side.
//!
//! A side has three spellings (`Left` is the lower tail, `Right` the
//! upper; in the database a `bool`, in JSON the strings "left" and
//! "right"). No alert is ever produced out of
//! `InsufficientData`: a series still warming up is a silent no-op.

use vstd::prelude::*;

use crate::boundary::{
    boundaries_spec, compute_boundaries, insufficient, lemma_stats_in_range,
    lemma_retained_bounded, lemma_width_in_range, retained, BoundaryLimits, BoundsOutcome,
    StatisticConfig, HISTORY_LIMIT, VALUE_LIMIT, WIDTH_LIMIT,
};

verus! {

/// Which tail of the distribution a boundary applies to: `Left` is the
/// lower tail, `Right` the upper.
#[derive(Clone, Copy, PartialEq, Eq, Structural, Debug)]
pub enum Side {
    Left,
    Right,
}

impl From<bool> for Side {
    /// The database encoding: `false` is `Left`, `true` is `Right`.
    fn from(side: bool) -> (r: Self) {
        if side {
            Self::Right
        } else {
            Self::Left
        }
    }
}

impl vstd::std_specs::convert::FromSpecImpl<bool> for Side {
    open spec fn obeys_from_spec() -> bool {
        true
    }

    open spec fn from_spec(side: bool) -> Self {
        if side {
            Side::Right
        } else {
            Side::Left
        }
    }
}

impl From<Side> for bool {
    /// The inverse database encoding.
    fn from(side: Side) -> (r: Self) {
        match side {
            Side::Left => false,
            Side::Right => true,
        }
    }
}

impl vstd::std_specs::convert::FromSpecImpl<Side> for bool {
    open spec fn obeys_from_spec() -> bool {
        true
    }

    open spec fn from_spec(side: Side) -> Self {
        match side {
            Side::Left => false,
            Side::Right => true,
        }
    }
}

/// The JSON-facing spelling of a side.
#[derive(Clone, Copy, PartialEq, Eq, Structural, Debug)]
pub enum JsonSide {
    Left,
    Right,
}

impl From<Side> for JsonSide {
    fn from(side: Side) -> (r: Self) {
        match side {
            Side::Left => Self::Left,
            Side::Right => Self::Right,
        }
    }
}

impl vstd::std_specs::convert::FromSpecImpl<Side> for JsonSide {
    open spec fn obeys_from_spec() -> bool {
        true
    }

    open spec fn from_spec(side: Side) -> Self {
        match side {
            Side::Left => JsonSide::Left,
            Side::Right => JsonSide::Right,
        }
    }
}

impl JsonSide {
    /// The string this side serializes to.
    pub fn as_str(&self) -> (r: &'static str)
        ensures
            *self == JsonSide::Left ==> r@ == "left"@,
            *self == JsonSide::Right ==> r@ == "right"@,
    {
        match self {
            JsonSide::Left => "left",
            JsonSide::Right => "right",
        }
    }
}

/// One alert record: which side fired, the limit that was violated, the
/// measured value, and how far beyond the limit it lay (all in
/// milli-units of the metric's canonical unit).
#[derive(Clone, Copy, PartialEq, Eq, Structural, Debug)]
pub struct Alert {
    pub side: Side,
    pub boundary: i128,
    pub measured: u64,
    pub outlier: i128,
}

/// The alerts owed for a value against a set of limits: one `Left` alert
/// when the value falls below an active lower limit, one `Right` alert
/// when it rises above an active upper limit.
pub open spec fn alerts_of(value: u64, limits: BoundaryLimits) -> Seq<Alert> {
    let low: Seq<Alert> = if limits.lower is Some && (value as int) < limits.lower->0 {
        seq![
            Alert {
                side: Side::Left,
                boundary: limits.lower->0,
                measured: value,
                outlier: (limits.lower->0 - value) as i128,
            },
        ]
    } else {
        Seq::empty()
    };
    let up: Seq<Alert> = if limits.upper is Some && (value as int) > limits.upper->0 {
        seq![
            Alert {
                side: Side::Right,
                boundary: limits.upper->0,
                measured: value,
                outlier: (value - limits.upper->0) as i128,
            },
        ]
    } else {
        Seq::empty()
    };
    low + up
}

/// The limits a boundary computation can hand out stay well inside the
/// range the alert arithmetic needs.
pub open spec fn limits_in_range(limits: BoundaryLimits) -> bool {
    &&& limits.lower is Some ==> -WIDTH_LIMIT <= limits.lower->0 <= VALUE_LIMIT + WIDTH_LIMIT
    &&& limits.upper is Some ==> -WIDTH_LIMIT <= limits.upper->0 <= VALUE_LIMIT + WIDTH_LIMIT
}

/// Emits the alerts for one value against computed limits.
pub fn evaluate(value: u64, limits: &BoundaryLimits) -> (r: Vec<Alert>)
    requires
        limits_in_range(*limits),
    ensures
        r@ == alerts_of(value, *limits),
{
    let mut r: Vec<Alert> = Vec::new();
    if let Option::Some(l) = limits.lower {
        if (value as i128) < l {
            r.push(
                Alert { side: Side::Left, boundary: l, measured: value, outlier: l - value as i128 },
            );
        }
    }
    if let Option::Some(u) = limits.upper {
        if (value as i128) > u {
            r.push(
                Alert {
                    side: Side::Right,
                    boundary: u,
                    measured: value,
                    outlier: value as i128 - u,
                },
            );
        }
    }
    proof {
        assert(r@ =~= alerts_of(value, *limits));
    }
    r
}

/// What a full evaluation cycle owes: nothing at all while the history is
/// insufficient, else the alerts for the computed limits.
pub open spec fn detect_spec(value: u64, h: Seq<u64>, cfg: StatisticConfig) -> Seq<Alert> {
    match boundaries_spec(h, cfg) {
        BoundsOutcome::InsufficientData => Seq::empty(),
        BoundsOutcome::Limits(limits) => alerts_of(value, limits),
    }
}

/// Limits computed from a bounded history are in range for alerting.
pub proof fn lemma_boundaries_in_range(h: Seq<u64>, cfg: StatisticConfig)
    requires
        cfg.wf(),
        h.len() <= HISTORY_LIMIT,
        forall|i: int| 0 <= i < h.len() ==> #[trigger] h[i] <= VALUE_LIMIT,
    ensures
        boundaries_spec(h, cfg) matches BoundsOutcome::Limits(limits) ==> limits_in_range(limits),
{
    if !insufficient(h, cfg) {
        let s = retained(h, cfg);
        lemma_retained_bounded(h, cfg, VALUE_LIMIT as int);
        lemma_stats_in_range(s);
        let mean = crate::boundary::mean_of(s);
        let sd = crate::boundary::sqrt_floor(crate::boundary::variance_of(s) as nat);
        if cfg.lower_boundary is Some {
            lemma_width_in_range(cfg.test, cfg.lower_boundary->0 as nat, mean, sd, s.len());
        }
        if cfg.upper_boundary is Some {
            lemma_width_in_range(cfg.test, cfg.upper_boundary->0 as nat, mean, sd, s.len());
        }
    }
}

/// Runs one full evaluation cycle: boundary computation, then alert
/// generation; a history still warming up yields no alerts at all.
pub fn detect(value: u64, history: &Vec<u64>, cfg: &StatisticConfig) -> (r: Vec<Alert>)
    requires
        cfg.wf(),
        history@.len() <= HISTORY_LIMIT,
        forall|i: int| 0 <= i < history@.len() ==> #[trigger] history@[i] <= VALUE_LIMIT,
    ensures
        r@ == detect_spec(value, history@, *cfg),
{
    proof {
        lemma_boundaries_in_range(history@, *cfg);
    }
    match compute_boundaries(history, cfg) {
        BoundsOutcome::InsufficientData => {
            let r: Vec<Alert> = Vec::new();
            proof {
                assert(r@ =~= detect_spec(value, history@, *cfg));
            }
            r
        },
        BoundsOutcome::Limits(limits) => evaluate(value, &limits),
    }
}

/// Alert side correctness: a value strictly below an active lower limit,
/// with the upper side absent or unviolated, produces exactly one alert,
/// on the lower side, with a strictly positive outlier magnitude.
pub proof fn lemma_alert_side_correct(value: u64, limits: BoundaryLimits)
    requires
        limits.lower is Some,
        (value as int) < limits.lower->0,
        limits.upper is Some ==> (value as int) <= limits.upper->0,
        limits_in_range(limits),
    ensures
        alerts_of(value, limits).len() == 1,
        alerts_of(value, limits)[0].side == Side::Left,
        alerts_of(value, limits)[0].boundary == limits.lower->0,
        alerts_of(value, limits)[0].outlier > 0,
{
}

/// The insufficient-data gate, end to end: with a windowed history
/// shorter than the configured minimum sample size, no alert is raised,
/// whatever the value under test.
pub proof fn lemma_insufficient_data_no_alerts(
    value: u64,
    h: Seq<u64>,
    cfg: StatisticConfig,
    mn: u32,
)
    requires
        cfg.min_sample_size == Some(mn),
        crate::boundary::after_window(h, cfg).len() < mn,
    ensures
        detect_spec(value, h, cfg) == Seq::<Alert>::empty(),
{
}


/// The benchmark-with-metric document an alert points at.
#[derive(Clone, Debug)]
pub struct JsonBenchmarkMetric {
    pub uuid: u128,
    pub project: u128,
    pub name: Vec<u8>,
    pub metric: crate::model::MetricValue,
}

/// The JSON form of one alert: where it happened, the threshold
/// configuration it was judged under, and how far the measurement lay
/// beyond the limit (fixed-point milli-units).
#[derive(Clone, Debug)]
pub struct JsonAlert {
    pub uuid: u128,
    pub report: u128,
    pub iteration: u32,
    pub benchmark: JsonBenchmarkMetric,
    pub threshold: crate::statistic::JsonStatistic,
    pub side: JsonSide,
    pub boundary: i64,
    pub outlier: i64,
}

/// A stored alert row: the violated side as a flag, the limit and the
/// distance beyond it in milli-units.
#[derive(Clone, Copy, PartialEq, Eq, Structural, Debug)]
pub struct QueryAlert {
    pub id: i32,
    pub uuid: u128,
    pub perf_id: i32,
    pub threshold_id: i32,
    pub statistic_id: i32,
    pub side: bool,
    pub boundary: i64,
    pub outlier: i64,
}

impl QueryAlert {
    /// Assembles the JSON form of this row from the documents the
    /// caller fetched for it. The threshold handed in must be the one
    /// under this alert's own statistic - the row remembers which
    /// configuration judged it, not the threshold's current one.
    pub fn into_json(
        self,
        report: u128,
        iteration: u32,
        benchmark: JsonBenchmarkMetric,
        threshold: crate::statistic::JsonStatistic,
    ) -> (r: JsonAlert)
        ensures
            r.uuid == self.uuid,
            r.report == report,
            r.iteration == iteration,
            r.benchmark == benchmark,
            r.threshold == threshold,
            r.side == (if self.side {
                JsonSide::Right
            } else {
                JsonSide::Left
            }),
            r.boundary == self.boundary,
            r.outlier == self.outlier,
    {
        let side: Side = Side::from(self.side);
        JsonAlert {
            uuid: self.uuid,
            report,
            iteration,
            benchmark,
            threshold,
            side: JsonSide::from(side),
            boundary: self.boundary,
            outlier: self.outlier,
        }
    }
}

/// An alert row to insert, as the alert generator's output is stored.
#[derive(Clone, Copy, PartialEq, Eq, Structural, Debug)]
pub struct InsertAlert {
    pub uuid: u128,
    pub perf_id: i32,
    pub threshold_id: i32,
    pub statistic_id: i32,
    pub side: bool,
    pub boundary: i64,
    pub outlier: i64,
}

} // verus!
