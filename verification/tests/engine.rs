//! The boundary engine, the alert generator and the surrounding data
//! models, exercised on concrete values.

use bencher_core::alert::{
    detect, evaluate, Alert, InsertAlert, JsonBenchmarkMetric, JsonSide, QueryAlert, Side,
};
use bencher_core::boundary::{
    compute_boundaries, BoundaryLimits, BoundsOutcome, StatisticConfig, StatisticKind,
};
use bencher_core::license::{check_expiration, check_subject, now, validate_usage, LicenseError};
use bencher_core::model::{AdapterMetrics, AdapterResults, MetricValue};
use bencher_core::adapters::json::AdapterJson;
use bencher_core::file_size::FileSize;
use bencher_core::json_api::{JsonAllowed, JsonEmpty};
use bencher_core::rbac::{Organization, Permission, Role};
use bencher_core::statistic::{map_u32, ApiError, InsertStatistic, JsonNewStatistic, QueryStatistic};
use bencher_core::adapters::unit_of_symbol;
use bencher_core::units::{denormalize, normalize, MetricKind, Unit, UnitError};

fn config(test: StatisticKind) -> StatisticConfig {
    StatisticConfig {
        test,
        min_sample_size: None,
        max_sample_size: None,
        window: None,
        lower_boundary: None,
        upper_boundary: None,
    }
}

#[test]
fn unit_round_trip_is_exact() {
    for unit in [Unit::Nanos, Unit::Micros, Unit::Millis, Unit::Seconds, Unit::OpsPerSec, Unit::Bytes] {
        for raw in [0u64, 1, 42_000, 1_113, 9_999_999] {
            let canon = normalize(raw, unit).expect("in range");
            assert_eq!(denormalize(canon, unit), raw, "unit {unit:?} value {raw}");
        }
    }
    assert_eq!(normalize(42_000, Unit::Micros), Some(42_000_000));
    assert_eq!(normalize(u64::MAX / 2, Unit::Seconds), None);
}

#[test]
fn boundary_widens_with_confidence() {
    let history = vec![100_000u64, 102_000, 98_000, 101_000, 99_000];
    for test in [StatisticKind::Z, StatisticKind::T, StatisticKind::Percentage] {
        let mut narrow = config(test);
        narrow.lower_boundary = Some(800);
        narrow.upper_boundary = Some(800);
        let mut wide = config(test);
        wide.lower_boundary = Some(990);
        wide.upper_boundary = Some(990);
        let BoundsOutcome::Limits(n) = compute_boundaries(&history, &narrow) else {
            panic!("insufficient data")
        };
        let BoundsOutcome::Limits(w) = compute_boundaries(&history, &wide) else {
            panic!("insufficient data")
        };
        assert!(w.upper.unwrap() >= n.upper.unwrap(), "{test:?} upper narrowed");
        assert!(w.lower.unwrap() <= n.lower.unwrap(), "{test:?} lower narrowed");
    }
}

#[test]
fn insufficient_history_raises_nothing() {
    let history = vec![100_000u64, 101_000];
    let mut cfg = config(StatisticKind::Z);
    cfg.min_sample_size = Some(5);
    cfg.upper_boundary = Some(950);
    assert_eq!(
        compute_boundaries(&history, &cfg),
        BoundsOutcome::InsufficientData
    );
    let alerts = detect(1_000_000_000, &history, &cfg);
    assert!(alerts.is_empty());
    let empty: Vec<u64> = Vec::new();
    assert_eq!(
        compute_boundaries(&empty, &config(StatisticKind::Z)),
        BoundsOutcome::InsufficientData
    );
}

#[test]
fn lower_violation_gives_one_left_alert() {
    let limits = BoundaryLimits { lower: Some(90_000), upper: Some(110_000) };
    let alerts = evaluate(85_000, &limits);
    assert_eq!(alerts.len(), 1);
    let alert: &Alert = &alerts[0];
    assert_eq!(alert.side, Side::Left);
    assert_eq!(alert.boundary, 90_000);
    assert_eq!(alert.measured, 85_000);
    assert_eq!(alert.outlier, 5_000);
    assert!(alert.outlier > 0);
    let quiet = evaluate(100_000, &limits);
    assert!(quiet.is_empty());
}

#[test]
fn percentage_test_fires_upper_alert() {
    let history = vec![100_000u64, 102_000, 98_000, 101_000, 99_000];
    let mut cfg = config(StatisticKind::Percentage);
    cfg.upper_boundary = Some(950);
    let BoundsOutcome::Limits(limits) = compute_boundaries(&history, &cfg) else {
        panic!("insufficient data")
    };
    assert_eq!(limits.lower, None);
    let upper = limits.upper.expect("configured side");
    assert_eq!(upper, 100_950);
    let alerts = detect(130_000, &history, &cfg);
    assert_eq!(alerts.len(), 1);
    assert_eq!(alerts[0].side, Side::Right);
    assert_eq!(alerts[0].boundary, 100_950);
    assert_eq!(alerts[0].outlier, 130_000 - 100_950);
}

#[test]
fn z_test_boundary_is_exact() {
    let history = vec![100_000u64, 102_000, 98_000, 101_000, 99_000];
    let mut cfg = config(StatisticKind::Z);
    cfg.upper_boundary = Some(950);
    cfg.lower_boundary = Some(950);
    let BoundsOutcome::Limits(limits) = compute_boundaries(&history, &cfg) else {
        panic!("insufficient data")
    };
    // variance over n-1: 10_000_000 / 4 = 2_500_000; sd = 1581;
    // width = 1645 * 1581 / 1000 = 2600.
    assert_eq!(limits.upper, Some(102_600));
    assert_eq!(limits.lower, Some(97_400));
}

#[test]
fn t_test_boundary_is_exact() {
    let history = vec![100_000u64, 102_000, 98_000, 101_000, 99_000];
    let mut cfg = config(StatisticKind::T);
    cfg.upper_boundary = Some(950);
    let BoundsOutcome::Limits(limits) = compute_boundaries(&history, &cfg) else {
        panic!("insufficient data")
    };
    // sd = 1581 as in the z case; the t critical value for four
    // degrees of freedom is 1645 + 2 * 1645 / 4 = 2467 thousandths;
    // width = 2467 * 1581 / 1000 = 3900.
    assert_eq!(limits.upper, Some(103_900));
    assert_eq!(limits.lower, None);
}

#[test]
fn window_and_clamp_keep_most_recent() {
    // Older half is far away; the window keeps the recent five only.
    let history = vec![
        500_000u64, 500_000, 500_000, 100_000, 102_000, 98_000, 101_000, 99_000,
    ];
    let mut cfg = config(StatisticKind::Percentage);
    cfg.window = Some(5);
    cfg.upper_boundary = Some(950);
    let BoundsOutcome::Limits(limits) = compute_boundaries(&history, &cfg) else {
        panic!("insufficient data")
    };
    assert_eq!(limits.upper, Some(100_950));
    let mut clamped = config(StatisticKind::Percentage);
    clamped.max_sample_size = Some(5);
    clamped.upper_boundary = Some(950);
    let BoundsOutcome::Limits(l2) = compute_boundaries(&history, &clamped) else {
        panic!("insufficient data")
    };
    assert_eq!(l2.upper, Some(100_950));
}

#[test]
fn sides_convert_as_stored() {
    assert_eq!(Side::from(false), Side::Left);
    assert_eq!(Side::from(true), Side::Right);
    assert!(!bool::from(Side::Left));
    assert!(bool::from(Side::Right));
    assert_eq!(JsonSide::from(Side::Left).as_str(), "left");
    assert_eq!(JsonSide::from(Side::Right).as_str(), "right");
}

#[test]
fn statistic_json_conversion_is_faithful() {
    let row = QueryStatistic {
        id: 7,
        uuid: 0x1234,
        threshold_id: 3,
        test: StatisticKind::T,
        min_sample_size: Some(2),
        max_sample_size: Some(30),
        window: Some(604_800),
        lower_boundary: Some(980),
        upper_boundary: Some(980),
        created: 1_672_531_200,
    };
    let json = row.into_json_for_threshold(0xabcd).expect("fits");
    assert_eq!(json.uuid, 0x1234);
    assert_eq!(json.threshold, 0xabcd);
    assert_eq!(json.test, StatisticKind::T);
    assert_eq!(json.min_sample_size, Some(2));
    assert_eq!(json.max_sample_size, Some(30));
    assert_eq!(json.window, Some(604_800));
    assert_eq!(json.lower_boundary, Some(980));
    assert_eq!(json.upper_boundary, Some(980));
    assert_eq!(json.created, 1_672_531_200);
    assert_eq!(row.into_json(0xabcd).expect("fits"), json);

    let mut wide = row;
    wide.window = Some(i64::MAX);
    assert_eq!(
        wide.into_json_for_threshold(0xabcd),
        Err(ApiError::WindowOutOfRange)
    );
    assert_eq!(map_u32(Some(-1)), Err(ApiError::WindowOutOfRange));
    assert_eq!(map_u32(None), Ok(None));
}

#[test]
fn insert_statistic_carries_configuration() {
    let json = JsonNewStatistic {
        test: StatisticKind::Z,
        min_sample_size: Some(2),
        max_sample_size: None,
        window: Some(1_209_600),
        lower_boundary: None,
        upper_boundary: Some(950),
    };
    let row = InsertStatistic::from_json(42, json).expect("always fits");
    assert_eq!(row.threshold_id, 42);
    assert_eq!(row.test, StatisticKind::Z);
    assert_eq!(row.min_sample_size, Some(2));
    assert_eq!(row.max_sample_size, None);
    assert_eq!(row.window, Some(1_209_600));
    assert_eq!(row.lower_boundary, None);
    assert_eq!(row.upper_boundary, Some(950));

    let query = QueryStatistic {
        id: 1,
        uuid: 9,
        threshold_id: 42,
        test: StatisticKind::Z,
        min_sample_size: Some(2),
        max_sample_size: None,
        window: Some(1_209_600),
        lower_boundary: None,
        upper_boundary: Some(950),
        created: 1_700_000_000,
    };
    let copy = InsertStatistic::from(query);
    assert_eq!(copy.threshold_id, 42);
    assert_eq!(copy.created, 1_700_000_000);
    assert_eq!(copy.upper_boundary, Some(950));
}

#[test]
fn license_decisions() {
    assert_eq!(check_expiration(100, 50), Ok(()));
    assert_eq!(check_expiration(100, 100), Ok(()));
    assert_eq!(check_expiration(99, 100), Err(LicenseError::Expired));
    assert_eq!(check_subject(7, 7), Ok(()));
    assert_eq!(
        check_subject(7, 8),
        Err(LicenseError::Subject { provided: 8, license: 7 })
    );
    assert_eq!(validate_usage(1_000, 1_000), Ok(1_000));
    assert_eq!(
        validate_usage(1_000, 1_001),
        Err(LicenseError::Entitlements { usage: 1_001, entitlements: 1_000 })
    );
    let t = now().expect("clock after the epoch");
    assert!(t > 0);
}

#[test]
fn rbac_identifiers() {
    assert_eq!(Role::Member.as_str(), "member");
    assert_eq!(Role::Leader.as_str(), "leader");
    assert_eq!("member".parse::<Role>(), Ok(Role::Member));
    assert_eq!("leader".parse::<Role>(), Ok(Role::Leader));
    assert_eq!("admin".parse::<Role>(), Err(String::from("admin")));
    assert_eq!(Permission::Read.as_str(), "read");
    assert_eq!(Permission::CreateProjects.as_str(), "create_projects");
    assert_eq!(
        Permission::DeleteRoleAssignments.as_str(),
        "delete_role_assignments"
    );
    let org = Organization { uuid: String::from("0000-1111") };
    assert_eq!(org.uuid, "0000-1111");
}

#[test]
fn metrics_insert_overwrites_in_place() {
    let mut metrics = AdapterMetrics::new();
    metrics.insert(MetricKind::Latency, MetricValue::point(10));
    metrics.insert(MetricKind::Throughput, MetricValue::point(20));
    metrics.insert(MetricKind::Latency, MetricValue::point(30));
    assert_eq!(metrics.len(), 2);
    assert_eq!(metrics.get(MetricKind::Latency).unwrap().value, 30);
    assert_eq!(metrics.get(MetricKind::Throughput).unwrap().value, 20);
    assert_eq!(metrics.entries[0].0, MetricKind::Latency);
}

#[test]
fn file_size_results_report_bytes() {
    let entries = vec![
        (b"target/out.bin".to_vec(), 42u64),
        (b"target/lib.so".to_vec(), 1_024u64),
    ];
    let results = FileSize::results_of_sizes(&entries);
    assert_eq!(results.benchmarks.len(), 2);
    let metrics = results.get(b"target/out.bin").unwrap();
    assert_eq!(metrics.get(MetricKind::FileSize).unwrap().value, 42_000);
    let json = FileSize::results_json(&entries);
    let text = String::from_utf8(json).expect("ascii report");
    let parsed = AdapterJson::parse(&text).expect("round trip");
    assert_eq!(parsed.benchmarks.len(), 2);
    assert_eq!(
        parsed.get(b"target/lib.so").unwrap().get(MetricKind::FileSize).unwrap().value,
        1_024_000
    );
    let fs = FileSize::new(vec![String::from("a.bin"), String::from("b.bin")]);
    assert_eq!(fs.display_bytes(), b"a.bin, b.bin".to_vec());
}

#[test]
fn json_bodies() {
    let empty = JsonEmpty::default();
    assert_eq!(empty, JsonEmpty {});
    let allowed = JsonAllowed { allowed: true };
    assert!(allowed.allowed);
}

#[test]
fn results_and_alerts_fit_together() {
    // One full cycle: parse, look the metric up, evaluate against a
    // history with an active upper side.
    let input = "{\"bench_a\": {\"latency_ns\": 130.0}}";
    let results: AdapterResults =
        bencher_core::adapters::magic::AdapterMagic::parse(input).expect("json report");
    let measured = results
        .get(b"bench_a")
        .unwrap()
        .get(MetricKind::Latency)
        .unwrap()
        .value;
    let history = vec![100_000u64, 102_000, 98_000, 101_000, 99_000];
    let mut cfg = config(StatisticKind::Percentage);
    cfg.upper_boundary = Some(950);
    let alerts = detect(measured, &history, &cfg);
    assert_eq!(alerts.len(), 1);
    assert_eq!(alerts[0].side, Side::Right);
}

#[test]
fn alert_row_assembles_its_json() {
    let row = QueryAlert {
        id: 11,
        uuid: 0xfeed,
        perf_id: 5,
        threshold_id: 3,
        statistic_id: 9,
        side: true,
        boundary: 100_950,
        outlier: 29_050,
    };
    let benchmark = JsonBenchmarkMetric {
        uuid: 0xb0b,
        project: 0xcafe,
        name: b"bench_a".to_vec(),
        metric: MetricValue { value: 130_000, lower_bound: None, upper_bound: None },
    };
    let threshold = QueryStatistic {
        id: 9,
        uuid: 0x51a7,
        threshold_id: 3,
        test: StatisticKind::Percentage,
        min_sample_size: None,
        max_sample_size: None,
        window: None,
        lower_boundary: None,
        upper_boundary: Some(950),
        created: 1_700_000_000,
    }
    .into_json_for_threshold(0x7d)
    .expect("fits");
    let json = row.into_json(0x9e, 2, benchmark, threshold);
    assert_eq!(json.uuid, 0xfeed);
    assert_eq!(json.report, 0x9e);
    assert_eq!(json.iteration, 2);
    assert_eq!(json.side, JsonSide::Right);
    assert_eq!(json.boundary, 100_950);
    assert_eq!(json.outlier, 29_050);
    assert_eq!(json.benchmark.name, b"bench_a".to_vec());
    assert_eq!(json.threshold.upper_boundary, Some(950));

    let insert = InsertAlert {
        uuid: 0xfeed,
        perf_id: 5,
        threshold_id: 3,
        statistic_id: 9,
        side: bool::from(Side::Right),
        boundary: 100_950,
        outlier: 29_050,
    };
    assert!(insert.side);
}

#[test]
fn unknown_unit_symbol_is_refused() {
    assert_eq!(unit_of_symbol(b"ns"), Ok(Unit::Nanos));
    assert_eq!(unit_of_symbol(b"us"), Ok(Unit::Micros));
    assert_eq!(unit_of_symbol(b"ops/sec"), Ok(Unit::OpsPerSec));
    assert_eq!(unit_of_symbol(b"bytes"), Ok(Unit::Bytes));
    assert_eq!(unit_of_symbol(b"furlongs"), Err(UnitError::UnsupportedUnit));
    assert_eq!(unit_of_symbol(b""), Err(UnitError::UnsupportedUnit));
}
