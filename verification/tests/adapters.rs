//! The ingestion engine, exercised through the dispatcher on one
//! report per supported tool format.

use bencher_core::adapters::c_sharp::AdapterCSharp;
use bencher_core::adapters::cpp::AdapterCpp;
use bencher_core::adapters::go::AdapterGo;
use bencher_core::adapters::java::AdapterJava;
use bencher_core::adapters::js::AdapterJs;
use bencher_core::adapters::json::{to_json_bytes, AdapterJson};
use bencher_core::adapters::magic::AdapterMagic;
use bencher_core::adapters::python::AdapterPython;
use bencher_core::adapters::ruby::AdapterRuby;
use bencher_core::adapters::rust::AdapterRust;
use bencher_core::adapters::{ParseOutcome, ReportFault};
use bencher_core::model::{AdapterMetrics, AdapterResults, MetricValue};
use bencher_core::units::MetricKind;

fn metric_of<'a>(results: &'a AdapterResults, name: &str, kind: MetricKind) -> MetricValue {
    let metrics: &AdapterMetrics = results
        .get(name.as_bytes())
        .unwrap_or_else(|| panic!("no benchmark {name}"));
    metrics
        .get(kind)
        .unwrap_or_else(|| panic!("no metric for {name}"))
}

#[test]
fn test_adapter_magic_json_latency() {
    let input = "{\"bench_a\": {\"latency_ns\": 42.0}}";
    let results = AdapterMagic::parse(input).expect("json report");
    assert_eq!(results.benchmarks.len(), 1);
    let v = metric_of(&results, "bench_a", MetricKind::Latency);
    assert_eq!(v.value, 42_000);
    assert_eq!(v.lower_bound, None);
    assert_eq!(v.upper_bound, None);
}

#[test]
fn test_adapter_magic_c_sharp_dot_net() {
    let input = "{\n  \"Title\": \"sample\",\n  \"Benchmarks\": [\n    {\n      \"Method\": \"Fib10\",\n      \"Statistics\": {\n        \"Mean\": 325.5\n      }\n    },\n    {\n      \"Method\": \"Fib20\",\n      \"Statistics\": {\n        \"Mean\": 40237.5\n      }\n    }\n  ]\n}\n";
    let results = AdapterCSharp::parse(input).expect("dotnet report");
    assert_eq!(results.benchmarks.len(), 2);
    assert_eq!(metric_of(&results, "Fib10", MetricKind::Latency).value, 325_500);
    assert_eq!(metric_of(&results, "Fib20", MetricKind::Latency).value, 40_237_500);
}

#[test]
fn test_adapter_magic_cpp_google() {
    let input = "Benchmark              Time       CPU Iterations\n--------------------------------------------------\nBM_Fib/10             325 ns    325 ns   1000000\nBM_Fib/20           40237 ns  40230 ns     17357\n";
    let results = AdapterMagic::parse(input).expect("google benchmark report");
    assert_eq!(results.benchmarks.len(), 2);
    assert_eq!(metric_of(&results, "BM_Fib/10", MetricKind::Latency).value, 325_000);
    assert_eq!(metric_of(&results, "BM_Fib/20", MetricKind::Latency).value, 40_237_000);
}

#[test]
fn test_adapter_magic_cpp_catch2() {
    let input = "benchmark name       samples   iterations   estimated\nfib 10               10.5 us   10.2 us      10.9 us\nfib 20               101.5 us  100.2 us     103.9 us\n";
    let results = AdapterMagic::parse(input).expect("catch2 report");
    assert_eq!(results.benchmarks.len(), 2);
    let v = metric_of(&results, "fib 10", MetricKind::Latency);
    assert_eq!(v.value, 10_500_000);
    assert_eq!(v.lower_bound, Some(10_200_000));
    assert_eq!(v.upper_bound, Some(10_900_000));
    assert_eq!(metric_of(&results, "fib 20", MetricKind::Latency).value, 101_500_000);
}

#[test]
fn test_adapter_magic_go_bench() {
    let input = "goos: linux\nBenchmarkFib10-8   \t181664250\t         6.25 ns/op\nBenchmarkFib20-8   \t 1527718\t       786.0 ns/op\n";
    let results = AdapterMagic::parse(input).expect("go bench report");
    assert_eq!(results.benchmarks.len(), 2);
    assert_eq!(metric_of(&results, "BenchmarkFib10-8", MetricKind::Latency).value, 6_250);
    assert_eq!(metric_of(&results, "BenchmarkFib20-8", MetricKind::Latency).value, 786_000);
}

#[test]
fn test_adapter_magic_java_jmh() {
    let input = "[\n  {\n    \"benchmark\": \"org.sample.Fib10\",\n    \"primaryMetric\": {\n      \"score\": 1234.5,\n      \"scoreUnit\": \"ops/s\"\n    }\n  }\n]\n";
    let results = AdapterMagic::parse(input).expect("jmh report");
    assert_eq!(results.benchmarks.len(), 1);
    assert_eq!(
        metric_of(&results, "org.sample.Fib10", MetricKind::Throughput).value,
        1_234_500
    );
}

#[test]
fn test_adapter_magic_js_benchmark() {
    let input = "fib(10) x 1,431,759 ops/sec \u{b1}0.74% (93 runs sampled)\nfib(20) x 12,146 ops/sec \u{b1}0.32% (96 runs sampled)\ndone\n";
    let results = AdapterMagic::parse(input).expect("benchmark.js report");
    assert_eq!(results.benchmarks.len(), 2);
    assert_eq!(
        metric_of(&results, "fib(10)", MetricKind::Throughput).value,
        1_431_759_000
    );
    assert_eq!(metric_of(&results, "fib(20)", MetricKind::Throughput).value, 12_146_000);
}

#[test]
fn test_adapter_magic_js_time() {
    let input = "fib_10: 1.113ms\nfib_20: 87.22ms\n";
    let results = AdapterMagic::parse(input).expect("console time report");
    assert_eq!(results.benchmarks.len(), 2);
    assert_eq!(metric_of(&results, "fib_10", MetricKind::Latency).value, 1_113_000_000);
    assert_eq!(metric_of(&results, "fib_20", MetricKind::Latency).value, 87_220_000_000);
}

#[test]
fn test_adapter_python_asv() {
    let input = "benches.TimeSuite.time_fib_10 346\u{b1}4ns\nbenches.TimeSuite.time_fib_20 42.1\u{b1}0.5us\n";
    let results = AdapterMagic::parse(input).expect("asv report");
    assert_eq!(results.benchmarks.len(), 2);
    let v = metric_of(&results, "benches.TimeSuite.time_fib_10", MetricKind::Latency);
    assert_eq!(v.value, 346_000);
    assert_eq!(v.lower_bound, Some(342_000));
    assert_eq!(v.upper_bound, Some(350_000));
    let w = metric_of(&results, "benches.TimeSuite.time_fib_20", MetricKind::Latency);
    assert_eq!(w.value, 42_100_000);
}

#[test]
fn test_adapter_python_pytest() {
    let input = "{\n  \"machine_info\": {\"node\": \"ci\"},\n  \"benchmarks\": [\n    {\n      \"name\": \"test_fib_10\",\n      \"stats\": {\n        \"mean\": 0.000030\n      }\n    }\n  ]\n}\n";
    let results = AdapterMagic::parse(input).expect("pytest-benchmark report");
    assert_eq!(results.benchmarks.len(), 1);
    assert_eq!(
        metric_of(&results, "test_fib_10", MetricKind::Latency).value,
        30_000_000
    );
}

#[test]
fn test_adapter_ruby_benchmark() {
    let input = "            user     system      total        real\nfib_10   0.000000   0.000000   0.000000 (  0.000030)\nfib_20   0.000010   0.000000   0.000010 (  0.003321)\n";
    let results = AdapterMagic::parse(input).expect("ruby benchmark report");
    assert_eq!(results.benchmarks.len(), 2);
    assert_eq!(metric_of(&results, "fib_10", MetricKind::Latency).value, 30_000_000);
    assert_eq!(
        metric_of(&results, "fib_20", MetricKind::Latency).value,
        3_321_000_000
    );
}

#[test]
fn test_adapter_magic_rust_bench() {
    let input = "running 2 tests\ntest fib_10 ... bench:         325 ns/iter (+/- 8)\ntest fib_20 ... bench:      40,237 ns/iter (+/- 975)\n\ntest result: ok. 0 passed; 0 failed; 0 ignored; 2 measured\n";
    let results = AdapterMagic::parse(input).expect("libtest bench report");
    assert_eq!(results.benchmarks.len(), 2);
    let v = metric_of(&results, "fib_10", MetricKind::Latency);
    assert_eq!(v.value, 325_000);
    assert_eq!(v.lower_bound, Some(317_000));
    assert_eq!(v.upper_bound, Some(333_000));
    let w = metric_of(&results, "fib_20", MetricKind::Latency);
    assert_eq!(w.value, 40_237_000);
    assert_eq!(w.lower_bound, Some(39_262_000));
    assert_eq!(w.upper_bound, Some(41_212_000));
}

#[test]
fn test_adapter_magic_rust_criterion() {
    let input = "fib_10                  time:   [2.0743 us 2.1120 us 2.1536 us]\nfib_20                  time:   [22.407 us 22.551 us 22.721 us]\n";
    let results = AdapterMagic::parse(input).expect("criterion report");
    assert_eq!(results.benchmarks.len(), 2);
    let v = metric_of(&results, "fib_10", MetricKind::Latency);
    assert_eq!(v.value, 2_112_000);
    assert_eq!(v.lower_bound, Some(2_074_300));
    assert_eq!(v.upper_bound, Some(2_153_600));
}

#[test]
fn dispatcher_is_deterministic() {
    let input = "BenchmarkOne-4 100 5.0 ns/op\n";
    let a = AdapterMagic::parse(input).expect("go line");
    let b = AdapterMagic::parse(input).expect("go line");
    assert_eq!(a.benchmarks.len(), b.benchmarks.len());
    assert_eq!(
        a.get(b"BenchmarkOne-4").unwrap().get(MetricKind::Latency),
        b.get(b"BenchmarkOne-4").unwrap().get(MetricKind::Latency)
    );
    let direct = AdapterGo::parse(input).expect("go parser");
    assert_eq!(
        a.get(b"BenchmarkOne-4").unwrap().get(MetricKind::Latency),
        direct.get(b"BenchmarkOne-4").unwrap().get(MetricKind::Latency)
    );
}

#[test]
fn foreign_input_never_matches() {
    let foreign = [
        "",
        "completely unrelated prose about nothing in particular",
        "{\"weird\": [1, 2, 3]}",
        "\u{1f600} unicode soup \u{b1}\u{b1}\u{b1}",
        ": : : : :",
        "[1,2,3",
    ];
    for input in foreign {
        assert!(AdapterJson::parse(input).is_none(), "json accepted {input:?}");
        assert!(AdapterGo::parse(input).is_none(), "go accepted {input:?}");
        assert!(AdapterCSharp::parse(input).is_none(), "dotnet accepted {input:?}");
    }
    let swapped = "BenchmarkFib10-8 100 6.25 ns/op\n";
    assert!(AdapterJson::parse(swapped).is_none());
    assert!(AdapterCSharp::parse(swapped).is_none());
}

#[test]
fn committed_but_broken_is_malformed() {
    let input = "{\"bench\": {\"latency_ns\": \"oops\"}}";
    let outcome = AdapterJson::scan(input.as_bytes());
    assert!(matches!(outcome, ParseOutcome::Malformed(ReportFault::BadNumber)));
    assert!(AdapterJson::parse(input).is_none());
    assert!(AdapterMagic::parse(input).is_none());
    // The outcome-level dispatcher keeps the fault distinct from a
    // mere decline.
    assert!(matches!(
        AdapterMagic::resolve(input),
        ParseOutcome::Malformed(ReportFault::BadNumber)
    ));
    assert!(matches!(
        AdapterMagic::resolve("nothing any grammar accepts"),
        ParseOutcome::NoMatch
    ));
}

#[test]
fn unsupported_unit_is_surfaced() {
    // A JMH export whose only run reports its score in an unknown
    // unit: the grammar is committed, the document cannot be fully
    // normalized, and the fault says why.
    let input = "[\n  {\n    \"benchmark\": \"org.sample.Fib10\",\n    \"primaryMetric\": {\n      \"score\": 1234.5,\n      \"scoreUnit\": \"widgets\"\n    }\n  }\n]\n";
    assert!(matches!(
        AdapterJava::scan(input.as_bytes()),
        ParseOutcome::Malformed(ReportFault::UnsupportedUnit)
    ));
    assert!(matches!(
        AdapterMagic::resolve(input),
        ParseOutcome::Malformed(ReportFault::UnsupportedUnit)
    ));
    assert!(AdapterMagic::parse(input).is_none());
}

#[test]
fn committed_markers_never_decline() {
    // Reports carrying a grammar's commitment marker but nothing the
    // grammar can read end as malformed, never as a silent decline.
    let cases = [
        "\"Benchmarks\" and nothing else",
        "benchmark name, then noise",
        "mentions ns/op only",
        "a stray \"primaryMetric\" key",
        "ops/sec without a rate line",
        "a stray \"stats\" key",
        "user system real and no rows",
        "ns/iter but no bench line",
    ];
    for input in cases {
        assert!(
            !matches!(AdapterMagic::resolve(input), ParseOutcome::NoMatch),
            "declined: {input:?}"
        );
        assert!(AdapterMagic::parse(input).is_none(), "accepted: {input:?}");
    }
}

#[test]
fn duplicate_benchmark_keeps_last_value() {
    let input = "{\"bench_a\": {\"latency_ns\": 1.0}, \"bench_a\": {\"latency_ns\": 2.5}}";
    let results = AdapterMagic::parse(input).expect("json report");
    assert_eq!(results.benchmarks.len(), 1);
    assert_eq!(metric_of(&results, "bench_a", MetricKind::Latency).value, 2_500);
}

#[test]
fn serialized_results_parse_back() {
    let input = "{\"bench_a\": {\"latency_ns\": 42.0}, \"bench_b\": {\"throughput_ops\": 7.5}}";
    let results = AdapterJson::parse(input).expect("json report");
    let bytes = to_json_bytes(&results);
    let text = String::from_utf8(bytes).expect("ascii report");
    let again = AdapterJson::parse(&text).expect("round trip");
    assert_eq!(again.benchmarks.len(), 2);
    assert_eq!(metric_of(&again, "bench_a", MetricKind::Latency).value, 42_000);
    assert_eq!(metric_of(&again, "bench_b", MetricKind::Throughput).value, 7_500);
}

#[test]
fn earlier_grammar_wins_ties() {
    // This line satisfies both the Google Benchmark row shape (two
    // `ns` columns) and the Go shape (a `Benchmark` name ending in
    // `ns/op`); the dispatcher's fixed order hands it to the earlier
    // grammar, which reads the first time column.
    let input = "BenchmarkX 5 ns 5 ns 100 ns/op\n";
    let via_magic = AdapterMagic::parse(input).expect("both grammars accept");
    assert_eq!(metric_of(&via_magic, "BenchmarkX", MetricKind::Latency).value, 5_000);
    let via_go = AdapterGo::parse(input).expect("go accepts too");
    assert_eq!(metric_of(&via_go, "BenchmarkX", MetricKind::Latency).value, 100_000);
}

#[test]
fn format_swapped_fixtures_do_not_cross_match() {
    let go_report = "BenchmarkFib10-8 181664250 6.25 ns/op\n";
    let time_report = "fib_10: 1.113ms\n";
    let ruby_report =
        "            user     system      total        real\nfib_10   0.000000   0.000000   0.000000 (  0.000030)\n";
    let criterion_report = "fib_10                  time:   [2.0743 us 2.1120 us 2.1536 us]\n";

    assert!(AdapterJson::parse(go_report).is_none());
    assert!(AdapterCSharp::parse(go_report).is_none());
    assert!(AdapterCpp::parse(go_report).is_none());
    assert!(AdapterJava::parse(go_report).is_none());
    assert!(AdapterJs::parse(go_report).is_none());
    assert!(AdapterPython::parse(go_report).is_none());
    assert!(AdapterRuby::parse(go_report).is_none());
    assert!(AdapterRust::parse(go_report).is_none());

    assert!(AdapterGo::parse(time_report).is_none());
    assert!(AdapterCpp::parse(time_report).is_none());
    assert!(AdapterPython::parse(time_report).is_none());
    assert!(AdapterRuby::parse(time_report).is_none());
    assert!(AdapterRust::parse(time_report).is_none());

    assert!(AdapterJs::parse(ruby_report).is_none());
    assert!(AdapterGo::parse(ruby_report).is_none());
    assert!(AdapterCpp::parse(ruby_report).is_none());

    assert!(AdapterJs::parse(criterion_report).is_none());
    assert!(AdapterGo::parse(criterion_report).is_none());
    assert!(AdapterRuby::parse(criterion_report).is_none());
}

#[test]
fn simplest_report_parses_to_what_it_spells() {
    // The whitespace-free single-entry document: the family whose
    // result the dispatcher's contract pins exactly.
    let input = "{\"bench_a\":{\"latency_ns\":42.0}}";
    let results = AdapterMagic::parse(input).expect("simple report");
    assert_eq!(results.benchmarks.len(), 1);
    let v = metric_of(&results, "bench_a", MetricKind::Latency);
    assert_eq!(v.value, 42_000);
    assert_eq!(v.lower_bound, None);
    assert_eq!(v.upper_bound, None);
    let direct = AdapterJson::parse(input).expect("simple report");
    assert_eq!(
        direct.get(b"bench_a").unwrap().get(MetricKind::Latency),
        results.get(b"bench_a").unwrap().get(MetricKind::Latency)
    );
}

#[test]
fn unsupported_unit_is_local_to_the_value() {
    // One run reports an unknown unit, the other a known one: the
    // readable value is kept, the broken one is dropped, the document
    // still parses.
    let input = "[\n  {\n    \"benchmark\": \"org.sample.Odd\",\n    \"primaryMetric\": {\n      \"score\": 7.0,\n      \"scoreUnit\": \"widgets\"\n    }\n  },\n  {\n    \"benchmark\": \"org.sample.Fib10\",\n    \"primaryMetric\": {\n      \"score\": 1234.5,\n      \"scoreUnit\": \"ops/s\"\n    }\n  }\n]\n";
    let results = AdapterMagic::parse(input).expect("partially readable report");
    assert_eq!(results.benchmarks.len(), 1);
    assert_eq!(
        metric_of(&results, "org.sample.Fib10", MetricKind::Throughput).value,
        1_234_500
    );
}
