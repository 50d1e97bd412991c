//! The C++ micro-benchmark grammars: Catch2 and Google Benchmark.
//!
//! Catch2 console output is recognized by its `benchmark name` header;
//! an entry line carries the name followed by the mean, low-mean and
//! high-mean estimates, each as a number with its time unit. Google
//! Benchmark console rows carry the name, the wall time and the CPU
//! time (both with an `ns` unit column) and the iteration count.

use vstd::prelude::*;

use crate::adapters::{
    contains_sub, is_sub, join_tokens, parse_in_unit, split_lines, split_tokens, unit_of_suffix,
    outcome_wf, ParseOutcome, ReportFault,
};
use vstd::string::StringSliceAdditionalSpecFns;
use crate::model::{bytes_eq, AdapterResults, MetricValue};
use crate::units::MetricKind;

verus! {

pub struct AdapterCpp;

impl AdapterCpp {
    /// Probes the Catch2 console format: entry lines end in three
    /// `value unit` pairs (mean, low mean, high mean). The caller saw
    /// the Catch2 header, so the grammar is committed: the probe
    /// never declines.
    fn scan_catch2(input: &[u8]) -> (o: ParseOutcome)
        ensures
            outcome_wf(o),
            !(o is NoMatch),
    {
        let lines = split_lines(input);
        let mut results = AdapterResults::new();
        let mut li: usize = 0;
        while li < lines.len()
            invariant
                results.wf(),
            decreases lines@.len() - li,
        {
            let toks = split_tokens(lines[li].as_slice());
            if toks.len() >= 7 {
                let nt = toks.len();
                let u1 = unit_of_suffix(toks[nt - 5].as_slice());
                let u2 = unit_of_suffix(toks[nt - 3].as_slice());
                let u3 = unit_of_suffix(toks[nt - 1].as_slice());
                if u1.is_some() && u2.is_some() && u3.is_some() {
                    let mean = parse_in_unit(toks[nt - 6].as_slice(), u1.unwrap());
                    let low = parse_in_unit(toks[nt - 4].as_slice(), u2.unwrap());
                    let high = parse_in_unit(toks[nt - 2].as_slice(), u3.unwrap());
                    if mean.is_some() && low.is_some() && high.is_some() {
                        let m = mean.unwrap();
                        let l = low.unwrap();
                        let h = high.unwrap();
                        let name = join_tokens(&toks, 0, nt - 6);
                        if name.len() > 0 {
                            let value = if l <= m && m <= h {
                                MetricValue::with_bounds(m, l, h)
                            } else {
                                MetricValue::point(m)
                            };
                            results.insert_metric(name.as_slice(), MetricKind::Latency, value);
                        }
                    }
                }
            }
            li = li + 1;
        }
        if results.len() == 0 {
            return ParseOutcome::Malformed(ReportFault::Structure);
        }
        ParseOutcome::Found(results)
    }

    /// Probes the Google Benchmark console format: rows with two `ns`
    /// columns and an iteration count.
    fn scan_google(input: &[u8]) -> (o: ParseOutcome)
        ensures
            outcome_wf(o),
    {
        let lines = split_lines(input);
        let mut results = AdapterResults::new();
        let mut li: usize = 0;
        while li < lines.len()
            invariant
                results.wf(),
            decreases lines@.len() - li,
        {
            let toks = split_tokens(lines[li].as_slice());
            if toks.len() >= 6 {
                let is_row = bytes_eq(toks[2].as_slice(), "ns".as_bytes()) && bytes_eq(
                    toks[4].as_slice(),
                    "ns".as_bytes(),
                );
                if is_row {
                    if let Option::Some(v) = parse_in_unit(
                        toks[1].as_slice(),
                        crate::units::Unit::Nanos,
                    ) {
                        results.insert_metric(
                            toks[0].as_slice(),
                            MetricKind::Latency,
                            MetricValue::point(v),
                        );
                    }
                }
            }
            li = li + 1;
        }
        if results.len() == 0 {
            return ParseOutcome::NoMatch;
        }
        ParseOutcome::Found(results)
    }

    /// Probes one report: Catch2 when its header is present -
    /// committing to it - else Google Benchmark.
    pub fn scan(input: &[u8]) -> (o: ParseOutcome)
        ensures
            outcome_wf(o),
            is_sub(input@, "benchmark name".spec_bytes()) ==> !(o is NoMatch),
    {
        if contains_sub(input, "benchmark name".as_bytes()) {
            Self::scan_catch2(input)
        } else {
            Self::scan_google(input)
        }
    }

    /// Parses one report, or declines.
    pub fn parse(input: &str) -> (r: Option<AdapterResults>)
        ensures
            r is Some ==> r->0.wf() && r->0@.len() >= 1,
    {
        match Self::scan(input.as_bytes()) {
            ParseOutcome::Found(results) => Some(results),
            ParseOutcome::NoMatch => None,
            ParseOutcome::Malformed(_) => None,
        }
    }
}

} // verus!
