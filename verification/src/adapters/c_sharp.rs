//! The BenchmarkDotNet (C#) report grammar.
//!
//! A JSON export holding a `"Benchmarks"` array; each entry names its
//! `"Method"` and carries a `"Mean"` time in nanoseconds under its
//! statistics. The scan commits once the `"Benchmarks"` key is seen:
//! a committed report with no complete entry is malformed.

use vstd::prelude::*;
use vstd::string::StringSliceAdditionalSpecFns;

use crate::adapters::{
    contains_sub, find_sub, is_sub, parse_in_unit, read_number_after, read_string_after,
    outcome_wf, ParseOutcome, ReportFault,
};
use crate::model::{AdapterResults, MetricValue};
use crate::units::Unit;

verus! {

pub struct AdapterCSharp;

impl AdapterCSharp {
    /// Probes one report; commits on the `"Benchmarks"` key: input
    /// without that marker is never matched.
    pub fn scan(input: &[u8]) -> (o: ParseOutcome)
        ensures
            outcome_wf(o),
            !is_sub(input@, "\"Benchmarks\"".spec_bytes()) ==> o is NoMatch,
            is_sub(input@, "\"Benchmarks\"".spec_bytes()) ==> !(o is NoMatch),
    {
        if !contains_sub(input, "\"Benchmarks\"".as_bytes()) {
            return ParseOutcome::NoMatch;
        }
        let n = input.len();
        let mut results = AdapterResults::new();
        let mut pos: usize = 0;
        while pos < n
            invariant
                pos <= n,
                n == input@.len(),
                results.wf(),
            decreases n - pos,
        {
            let pm = match find_sub(input, "\"Method\"".as_bytes(), pos) {
                Option::Some(pm) => pm,
                Option::None => {
                    break ;
                },
            };
            let (name, p2) = match read_string_after(input, pm) {
                Option::Some(r) => r,
                Option::None => {
                    break ;
                },
            };
            let pmean = match find_sub(input, "\"Mean\"".as_bytes(), p2) {
                Option::Some(p) => p,
                Option::None => {
                    break ;
                },
            };
            let (tok, p3) = match read_number_after(input, pmean) {
                Option::Some(r) => r,
                Option::None => {
                    break ;
                },
            };
            if let Option::Some(v) = parse_in_unit(tok.as_slice(), Unit::Nanos) {
                results.insert_metric(name.as_slice(), Unit::Nanos.kind(), MetricValue::point(v));
            }
            pos = p3;
        }
        if results.len() == 0 {
            return ParseOutcome::Malformed(ReportFault::Structure);
        }
        ParseOutcome::Found(results)
    }

    /// Parses one report, or declines.
    pub fn parse(input: &str) -> (r: Option<AdapterResults>)
        ensures
            r is Some ==> r->0.wf() && r->0@.len() >= 1,
    {
        match Self::scan(input.as_bytes()) {
            ParseOutcome::Found(results) => Some(results),
            ParseOutcome::NoMatch => None,
            ParseOutcome::Malformed(_) => None,
        }
    }
}

} // verus!
