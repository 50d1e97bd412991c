//! The JMH (Java) report grammar.
//!
//! A JSON export: an array of runs, each naming its `"benchmark"` and
//! carrying a `"primaryMetric"` with a `"score"` and a `"scoreUnit"`
//! (`ops/s` for throughput, `ns/op` for latency). The scan commits on
//! the `"primaryMetric"` key.

use vstd::prelude::*;
use vstd::string::StringSliceAdditionalSpecFns;

use crate::adapters::{
    contains_sub, find_sub, is_sub, parse_in_unit, read_number_after, read_string_after,
    outcome_wf, ParseOutcome, ReportFault,
};
use crate::model::{bytes_eq, AdapterResults, MetricValue};
use crate::units::Unit;

verus! {

pub struct AdapterJava;

impl AdapterJava {
    /// Probes one report; commits on the `"primaryMetric"` key: input
    /// without that marker is never matched.
    pub fn scan(input: &[u8]) -> (o: ParseOutcome)
        ensures
            outcome_wf(o),
            !is_sub(input@, "\"primaryMetric\"".spec_bytes()) ==> o is NoMatch,
            is_sub(input@, "\"primaryMetric\"".spec_bytes()) ==> !(o is NoMatch),
    {
        if !contains_sub(input, "\"primaryMetric\"".as_bytes()) {
            return ParseOutcome::NoMatch;
        }
        let n = input.len();
        let mut results = AdapterResults::new();
        let mut saw_unknown_unit = false;
        let mut pos: usize = 0;
        while pos < n
            invariant
                pos <= n,
                n == input@.len(),
                results.wf(),
            decreases n - pos,
        {
            let pb = match find_sub(input, "\"benchmark\"".as_bytes(), pos) {
                Option::Some(p) => p,
                Option::None => {
                    break ;
                },
            };
            let (name, p2) = match read_string_after(input, pb) {
                Option::Some(r) => r,
                Option::None => {
                    break ;
                },
            };
            let ps = match find_sub(input, "\"score\"".as_bytes(), p2) {
                Option::Some(p) => p,
                Option::None => {
                    break ;
                },
            };
            let (tok, p3) = match read_number_after(input, ps) {
                Option::Some(r) => r,
                Option::None => {
                    break ;
                },
            };
            let pu = match find_sub(input, "\"scoreUnit\"".as_bytes(), p3) {
                Option::Some(p) => p,
                Option::None => {
                    break ;
                },
            };
            let (unit_name, p4) = match read_string_after(input, pu) {
                Option::Some(r) => r,
                Option::None => {
                    break ;
                },
            };
            let unit = if bytes_eq(unit_name.as_slice(), "ops/s".as_bytes()) {
                Option::Some(Unit::OpsPerSec)
            } else if bytes_eq(unit_name.as_slice(), "ns/op".as_bytes()) {
                Option::Some(Unit::Nanos)
            } else {
                saw_unknown_unit = true;
                Option::None
            };
            if let Option::Some(u) = unit {
                if let Option::Some(v) = parse_in_unit(tok.as_slice(), u) {
                    results.insert_metric(name.as_slice(), u.kind(), MetricValue::point(v));
                }
            }
            pos = p4;
        }
        if results.len() == 0 {
            if saw_unknown_unit {
                return ParseOutcome::Malformed(ReportFault::UnsupportedUnit);
            }
            return ParseOutcome::Malformed(ReportFault::Structure);
        }
        ParseOutcome::Found(results)
    }

    /// Parses one report, or declines.
    pub fn parse(input: &str) -> (r: Option<AdapterResults>)
        ensures
            r is Some ==> r->0.wf() && r->0@.len() >= 1,
    {
        match Self::scan(input.as_bytes()) {
            ParseOutcome::Found(results) => Some(results),
            ParseOutcome::NoMatch => None,
            ParseOutcome::Malformed(_) => None,
        }
    }
}

} // verus!
