//! The JavaScript harness grammars: benchmark.js and console timings.
//!
//! A benchmark.js line reads
//! `fib(10) x 1,431,759 ops/sec \u{b1}0.74% (93 runs sampled)`:
//! the name, an `x`, the operation rate and its unit. A console timing
//! line reads `label: 1.113ms`: a label with a trailing colon and one
//! duration. The rate grammar is probed first, the timing grammar only
//! when no rate line matched.

use vstd::prelude::*;

use crate::adapters::{
    contains_sub, is_sub, join_tokens, parse_in_unit, split_lines, split_tokens, split_value_unit,
    unit_of_suffix, outcome_wf, ParseOutcome, ReportFault,
};
use vstd::string::StringSliceAdditionalSpecFns;
use crate::model::{bytes_eq, AdapterResults, MetricValue};
use crate::units::Unit;

verus! {

pub struct AdapterJs;

impl AdapterJs {
    /// Probes the benchmark.js rate lines; the caller saw the
    /// `ops/sec` marker, so the grammar is committed: the probe never
    /// declines.
    fn scan_benchmark(input: &[u8]) -> (o: ParseOutcome)
        ensures
            outcome_wf(o),
            !(o is NoMatch),
    {
        let lines = split_lines(input);
        let mut results = AdapterResults::new();
        let mut li: usize = 0;
        while li < lines.len()
            invariant
                results.wf(),
            decreases lines@.len() - li,
        {
            let toks = split_tokens(lines[li].as_slice());
            let nt = toks.len();
            let mut ix: usize = 0;
            let mut found_x = false;
            let mut xi: usize = 0;
            while ix < nt
                invariant
                    ix <= nt,
                    nt == toks@.len(),
                    xi < nt || !found_x,
                decreases nt - ix,
            {
                if bytes_eq(toks[ix].as_slice(), "x".as_bytes()) {
                    found_x = true;
                    xi = ix;
                    break ;
                }
                ix = ix + 1;
            }
            if found_x && xi >= 1 && nt - xi > 2 {
                if bytes_eq(toks[xi + 2].as_slice(), "ops/sec".as_bytes()) {
                    if let Option::Some(v) = parse_in_unit(
                        toks[xi + 1].as_slice(),
                        Unit::OpsPerSec,
                    ) {
                        let name = join_tokens(&toks, 0, xi);
                        if name.len() > 0 {
                            results.insert_metric(
                                name.as_slice(),
                                Unit::OpsPerSec.kind(),
                                MetricValue::point(v),
                            );
                        }
                    }
                }
            }
            li = li + 1;
        }
        if results.len() == 0 {
            return ParseOutcome::Malformed(ReportFault::Structure);
        }
        ParseOutcome::Found(results)
    }

    /// Probes the console timing lines.
    fn scan_time(input: &[u8]) -> (o: ParseOutcome)
        ensures
            outcome_wf(o),
    {
        let lines = split_lines(input);
        let mut results = AdapterResults::new();
        let mut li: usize = 0;
        while li < lines.len()
            invariant
                results.wf(),
            decreases lines@.len() - li,
        {
            let toks = split_tokens(lines[li].as_slice());
            if toks.len() == 2 {
                let label = &toks[0];
                let ln = label.len();
                if ln >= 2 && label[ln - 1] == 58 {
                    if let Option::Some((num, suffix)) = split_value_unit(toks[1].as_slice()) {
                        if let Option::Some(u) = unit_of_suffix(suffix.as_slice()) {
                            if matches!(u, Unit::Nanos | Unit::Micros | Unit::Millis | Unit::Seconds) {
                                if let Option::Some(v) = parse_in_unit(num.as_slice(), u) {
                                    let name = vstd::slice::slice_to_vec(
                                        vstd::slice::slice_subrange(label.as_slice(), 0, ln - 1),
                                    );
                                    results.insert_metric(
                                        name.as_slice(),
                                        u.kind(),
                                        MetricValue::point(v),
                                    );
                                }
                            }
                        }
                    }
                }
            }
            li = li + 1;
        }
        if results.len() == 0 {
            return ParseOutcome::NoMatch;
        }
        ParseOutcome::Found(results)
    }

    /// Probes one report: the rate grammar when its `ops/sec` marker
    /// is present - committing to it - else the console timings.
    pub fn scan(input: &[u8]) -> (o: ParseOutcome)
        ensures
            outcome_wf(o),
            is_sub(input@, "ops/sec".spec_bytes()) ==> !(o is NoMatch),
    {
        if contains_sub(input, "ops/sec".as_bytes()) {
            Self::scan_benchmark(input)
        } else {
            Self::scan_time(input)
        }
    }

    /// Parses one report, or declines.
    pub fn parse(input: &str) -> (r: Option<AdapterResults>)
        ensures
            r is Some ==> r->0.wf() && r->0@.len() >= 1,
    {
        match Self::scan(input.as_bytes()) {
            ParseOutcome::Found(results) => Some(results),
            ParseOutcome::NoMatch => None,
            ParseOutcome::Malformed(_) => None,
        }
    }
}

} // verus!
