//! The Go testing-package benchmark grammar.
//!
//! Entry lines look like
//! `BenchmarkFib10-8   181664250   6.25 ns/op`:
//! a name starting with `Benchmark`, an iteration count, and the time
//! per operation with its unit. One latency metric per entry.

use vstd::prelude::*;

use crate::adapters::{
    contains_sub, is_sub, parse_in_unit, split_lines, split_tokens, outcome_wf, ParseOutcome,
    ReportFault,
};
use vstd::string::StringSliceAdditionalSpecFns;
use crate::model::{AdapterResults, MetricValue};
use crate::units::Unit;

verus! {

pub struct AdapterGo;

impl AdapterGo {
    /// Probes one report; the `ns/op` column is the grammar's marker:
    /// input without it is never matched, input with it is committed.
    pub fn scan(input: &[u8]) -> (o: ParseOutcome)
        ensures
            outcome_wf(o),
            !is_sub(input@, "ns/op".spec_bytes()) ==> o is NoMatch,
            is_sub(input@, "ns/op".spec_bytes()) ==> !(o is NoMatch),
    {
        if !contains_sub(input, "ns/op".as_bytes()) {
            return ParseOutcome::NoMatch;
        }
        let lines = split_lines(input);
        let mut results = AdapterResults::new();
        let mut li: usize = 0;
        while li < lines.len()
            invariant
                results.wf(),
            decreases lines@.len() - li,
        {
            let toks = split_tokens(lines[li].as_slice());
            if toks.len() >= 4 {
                let name = &toks[0];
                let is_bench = name.len() >= 9 && {
                    let head = vstd::slice::slice_subrange(name.as_slice(), 0, 9);
                    crate::model::bytes_eq(head, "Benchmark".as_bytes())
                };
                let last = &toks[toks.len() - 1];
                let is_nsop = crate::model::bytes_eq(last.as_slice(), "ns/op".as_bytes());
                if is_bench && is_nsop {
                    if let Option::Some(canon) = parse_in_unit(
                        toks[toks.len() - 2].as_slice(),
                        Unit::Nanos,
                    ) {
                        results.insert_metric(
                            name.as_slice(),
                            Unit::Nanos.kind(),
                            MetricValue::point(canon),
                        );
                    }
                }
            }
            li = li + 1;
        }
        if results.len() == 0 {
            ParseOutcome::Malformed(ReportFault::Structure)
        } else {
            ParseOutcome::Found(results)
        }
    }

    /// Parses one report, or declines.
    pub fn parse(input: &str) -> (r: Option<AdapterResults>)
        ensures
            r is Some ==> r->0.wf() && r->0@.len() >= 1,
    {
        match Self::scan(input.as_bytes()) {
            ParseOutcome::Found(results) => Some(results),
            ParseOutcome::NoMatch => None,
            ParseOutcome::Malformed(_) => None,
        }
    }
}

} // verus!
