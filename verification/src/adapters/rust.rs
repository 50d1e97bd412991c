//! The Rust harness grammars: libtest bench and Criterion.
//!
//! A libtest line reads
//! `test fib_10 ... bench: 3,161 ns/iter (+/- 975)`: the name after
//! `test`, the time per iteration after `bench:`, and an optional
//! spread. A Criterion line reads
//! `fib_10  time: [2.0743 us 2.1120 us 2.1536 us]`: the low, middle
//! and high estimates, each with its unit; the middle one is the
//! measurement, the outer two its bounds.

use vstd::prelude::*;

use crate::adapters::{
    contains_sub, is_sub, parse_in_unit, split_lines, split_tokens, unit_of_suffix, outcome_wf,
    ParseOutcome, ReportFault,
};
use vstd::string::StringSliceAdditionalSpecFns;
use crate::model::{bytes_eq, AdapterResults, MetricValue};
use crate::units::{MetricKind, Unit};

verus! {

pub struct AdapterRust;

impl AdapterRust {
    /// Probes the libtest bench lines; the caller saw the `ns/iter`
    /// marker, so the grammar is committed: the probe never declines.
    fn scan_bench(input: &[u8]) -> (o: ParseOutcome)
        ensures
            outcome_wf(o),
            !(o is NoMatch),
    {
        let lines = split_lines(input);
        let mut results = AdapterResults::new();
        let mut li: usize = 0;
        while li < lines.len()
            invariant
                results.wf(),
            decreases lines@.len() - li,
        {
            let toks = split_tokens(lines[li].as_slice());
            let nt = toks.len();
            if nt >= 5 && bytes_eq(toks[0].as_slice(), "test".as_bytes()) {
                let mut ib: usize = 0;
                let mut found = false;
                let mut t: usize = 2;
                while t < nt
                    invariant
                        t <= nt,
                        nt == toks@.len(),
                        found ==> ib < nt,
                    decreases nt - t,
                {
                    if bytes_eq(toks[t].as_slice(), "bench:".as_bytes()) {
                        found = true;
                        ib = t;
                        break ;
                    }
                    t = t + 1;
                }
                if found && nt - ib > 2 && bytes_eq(toks[ib + 2].as_slice(), "ns/iter".as_bytes())
                {
                    if let Option::Some(v) = parse_in_unit(toks[ib + 1].as_slice(), Unit::Nanos) {
                        let mut rec = MetricValue::point(v);
                        if nt - ib > 4 && bytes_eq(toks[ib + 3].as_slice(), "(+/-".as_bytes()) {
                            let dt = &toks[ib + 4];
                            let dn = dt.len();
                            if dn >= 2 && dt[dn - 1] == 41 {
                                let dtok = vstd::slice::slice_subrange(dt.as_slice(), 0, dn - 1);
                                if let Option::Some(d) = parse_in_unit(dtok, Unit::Nanos) {
                                    let lower = if v >= d {
                                        v - d
                                    } else {
                                        0
                                    };
                                    if let Option::Some(upper) = v.checked_add(d) {
                                        rec = MetricValue::with_bounds(v, lower, upper);
                                    }
                                }
                            }
                        }
                        results.insert_metric(toks[1].as_slice(), MetricKind::Latency, rec);
                    }
                }
            }
            li = li + 1;
        }
        if results.len() == 0 {
            return ParseOutcome::Malformed(ReportFault::Structure);
        }
        ParseOutcome::Found(results)
    }

    /// Probes the Criterion timing lines.
    fn scan_criterion(input: &[u8]) -> (o: ParseOutcome)
        ensures
            outcome_wf(o),
    {
        let lines = split_lines(input);
        let mut results = AdapterResults::new();
        let mut li: usize = 0;
        while li < lines.len()
            invariant
                results.wf(),
            decreases lines@.len() - li,
        {
            let toks = split_tokens(lines[li].as_slice());
            let nt = toks.len();
            if nt == 8 && bytes_eq(toks[1].as_slice(), "time:".as_bytes()) {
                let lo_tok = &toks[2];
                let hi_tok = &toks[7];
                let lon = lo_tok.len();
                let hin = hi_tok.len();
                if lon >= 2 && lo_tok[0] == 91 && hin >= 2 && hi_tok[hin - 1] == 93 {
                    let lo_num = vstd::slice::slice_subrange(lo_tok.as_slice(), 1, lon);
                    let hi_unit = vstd::slice::slice_subrange(hi_tok.as_slice(), 0, hin - 1);
                    let u1 = unit_of_suffix(toks[3].as_slice());
                    let u2 = unit_of_suffix(toks[5].as_slice());
                    let u3 = unit_of_suffix(hi_unit);
                    if u1.is_some() && u2.is_some() && u3.is_some() {
                        let lo = parse_in_unit(lo_num, u1.unwrap());
                        let mid = parse_in_unit(toks[4].as_slice(), u2.unwrap());
                        let hi = parse_in_unit(toks[6].as_slice(), u3.unwrap());
                        if lo.is_some() && mid.is_some() && hi.is_some() {
                            let l = lo.unwrap();
                            let m = mid.unwrap();
                            let h = hi.unwrap();
                            let rec = if l <= m && m <= h {
                                MetricValue::with_bounds(m, l, h)
                            } else {
                                MetricValue::point(m)
                            };
                            results.insert_metric(toks[0].as_slice(), MetricKind::Latency, rec);
                        }
                    }
                }
            }
            li = li + 1;
        }
        if results.len() == 0 {
            return ParseOutcome::NoMatch;
        }
        ParseOutcome::Found(results)
    }

    /// Probes one report: libtest lines when the `ns/iter` marker
    /// occurs - committing to them - else Criterion lines.
    pub fn scan(input: &[u8]) -> (o: ParseOutcome)
        ensures
            outcome_wf(o),
            is_sub(input@, "ns/iter".spec_bytes()) ==> !(o is NoMatch),
    {
        if contains_sub(input, "ns/iter".as_bytes()) {
            Self::scan_bench(input)
        } else {
            Self::scan_criterion(input)
        }
    }

    /// Parses one report, or declines.
    pub fn parse(input: &str) -> (r: Option<AdapterResults>)
        ensures
            r is Some ==> r->0.wf() && r->0@.len() >= 1,
    {
        match Self::scan(input.as_bytes()) {
            ParseOutcome::Found(results) => Some(results),
            ParseOutcome::NoMatch => None,
            ParseOutcome::Malformed(_) => None,
        }
    }
}

} // verus!
