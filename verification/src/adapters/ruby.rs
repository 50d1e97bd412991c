//! The Ruby Benchmark grammar.
//!
//! The console report opens with a header naming the `user`, `system`,
//! `total` and `real` columns; each row carries the label, three CPU
//! times and, in parentheses, the real elapsed seconds, which is the
//! measurement kept.

use vstd::prelude::*;
use vstd::string::StringSliceAdditionalSpecFns;

use crate::adapters::{
    contains_sub, is_sub, join_tokens, parse_in_unit, split_lines, split_tokens, outcome_wf,
    ParseOutcome, ReportFault,
};
use crate::model::{AdapterResults, MetricValue};
use crate::units::Unit;

verus! {

pub struct AdapterRuby;

impl AdapterRuby {
    /// Probes one report; requires the column header, then reads the
    /// parenthesized real time of each row. Input without the header's
    /// column names is never matched; input with all of them is
    /// committed.
    pub fn scan(input: &[u8]) -> (o: ParseOutcome)
        ensures
            outcome_wf(o),
            !is_sub(input@, "real".spec_bytes()) ==> o is NoMatch,
            is_sub(input@, "user".spec_bytes()) && is_sub(input@, "system".spec_bytes()) && is_sub(
                input@,
                "real".spec_bytes(),
            ) ==> !(o is NoMatch),
    {
        if !(contains_sub(input, "user".as_bytes()) && contains_sub(input, "system".as_bytes())
            && contains_sub(input, "real".as_bytes())) {
            return ParseOutcome::NoMatch;
        }
        let lines = split_lines(input);
        let mut results = AdapterResults::new();
        let mut li: usize = 0;
        while li < lines.len()
            invariant
                results.wf(),
            decreases lines@.len() - li,
        {
            let line = &lines[li];
            let n = line.len();
            let mut open_at: usize = 0;
            let mut has_open = false;
            let mut k: usize = 0;
            while k < n
                invariant
                    k <= n,
                    n == line@.len(),
                    has_open ==> open_at < n,
                decreases n - k,
            {
                if line[k] == 40 {
                    has_open = true;
                    open_at = k;
                    break ;
                }
                k = k + 1;
            }
            if has_open {
                let mut close_at: usize = 0;
                let mut has_close = false;
                let mut k2: usize = open_at + 1;
                while k2 < n
                    invariant
                        open_at < k2 <= n,
                        n == line@.len(),
                        has_close ==> open_at < close_at < n,
                    decreases n - k2,
                {
                    if line[k2] == 41 {
                        has_close = true;
                        close_at = k2;
                        break ;
                    }
                    k2 = k2 + 1;
                }
                if has_close {
                    let inner = vstd::slice::slice_subrange(
                        line.as_slice(),
                        open_at + 1,
                        close_at,
                    );
                    let inner_toks = split_tokens(inner);
                    if inner_toks.len() == 1 {
                        if let Option::Some(v) = parse_in_unit(
                            inner_toks[0].as_slice(),
                            Unit::Seconds,
                        ) {
                            let head = vstd::slice::slice_subrange(line.as_slice(), 0, open_at);
                            let head_toks = split_tokens(head);
                            let hn = head_toks.len();
                            let mut name_end: usize = 0;
                            let mut t: usize = 0;
                            while t < hn
                                invariant
                                    t <= hn,
                                    name_end <= hn,
                                    hn == head_toks@.len(),
                                decreases hn - t,
                            {
                                if head_toks[t].len() == 0 {
                                    break ;
                                }
                                let b0 = head_toks[t][0];
                                if b0 >= 48 && b0 <= 57 {
                                    break ;
                                }
                                name_end = t + 1;
                                t = t + 1;
                            }
                            if name_end >= 1 {
                                let name = join_tokens(&head_toks, 0, name_end);
                                results.insert_metric(
                                    name.as_slice(),
                                    Unit::Seconds.kind(),
                                    MetricValue::point(v),
                                );
                            }
                        }
                    }
                }
            }
            li = li + 1;
        }
        if results.len() == 0 {
            return ParseOutcome::Malformed(ReportFault::Structure);
        }
        ParseOutcome::Found(results)
    }

    /// Parses one report, or declines.
    pub fn parse(input: &str) -> (r: Option<AdapterResults>)
        ensures
            r is Some ==> r->0.wf() && r->0@.len() >= 1,
    {
        match Self::scan(input.as_bytes()) {
            ParseOutcome::Found(results) => Some(results),
            ParseOutcome::NoMatch => None,
            ParseOutcome::Malformed(_) => None,
        }
    }
}

} // verus!
