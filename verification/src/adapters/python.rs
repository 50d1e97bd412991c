//! The Python harness grammars: pytest-benchmark and asv.
//!
//! A pytest-benchmark JSON export carries a `"benchmarks"` array whose
//! entries name themselves and report `"stats"` with a `"mean"` in
//! seconds. An asv console line carries the benchmark name and an
//! estimate such as `346\u{b1}4ns`: the value, a plus-minus spread and
//! the unit.

use vstd::prelude::*;
use vstd::string::StringSliceAdditionalSpecFns;

use crate::adapters::{
    contains_sub, find_sub, is_sub, parse_in_unit, read_number_after, read_string_after,
    split_lines, split_tokens, split_value_unit, unit_of_suffix, outcome_wf, ParseOutcome,
    ReportFault,
};
use crate::model::{AdapterResults, MetricValue};
use crate::units::Unit;

verus! {

pub struct AdapterPython;

impl AdapterPython {
    /// Probes the pytest-benchmark JSON export; the caller saw the
    /// `"stats"` key, so the grammar is committed: the probe never
    /// declines.
    fn scan_pytest(input: &[u8]) -> (o: ParseOutcome)
        ensures
            outcome_wf(o),
            !(o is NoMatch),
    {
        let n = input.len();
        let mut results = AdapterResults::new();
        let mut pos: usize = 0;
        while pos < n
            invariant
                pos <= n,
                n == input@.len(),
                results.wf(),
            decreases n - pos,
        {
            let pn = match find_sub(input, "\"name\"".as_bytes(), pos) {
                Option::Some(p) => p,
                Option::None => {
                    break ;
                },
            };
            let (name, p2) = match read_string_after(input, pn) {
                Option::Some(r) => r,
                Option::None => {
                    break ;
                },
            };
            let pm = match find_sub(input, "\"mean\"".as_bytes(), p2) {
                Option::Some(p) => p,
                Option::None => {
                    break ;
                },
            };
            let (tok, p3) = match read_number_after(input, pm) {
                Option::Some(r) => r,
                Option::None => {
                    break ;
                },
            };
            if let Option::Some(v) = parse_in_unit(tok.as_slice(), Unit::Seconds) {
                results.insert_metric(name.as_slice(), Unit::Seconds.kind(), MetricValue::point(v));
            }
            pos = p3;
        }
        if results.len() == 0 {
            return ParseOutcome::Malformed(ReportFault::Structure);
        }
        ParseOutcome::Found(results)
    }

    /// Probes the asv console lines: a name and a `value\u{b1}spread`
    /// estimate with its unit.
    fn scan_asv(input: &[u8]) -> (o: ParseOutcome)
        ensures
            outcome_wf(o),
    {
        let lines = split_lines(input);
        let mut results = AdapterResults::new();
        let mut li: usize = 0;
        while li < lines.len()
            invariant
                results.wf(),
            decreases lines@.len() - li,
        {
            let toks = split_tokens(lines[li].as_slice());
            if toks.len() == 2 {
                let est = &toks[1];
                let en = est.len();
                let mut cut: usize = 0;
                let mut found = false;
                if en >= 2 {
                    while cut + 1 < en
                        invariant
                            en == est@.len(),
                            cut + 1 <= en,
                        decreases en - cut,
                    {
                        if est[cut] == 194 && est[cut + 1] == 177 {
                            found = true;
                            break ;
                        }
                        cut = cut + 1;
                    }
                }
                if found && cut >= 1 && en - cut > 2 {
                    let value_tok = vstd::slice::slice_subrange(est.as_slice(), 0, cut);
                    let rest = vstd::slice::slice_subrange(est.as_slice(), cut + 2, en);
                    if let Option::Some((spread_tok, suffix)) = split_value_unit(rest) {
                        if let Option::Some(u) = unit_of_suffix(suffix.as_slice()) {
                            let value = parse_in_unit(value_tok, u);
                            let spread = parse_in_unit(spread_tok.as_slice(), u);
                            if value.is_some() && spread.is_some() {
                                let v = value.unwrap();
                                let d = spread.unwrap();
                                let lower = if v >= d {
                                    v - d
                                } else {
                                    0
                                };
                                let value_rec = match v.checked_add(d) {
                                    Option::Some(upper) => MetricValue::with_bounds(
                                        v,
                                        lower,
                                        upper,
                                    ),
                                    Option::None => MetricValue::point(v),
                                };
                                results.insert_metric(toks[0].as_slice(), u.kind(), value_rec);
                            }
                        }
                    }
                }
            }
            li = li + 1;
        }
        if results.len() == 0 {
            return ParseOutcome::NoMatch;
        }
        ParseOutcome::Found(results)
    }

    /// Probes one report: the pytest-benchmark export when its marker
    /// is present - committing to it - else the asv console format.
    pub fn scan(input: &[u8]) -> (o: ParseOutcome)
        ensures
            outcome_wf(o),
            is_sub(input@, "\"stats\"".spec_bytes()) ==> !(o is NoMatch),
    {
        if contains_sub(input, "\"stats\"".as_bytes()) {
            Self::scan_pytest(input)
        } else {
            Self::scan_asv(input)
        }
    }

    /// Parses one report, or declines.
    pub fn parse(input: &str) -> (r: Option<AdapterResults>)
        ensures
            r is Some ==> r->0.wf() && r->0@.len() >= 1,
    {
        match Self::scan(input.as_bytes()) {
            ParseOutcome::Found(results) => Some(results),
            ParseOutcome::NoMatch => None,
            ParseOutcome::Malformed(_) => None,
        }
    }
}

} // verus!
