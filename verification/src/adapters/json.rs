//! The generic JSON report grammar.
//!
//! A report is one object of benchmarks; each benchmark maps metric
//! keys such as `latency_ns` or `throughput_ops` to a bare number:
//! `{"bench_a": {"latency_ns": 42.0}}`. Any structural surprise or
//! unrecognized metric key makes the parser decline; a recognized
//! metric key whose number is broken makes the report malformed - the
//! grammar was committed to by then. Mentioning the same benchmark
//! twice keeps the later values.

use vstd::prelude::*;

use vstd::string::StringSliceAdditionalSpecFns;

use crate::adapters::{kind_unit_of_key, parse_in_unit, outcome_wf, ParseOutcome, ReportFault};
use crate::model::{AdapterResults, MetricValue};
use crate::units::MetricKind;

verus! {

/// Skips JSON whitespace.
fn skip_ws(s: &[u8], pos: usize) -> (j: usize)
    requires
        pos <= s@.len(),
    ensures
        pos <= j <= s@.len(),
{
    let n = s.len();
    let mut i: usize = pos;
    while i < n
        invariant
            pos <= i <= n,
            n == s@.len(),
        decreases n - i,
    {
        let b = s[i];
        if b != 32 && b != 9 && b != 10 && b != 13 {
            break ;
        }
        i = i + 1;
    }
    i
}

/// Reads a quoted string standing exactly at `pos`; escapes are not
/// part of the schema. When a clean closing quote stands at `j`, the
/// read is pinned exactly: the content is the interior and the cursor
/// lands just past the quote.
fn read_quoted(s: &[u8], pos: usize) -> (r: Option<(Vec<u8>, usize)>)
    ensures
        r matches Some(p) ==> pos < p.1 <= s@.len(),
        forall|j: int|
            pos < j < s@.len() && s@[pos as int] == 34 && (#[trigger] s@[j]) == 34 && (forall|
                k: int,
            |
                pos < k < j ==> s@[k] != 34 && s@[k] != 92) ==> (r matches Some(p) && p.0@ == s@.subrange(pos as int + 1, j) && p.1 == j + 1),
{
    let n = s.len();
    if pos >= n || s[pos] != 34 {
        return None;
    }
    let mut i: usize = pos + 1;
    let mut content: Vec<u8> = Vec::new();
    while i < n
        invariant
            pos < i <= n,
            n == s@.len(),
            s@[pos as int] == 34,
            content@ == s@.subrange(pos as int + 1, i as int),
            forall|k: int| pos < k < i ==> s@[k] != 34 && s@[k] != 92,
        decreases n - i,
    {
        let b = s[i];
        if b == 34 {
            return Some((content, i + 1));
        }
        if b == 92 {
            return None;
        }
        proof {
            assert(s@.subrange(pos as int + 1, i as int + 1) =~= s@.subrange(
                pos as int + 1,
                i as int,
            ).push(s@[i as int]));
        }
        content.push(b);
        i = i + 1;
    }
    None
}

/// Whether a byte can stand in a bare number.
pub open spec fn is_num_byte(b: u8) -> bool {
    (48 <= b <= 57) || b == 46
}

/// Reads a bare number token standing exactly at `pos`. A maximal
/// non-empty run of number bytes ending at `e` pins the read exactly.
fn read_raw_number(s: &[u8], pos: usize) -> (r: Option<(Vec<u8>, usize)>)
    ensures
        r matches Some(p) ==> pos < p.1 <= s@.len(),
        forall|e: int|
            pos < e <= s@.len() && (forall|k: int| pos <= k < e ==> is_num_byte(#[trigger] s@[k]))
                && (e == s@.len() || !is_num_byte(s@[e])) ==> (r matches Some(p) && p.0@ == s@.subrange(pos as int, e) && p.1 == e),
{
    let n = s.len();
    let mut i: usize = pos;
    let mut tok: Vec<u8> = Vec::new();
    if pos >= n {
        return None;
    }
    while i < n
        invariant
            pos <= i <= n,
            pos < n,
            n == s@.len(),
            tok@ == s@.subrange(pos as int, i as int),
            forall|k: int| pos <= k < i ==> is_num_byte(#[trigger] s@[k]),
        decreases n - i,
    {
        let b = s[i];
        if (b >= 48 && b <= 57) || b == 46 {
            proof {
                assert(s@.subrange(pos as int, i as int + 1) =~= s@.subrange(
                    pos as int,
                    i as int,
                ).push(s@[i as int]));
            }
            tok.push(b);
            i = i + 1;
        } else {
            if i == pos {
                return None;
            }
            return Some((tok, i));
        }
    }
    if i == pos {
        return None;
    }
    Some((tok, i))
}


/// The schema's simplest instance, spelled out byte for byte: one
/// benchmark, one metric, no whitespace.
pub open spec fn simple_report_bytes(nm: Seq<u8>, kb: Seq<u8>, vb: Seq<u8>) -> Seq<u8> {
    seq![123u8, 34u8] + nm + seq![34u8, 58u8, 123u8, 34u8] + kb + seq![34u8, 58u8] + vb + seq![
        125u8,
        125u8,
    ]
}

/// When such a report is fully readable: clean name and key, a
/// recognized metric key, a number that fits.
pub open spec fn simple_report_ok(nm: Seq<u8>, kb: Seq<u8>, vb: Seq<u8>) -> bool {
    &&& forall|k: int| 0 <= k < nm.len() ==> nm[k] != 34 && nm[k] != 92
    &&& forall|k: int| 0 <= k < kb.len() ==> kb[k] != 34 && kb[k] != 92
    &&& vb.len() >= 1
    &&& forall|k: int| 0 <= k < vb.len() ==> is_num_byte(#[trigger] vb[k])
    &&& crate::adapters::spec_kind_unit_of_key(kb) is Some
    &&& crate::adapters::parse_scaled_spec(
        vb,
        (crate::adapters::spec_kind_unit_of_key(kb)->0).1.spec_scale_exp() + 3,
    ) is Some
}

/// The document such a report parses to.
pub open spec fn simple_report_doc(nm: Seq<u8>, kb: Seq<u8>, vb: Seq<u8>) -> Seq<
    (Seq<u8>, Seq<(MetricKind, crate::model::MetricValue)>),
> {
    let ku = crate::adapters::spec_kind_unit_of_key(kb)->0;
    let v = crate::adapters::parse_scaled_spec(vb, ku.1.spec_scale_exp() + 3)->0;
    seq![
        (
            nm,
            seq![
                (ku.0, crate::model::MetricValue { value: v, lower_bound: None, upper_bound: None }),
            ],
        ),
    ]
}

/// Where every piece of the simple report stands.
proof fn lemma_simple_layout(nm: Seq<u8>, kb: Seq<u8>, vb: Seq<u8>)
    ensures
        ({
            let t = simple_report_bytes(nm, kb, vb);
            let nn = nm.len() as int;
            let kk = kb.len() as int;
            let vv = vb.len() as int;
            &&& t.len() == nn + kk + vv + 10
            &&& t[0] == 123u8
            &&& t[1] == 34u8
            &&& t.subrange(2, 2 + nn) == nm
            &&& t[2 + nn] == 34u8
            &&& t[3 + nn] == 58u8
            &&& t[4 + nn] == 123u8
            &&& t[5 + nn] == 34u8
            &&& t.subrange(6 + nn, 6 + nn + kk) == kb
            &&& t[6 + nn + kk] == 34u8
            &&& t[7 + nn + kk] == 58u8
            &&& t.subrange(8 + nn + kk, 8 + nn + kk + vv) == vb
            &&& t[8 + nn + kk + vv] == 125u8
            &&& t[9 + nn + kk + vv] == 125u8
        }),
{
    let t = simple_report_bytes(nm, kb, vb);
    let nn = nm.len() as int;
    let kk = kb.len() as int;
    let vv = vb.len() as int;
    assert(t.subrange(2, 2 + nn) =~= nm);
    assert(t.subrange(6 + nn, 6 + nn + kk) =~= kb);
    assert(t.subrange(8 + nn + kk, 8 + nn + kk + vv) =~= vb);
}

impl AdapterJson {
    /// Reads the simple report's opening and benchmark name; under
    /// the simple shape both are pinned.
    #[verifier::rlimit(100)]
    fn scan_single_name(s: &[u8]) -> (r: Option<(Vec<u8>, usize)>)
        ensures
            r matches Some(t) ==> t.1 <= s@.len() && s@.len() >= 1 && s@[0] == 123u8,
            forall|nm: Seq<u8>, kb: Seq<u8>, vb: Seq<u8>|
                s@ == simple_report_bytes(nm, kb, vb) && simple_report_ok(nm, kb, vb) ==> (r
                    matches Some(t) && t.0@ == nm && t.1 == 3 + nm.len()),
    {
        let n = s.len();
        if n < 2 || s[0] != 123 || s[1] != 34 {
            proof {
                assert forall|nm: Seq<u8>, kb: Seq<u8>, vb: Seq<u8>|
                    s@ == simple_report_bytes(nm, kb, vb) && simple_report_ok(
                        nm,
                        kb,
                        vb,
                    ) implies false by {
                    lemma_simple_layout(nm, kb, vb);
                }
            }
            return None;
        }
        let q1 = read_quoted(s, 1);
        proof {
            assert forall|nm: Seq<u8>, kb: Seq<u8>, vb: Seq<u8>|
                s@ == simple_report_bytes(nm, kb, vb) && simple_report_ok(nm, kb, vb) implies (q1
                matches Some(p) && p.0@ == nm && p.1 == 3 + nm.len()) by {
                lemma_simple_layout(nm, kb, vb);
                assert(s@[2 + nm.len() as int] == 34u8);
                assert forall|k: int| 1 < k < 2 + nm.len() implies s@[k] != 34 && s@[k] != 92 by {
                    assert(s@[k] == s@.subrange(2, 2 + nm.len() as int)[k - 2]);
                }
                assert(p_first(q1).0@ == s@.subrange(2, 2 + nm.len() as int));
            }
        }
        match q1 {
            Option::Some(x) => Some(x),
            Option::None => None,
        }
    }

    /// Reads the simple report's metric key and number token from
    /// just past the name; under the simple shape both are pinned.
    #[verifier::rlimit(100)]
    fn scan_single_key_num(s: &[u8], p1: usize) -> (r: Option<
        ((MetricKind, crate::units::Unit), Vec<u8>, usize),
    >)
        ensures
            r matches Some(t) ==> t.2 <= s@.len(),
            forall|nm: Seq<u8>, kb: Seq<u8>, vb: Seq<u8>|
                s@ == simple_report_bytes(nm, kb, vb) && simple_report_ok(nm, kb, vb) && p1 == 3
                    + nm.len() ==> (r matches Some(t) && t.0
                    == crate::adapters::spec_kind_unit_of_key(kb)->0 && t.1@ == vb && t.2 == 8
                    + nm.len() + kb.len() + vb.len()),
    {
        let n = s.len();
        if p1 >= n || p1 + 1 >= n || s[p1] != 58 || s[p1 + 1] != 123 {
            proof {
                assert forall|nm: Seq<u8>, kb: Seq<u8>, vb: Seq<u8>|
                    s@ == simple_report_bytes(nm, kb, vb) && simple_report_ok(nm, kb, vb) && p1
                        == 3 + nm.len() implies false by {
                    lemma_simple_layout(nm, kb, vb);
                }
            }
            return None;
        }
        let q2 = read_quoted(s, p1 + 2);
        proof {
            assert forall|nm: Seq<u8>, kb: Seq<u8>, vb: Seq<u8>|
                s@ == simple_report_bytes(nm, kb, vb) && simple_report_ok(nm, kb, vb) && p1 == 3
                    + nm.len() implies (q2 matches Some(p) && p.0@ == kb && p.1 == 7 + nm.len()
                + kb.len()) by {
                lemma_simple_layout(nm, kb, vb);
                assert(s@[5 + nm.len() as int] == 34u8);
                assert(s@[6 + nm.len() + kb.len() as int] == 34u8);
                assert forall|k: int|
                    5 + nm.len() < k < 6 + nm.len() + kb.len() implies s@[k] != 34 && s@[k]
                    != 92 by {
                    assert(s@[k] == s@.subrange(
                        6 + nm.len() as int,
                        6 + nm.len() + kb.len() as int,
                    )[k - 6 - nm.len()]);
                }
                assert(p_first(q2).0@ == s@.subrange(
                    6 + nm.len() as int,
                    6 + nm.len() + kb.len() as int,
                ));
            }
        }
        let (key, p2) = match q2 {
            Option::Some(x) => x,
            Option::None => {
                return None;
            },
        };
        if p2 >= n || s[p2] != 58 {
            proof {
                assert forall|nm: Seq<u8>, kb: Seq<u8>, vb: Seq<u8>|
                    s@ == simple_report_bytes(nm, kb, vb) && simple_report_ok(nm, kb, vb) && p1
                        == 3 + nm.len() implies false by {
                    lemma_simple_layout(nm, kb, vb);
                }
            }
            return None;
        }
        let ku = kind_unit_of_key(key.as_slice());
        let q3 = read_raw_number(s, p2 + 1);
        proof {
            assert forall|nm: Seq<u8>, kb: Seq<u8>, vb: Seq<u8>|
                s@ == simple_report_bytes(nm, kb, vb) && simple_report_ok(nm, kb, vb) && p1 == 3
                    + nm.len() implies (q3 matches Some(p) && p.0@ == vb && p.1 == 8 + nm.len()
                + kb.len() + vb.len()) by {
                lemma_simple_layout(nm, kb, vb);
                let e = 8 + nm.len() + kb.len() + vb.len() as int;
                assert(s@[e] == 125u8);
                assert(!is_num_byte(125u8));
                assert forall|k: int| 8 + nm.len() + kb.len() <= k < e implies is_num_byte(
                    #[trigger] s@[k],
                ) by {
                    assert(s@[k] == s@.subrange(8 + nm.len() + kb.len() as int, e)[k - 8
                        - nm.len() - kb.len()]);
                }
                assert(p_first(q3).0@ == s@.subrange(8 + nm.len() + kb.len() as int, e));
            }
        }
        let (tok, p3) = match q3 {
            Option::Some(x) => x,
            Option::None => {
                return None;
            },
        };
        let kuv = match ku {
            Option::Some(x) => x,
            Option::None => {
                return None;
            },
        };
        Some((kuv, tok, p3))
    }

    /// Reads the schema's simplest instance in a straight line; the
    /// contract pins the parsed document exactly. Anything shaped
    /// otherwise is left to the general scan.
    #[verifier::rlimit(100)]
    fn scan_single(s: &[u8]) -> (r: Option<AdapterResults>)
        ensures
            r matches Some(res) ==> res.wf() && res@.len() == 1 && s@.contains(123u8),
            forall|nm: Seq<u8>, kb: Seq<u8>, vb: Seq<u8>|
                s@ == simple_report_bytes(nm, kb, vb) && simple_report_ok(nm, kb, vb) ==> (r
                    matches Some(res) && res@ == simple_report_doc(nm, kb, vb)),
    {
        let n = s.len();
        let (name, p1) = match Self::scan_single_name(s) {
            Option::Some(x) => x,
            Option::None => {
                return None;
            },
        };
        let (kuv, tok, p3) = match Self::scan_single_key_num(s, p1) {
            Option::Some(x) => x,
            Option::None => {
                return None;
            },
        };
        let v = match parse_in_unit(tok.as_slice(), kuv.1) {
            Option::Some(x) => x,
            Option::None => {
                proof {
                    assert forall|nm: Seq<u8>, kb: Seq<u8>, vb: Seq<u8>|
                        s@ == simple_report_bytes(nm, kb, vb) && simple_report_ok(
                            nm,
                            kb,
                            vb,
                        ) implies false by {
                        lemma_simple_layout(nm, kb, vb);
                    }
                }
                return None;
            },
        };
        let tail_ok = n - p3 == 2 && s[p3] == 125 && s[p3 + 1] == 125;
        if !tail_ok {
            proof {
                assert forall|nm: Seq<u8>, kb: Seq<u8>, vb: Seq<u8>|
                    s@ == simple_report_bytes(nm, kb, vb) && simple_report_ok(
                        nm,
                        kb,
                        vb,
                    ) implies false by {
                    lemma_simple_layout(nm, kb, vb);
                }
            }
            return None;
        }
        let mut results = AdapterResults::new();
        results.insert_metric(name.as_slice(), kuv.0, MetricValue::point(v));
        proof {
            assert(results@ =~= seq![
                (
                    name@,
                    seq![
                        (kuv.0, MetricValue { value: v, lower_bound: None, upper_bound: None }),
                    ],
                ),
            ]);
            assert(s@.contains(123u8)) by {
                assert(s@[0] == 123u8);
            }
            assert forall|nm: Seq<u8>, kb: Seq<u8>, vb: Seq<u8>|
                s@ == simple_report_bytes(nm, kb, vb) && simple_report_ok(
                    nm,
                    kb,
                    vb,
                ) implies results@ == simple_report_doc(nm, kb, vb) by {
                lemma_simple_layout(nm, kb, vb);
                assert(results@ =~= simple_report_doc(nm, kb, vb));
            }
        }
        Some(results)
    }

}

/// The payload of an optional read, for speaking of it in one clause.
pub open spec fn p_first(r: Option<(Vec<u8>, usize)>) -> (Vec<u8>, usize) {
    r->0
}

pub struct AdapterJson;

impl AdapterJson {
    /// Probes one report against the two-level schema; input without
    /// an opening brace is never matched, and the schema's simplest
    /// instance parses to exactly the document it spells.
    pub fn scan(input: &[u8]) -> (o: ParseOutcome)
        ensures
            outcome_wf(o),
            !input@.contains(123u8) ==> o is NoMatch,
            forall|nm: Seq<u8>, kb: Seq<u8>, vb: Seq<u8>|
                input@ == simple_report_bytes(nm, kb, vb) && simple_report_ok(nm, kb, vb) ==> (o
                    matches ParseOutcome::Found(res) && res@ == simple_report_doc(nm, kb, vb)),
    {
        if let Option::Some(res) = Self::scan_single(input) {
            return ParseOutcome::Found(res);
        }
        let s = input;
        let n = s.len();
        let mut i = skip_ws(s, 0);
        if i >= n || s[i] != 123 {
            return ParseOutcome::NoMatch;
        }
        i = i + 1;
        i = skip_ws(s, i);
        if i < n && s[i] == 125 {
            return ParseOutcome::NoMatch;
        }
        let mut results = AdapterResults::new();
        let mut malformed = false;
        let mut ok = false;
        while i < n
            invariant
                i <= n,
                n == s@.len(),
                results.wf(),
            decreases n - i,
        {
            let name = match read_quoted(s, i) {
                Option::Some((name, j)) => {
                    i = j;
                    name
                },
                Option::None => {
                    break ;
                },
            };
            i = skip_ws(s, i);
            if i >= n || s[i] != 58 {
                break ;
            }
            i = i + 1;
            i = skip_ws(s, i);
            if i >= n || s[i] != 123 {
                break ;
            }
            i = i + 1;
            let ghost i_at_inner = i as int;
            let mut inner_closed = false;
            while i < n
                invariant
                    i_at_inner <= i <= n,
                    n == s@.len(),
                    results.wf(),
                decreases n - i,
            {
                i = skip_ws(s, i);
                if i < n && s[i] == 125 {
                    i = i + 1;
                    inner_closed = true;
                    break ;
                }
                let key = match read_quoted(s, i) {
                    Option::Some((key, j)) => {
                        i = j;
                        key
                    },
                    Option::None => {
                        break ;
                    },
                };
                i = skip_ws(s, i);
                if i >= n || s[i] != 58 {
                    break ;
                }
                i = i + 1;
                i = skip_ws(s, i);
                let ku = match kind_unit_of_key(key.as_slice()) {
                    Option::Some(ku) => ku,
                    Option::None => {
                        break ;
                    },
                };
                let tok = match read_raw_number(s, i) {
                    Option::Some((tok, j)) => {
                        i = j;
                        tok
                    },
                    Option::None => {
                        malformed = true;
                        break ;
                    },
                };
                let v = match parse_in_unit(tok.as_slice(), ku.1) {
                    Option::Some(v) => v,
                    Option::None => {
                        malformed = true;
                        break ;
                    },
                };
                results.insert_metric(name.as_slice(), ku.0, MetricValue::point(v));
                i = skip_ws(s, i);
                if i < n && s[i] == 44 {
                    i = i + 1;
                } else if i < n && s[i] == 125 {
                    i = i + 1;
                    inner_closed = true;
                    break ;
                } else {
                    break ;
                }
            }
            if !inner_closed {
                break ;
            }
            i = skip_ws(s, i);
            if i < n && s[i] == 44 {
                i = i + 1;
                i = skip_ws(s, i);
            } else if i < n && s[i] == 125 {
                i = i + 1;
                ok = true;
                break ;
            } else {
                break ;
            }
        }
        if malformed {
            return ParseOutcome::Malformed(ReportFault::BadNumber);
        }
        if !ok {
            return ParseOutcome::NoMatch;
        }
        let j = skip_ws(s, i);
        if j != n {
            return ParseOutcome::NoMatch;
        }
        if results.len() == 0 {
            return ParseOutcome::NoMatch;
        }
        ParseOutcome::Found(results)
    }

    /// Parses one report, or declines.
    pub fn parse(input: &str) -> (r: Option<AdapterResults>)
        ensures
            r is Some ==> r->0.wf() && r->0@.len() >= 1,
    {
        match Self::scan(input.as_bytes()) {
            ParseOutcome::Found(results) => Some(results),
            ParseOutcome::NoMatch => None,
            ParseOutcome::Malformed(_) => None,
        }
    }
}


/// The decimal digits of a value, most significant first.
pub open spec fn dec_digits_of(v: nat) -> Seq<u8>
    decreases v,
{
    if v < 10 {
        seq![(48 + v) as u8]
    } else {
        dec_digits_of(v / 10).push((48 + v % 10) as u8)
    }
}

/// A milli-unit value as a decimal with exactly three places.
pub open spec fn milli_bytes_of(v: u64) -> Seq<u8> {
    dec_digits_of((v / 1000) as nat) + seq![
        46u8,
        (48 + (v % 1000) / 100) as u8,
        (48 + ((v % 1000) / 10) % 10) as u8,
        (48 + (v % 1000) % 10) as u8,
    ]
}

/// The metric key a kind serializes under: its canonical unit spelled
/// into the key, as the reading grammar expects it back.
pub open spec fn metric_key_bytes(k: MetricKind) -> Seq<u8> {
    match k {
        MetricKind::Latency => "latency_ns".spec_bytes(),
        MetricKind::Throughput => "throughput_ops".spec_bytes(),
        MetricKind::FileSize => "size_bytes".spec_bytes(),
    }
}

/// The serialized form of the first `n` metric entries of a benchmark.
pub open spec fn entries_bytes_of(m: Seq<(MetricKind, MetricValue)>, n: int) -> Seq<u8>
    decreases n,
{
    if n <= 0 {
        Seq::empty()
    } else {
        entries_bytes_of(m, n - 1) + (if n - 1 > 0 {
            seq![44u8]
        } else {
            Seq::empty()
        }) + seq![34u8] + metric_key_bytes(m[n - 1].0) + seq![34u8, 58u8] + milli_bytes_of(
            m[n - 1].1.value,
        )
    }
}

/// The serialized form of the first `n` benchmarks of a document.
pub open spec fn bench_bytes_of(
    d: Seq<(Seq<u8>, Seq<(MetricKind, MetricValue)>)>,
    n: int,
) -> Seq<u8>
    decreases n,
{
    if n <= 0 {
        Seq::empty()
    } else {
        bench_bytes_of(d, n - 1) + (if n - 1 > 0 {
            seq![44u8]
        } else {
            Seq::empty()
        }) + seq![34u8] + d[n - 1].0 + seq![34u8, 58u8, 123u8] + entries_bytes_of(
            d[n - 1].1,
            d[n - 1].1.len() as int,
        ) + seq![125u8]
    }
}

/// The whole document in the generic JSON report schema.
pub open spec fn json_bytes_of(d: Seq<(Seq<u8>, Seq<(MetricKind, MetricValue)>)>) -> Seq<u8> {
    seq![123u8] + bench_bytes_of(d, d.len() as int) + seq![125u8]
}

/// Writes an unsigned value in decimal onto `out`.
fn push_u64_dec(out: &mut Vec<u8>, v: u64)
    ensures
        final(out)@ == old(out)@ + dec_digits_of(v as nat),
    decreases v,
{
    if v >= 10 {
        push_u64_dec(out, v / 10);
    }
    out.push(48 + (v % 10) as u8);
    proof {
        if v < 10 {
            assert(final(out)@ =~= old(out)@ + dec_digits_of(v as nat));
        } else {
            assert(final(out)@ =~= old(out)@ + dec_digits_of(v as nat));
        }
    }
}

/// Writes a milli-unit value as a decimal with three places onto
/// `out`.
fn push_milli_dec(out: &mut Vec<u8>, v: u64)
    ensures
        final(out)@ == old(out)@ + milli_bytes_of(v),
{
    push_u64_dec(out, v / 1000);
    out.push(46);
    let frac = v % 1000;
    out.push(48 + (frac / 100) as u8);
    out.push(48 + ((frac / 10) % 10) as u8);
    out.push(48 + (frac % 10) as u8);
    proof {
        assert(final(out)@ =~= old(out)@ + milli_bytes_of(v));
    }
}

/// Writes every byte of `bytes` onto `out`.
fn push_bytes(out: &mut Vec<u8>, bytes: &[u8])
    ensures
        final(out)@ == old(out)@ + bytes@,
{
    let ghost base = out@;
    let mut i: usize = 0;
    while i < bytes.len()
        invariant
            i <= bytes@.len(),
            out@ == base + bytes@.take(i as int),
        decreases bytes@.len() - i,
    {
        proof {
            assert(bytes@.take(i as int + 1) =~= bytes@.take(i as int).push(bytes@[i as int]));
        }
        out.push(bytes[i]);
        i = i + 1;
    }
    proof {
        assert(bytes@.take(bytes@.len() as int) =~= bytes@);
        assert(final(out)@ =~= old(out)@ + bytes@);
    }
}

/// Serializes a canonical result into the generic JSON report schema,
/// the same grammar `AdapterJson` reads back.
pub fn to_json_bytes(results: &AdapterResults) -> (out: Vec<u8>)
    ensures
        out@ == json_bytes_of(results@),
{
    let ghost dv = results@;
    let mut out: Vec<u8> = Vec::new();
    out.push(123);
    let nb = results.benchmarks.len();
    let mut bi: usize = 0;
    proof {
        assert(out@ =~= seq![123u8] + bench_bytes_of(dv, 0));
    }
    while bi < nb
        invariant
            nb == results.benchmarks@.len(),
            dv == results@,
            dv.len() == nb,
            bi <= nb,
            out@ == seq![123u8] + bench_bytes_of(dv, bi as int),
        decreases nb - bi,
    {
        if bi > 0 {
            out.push(44);
        }
        out.push(34);
        push_bytes(&mut out, results.benchmarks[bi].0.as_slice());
        out.push(34);
        out.push(58);
        out.push(123);
        let ghost head = out@;
        let ghost mv = dv[bi as int].1;
        proof {
            assert(mv == results.benchmarks@[bi as int].1@);
        }
        let nm = results.benchmarks[bi].1.entries.len();
        let mut mi: usize = 0;
        proof {
            assert(out@ =~= head + entries_bytes_of(mv, 0));
        }
        while mi < nm
            invariant
                nb == results.benchmarks@.len(),
                dv == results@,
                bi < nb,
                mv == dv[bi as int].1,
                nm == results.benchmarks@[bi as int].1.entries@.len(),
                nm == mv.len(),
                mi <= nm,
                out@ == head + entries_bytes_of(mv, mi as int),
            decreases nm - mi,
        {
            if mi > 0 {
                out.push(44);
            }
            let (kind, value) = results.benchmarks[bi].1.entries[mi];
            out.push(34);
            let key: &'static str = match kind {
                MetricKind::Latency => "latency_ns",
                MetricKind::Throughput => "throughput_ops",
                MetricKind::FileSize => "size_bytes",
            };
            proof {
                assert(key.spec_bytes() == metric_key_bytes(kind));
            }
            push_bytes(&mut out, key.as_bytes());
            out.push(34);
            out.push(58);
            push_milli_dec(&mut out, value.value);
            proof {
                assert((kind, value) == mv[mi as int]);
                assert(out@ =~= head + entries_bytes_of(mv, mi as int + 1));
            }
            mi = mi + 1;
        }
        out.push(125);
        proof {
            assert(out@ =~= seq![123u8] + bench_bytes_of(dv, bi as int + 1));
        }
        bi = bi + 1;
    }
    out.push(125);
    proof {
        assert(out@ =~= json_bytes_of(dv));
    }
    out
}

} // verus!
