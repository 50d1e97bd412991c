//! The dispatcher: probes every format grammar in one fixed priority
//! order - structured formats before free-text formats - and keeps the
//! first that does not decline.
//!
//! This is first-match, not best-match: when two grammars could both
//! read an input, the earlier one wins, by construction. A grammar
//! that committed and found its contents broken ends the whole resolve
//! call: such a report is never handed to a more permissive grammar.

use vstd::prelude::*;

use crate::adapters::c_sharp::AdapterCSharp;
use crate::adapters::cpp::AdapterCpp;
use crate::adapters::go::AdapterGo;
use crate::adapters::java::AdapterJava;
use crate::adapters::js::AdapterJs;
use crate::adapters::json::AdapterJson;
use crate::adapters::python::AdapterPython;
use crate::adapters::ruby::AdapterRuby;
use crate::adapters::rust::AdapterRust;
use crate::adapters::json::{simple_report_bytes, simple_report_doc, simple_report_ok};
use crate::adapters::{is_sub, outcome_wf, ParseOutcome};
use crate::model::AdapterResults;
use vstd::string::StringSliceAdditionalSpecFns;

verus! {

/// The first outcome in priority order that is not a decline: a found
/// result, a malformed report, or - when every grammar declined - no
/// match at all.
pub open spec fn first_committed(os: Seq<ParseOutcome>) -> ParseOutcome
    decreases os.len(),
{
    if os.len() == 0 {
        ParseOutcome::NoMatch
    } else if !(os[0] is NoMatch) {
        os[0]
    } else {
        first_committed(os.drop_first())
    }
}

/// The dispatcher's tie-break rule, proved: when exactly one grammar
/// accepts an input and none reports it malformed, the dispatcher
/// returns that grammar's result, whatever its position in the
/// priority order.
pub proof fn lemma_single_match_wins(os: Seq<ParseOutcome>, i: int)
    requires
        0 <= i < os.len(),
        os[i] is Found,
        forall|j: int| 0 <= j < os.len() && j != i ==> os[j] is NoMatch,
    ensures
        first_committed(os) == os[i],
    decreases i,
{
    if i == 0 {
    } else {
        assert(os[0] is NoMatch);
        assert(os.drop_first()[i - 1] == os[i]);
        assert(forall|j: int|
            0 <= j < os.drop_first().len() && j != i - 1 ==> #[trigger] os.drop_first()[j] == os[j
                + 1]);
        lemma_single_match_wins(os.drop_first(), i - 1);
    }
}

/// The no-fallthrough rule, proved: a malformed report ahead of every
/// accepting grammar ends the resolve call - nothing later is kept.
pub proof fn lemma_malformed_stops(os: Seq<ParseOutcome>, i: int)
    requires
        0 <= i < os.len(),
        os[i] is Malformed,
        forall|j: int| 0 <= j < i ==> os[j] is NoMatch,
    ensures
        first_committed(os) is Malformed,
    decreases i,
{
    if i == 0 {
    } else {
        assert(os[0] is NoMatch);
        assert(os.drop_first()[i - 1] == os[i]);
        assert(forall|j: int| 0 <= j < i - 1 ==> #[trigger] os.drop_first()[j] == os[j + 1]);
        lemma_malformed_stops(os.drop_first(), i - 1);
    }
}

/// A committed outcome anywhere in the list means the first
/// commitment is not a decline.
pub proof fn lemma_first_committed_commits(os: Seq<ParseOutcome>, i: int)
    requires
        0 <= i < os.len(),
        !(os[i] is NoMatch),
    ensures
        !(first_committed(os) is NoMatch),
    decreases i,
{
    if os[0] is NoMatch {
        assert(os.drop_first()[i - 1] == os[i]);
        lemma_first_committed_commits(os.drop_first(), i - 1);
    }
}

/// Walks outcomes in priority order and keeps the first commitment:
/// the executable side of `first_committed`.
pub fn first_commitment(outcomes: Vec<ParseOutcome>) -> (o: ParseOutcome)
    ensures
        o == first_committed(outcomes@),
{
    let ghost orig = outcomes@;
    let mut rest = outcomes;
    while rest.len() > 0
        invariant
            orig == outcomes@,
            first_committed(rest@) == first_committed(orig),
        decreases rest@.len(),
    {
        let ghost pre = rest@;
        let head = rest.remove(0);
        proof {
            assert(head == pre[0]);
            assert(rest@ =~= pre.drop_first());
        }
        match head {
            ParseOutcome::NoMatch => {
                proof {
                    assert(first_committed(pre) == first_committed(pre.drop_first()));
                }
            },
            other => {
                proof {
                    assert(first_committed(pre) == pre[0]);
                }
                return other;
            },
        }
    }
    ParseOutcome::NoMatch
}

/// Turns an outcome into the plain optional result: a malformed
/// report yields nothing, exactly as a declined one does.
pub fn flatten_outcome(o: ParseOutcome) -> (r: Option<AdapterResults>)
    ensures
        r == match o {
            ParseOutcome::Found(results) => Some(results),
            ParseOutcome::NoMatch => None::<AdapterResults>,
            ParseOutcome::Malformed(_) => None::<AdapterResults>,
        },
{
    match o {
        ParseOutcome::Found(results) => Some(results),
        ParseOutcome::NoMatch => None,
        ParseOutcome::Malformed(_) => None,
    }
}

/// The dispatcher over every supported grammar.
pub struct AdapterMagic;

impl AdapterMagic {
    /// Probes the grammars in priority order - the structured JSON
    /// reports first, the free-text console formats after - and keeps
    /// the first that commits: a parsed document, or the fault of a
    /// report that a grammar committed to but could not fully read.
    /// A commitment marker of one of the gated grammars in the input
    /// guarantees the probe does not end in a decline.
    pub fn resolve(input: &str) -> (o: ParseOutcome)
        ensures
            outcome_wf(o),
            is_sub(input.spec_bytes(), "\"Benchmarks\"".spec_bytes()) ==> !(o is NoMatch),
            is_sub(input.spec_bytes(), "benchmark name".spec_bytes()) ==> !(o is NoMatch),
            is_sub(input.spec_bytes(), "ns/op".spec_bytes()) ==> !(o is NoMatch),
            is_sub(input.spec_bytes(), "\"primaryMetric\"".spec_bytes()) ==> !(o is NoMatch),
            is_sub(input.spec_bytes(), "ops/sec".spec_bytes()) ==> !(o is NoMatch),
            is_sub(input.spec_bytes(), "\"stats\"".spec_bytes()) ==> !(o is NoMatch),
            is_sub(input.spec_bytes(), "user".spec_bytes()) && is_sub(
                input.spec_bytes(),
                "system".spec_bytes(),
            ) && is_sub(input.spec_bytes(), "real".spec_bytes()) ==> !(o is NoMatch),
            is_sub(input.spec_bytes(), "ns/iter".spec_bytes()) ==> !(o is NoMatch),
            forall|nm: Seq<u8>, kb: Seq<u8>, vb: Seq<u8>|
                input.spec_bytes() == simple_report_bytes(nm, kb, vb) && simple_report_ok(
                    nm,
                    kb,
                    vb,
                ) ==> (o matches ParseOutcome::Found(res) && res@ == simple_report_doc(
                    nm,
                    kb,
                    vb,
                )),
    {
        let bytes = input.as_bytes();
        let mut outcomes: Vec<ParseOutcome> = Vec::new();
        outcomes.push(AdapterJson::scan(bytes));
        outcomes.push(AdapterCSharp::scan(bytes));
        outcomes.push(AdapterCpp::scan(bytes));
        outcomes.push(AdapterGo::scan(bytes));
        outcomes.push(AdapterJava::scan(bytes));
        outcomes.push(AdapterJs::scan(bytes));
        outcomes.push(AdapterPython::scan(bytes));
        outcomes.push(AdapterRuby::scan(bytes));
        outcomes.push(AdapterRust::scan(bytes));
        proof {
            lemma_first_committed_wf(outcomes@);
            if is_sub(input.spec_bytes(), "\"Benchmarks\"".spec_bytes()) {
                lemma_first_committed_commits(outcomes@, 1);
            }
            if is_sub(input.spec_bytes(), "benchmark name".spec_bytes()) {
                lemma_first_committed_commits(outcomes@, 2);
            }
            if is_sub(input.spec_bytes(), "ns/op".spec_bytes()) {
                lemma_first_committed_commits(outcomes@, 3);
            }
            if is_sub(input.spec_bytes(), "\"primaryMetric\"".spec_bytes()) {
                lemma_first_committed_commits(outcomes@, 4);
            }
            if is_sub(input.spec_bytes(), "ops/sec".spec_bytes()) {
                lemma_first_committed_commits(outcomes@, 5);
            }
            if is_sub(input.spec_bytes(), "\"stats\"".spec_bytes()) {
                lemma_first_committed_commits(outcomes@, 6);
            }
            if is_sub(input.spec_bytes(), "user".spec_bytes()) && is_sub(
                input.spec_bytes(),
                "system".spec_bytes(),
            ) && is_sub(input.spec_bytes(), "real".spec_bytes()) {
                lemma_first_committed_commits(outcomes@, 7);
            }
            if is_sub(input.spec_bytes(), "ns/iter".spec_bytes()) {
                lemma_first_committed_commits(outcomes@, 8);
            }
            assert(outcomes@[0] is NoMatch || first_committed(outcomes@) == outcomes@[0]);
        }
        first_commitment(outcomes)
    }

    /// Parses one report, or declines: the flattened form of
    /// [`AdapterMagic::resolve`], where a malformed committed report
    /// is indistinguishable from no match; callers that need the
    /// distinction probe `resolve` instead. The generic schema's
    /// simplest instance parses to exactly the document it spells.
    pub fn parse(input: &str) -> (r: Option<AdapterResults>)
        ensures
            r is Some ==> r->0.wf() && r->0@.len() >= 1,
            forall|nm: Seq<u8>, kb: Seq<u8>, vb: Seq<u8>|
                input.spec_bytes() == simple_report_bytes(nm, kb, vb) && simple_report_ok(
                    nm,
                    kb,
                    vb,
                ) ==> (r matches Some(res) && res@ == simple_report_doc(nm, kb, vb)),
    {
        flatten_outcome(Self::resolve(input))
    }
}

/// A priority list of well-formed outcomes keeps a well-formed first
/// commitment.
pub proof fn lemma_first_committed_wf(os: Seq<ParseOutcome>)
    requires
        forall|j: int| 0 <= j < os.len() ==> outcome_wf(#[trigger] os[j]),
    ensures
        outcome_wf(first_committed(os)),
    decreases os.len(),
{
    if os.len() > 0 && os[0] is NoMatch {
        assert(forall|j: int|
            0 <= j < os.drop_first().len() ==> #[trigger] os.drop_first()[j] == os[j + 1]);
        lemma_first_committed_wf(os.drop_first());
    }
}

} // verus!
