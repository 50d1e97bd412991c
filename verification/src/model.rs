//! The canonical result model: the normalized, tool-agnostic document that
//! every format parser produces.
//!
//! An [`AdapterResults`] is an ordered sequence of benchmarks in first-seen
//! order; each benchmark maps metric kinds to values, keys unique. Inserting
//! an entry that already exists overwrites it in place: the last occurrence
//! in a document wins, while the position (first-seen order) is kept.

use vstd::prelude::*;
use vstd::slice::slice_to_vec;

use crate::units::MetricKind;

verus! {

/// One normalized measurement, in milli-units (thousandths) of the metric
/// kind's canonical unit. `lower_bound`/`upper_bound`, when present, are
/// tool-reported confidence bounds around `value`.
#[derive(Clone, Copy, PartialEq, Eq, Structural, Debug)]
pub struct MetricValue {
    pub value: u64,
    pub lower_bound: Option<u64>,
    pub upper_bound: Option<u64>,
}

impl MetricValue {
    /// Bounds, where present, bracket the value.
    pub open spec fn wf(self) -> bool {
        &&& self.lower_bound is Some ==> self.lower_bound->0 <= self.value
        &&& self.upper_bound is Some ==> self.value <= self.upper_bound->0
    }

    /// A measurement with no tool-reported bounds.
    pub fn point(value: u64) -> (r: MetricValue)
        ensures
            r.wf(),
            r.value == value,
            r.lower_bound is None,
            r.upper_bound is None,
    {
        MetricValue { value, lower_bound: None, upper_bound: None }
    }

    /// A measurement with both tool-reported bounds.
    pub fn with_bounds(value: u64, lower: u64, upper: u64) -> (r: MetricValue)
        requires
            lower <= value <= upper,
        ensures
            r.wf(),
            r.value == value,
            r.lower_bound == Some(lower),
            r.upper_bound == Some(upper),
    {
        MetricValue { value, lower_bound: Some(lower), upper_bound: Some(upper) }
    }
}

/// The value stored under key `k` in an association sequence, scanning
/// front to back.
pub open spec fn assoc_get<K, V>(s: Seq<(K, V)>, k: K) -> Option<V>
    decreases s.len(),
{
    if s.len() == 0 {
        None
    } else if s[0].0 == k {
        Some(s[0].1)
    } else {
        assoc_get(s.drop_first(), k)
    }
}

/// If the first entry holding `k` stands at `i`, the lookup returns it.
pub proof fn lemma_assoc_get_found<K, V>(s: Seq<(K, V)>, k: K, i: int)
    requires
        0 <= i < s.len(),
        s[i].0 == k,
        forall|j: int| 0 <= j < i ==> (#[trigger] s[j]).0 != k,
    ensures
        assoc_get(s, k) == Some(s[i].1),
    decreases i,
{
    if i > 0 {
        assert(s.drop_first()[i - 1] == s[i]);
        assert(forall|j: int| 0 <= j < i - 1 ==> (#[trigger] s.drop_first()[j]).0 != k);
        lemma_assoc_get_found(s.drop_first(), k, i - 1);
    }
}

/// If no entry holds `k`, the lookup misses.
pub proof fn lemma_assoc_get_absent<K, V>(s: Seq<(K, V)>, k: K)
    requires
        forall|j: int| 0 <= j < s.len() ==> (#[trigger] s[j]).0 != k,
    ensures
        assoc_get(s, k) is None,
    decreases s.len(),
{
    if s.len() > 0 {
        lemma_assoc_get_absent(s.drop_first(), k);
    }
}

/// Overwriting the entry at `i` by one with the same key leaves every other
/// key's lookup unchanged.
pub proof fn lemma_assoc_get_update_other<K, V>(s: Seq<(K, V)>, i: int, e: (K, V), k2: K)
    requires
        0 <= i < s.len(),
        s[i].0 == e.0,
        k2 != e.0,
    ensures
        assoc_get(s.update(i, e), k2) == assoc_get(s, k2),
    decreases i,
{
    let s2 = s.update(i, e);
    if i == 0 {
        assert(s2.drop_first() =~= s.drop_first());
    } else {
        assert(s2[0] == s[0]);
        if s[0].0 == k2 {
        } else {
            assert(s2.drop_first() =~= s.drop_first().update(i - 1, e));
            lemma_assoc_get_update_other(s.drop_first(), i - 1, e, k2);
        }
    }
}

/// Appending an entry leaves every other key's lookup unchanged.
pub proof fn lemma_assoc_get_push_other<K, V>(s: Seq<(K, V)>, e: (K, V), k2: K)
    requires
        k2 != e.0,
    ensures
        assoc_get(s.push(e), k2) == assoc_get(s, k2),
    decreases s.len(),
{
    if s.len() == 0 {
        assert(s.push(e)[0] == e);
        assert(s.push(e).drop_first() =~= Seq::<(K, V)>::empty());
    } else {
        assert(s.push(e)[0] == s[0]);
        if s[0].0 == k2 {
            assert(assoc_get(s.push(e), k2) == Some(s[0].1));
            assert(assoc_get(s, k2) == Some(s[0].1));
        } else {
            assert(s.push(e).drop_first() =~= s.drop_first().push(e));
            lemma_assoc_get_push_other(s.drop_first(), e, k2);
            assert(assoc_get(s.push(e), k2) == assoc_get(s.push(e).drop_first(), k2));
        }
    }
}

/// The association sequence after storing `v` under `k`: the first
/// entry holding `k` is overwritten in place; a missing key is
/// appended.
pub open spec fn assoc_upsert<K, V>(s: Seq<(K, V)>, k: K, v: V) -> Seq<(K, V)>
    decreases s.len(),
{
    if s.len() == 0 {
        seq![(k, v)]
    } else if s[0].0 == k {
        seq![(k, v)] + s.drop_first()
    } else {
        seq![s[0]] + assoc_upsert(s.drop_first(), k, v)
    }
}

/// With the first entry holding `k` at `i`, the upsert is an in-place
/// update.
pub proof fn lemma_assoc_upsert_found<K, V>(s: Seq<(K, V)>, k: K, v: V, i: int)
    requires
        0 <= i < s.len(),
        s[i].0 == k,
        forall|j: int| 0 <= j < i ==> (#[trigger] s[j]).0 != k,
    ensures
        assoc_upsert(s, k, v) == s.update(i, (k, v)),
    decreases i,
{
    if i == 0 {
        assert(assoc_upsert(s, k, v) =~= s.update(0, (k, v)));
    } else {
        assert(s.drop_first()[i - 1] == s[i]);
        assert(forall|j: int| 0 <= j < i - 1 ==> (#[trigger] s.drop_first()[j]).0 != k);
        lemma_assoc_upsert_found(s.drop_first(), k, v, i - 1);
        assert(assoc_upsert(s, k, v) =~= s.update(i, (k, v)));
    }
}

/// With no entry holding `k`, the upsert is an append.
pub proof fn lemma_assoc_upsert_absent<K, V>(s: Seq<(K, V)>, k: K, v: V)
    requires
        forall|j: int| 0 <= j < s.len() ==> (#[trigger] s[j]).0 != k,
    ensures
        assoc_upsert(s, k, v) == s.push((k, v)),
    decreases s.len(),
{
    if s.len() == 0 {
        assert(assoc_upsert(s, k, v) =~= s.push((k, v)));
    } else {
        lemma_assoc_upsert_absent(s.drop_first(), k, v);
        assert(assoc_upsert(s, k, v) =~= s.push((k, v)));
    }
}

/// The document after recording metric `k = v` for the benchmark
/// called `name`: the first benchmark of that name has its metrics
/// upserted in place; a new name is appended with that one metric.
pub open spec fn doc_upsert(
    d: Seq<(Seq<u8>, Seq<(MetricKind, MetricValue)>)>,
    name: Seq<u8>,
    k: MetricKind,
    v: MetricValue,
) -> Seq<(Seq<u8>, Seq<(MetricKind, MetricValue)>)>
    decreases d.len(),
{
    if d.len() == 0 {
        seq![(name, seq![(k, v)])]
    } else if d[0].0 == name {
        seq![(name, assoc_upsert(d[0].1, k, v))] + d.drop_first()
    } else {
        seq![d[0]] + doc_upsert(d.drop_first(), name, k, v)
    }
}

/// With the benchmark called `name` first standing at `i`, the
/// document upsert is an in-place update of that entry.
pub proof fn lemma_doc_upsert_found(
    d: Seq<(Seq<u8>, Seq<(MetricKind, MetricValue)>)>,
    name: Seq<u8>,
    k: MetricKind,
    v: MetricValue,
    i: int,
)
    requires
        0 <= i < d.len(),
        d[i].0 == name,
        forall|j: int| 0 <= j < i ==> (#[trigger] d[j]).0 != name,
    ensures
        doc_upsert(d, name, k, v) == d.update(i, (name, assoc_upsert(d[i].1, k, v))),
    decreases i,
{
    if i == 0 {
        assert(doc_upsert(d, name, k, v) =~= d.update(0, (name, assoc_upsert(d[0].1, k, v))));
    } else {
        assert(d.drop_first()[i - 1] == d[i]);
        assert(forall|j: int| 0 <= j < i - 1 ==> (#[trigger] d.drop_first()[j]).0 != name);
        lemma_doc_upsert_found(d.drop_first(), name, k, v, i - 1);
        assert(doc_upsert(d, name, k, v) =~= d.update(i, (name, assoc_upsert(d[i].1, k, v))));
    }
}

/// With no benchmark called `name`, the document upsert is an append.
pub proof fn lemma_doc_upsert_absent(
    d: Seq<(Seq<u8>, Seq<(MetricKind, MetricValue)>)>,
    name: Seq<u8>,
    k: MetricKind,
    v: MetricValue,
)
    requires
        forall|j: int| 0 <= j < d.len() ==> (#[trigger] d[j]).0 != name,
    ensures
        doc_upsert(d, name, k, v) == d.push((name, seq![(k, v)])),
    decreases d.len(),
{
    if d.len() == 0 {
        assert(doc_upsert(d, name, k, v) =~= d.push((name, seq![(k, v)])));
    } else {
        lemma_doc_upsert_absent(d.drop_first(), name, k, v);
        assert(doc_upsert(d, name, k, v) =~= d.push((name, seq![(k, v)])));
    }
}

/// Byte-string equality.
pub fn bytes_eq(a: &[u8], b: &[u8]) -> (r: bool)
    ensures
        r == (a@ == b@),
{
    if a.len() != b.len() {
        return false;
    }
    let mut i: usize = 0;
    while i < a.len()
        invariant
            i <= a@.len(),
            a@.len() == b@.len(),
            forall|j: int| 0 <= j < i ==> a@[j] == b@[j],
        decreases a@.len() - i,
    {
        if a[i] != b[i] {
            return false;
        }
        i = i + 1;
    }
    proof {
        assert(a@ =~= b@);
    }
    true
}

/// The metrics of one benchmark: metric kinds mapped to values, kinds unique.
#[derive(Clone, Debug)]
pub struct AdapterMetrics {
    pub entries: Vec<(MetricKind, MetricValue)>,
}

impl View for AdapterMetrics {
    type V = Seq<(MetricKind, MetricValue)>;

    open spec fn view(&self) -> Seq<(MetricKind, MetricValue)> {
        self.entries@
    }
}

impl AdapterMetrics {
    /// Kinds are unique and every value is well formed.
    pub open spec fn wf(self) -> bool {
        &&& forall|i: int, j: int|
            0 <= i < j < self@.len() ==> (#[trigger] self@[i]).0 != (#[trigger] self@[j]).0
        &&& forall|i: int| 0 <= i < self@.len() ==> (#[trigger] self@[i]).1.wf()
    }

    pub open spec fn spec_get(self, k: MetricKind) -> Option<MetricValue> {
        assoc_get(self@, k)
    }

    pub fn new() -> (r: AdapterMetrics)
        ensures
            r.wf(),
            r@.len() == 0,
    {
        AdapterMetrics { entries: Vec::new() }
    }

    pub fn len(&self) -> (n: usize)
        ensures
            n == self@.len(),
    {
        self.entries.len()
    }

    /// Looks a metric kind up.
    pub fn get(&self, k: MetricKind) -> (r: Option<MetricValue>)
        ensures
            r == self.spec_get(k),
    {
        let mut i: usize = 0;
        proof {
            assert(self@.skip(0) =~= self@);
        }
        while i < self.entries.len()
            invariant
                i <= self@.len(),
                assoc_get(self@.skip(i as int), k) == assoc_get(self@, k),
            decreases self@.len() - i,
        {
            let (ek, ev) = self.entries[i];
            proof {
                assert(self@.skip(i as int)[0] == self@[i as int]);
                assert(self@.skip(i as int).drop_first() =~= self@.skip(i as int + 1));
            }
            if ek == k {
                return Some(ev);
            }
            i = i + 1;
        }
        proof {
            assert(self@.skip(i as int) =~= Seq::<(MetricKind, MetricValue)>::empty());
        }
        None
    }

    /// Inserts a value under a kind. If the kind is already present its
    /// value is overwritten in place (last occurrence wins); otherwise the
    /// entry is appended.
    pub fn insert(&mut self, k: MetricKind, v: MetricValue)
        requires
            old(self).wf(),
            v.wf(),
        ensures
            final(self).wf(),
            final(self)@ == assoc_upsert(old(self)@, k, v),
            final(self).spec_get(k) == Some(v),
            forall|k2: MetricKind| k2 != k ==> final(self).spec_get(k2) == old(self).spec_get(k2),
            old(self).spec_get(k) is Some ==> final(self)@.len() == old(self)@.len(),
            old(self).spec_get(k) is None ==> final(self)@ == old(self)@.push((k, v)),
    {
        let ghost s0 = self@;
        let mut i: usize = 0;
        while i < self.entries.len()
            invariant
                self@ == s0,
                s0 == old(self)@,
                old(self).wf(),
                v.wf(),
                i <= s0.len(),
                forall|j: int| 0 <= j < i ==> (#[trigger] s0[j]).0 != k,
            decreases s0.len() - i,
        {
            let (ek, _) = self.entries[i];
            if ek == k {
                self.entries.remove(i);
                self.entries.insert(i, (k, v));
                proof {
                    assert(self@ =~= s0.update(i as int, (k, v)));
                    lemma_assoc_upsert_found(s0, k, v, i as int);
                    lemma_assoc_get_found(self@, k, i as int);
                    lemma_assoc_get_found(s0, k, i as int);
                    assert forall|k2: MetricKind| k2 != k implies assoc_get(self@, k2) == assoc_get(
                        s0,
                        k2,
                    ) by {
                        lemma_assoc_get_update_other(s0, i as int, (k, v), k2);
                    }
                    assert forall|a: int, b: int| 0 <= a < b < self@.len() implies (
                    #[trigger] self@[a]).0 != (#[trigger] self@[b]).0 by {
                        assert(s0[a].0 != s0[b].0);
                    }
                }
                return ;
            }
            i = i + 1;
        }
        self.entries.push((k, v));
        proof {
            assert(self@ =~= s0.push((k, v)));
            lemma_assoc_upsert_absent(s0, k, v);
            lemma_assoc_get_found(self@, k, s0.len() as int);
            lemma_assoc_get_absent(s0, k);
            assert forall|k2: MetricKind| k2 != k implies assoc_get(self@, k2) == assoc_get(
                s0,
                k2,
            ) by {
                lemma_assoc_get_push_other(s0, (k, v), k2);
            }
        }
    }
}

/// The canonical result of one parsed report: benchmarks in first-seen
/// order, names unique within the document.
#[derive(Clone, Debug)]
pub struct AdapterResults {
    pub benchmarks: Vec<(Vec<u8>, AdapterMetrics)>,
}

impl View for AdapterResults {
    type V = Seq<(Seq<u8>, Seq<(MetricKind, MetricValue)>)>;

    open spec fn view(&self) -> Seq<(Seq<u8>, Seq<(MetricKind, MetricValue)>)> {
        self.benchmarks@.map(|i: int, b: (Vec<u8>, AdapterMetrics)| (b.0@, b.1@))
    }
}

impl AdapterResults {
    /// Benchmark names are unique and every benchmark's metrics are well
    /// formed.
    pub open spec fn wf(self) -> bool {
        &&& forall|i: int, j: int|
            0 <= i < j < self@.len() ==> (#[trigger] self@[i]).0 != (#[trigger] self@[j]).0
        &&& forall|i: int|
            0 <= i < self.benchmarks@.len() ==> (#[trigger] self.benchmarks@[i]).1.wf()
    }

    /// The benchmark names, in first-seen order.
    pub open spec fn spec_names(self) -> Seq<Seq<u8>> {
        self@.map(|i: int, b: (Seq<u8>, Seq<(MetricKind, MetricValue)>)| b.0)
    }

    /// The metrics of the benchmark called `n`.
    pub open spec fn spec_benchmark(self, n: Seq<u8>) -> Option<
        Seq<(MetricKind, MetricValue)>,
    > {
        assoc_get(self@, n)
    }

    /// The value stored for metric kind `k` of the benchmark called `n`.
    pub open spec fn spec_metric(self, n: Seq<u8>, k: MetricKind) -> Option<MetricValue> {
        match assoc_get(self@, n) {
            Option::None => Option::None,
            Option::Some(m) => assoc_get(m, k),
        }
    }

    pub fn new() -> (r: AdapterResults)
        ensures
            r.wf(),
            r@.len() == 0,
    {
        AdapterResults { benchmarks: Vec::new() }
    }

    pub fn len(&self) -> (n: usize)
        ensures
            n == self@.len(),
    {
        self.benchmarks.len()
    }

    /// Looks a benchmark up by name.
    pub fn get(&self, name: &[u8]) -> (r: Option<&AdapterMetrics>)
        ensures
            match r {
                Option::Some(m) => self.spec_benchmark(name@) == Some(m@),
                Option::None => self.spec_benchmark(name@) is None,
            },
    {
        let mut i: usize = 0;
        proof {
            assert(self@.skip(0) =~= self@);
        }
        while i < self.benchmarks.len()
            invariant
                i <= self@.len(),
                self@.len() == self.benchmarks@.len(),
                assoc_get(self@.skip(i as int), name@) == assoc_get(self@, name@),
            decreases self@.len() - i,
        {
            proof {
                assert(self@.skip(i as int)[0] == self@[i as int]);
                assert(self@.skip(i as int).drop_first() =~= self@.skip(i as int + 1));
            }
            if bytes_eq(self.benchmarks[i].0.as_slice(), name) {
                return Some(&self.benchmarks[i].1);
            }
            i = i + 1;
        }
        proof {
            assert(self@.skip(i as int) =~= Seq::<
                (Seq<u8>, Seq<(MetricKind, MetricValue)>),
            >::empty());
        }
        None
    }

    /// Records one normalized measurement: the metric `k` of the benchmark
    /// called `name` becomes `v`. A benchmark seen for the first time is
    /// appended; re-recording an existing (benchmark, kind) pair overwrites
    /// the earlier value in place - the last occurrence wins.
    pub fn insert_metric(&mut self, name: &[u8], k: MetricKind, v: MetricValue)
        requires
            old(self).wf(),
            v.wf(),
        ensures
            final(self).wf(),
            final(self)@ == doc_upsert(old(self)@, name@, k, v),
            final(self).spec_metric(name@, k) == Some(v),
            forall|n2: Seq<u8>, k2: MetricKind|
                n2 != name@ || k2 != k ==> final(self).spec_metric(n2, k2) == old(self).spec_metric(
                    n2,
                    k2,
                ),
            old(self).spec_benchmark(name@) is Some ==> final(self).spec_names() == old(
                self,
            ).spec_names(),
            old(self).spec_benchmark(name@) is None ==> final(self).spec_names() == old(
                self,
            ).spec_names().push(name@),
    {
        let ghost s0 = self@;
        let mut i: usize = 0;
        while i < self.benchmarks.len()
            invariant
                self@ == s0,
                s0 == old(self)@,
                self.benchmarks@.len() == s0.len(),
                old(self).wf(),
                self.wf(),
                v.wf(),
                i <= s0.len(),
                forall|j: int| 0 <= j < i ==> (#[trigger] s0[j]).0 != name@,
            decreases s0.len() - i,
        {
            if bytes_eq(self.benchmarks[i].0.as_slice(), name) {
                let (bname, mut m) = self.benchmarks.remove(i);
                let ghost mb = m;
                m.insert(k, v);
                let ghost ma = m;
                self.benchmarks.insert(i, (bname, m));
                proof {
                    assert(self@ =~= s0.update(i as int, (name@, m@)));
                    assert(s0[i as int] == (name@, mb@));
                    assert(ma@ == assoc_upsert(mb@, k, v));
                    lemma_doc_upsert_found(s0, name@, k, v, i as int);
                    assert(self@ == s0.update(
                        i as int,
                        (name@, assoc_upsert(s0[i as int].1, k, v)),
                    ));
                    lemma_assoc_get_found(self@, name@, i as int);
                    lemma_assoc_get_found(s0, name@, i as int);
                    assert forall|n2: Seq<u8>| n2 != name@ implies assoc_get(self@, n2)
                        == assoc_get(s0, n2) by {
                        lemma_assoc_get_update_other(s0, i as int, (name@, m@), n2);
                    }
                    assert forall|a: int, b: int| 0 <= a < b < self@.len() implies (
                    #[trigger] self@[a]).0 != (#[trigger] self@[b]).0 by {
                        assert(s0[a].0 != s0[b].0);
                    }
                    assert(final(self).spec_names() =~= old(self).spec_names());
                    assert forall|n2: Seq<u8>, k2: MetricKind| n2 != name@ || k2 != k implies final(self).spec_metric(n2, k2) == old(self).spec_metric(n2, k2) by {
                        if n2 == name@ {
                            assert(assoc_get(self@, name@) == Some(ma@));
                            assert(assoc_get(s0, name@) == Some(mb@));
                            assert(ma.spec_get(k2) == mb.spec_get(k2));
                        }
                    }
                }
                return ;
            }
            i = i + 1;
        }
        let name_vec = slice_to_vec(name);
        let mut m = AdapterMetrics::new();
        m.insert(k, v);
        let ghost ma = m;
        self.benchmarks.push((name_vec, m));
        proof {
            assert(self@ =~= s0.push((name@, m@)));
            assert(ma@ =~= seq![(k, v)]);
            lemma_doc_upsert_absent(s0, name@, k, v);
            lemma_assoc_get_found(self@, name@, s0.len() as int);
            lemma_assoc_get_absent(s0, name@);
            assert forall|n2: Seq<u8>| n2 != name@ implies assoc_get(self@, n2) == assoc_get(
                s0,
                n2,
            ) by {
                lemma_assoc_get_push_other(s0, (name@, m@), n2);
            }
            assert(final(self).spec_names() =~= old(self).spec_names().push(name@));
            assert forall|n2: Seq<u8>, k2: MetricKind| n2 != name@ || k2 != k implies final(self).spec_metric(n2, k2) == old(self).spec_metric(n2, k2) by {
                if n2 == name@ {
                    assert(assoc_get(self@, name@) == Some(ma@));
                    assert(ma.spec_get(k2) is None);
                    assert(assoc_get(s0, name@) is None);
                }
            }
        }
    }
}

} // verus!
