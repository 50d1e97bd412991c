//! The file-size runner's data: which files are measured and how their
//! sizes become one canonical report.
//!
//! Reading the sizes from disk is the caller's work; the computation
//! from measured `(file name, size in bytes)` pairs to the canonical
//! document, and its serialized JSON form, live here.

use vstd::prelude::*;
use vstd::string::StringSliceAdditionalSpecFns;
use vstd::utf8::encode_utf8;

use crate::adapters::json::to_json_bytes;
use crate::model::{doc_upsert, AdapterResults, MetricValue};
use crate::units::MetricKind;

verus! {

/// The UTF-8 bytes of each path, in order.
pub open spec fn path_bytes_of(paths: Seq<String>) -> Seq<Seq<u8>> {
    paths.map(|i: int, p: String| encode_utf8(p@))
}

/// The measured pairs as plain sequences.
pub open spec fn entry_views(entries: Seq<(Vec<u8>, u64)>) -> Seq<(Seq<u8>, u64)> {
    entries.map(|i: int, e: (Vec<u8>, u64)| (e.0@, e.1))
}

/// The canonical document owed for measured sizes: one file-size
/// metric of a thousand milli-bytes per byte, recorded in input order,
/// later duplicates overwriting earlier ones.
pub open spec fn file_doc_of(entries: Seq<(Seq<u8>, u64)>) -> Seq<
    (Seq<u8>, Seq<(MetricKind, MetricValue)>),
>
    decreases entries.len(),
{
    if entries.len() == 0 {
        Seq::empty()
    } else {
        doc_upsert(
            file_doc_of(entries.drop_last()),
            entries.last().0,
            MetricKind::FileSize,
            MetricValue {
                value: (entries.last().1 * 1000) as u64,
                lower_bound: None,
                upper_bound: None,
            },
        )
    }
}

/// The comma-and-space-separated listing of byte strings.
pub open spec fn joined_of(parts: Seq<Seq<u8>>) -> Seq<u8>
    decreases parts.len(),
{
    if parts.len() == 0 {
        Seq::empty()
    } else if parts.len() == 1 {
        parts[0]
    } else {
        joined_of(parts.drop_last()) + seq![44u8, 32u8] + parts.last()
    }
}

/// The files whose sizes one run reports.
#[derive(Clone, Debug)]
pub struct FileSize {
    pub paths: Vec<String>,
}

impl FileSize {
    pub fn new(file_paths: Vec<String>) -> (r: Self)
        ensures
            r.paths == file_paths,
    {
        FileSize { paths: file_paths }
    }

    /// The comma-separated listing of the measured paths, as the
    /// runner displays itself.
    pub fn display_bytes(&self) -> (r: Vec<u8>)
        ensures
            r@ == joined_of(path_bytes_of(self.paths@)),
    {
        let ghost pv = path_bytes_of(self.paths@);
        let mut out: Vec<u8> = Vec::new();
        let n = self.paths.len();
        let mut i: usize = 0;
        proof {
            assert(pv.take(0) =~= Seq::<Seq<u8>>::empty());
        }
        while i < n
            invariant
                n == self.paths@.len(),
                pv == path_bytes_of(self.paths@),
                pv.len() == n,
                i <= n,
                out@ == joined_of(pv.take(i as int)),
            decreases n - i,
        {
            proof {
                assert(pv.take(i as int + 1).drop_last() =~= pv.take(i as int));
                assert(pv.take(i as int + 1).last() == pv[i as int]);
            }
            if i > 0 {
                out.push(44);
                out.push(32);
            }
            let ghost base = out@;
            let bytes = self.paths[i].as_str().as_bytes();
            proof {
                assert(bytes@ == pv[i as int]);
            }
            let mut j: usize = 0;
            while j < bytes.len()
                invariant
                    j <= bytes@.len(),
                    out@ == base + bytes@.take(j as int),
                decreases bytes@.len() - j,
            {
                proof {
                    assert(bytes@.take(j as int + 1) =~= bytes@.take(j as int).push(
                        bytes@[j as int],
                    ));
                }
                out.push(bytes[j]);
                j = j + 1;
            }
            proof {
                assert(bytes@.take(bytes@.len() as int) =~= bytes@);
                if i == 0 {
                    assert(out@ =~= joined_of(pv.take(1)));
                } else {
                    assert(out@ =~= joined_of(pv.take(i as int)) + seq![44u8, 32u8] + pv[i as int]);
                    assert(out@ =~= joined_of(pv.take(i as int + 1)));
                }
            }
            i = i + 1;
        }
        proof {
            assert(pv.take(n as int) =~= pv);
        }
        out
    }

    /// Builds the canonical document for measured sizes: one benchmark
    /// per file, one file-size metric each, in the order measured,
    /// later duplicates overwriting earlier ones.
    pub fn results_of_sizes(entries: &Vec<(Vec<u8>, u64)>) -> (r: AdapterResults)
        requires
            forall|i: int|
                0 <= i < entries@.len() ==> (#[trigger] entries@[i]).1 <= u64::MAX / 1000,
        ensures
            r.wf(),
            r@ == file_doc_of(entry_views(entries@)),
    {
        let ghost ev = entry_views(entries@);
        let mut results = AdapterResults::new();
        let n = entries.len();
        let mut i: usize = 0;
        proof {
            assert(ev.take(0) =~= Seq::<(Seq<u8>, u64)>::empty());
            assert(results@ =~= file_doc_of(ev.take(0)));
        }
        while i < n
            invariant
                n == entries@.len(),
                ev == entry_views(entries@),
                ev.len() == n,
                i <= n,
                results.wf(),
                results@ == file_doc_of(ev.take(i as int)),
                forall|k: int|
                    0 <= k < entries@.len() ==> (#[trigger] entries@[k]).1 <= u64::MAX / 1000,
            decreases n - i,
        {
            proof {
                assert(ev.take(i as int + 1).drop_last() =~= ev.take(i as int));
                assert(ev.take(i as int + 1).last() == ev[i as int]);
            }
            let size = entries[i].1;
            let milli = size * 1000;
            results.insert_metric(
                entries[i].0.as_slice(),
                MetricKind::FileSize,
                MetricValue::point(milli),
            );
            i = i + 1;
        }
        proof {
            assert(ev.take(n as int) =~= ev);
        }
        results
    }

    /// The serialized report for measured sizes: the canonical
    /// document in the generic JSON schema.
    pub fn results_json(entries: &Vec<(Vec<u8>, u64)>) -> (r: Vec<u8>)
        requires
            forall|i: int|
                0 <= i < entries@.len() ==> (#[trigger] entries@[i]).1 <= u64::MAX / 1000,
        ensures
            r@ == crate::adapters::json::json_bytes_of(file_doc_of(entry_views(entries@))),
    {
        let results = Self::results_of_sizes(entries);
        to_json_bytes(&results)
    }
}

} // verus!
