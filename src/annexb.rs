//! Annex-B byte streams: locating start codes and cutting out NAL units.

use vstd::prelude::*;

verus! {

/// A 4-byte start code `00 00 00 01` begins at `i`.
pub open spec fn is_start4(d: Seq<u8>, i: int) -> bool {
    0 <= i && i + 3 < d.len() && d[i] == 0 && d[i + 1] == 0 && d[i + 2] == 0 && d[i + 3] == 1
}

/// A 3-byte start code `00 00 01` begins at `i`.
pub open spec fn is_start3(d: Seq<u8>, i: int) -> bool {
    0 <= i && i + 2 < d.len() && d[i] == 0 && d[i + 1] == 0 && d[i + 2] == 1
}

/// The start codes met by a left-to-right scan from `i`: for each, the
/// offset of the first NAL byte after it and the code's length. A 4-byte
/// code is preferred where both match, and the scan resumes after the code.
pub open spec fn start_entries(d: Seq<u8>, i: int) -> Seq<(int, int)>
    decreases d.len() - i,
{
    if i < 0 || i >= d.len() {
        Seq::empty()
    } else if is_start4(d, i) {
        seq![(i + 4, 4int)] + start_entries(d, i + 4)
    } else if is_start3(d, i) {
        seq![(i + 3, 3int)] + start_entries(d, i + 3)
    } else {
        start_entries(d, i + 1)
    }
}

/// Where the NAL that follows entry `k` ends: just before the next start
/// code, or at the end of the input.
pub open spec fn nal_end(d: Seq<u8>, es: Seq<(int, int)>, k: int) -> int {
    if k + 1 < es.len() {
        es[k + 1].0 - es[k + 1].1
    } else {
        d.len() as int
    }
}

/// The non-empty NAL units that follow entries `k..` of `es`.
pub open spec fn nals_from(d: Seq<u8>, es: Seq<(int, int)>, k: int) -> Seq<Seq<u8>>
    decreases es.len() - k,
{
    if k < 0 || k >= es.len() {
        Seq::empty()
    } else if es[k].0 < nal_end(d, es, k) {
        seq![d.subrange(es[k].0, nal_end(d, es, k))] + nals_from(d, es, k + 1)
    } else {
        nals_from(d, es, k + 1)
    }
}

/// The NAL units of an Annex-B byte stream, in order, start codes removed,
/// empty ones skipped.
pub open spec fn extract_nals(d: Seq<u8>) -> Seq<Seq<u8>> {
    nals_from(d, start_entries(d, 0), 0)
}

/// The views of a sequence of byte vectors.
pub open spec fn byte_views(v: Seq<Vec<u8>>) -> Seq<Seq<u8>> {
    v.map_values(|x: Vec<u8>| x@)
}

/// Each entry found from `i` lies after `i`, ends within the input, and its
/// start code lies after the previous entry's data offset.
pub proof fn lemma_start_entries_bounds(d: Seq<u8>, i: int)
    requires
        0 <= i,
    ensures
        forall|k: int|
            0 <= k < start_entries(d, i).len() ==> {
                &&& (#[trigger] start_entries(d, i)[k].1 == 3 || start_entries(d, i)[k].1 == 4)
                &&& i <= start_entries(d, i)[k].0 - start_entries(d, i)[k].1
                &&& start_entries(d, i)[k].0 <= d.len()
            },
        forall|k: int|
            0 <= k < start_entries(d, i).len() - 1 ==> #[trigger] start_entries(d, i)[k].0
                <= start_entries(d, i)[k + 1].0 - start_entries(d, i)[k + 1].1,
    decreases d.len() - i,
{
    if i >= d.len() {
    } else if is_start4(d, i) || is_start3(d, i) {
        let l: int = if is_start4(d, i) { 4 } else { 3 };
        lemma_start_entries_bounds(d, i + l);
        let rest = start_entries(d, i + l);
        let s = start_entries(d, i);
        assert(s == seq![(i + l, l)] + rest);
        assert forall|k: int| 0 <= k < s.len() implies {
            &&& (#[trigger] s[k].1 == 3 || s[k].1 == 4)
            &&& i <= s[k].0 - s[k].1
            &&& s[k].0 <= d.len()
        } by {
            if k > 0 {
                assert(s[k] == rest[k - 1]);
            }
        }
        assert forall|k: int| 0 <= k < s.len() - 1 implies #[trigger] s[k].0 <= s[k + 1].0 - s[k + 1].1 by {
            assert(s[k + 1] == rest[k]);
            if k > 0 {
                assert(s[k] == rest[k - 1]);
            }
        }
    } else {
        lemma_start_entries_bounds(d, i + 1);
        assert(start_entries(d, i) == start_entries(d, i + 1));
    }
}

/// Every NAL unit cut out from entries `k..` is non-empty.
pub proof fn lemma_nals_from_nonempty(d: Seq<u8>, es: Seq<(int, int)>, k: int)
    requires
        forall|j: int| 0 <= j < es.len() ==> 0 <= #[trigger] es[j].0 - es[j].1 && es[j].0 <= d.len() && 0 <= es[j].1,
    ensures
        forall|j: int| 0 <= j < nals_from(d, es, k).len() ==> nals_from(d, es, k)[j].len() > 0,
    decreases es.len() - k,
{
    if k < 0 || k >= es.len() {
    } else {
        lemma_nals_from_nonempty(d, es, k + 1);
        if es[k].0 < nal_end(d, es, k) {
            let rest = nals_from(d, es, k + 1);
            let s = seq![d.subrange(es[k].0, nal_end(d, es, k))];
            assert forall|j: int| 0 <= j < (s + rest).len() implies (s + rest)[j].len() > 0 by {
                if j > 0 {
                    assert((s + rest)[j] == rest[j - 1]);
                }
            }
            assert(nals_from(d, es, k) == s + rest);
        } else {
            assert(nals_from(d, es, k) == nals_from(d, es, k + 1));
        }
    }
}

/// Every NAL unit of an Annex-B stream is non-empty.
pub proof fn lemma_extract_nals_nonempty(d: Seq<u8>)
    ensures
        forall|j: int| 0 <= j < extract_nals(d).len() ==> extract_nals(d)[j].len() > 0,
{
    lemma_start_entries_bounds(d, 0);
    lemma_nals_from_nonempty(d, start_entries(d, 0), 0);
}

/// Copies `data[s..e]` into a new vector.
pub(crate) fn copy_range(data: &[u8], s: usize, e: usize) -> (r: Vec<u8>)
    requires
        s <= e <= data@.len(),
    ensures
        r@ == data@.subrange(s as int, e as int),
{
    let mut r: Vec<u8> = Vec::with_capacity(e - s);
    let mut i: usize = s;
    while i < e
        invariant
            s <= i <= e <= data@.len(),
            r@ == data@.subrange(s as int, i as int),
        decreases e - i,
    {
        r.push(data[i]);
        i = i + 1;
        assert(r@ =~= data@.subrange(s as int, i as int));
    }
    r
}

/// The views of `(usize, usize)` entries as integer pairs.
pub open spec fn entry_views(v: Seq<(usize, usize)>) -> Seq<(int, int)> {
    v.map_values(|p: (usize, usize)| (p.0 as int, p.1 as int))
}

/// Scans `data` for start codes; returns, for each, the offset of the first
/// NAL byte and the start code's length.
pub(crate) fn scan_start_codes(data: &[u8]) -> (r: Vec<(usize, usize)>)
    ensures
        entry_views(r@) == start_entries(data@, 0),
{
    let ghost d = data@;
    let mut entries: Vec<(usize, usize)> = Vec::new();
    let mut i: usize = 0;
    let n = data.len();
    while i < n
        invariant
            n == d.len(),
            d == data@,
            i <= n,
            entry_views(entries@) + start_entries(d, i as int) == start_entries(d, 0),
        decreases n - i,
    {
        let ghost before = entries@;
        let ghost i0 = i as int;
        if n - i > 3 && data[i] == 0 && data[i + 1] == 0 && data[i + 2] == 0 && data[i + 3] == 1 {
            assert(start_entries(d, i as int) == seq![(i + 4, 4int)] + start_entries(d, i + 4));
            entries.push((i + 4, 4));
            i = i + 4;
        } else if n - i > 2 && data[i] == 0 && data[i + 1] == 0 && data[i + 2] == 1 {
            assert(start_entries(d, i as int) == seq![(i + 3, 3int)] + start_entries(d, i + 3));
            entries.push((i + 3, 3));
            i = i + 3;
        } else {
            assert(start_entries(d, i as int) == start_entries(d, i + 1));
            i = i + 1;
        }
        assert(entry_views(entries@) + start_entries(d, i as int) =~= entry_views(before) + start_entries(d, i0));
    }
    assert(start_entries(d, i as int) == Seq::<(int, int)>::empty());
    assert(entry_views(entries@) =~= entry_views(entries@) + start_entries(d, i as int));
    entries
}

} // verus!
