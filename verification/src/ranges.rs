//! The address ranges written so far in the output image, for detecting
//! overlapping writes.

use vstd::prelude::*;
use crate::diags::{Diags, DiagView, Severity, SourceSpan};
use crate::fmt::{cat, hex_lower_digits, u64_to_hex_lower};

verus! {

/// One written range `[start, end)` and where it was written from.
pub type RangeEntry = (u64, u64, SourceSpan);

/// Entries ordered by start address (equal starts allowed).
pub open spec fn sorted(e: Seq<RangeEntry>) -> bool {
    forall|i: int, j: int| 0 <= i < j < e.len() ==> e[i].0 <= e[j].0
}

/// The number of entries whose start is at or below `start`; for sorted
/// entries these are exactly the first ones.
pub open spec fn split_point(e: Seq<RangeEntry>, start: u64) -> nat
    decreases e.len(),
{
    if e.len() == 0 {
        0
    } else if e.last().0 <= start {
        e.len()
    } else {
        split_point(e.drop_last(), start)
    }
}

/// Entry `i` is the first recorded range, in order of start address, that
/// `[start, end)` intersects.
pub open spec fn first_hit(e: Seq<RangeEntry>, start: u64, end: u64, i: int) -> bool {
    0 <= i < e.len() && intersects(e[i].0 as int, e[i].1 as int, start as int, end as int) && forall|j: int|
        0 <= j < i ==> !intersects(e[j].0 as int, e[j].1 as int, start as int, end as int)
}

/// The recorded range that `[start, end)` is reported to overlap: the first
/// one, in order of start address, that it intersects.
pub open spec fn overlap_spec(e: Seq<RangeEntry>, start: u64, end: u64) -> Option<RangeEntry> {
    if exists|i: int| first_hit(e, start, end, i) {
        Some(e[choose|i: int| first_hit(e, start, end, i)])
    } else {
        None
    }
}

/// The entries after recording `[start, end)`: every earlier range is kept,
/// and the new one goes after the ranges that start at or before it.
pub open spec fn insert_spec(e: Seq<RangeEntry>, start: u64, end: u64, loc: SourceSpan) -> Seq<RangeEntry> {
    e.insert(split_point(e, start) as int, (start, end, loc))
}

/// Two half-open ranges intersect.
pub open spec fn intersects(a0: int, a1: int, b0: int, b1: int) -> bool {
    a0 < b1 && b0 < a1
}

/// Every range is non-empty and no two ranges intersect.
pub open spec fn disjoint(e: Seq<RangeEntry>) -> bool {
    &&& forall|i: int| 0 <= i < e.len() ==> #[trigger] e[i].0 < e[i].1
    &&& forall|i: int, j: int| 0 <= i < j < e.len() ==> !intersects(e[i].0 as int, e[i].1 as int, e[j].0 as int, e[j].1 as int)
}

pub proof fn lemma_split_point(e: Seq<RangeEntry>, start: u64)
    requires
        sorted(e),
    ensures
        split_point(e, start) <= e.len(),
        forall|i: int| 0 <= i < split_point(e, start) ==> e[i].0 <= start,
        forall|i: int| split_point(e, start) <= i < e.len() ==> e[i].0 > start,
    decreases e.len(),
{
    if e.len() > 0 {
        if e.last().0 > start {
            let d = e.drop_last();
            assert(sorted(d)) by {
                assert forall|i: int, j: int| 0 <= i < j < d.len() implies d[i].0 <= d[j].0 by {
                    assert(d[i] == e[i] && d[j] == e[j]);
                }
            }
            lemma_split_point(d, start);
            assert forall|i: int| 0 <= i < split_point(e, start) implies e[i].0 <= start by {
                assert(d[i] == e[i]);
            }
            assert forall|i: int| split_point(e, start) <= i < e.len() implies e[i].0 > start by {
                if i < e.len() - 1 {
                    assert(d[i] == e[i]);
                }
            }
        } else {
            assert forall|i: int| 0 <= i < e.len() implies e[i].0 <= start by {
                if i < e.len() - 1 {
                    assert(e[i].0 <= e[e.len() - 1].0);
                }
            }
        }
    }
}

/// A new range is reported as overlapping exactly when it intersects some
/// range recorded earlier.
pub proof fn lemma_overlap_complete(e: Seq<RangeEntry>, start: u64, end: u64)
    ensures
        overlap_spec(e, start, end) is Some <==> exists|i: int| 0 <= i < e.len() && intersects(
            e[i].0 as int,
            e[i].1 as int,
            start as int,
            end as int,
        ),
{
    if exists|i: int| 0 <= i < e.len() && intersects(e[i].0 as int, e[i].1 as int, start as int, end as int) {
        let i = choose|i: int| 0 <= i < e.len() && intersects(e[i].0 as int, e[i].1 as int, start as int, end as int);
        lemma_first_hit_exists(e, start, end, i);
    }
}

/// Some intersecting entry gives a first one.
proof fn lemma_first_hit_exists(e: Seq<RangeEntry>, start: u64, end: u64, i: int)
    requires
        0 <= i < e.len(),
        intersects(e[i].0 as int, e[i].1 as int, start as int, end as int),
    ensures
        exists|k: int| first_hit(e, start, end, k),
    decreases i,
{
    if exists|j: int| 0 <= j < i && intersects(e[j].0 as int, e[j].1 as int, start as int, end as int) {
        let j = choose|j: int| 0 <= j < i && intersects(e[j].0 as int, e[j].1 as int, start as int, end as int);
        lemma_first_hit_exists(e, start, end, j);
    } else {
        assert(first_hit(e, start, end, i));
    }
}

/// Recording keeps every range recorded before, adds the new one, and
/// keeps the order.
pub proof fn lemma_insert_keeps_all(e: Seq<RangeEntry>, start: u64, end: u64, loc: SourceSpan)
    requires
        sorted(e),
    ensures
        sorted(insert_spec(e, start, end, loc)),
        insert_spec(e, start, end, loc).len() == e.len() + 1,
        insert_spec(e, start, end, loc).contains((start, end, loc)),
        forall|i: int| 0 <= i < e.len() ==> #[trigger] insert_spec(e, start, end, loc).contains(e[i]),
{
    lemma_split_point(e, start);
    let k = split_point(e, start) as int;
    let n = insert_spec(e, start, end, loc);
    assert(n[k] == (start, end, loc));
    assert forall|i: int| 0 <= i < e.len() implies #[trigger] n.contains(e[i]) by {
        if i < k {
            assert(n[i] == e[i]);
        } else {
            assert(n[i + 1] == e[i]);
        }
    }
    assert forall|i: int, j: int| 0 <= i < j < n.len() implies n[i].0 <= n[j].0 by {
        if i < k && j > k {
            assert(n[j] == e[j - 1]);
        } else if i > k {
            assert(n[i] == e[i - 1]);
            assert(n[j] == e[j - 1]);
        } else if i == k {
            assert(n[j] == e[j - 1]);
        }
    }
}

/// Recording a range that was not reported as overlapping keeps non-empty,
/// pairwise disjoint ranges pairwise disjoint.
pub proof fn lemma_insert_keeps_disjoint(e: Seq<RangeEntry>, start: u64, end: u64, loc: SourceSpan)
    requires
        sorted(e),
        disjoint(e),
        start < end,
        overlap_spec(e, start, end) is None,
    ensures
        sorted(insert_spec(e, start, end, loc)),
        disjoint(insert_spec(e, start, end, loc)),
{
    lemma_split_point(e, start);
    lemma_overlap_complete(e, start, end);
    lemma_insert_keeps_all(e, start, end, loc);
    let k = split_point(e, start) as int;
    let n = insert_spec(e, start, end, loc);
    assert forall|i: int, j: int| 0 <= i < j < n.len() implies !intersects(
        n[i].0 as int,
        n[i].1 as int,
        n[j].0 as int,
        n[j].1 as int,
    ) by {
        if i == k {
            assert(n[j] == e[j - 1]);
            assert(!intersects(e[j - 1].0 as int, e[j - 1].1 as int, start as int, end as int));
        } else if j == k {
            assert(n[i] == e[i]);
            assert(!intersects(e[i].0 as int, e[i].1 as int, start as int, end as int));
        } else if i < k && j > k {
            assert(n[i] == e[i]);
            assert(n[j] == e[j - 1]);
        } else if i > k {
            assert(n[i] == e[i - 1]);
            assert(n[j] == e[j - 1]);
        } else {
            assert(n[i] == e[i]);
            assert(n[j] == e[j]);
        }
    }
    assert forall|i: int| 0 <= i < n.len() implies #[trigger] n[i].0 < n[i].1 by {
        if i < k {
            assert(n[i] == e[i]);
        } else if i > k {
            assert(n[i] == e[i - 1]);
        }
    }
}

/// Every range written so far, in order of start address.
pub struct WrittenRanges {
    entries: Vec<RangeEntry>,
}

pub open spec fn overlap_msg(start: u64, end: u64, p: RangeEntry) -> Seq<char> {
    "Address range "@ + seq!['0', 'x'] + hex_lower_digits(start as nat) + ".."@ + seq!['0', 'x']
        + hex_lower_digits(end as nat) + " overlaps previously written range "@ + seq!['0', 'x']
        + hex_lower_digits(p.0 as nat) + ".."@ + seq!['0', 'x'] + hex_lower_digits(p.1 as nat)
}

impl WrittenRanges {
    /// The recorded ranges in order of start address.
    pub closed spec fn ranges(&self) -> Seq<RangeEntry> {
        self.entries@
    }

    /// No range is recorded yet.
    pub fn new() -> (r: WrittenRanges)
        ensures
            r.ranges() == Seq::<RangeEntry>::empty(),
    {
        WrittenRanges { entries: Vec::new() }
    }

    /// Records `[start, start + size)` as written.  If it intersects any
    /// range recorded earlier, reports `code` against the first of them (in
    /// order of start address) and returns false; the range is recorded
    /// either way, so that later writes are checked against it too.  An
    /// empty range is ignored.
    pub fn check_and_record(&mut self, start: u64, size: u64, src_loc: SourceSpan, code: &str, diags: &mut Diags) -> (ok: bool)
        requires
            start + size <= u64::MAX,
            sorted(old(self).ranges()),
        ensures
            sorted(final(self).ranges()),
            final(diags).files_view() == old(diags).files_view(),
            size == 0 ==> ok && final(self).ranges() == old(self).ranges() && final(diags).records() == old(diags).records(),
            size > 0 ==> final(self).ranges() == insert_spec(old(self).ranges(), start, (start + size) as u64, src_loc),
            size > 0 ==> (ok <==> !exists|i: int| 0 <= i < old(self).ranges().len() && intersects(
                old(self).ranges()[i].0 as int,
                old(self).ranges()[i].1 as int,
                start as int,
                start + size,
            )),
            size > 0 ==> match overlap_spec(old(self).ranges(), start, (start + size) as u64) {
                None => ok && final(diags).records() == old(diags).records(),
                Some(p) => !ok && final(diags).records() == old(diags).records().push(DiagView {
                    severity: Severity::Error,
                    code: code@,
                    msg: overlap_msg(start, (start + size) as u64, p),
                    primary: Some(src_loc),
                    secondaries: seq![(p.2, Seq::<char>::empty())],
                }),
            },
    {
        if size == 0 {
            return true;
        }
        let end = start + size;
        let ghost e = self.entries@;
        proof {
            lemma_split_point(e, start);
            lemma_overlap_complete(e, start, end);
            lemma_insert_keeps_all(e, start, end, src_loc);
        }
        // The first recorded range that the new one intersects.
        let mut h: usize = 0;
        while h < self.entries.len() && !(self.entries[h].0 < end && start < self.entries[h].1)
            invariant
                self.entries@ == e,
                h <= e.len(),
                forall|j: int| 0 <= j < h ==> !intersects(e[j].0 as int, e[j].1 as int, start as int, end as int),
            decreases e.len() - h,
        {
            h = h + 1;
        }
        let overlap: Option<RangeEntry> = if h < self.entries.len() {
            proof {
                assert(first_hit(e, start, end, h as int));
                let c = choose|c: int| first_hit(e, start, end, c);
                assert(first_hit(e, start, end, c));
                if c < h {
                    assert(!intersects(e[c].0 as int, e[c].1 as int, start as int, end as int));
                } else if c > h {
                    assert(!intersects(e[h as int].0 as int, e[h as int].1 as int, start as int, end as int));
                }
            }
            Some(self.entries[h])
        } else {
            None
        };
        // The insertion point: the number of entries starting at or before `start`.
        let mut k: usize = 0;
        while k < self.entries.len() && self.entries[k].0 <= start
            invariant
                self.entries@ == e,
                sorted(e),
                k <= e.len(),
                forall|i: int| 0 <= i < k ==> e[i].0 <= start,
            decreases e.len() - k,
        {
            k = k + 1;
        }
        proof {
            let sp = split_point(e, start) as int;
            if sp < k {
                assert(e[sp].0 > start);
            }
            if k < sp {
                assert(e[k as int].0 <= start);
            }
            assert(k == sp);
        }
        self.entries.insert(k, (start, end, src_loc));
        match overlap {
            None => true,
            Some(p) => {
                let msg = cat(cat(cat(cat(cat(cat(cat(String::from_str("Address range "),
                    u64_to_hex_lower(start).as_str()), ".."), u64_to_hex_lower(end).as_str()),
                    " overlaps previously written range "), u64_to_hex_lower(p.0).as_str()), ".."),
                    u64_to_hex_lower(p.1).as_str());
                proof {
                    reveal_strlit("Address range ");
                    reveal_strlit("..");
                    reveal_strlit(" overlaps previously written range ");
                    assert(msg@ =~= overlap_msg(start, end, p));
                }
                diags.err2(code, msg.as_str(), src_loc, p.2);
                false
            },
        }
    }
}

} // verus!
