use vstd::prelude::*;

use std::ops::Range;

use crate::color::Hsla;
use crate::text::{empty_highlight, is_layer_chain, layered, layers_to, lemma_layers_single, HighlightStyle};

verus! {

/// The elements of `s` increase strictly from left to right.
pub open spec fn strictly_increasing(s: Seq<usize>) -> bool {
    forall|a: int, b: int| 0 <= a < b < s.len() ==> #[trigger] s[a] < #[trigger] s[b]
}

/// `p` is where the range `r` starts or ends, and `r` is not empty.
pub open spec fn is_boundary_of(r: Range<usize>, p: int) -> bool {
    r.start < r.end && (r.start == p || r.end == p)
}

/// `p` is where one of the first `n` ranges starts or ends, empty ranges left out.
pub open spec fn boundary_within(ranges: Seq<Range<usize>>, n: int, p: int) -> bool {
    exists|i: int| 0 <= i < n && #[trigger] is_boundary_of(ranges[i], p)
}

/// `p` is where one of the non-empty `ranges` starts or ends.
pub open spec fn is_boundary(ranges: Seq<Range<usize>>, p: int) -> bool {
    boundary_within(ranges, ranges.len() as int, p)
}

/// Range number `i` holds the position `p`.
pub open spec fn covers(ranges: Seq<Range<usize>>, i: int, p: int) -> bool {
    0 <= i < ranges.len() && ranges[i].start <= p < ranges[i].end
}

/// `start..end` lies between two successive boundaries of `ranges`, and `ids`
/// lists in increasing order the numbers of the ranges that hold it.
pub open spec fn is_segment(ranges: Seq<Range<usize>>, start: int, end: int, ids: Seq<usize>) -> bool {
    &&& start < end
    &&& is_boundary(ranges, start)
    &&& is_boundary(ranges, end)
    &&& forall|m: int| start < m < end ==> !#[trigger] is_boundary(ranges, m)
    &&& ids.len() > 0
    &&& strictly_increasing(ids)
    &&& forall|j: int| 0 <= j < ids.len() ==> covers(ranges, #[trigger] ids[j] as int, start)
    &&& forall|i: int| #[trigger] covers(ranges, i, start) ==> ids.contains(i as usize)
}

/// `segs` cuts the covered positions of `ranges` at every boundary: one
/// segment, in increasing order, for each boundary that some range holds,
/// reaching to the next boundary, with the ranges that hold it.
pub open spec fn is_segmentation(ranges: Seq<Range<usize>>, segs: Seq<(Range<usize>, Seq<usize>)>) -> bool {
    &&& forall|k: int|
        0 <= k < segs.len() ==> is_segment(
            ranges,
            #[trigger] segs[k].0.start as int,
            segs[k].0.end as int,
            segs[k].1,
        )
    &&& forall|k: int, l: int|
        0 <= k < l < segs.len() ==> #[trigger] segs[k].0.start < #[trigger] segs[l].0.start
    &&& forall|p: int, i: int|
        is_boundary(ranges, p) && #[trigger] covers(ranges, i, p) ==> exists|k: int|
            0 <= k < segs.len() && #[trigger] segs[k].0.start == p
}

/// The segments with their lists of range numbers as sequences.
pub open spec fn segments_view(segs: Seq<(Range<usize>, Vec<usize>)>) -> Seq<(Range<usize>, Seq<usize>)> {
    segs.map_values(|s: (Range<usize>, Vec<usize>)| (s.0, s.1@))
}

/// Inserts `x` into the strictly increasing `v`, unless it is there already.
fn insert_sorted(v: &mut Vec<usize>, x: usize)
    requires
        strictly_increasing(old(v)@),
    ensures
        strictly_increasing(final(v)@),
        forall|y: usize| final(v)@.contains(y) <==> (old(v)@.contains(y) || y == x),
{
    let mut i: usize = 0;
    while i < v.len() && v[i] < x
        invariant
            i <= v.len(),
            v@ == old(v)@,
            strictly_increasing(v@),
            forall|j: int| 0 <= j < i ==> v@[j] < x,
        decreases v.len() - i,
    {
        i = i + 1;
    }
    if i < v.len() && v[i] == x {
        assert(v@.contains(x) && v@[i as int] == x);
        return;
    }
    let ghost before = v@;
    v.insert(i, x);
    proof {
        assert(v@ == before.insert(i as int, x));
        assert forall|a: int, b: int| 0 <= a < b < v@.len() implies #[trigger] v@[a] < #[trigger] v@[b] by {
            if i < before.len() {
                assert(before[i as int] > x);
            }
        }
        assert forall|y: usize| v@.contains(y) <==> (before.contains(y) || y == x) by {
            if v@.contains(y) {
                let j = choose|j: int| 0 <= j < v@.len() && v@[j] == y;
                if j < i {
                    assert(before[j] == y);
                } else if j > i {
                    assert(before[j - 1] == y);
                }
            }
            if before.contains(y) {
                let j = choose|j: int| 0 <= j < before.len() && before[j] == y;
                if j < i {
                    assert(v@[j] == y);
                } else {
                    assert(v@[j + 1] == y);
                }
            }
            if y == x {
                assert(v@[i as int] == y);
            }
        }
        assert(before == old(v)@);
        assert(forall|y: usize| v@.contains(y) <==> (old(v)@.contains(y) || y == x));
    }
}

/// The boundaries of `ranges`, each once, in increasing order.
fn boundaries(ranges: &Vec<Range<usize>>) -> (pos: Vec<usize>)
    ensures
        strictly_increasing(pos@),
        forall|p: usize| pos@.contains(p) <==> is_boundary(ranges@, p as int),
{
    let mut pos: Vec<usize> = Vec::new();
    let mut i: usize = 0;
    while i < ranges.len()
        invariant
            i <= ranges.len(),
            strictly_increasing(pos@),
            forall|p: usize| pos@.contains(p) <==> boundary_within(ranges@, i as int, p as int),
        decreases ranges.len() - i,
    {
        let start = ranges[i].start;
        let end = ranges[i].end;
        let ghost before = pos@;
        if start < end {
            insert_sorted(&mut pos, start);
            insert_sorted(&mut pos, end);
        }
        proof {
            assert forall|p: usize| pos@.contains(p) <==> boundary_within(ranges@, i + 1, p as int) by {
                if is_boundary_of(ranges@[i as int], p as int) {
                    assert(boundary_within(ranges@, i + 1, p as int));
                }
                if boundary_within(ranges@, i + 1, p as int) {
                    let j = choose|j: int| 0 <= j < i + 1 && #[trigger] is_boundary_of(ranges@[j], p as int);
                    if j < i {
                        assert(boundary_within(ranges@, i as int, p as int));
                    }
                }
                if before.contains(p) {
                    assert(boundary_within(ranges@, i as int, p as int));
                    let j = choose|j: int| 0 <= j < i && #[trigger] is_boundary_of(ranges@[j], p as int);
                    assert(boundary_within(ranges@, i + 1, p as int));
                }
            }
        }
        i = i + 1;
    }
    pos
}

/// A boundary of `ranges` stands in `pos`, the list of all its boundaries.
proof fn boundary_index(ranges: Seq<Range<usize>>, pos: Seq<usize>, p: int) -> (j: int)
    requires
        forall|q: usize| pos.contains(q) <==> is_boundary(ranges, q as int),
        is_boundary(ranges, p),
    ensures
        0 <= j < pos.len(),
        pos[j] == p,
{
    let i = choose|i: int| 0 <= i < ranges.len() && #[trigger] is_boundary_of(ranges[i], p);
    let q: usize = if ranges[i].start == p { ranges[i].start } else { ranges[i].end };
    assert(is_boundary(ranges, q as int));
    assert(pos.contains(q));
    choose|j: int| 0 <= j < pos.len() && pos[j] == q
}

/// Whether range `i` holds the boundary `pos[k]` follows from whether it held
/// the boundary before it: it does if it starts there, or if it held the
/// previous one and does not end there.
proof fn lemma_cover_step(ranges: Seq<Range<usize>>, pos: Seq<usize>, k: int, i: int)
    requires
        strictly_increasing(pos),
        forall|q: usize| pos.contains(q) <==> is_boundary(ranges, q as int),
        0 <= k < pos.len(),
        0 <= i < ranges.len(),
    ensures
        covers(ranges, i, pos[k] as int) <==> (ranges[i].start < ranges[i].end && (ranges[i].start
            == pos[k] || (ranges[i].end != pos[k] && k > 0 && covers(ranges, i, pos[k - 1] as int)))),
{
    let r = ranges[i];
    if r.start < r.end {
        assert(is_boundary_of(r, r.start as int));
        assert(is_boundary_of(r, r.end as int));
        let js = boundary_index(ranges, pos, r.start as int);
        let je = boundary_index(ranges, pos, r.end as int);
        assert(js < je);
        if js < k {
            assert(pos[js] < pos[k]);
        }
        if js > k {
            assert(pos[k] < pos[js]);
        }
        if je > k {
            assert(pos[k] < pos[je]);
        }
        if je < k {
            assert(pos[je] < pos[k]);
        }
        if k > 0 {
            if js < k - 1 {
                assert(pos[js] < pos[k - 1]);
            }
            if js > k - 1 {
                assert(pos[k - 1] < pos[js]);
            }
            if je > k - 1 {
                assert(pos[k - 1] < pos[je]);
            }
            if je < k - 1 {
                assert(pos[je] < pos[k - 1]);
            }
        }
    }
}

/// The increasing list of the indices at which `active` holds `true`.
fn active_ids(active: &Vec<bool>) -> (ids: Vec<usize>)
    ensures
        strictly_increasing(ids@),
        forall|j: int| 0 <= j < ids@.len() ==> #[trigger] ids@[j] < active@.len() && active@[ids@[j] as int],
        forall|i: int| 0 <= i < active@.len() && active@[i] ==> ids@.contains(i as usize),
{
    let mut ids: Vec<usize> = Vec::new();
    let mut i: usize = 0;
    while i < active.len()
        invariant
            i <= active@.len(),
            strictly_increasing(ids@),
            forall|j: int| 0 <= j < ids@.len() ==> #[trigger] ids@[j] < i && active@[ids@[j] as int],
            forall|m: int| 0 <= m < i && active@[m] ==> ids@.contains(m as usize),
        decreases active.len() - i,
    {
        if active[i] {
            let ghost before = ids@;
            ids.push(i);
            proof {
                assert(ids@[before.len() as int] == i);
                assert forall|m: int| 0 <= m < i && active@[m] implies ids@.contains(m as usize) by {
                    let j = choose|j: int| 0 <= j < before.len() && before[j] == m as usize;
                    assert(ids@[j] == m as usize);
                }
            }
        }
        i = i + 1;
    }
    ids
}

/// Cuts the positions held by `ranges` at every place where a range starts
/// or ends. Each piece comes with the increasing list of the numbers of the
/// ranges that hold it; pieces that no range holds are left out, and empty
/// ranges hold nothing.
pub fn highlight_segments(ranges: &Vec<Range<usize>>) -> (segs: Vec<(Range<usize>, Vec<usize>)>)
    ensures
        is_segmentation(ranges@, segments_view(segs@)),
{
    let pos = boundaries(ranges);
    let n = ranges.len();
    let mut active: Vec<bool> = Vec::new();
    let mut i: usize = 0;
    while i < n
        invariant
            i <= n,
            active@.len() == i,
            forall|m: int| 0 <= m < i ==> !active@[m],
        decreases n - i,
    {
        active.push(false);
        i = i + 1;
    }
    let mut segs: Vec<(Range<usize>, Vec<usize>)> = Vec::new();
    let ghost mut gsegs: Seq<(Range<usize>, Seq<usize>)> = Seq::empty();
    let mut k: usize = 0;
    while k < pos.len()
        invariant
            n == ranges@.len(),
            active@.len() == n,
            strictly_increasing(pos@),
            forall|q: usize| pos@.contains(q) <==> is_boundary(ranges@, q as int),
            k <= pos@.len(),
            forall|m: int| 0 <= m < n ==> active@[m] == (k > 0 && covers(ranges@, m, pos@[k - 1] as int)),
            gsegs == segments_view(segs@),
            forall|s: int|
                0 <= s < gsegs.len() ==> is_segment(
                    ranges@,
                    #[trigger] gsegs[s].0.start as int,
                    gsegs[s].0.end as int,
                    gsegs[s].1,
                ),
            forall|s: int, t: int|
                0 <= s < t < gsegs.len() ==> #[trigger] gsegs[s].0.start < #[trigger] gsegs[t].0.start,
            k == 0 ==> gsegs.len() == 0,
            k > 0 ==> forall|s: int| 0 <= s < gsegs.len() ==> #[trigger] gsegs[s].0.start <= pos@[k - 1],
            forall|j: int, m: int|
                0 <= j < k && #[trigger] covers(ranges@, m, pos@[j] as int) ==> exists|s: int|
                    0 <= s < gsegs.len() && #[trigger] gsegs[s].0.start == pos@[j],
        decreases pos.len() - k,
    {
        let p = pos[k];
        let ghost gsegs_before = gsegs;
        let mut i: usize = 0;
        while i < n
            invariant
                n == ranges@.len(),
                active@.len() == n,
                strictly_increasing(pos@),
                forall|q: usize| pos@.contains(q) <==> is_boundary(ranges@, q as int),
                k < pos@.len(),
                p == pos@[k as int],
                i <= n,
                forall|m: int| 0 <= m < i ==> active@[m] == covers(ranges@, m, p as int),
                forall|m: int|
                    i <= m < n ==> active@[m] == (k > 0 && covers(ranges@, m, pos@[k - 1] as int)),
            decreases n - i,
        {
            proof {
                lemma_cover_step(ranges@, pos@, k as int, i as int);
            }
            let start = ranges[i].start;
            let end = ranges[i].end;
            if start < end {
                if start == p {
                    active.set(i, true);
                } else if end == p {
                    active.set(i, false);
                }
            }
            i = i + 1;
        }
        proof {
            assert(pos@.contains(p));
        }
        if k + 1 < pos.len() {
            let next = pos[k + 1];
            let ids = active_ids(&active);
            if ids.len() > 0 {
                let ghost gids = ids@;
                proof {
                    assert(pos@.contains(next));
                    assert(p < next);
                    assert forall|m: int| p < m < next implies !#[trigger] is_boundary(ranges@, m) by {
                        if is_boundary(ranges@, m) {
                            let j = boundary_index(ranges@, pos@, m);
                            if j <= k {
                                assert(pos@[j] <= pos@[k as int]);
                            } else {
                                assert(pos@[k + 1] <= pos@[j]);
                            }
                        }
                    }
                    assert forall|j: int| 0 <= j < gids.len() implies covers(
                        ranges@,
                        #[trigger] gids[j] as int,
                        p as int,
                    ) by {
                        assert(active@[gids[j] as int]);
                    }
                    assert forall|m: int| #[trigger] covers(ranges@, m, p as int) implies gids.contains(
                        m as usize,
                    ) by {
                        assert(active@[m]);
                    }
                    assert(is_segment(ranges@, p as int, next as int, gids));
                }
                segs.push((Range { start: p, end: next }, ids));
                proof {
                    let ghost old_gsegs = gsegs;
                    gsegs = gsegs.push((Range { start: p, end: next }, gids));
                    assert(segments_view(segs@) =~= gsegs);
                    assert forall|s: int|
                        0 <= s < gsegs.len() implies is_segment(
                        ranges@,
                        #[trigger] gsegs[s].0.start as int,
                        gsegs[s].0.end as int,
                        gsegs[s].1,
                    ) by {
                        if s < old_gsegs.len() {
                            assert(gsegs[s] == old_gsegs[s]);
                        }
                    }
                    if k > 0 {
                        assert(pos@[k - 1] < p);
                    }
                }
            }
        }
        proof {
            if k > 0 {
                assert(pos@[k - 1] < p);
            }
            assert(gsegs.len() >= gsegs_before.len());
            assert(forall|s: int| 0 <= s < gsegs_before.len() ==> gsegs[s] == gsegs_before[s]);
            assert forall|j: int, m: int|
                0 <= j < k + 1 && #[trigger] covers(ranges@, m, pos@[j] as int) implies exists|s: int|
                0 <= s < gsegs.len() && #[trigger] gsegs[s].0.start == pos@[j] by {
                if j == k {
                    assert(active@[m]);
                    let r = ranges@[m];
                    assert(is_boundary_of(r, r.end as int));
                    let je = boundary_index(ranges@, pos@, r.end as int);
                    if je <= k {
                        assert(pos@[je] <= pos@[k as int]);
                    }
                    assert(k + 1 < pos@.len());
                    assert(gsegs[gsegs.len() - 1].0.start == pos@[j]);
                } else {
                    let s = choose|s: int|
                        0 <= s < gsegs_before.len() && #[trigger] gsegs_before[s].0.start == pos@[j];
                    assert(gsegs[s] == gsegs_before[s]);
                }
            }
        }
        k = k + 1;
    }
    proof {
        assert forall|p: int, m: int|
            is_boundary(ranges@, p) && #[trigger] covers(ranges@, m, p) implies exists|s: int|
            0 <= s < gsegs.len() && #[trigger] gsegs[s].0.start == p by {
            let j = boundary_index(ranges@, pos@, p);
            assert(covers(ranges@, m, pos@[j] as int));
        }
    }
    segs
}

/// The greatest boundary of the first `n` ranges that is at most `x`, or -1.
pub open spec fn last_boundary_upto(ranges: Seq<Range<usize>>, n: int, x: int) -> int
    decreases n,
{
    if n <= 0 {
        -1
    } else {
        let prev = last_boundary_upto(ranges, n - 1, x);
        let r = ranges[n - 1];
        let a = if r.start < r.end && r.start <= x && r.start > prev { r.start as int } else { prev };
        if r.start < r.end && r.end <= x && r.end > a {
            r.end as int
        } else {
            a
        }
    }
}

proof fn lemma_last_boundary_upto(ranges: Seq<Range<usize>>, n: int, x: int)
    requires
        0 <= n <= ranges.len(),
        0 <= x,
    ensures
        last_boundary_upto(ranges, n, x) <= x,
        last_boundary_upto(ranges, n, x) >= 0 ==> boundary_within(ranges, n, last_boundary_upto(ranges, n, x)),
        forall|q: int| boundary_within(ranges, n, q) && q <= x ==> q <= last_boundary_upto(ranges, n, x),
    decreases n,
{
    if n > 0 {
        lemma_last_boundary_upto(ranges, n - 1, x);
        let prev = last_boundary_upto(ranges, n - 1, x);
        let cur = last_boundary_upto(ranges, n, x);
        let r = ranges[n - 1];
        if cur >= 0 {
            if cur == r.start || cur == r.end {
                if r.start < r.end {
                    assert(is_boundary_of(ranges[n - 1], cur));
                } else {
                    assert(cur == prev);
                }
            }
            if cur != r.start && cur != r.end || !(r.start < r.end) {
                assert(cur == prev);
                let j = choose|j: int| 0 <= j < n - 1 && #[trigger] is_boundary_of(ranges[j], cur);
                assert(boundary_within(ranges, n, cur));
            }
        }
        assert forall|q: int| boundary_within(ranges, n, q) && q <= x implies q <= cur by {
            let j = choose|j: int| 0 <= j < n && #[trigger] is_boundary_of(ranges[j], q);
            if j < n - 1 {
                assert(boundary_within(ranges, n - 1, q));
            }
        }
    }
}

/// A segment holds exactly the ranges that hold its start, at each of its positions.
proof fn lemma_segment_positions(ranges: Seq<Range<usize>>, start: int, end: int, ids: Seq<usize>, x: int, i: int)
    requires
        is_segment(ranges, start, end, ids),
        start <= x < end,
    ensures
        covers(ranges, i, x) <==> covers(ranges, i, start),
{
    if 0 <= i < ranges.len() {
        let r = ranges[i];
        if r.start < r.end {
            assert(is_boundary_of(r, r.start as int));
            assert(is_boundary_of(r, r.end as int));
            assert(is_boundary(ranges, r.start as int));
            assert(is_boundary(ranges, r.end as int));
        }
    }
}

/// Every position of a segment is held by exactly the ranges that the
/// segment lists, and every position that some range holds lies in a segment.
/// So the segments cover exactly the positions that the ranges cover, and
/// each one carries exactly the ranges that cover it.
pub proof fn lemma_segmentation_covers_exactly(
    ranges: Seq<Range<usize>>,
    segs: Seq<(Range<usize>, Seq<usize>)>,
    x: int,
)
    requires
        is_segmentation(ranges, segs),
    ensures
        (exists|i: int| #[trigger] covers(ranges, i, x)) <==> (exists|k: int|
            0 <= k < segs.len() && segs[k].0.start <= x < #[trigger] segs[k].0.end),
        forall|k: int, i: usize|
            0 <= k < segs.len() && segs[k].0.start <= x < segs[k].0.end ==> (#[trigger] covers(
                ranges,
                i as int,
                x,
            ) <==> #[trigger] segs[k].1.contains(i)),
{
    assert forall|k: int, i: usize|
        0 <= k < segs.len() && segs[k].0.start <= x < segs[k].0.end implies (#[trigger] covers(
            ranges,
            i as int,
            x,
        ) <==> #[trigger] segs[k].1.contains(i)) by {
        let seg = segs[k];
        assert(is_segment(ranges, seg.0.start as int, seg.0.end as int, seg.1));
        lemma_segment_positions(ranges, seg.0.start as int, seg.0.end as int, seg.1, x, i as int);
        if seg.1.contains(i) {
            let j = choose|j: int| 0 <= j < seg.1.len() && seg.1[j] == i;
            assert(covers(ranges, seg.1[j] as int, seg.0.start as int));
        }
    }
    if exists|k: int| 0 <= k < segs.len() && segs[k].0.start <= x < #[trigger] segs[k].0.end {
        let k = choose|k: int| 0 <= k < segs.len() && segs[k].0.start <= x < #[trigger] segs[k].0.end;
        let seg = segs[k];
        assert(is_segment(ranges, seg.0.start as int, seg.0.end as int, seg.1));
        let i = seg.1[0] as int;
        assert(covers(ranges, seg.1[0] as int, seg.0.start as int));
        lemma_segment_positions(ranges, seg.0.start as int, seg.0.end as int, seg.1, x, i);
        assert(covers(ranges, i, x));
    }
    if exists|i: int| #[trigger] covers(ranges, i, x) {
        let i = choose|i: int| #[trigger] covers(ranges, i, x);
        let n = ranges.len() as int;
        lemma_last_boundary_upto(ranges, n, x);
        let r = ranges[i];
        assert(is_boundary_of(r, r.start as int));
        assert(is_boundary_of(r, r.end as int));
        assert(boundary_within(ranges, n, r.start as int));
        let p = last_boundary_upto(ranges, n, x);
        assert(r.start <= p);
        assert(is_boundary(ranges, p));
        assert(covers(ranges, i, p));
        let k = choose|k: int| 0 <= k < segs.len() && #[trigger] segs[k].0.start == p;
        let seg = segs[k];
        assert(is_segment(ranges, seg.0.start as int, seg.0.end as int, seg.1));
        if seg.0.end <= x {
            assert(is_boundary(ranges, seg.0.end as int));
            assert(seg.0.end <= p);
        }
        assert(segs[k].0.start <= x < segs[k].0.end);
    }
}

/// The segments of a segmentation do not overlap: each one ends at or
/// before the start of the next.
pub proof fn lemma_segments_disjoint(ranges: Seq<Range<usize>>, segs: Seq<(Range<usize>, Seq<usize>)>)
    requires
        is_segmentation(ranges, segs),
    ensures
        forall|k: int, l: int| 0 <= k < l < segs.len() ==> #[trigger] segs[k].0.end <= #[trigger] segs[l].0.start,
{
    assert forall|k: int, l: int| 0 <= k < l < segs.len() implies #[trigger] segs[k].0.end <= #[trigger] segs[l].0.start by {
        let a = segs[k];
        let b = segs[l];
        assert(is_segment(ranges, a.0.start as int, a.0.end as int, a.1));
        assert(is_segment(ranges, b.0.start as int, b.0.end as int, b.1));
        assert(a.0.start < b.0.start);
        if b.0.start < a.0.end {
            assert(!is_boundary(ranges, b.0.start as int));
        }
    }
}

/// Two strictly increasing sequences with the same elements are equal.
proof fn lemma_increasing_unique(a: Seq<usize>, b: Seq<usize>)
    requires
        strictly_increasing(a),
        strictly_increasing(b),
        forall|x: usize| a.contains(x) <==> b.contains(x),
    ensures
        a == b,
    decreases a.len(),
{
    if a.len() == 0 {
        if b.len() > 0 {
            assert(b.contains(b[0]));
        }
        assert(a =~= b);
    } else if b.len() == 0 {
        assert(a.contains(a[0]));
    } else {
        let la = a.last();
        let lb = b.last();
        assert(a.contains(la));
        assert(b.contains(lb));
        let ja = choose|j: int| 0 <= j < a.len() && a[j] == lb;
        let jb = choose|j: int| 0 <= j < b.len() && b[j] == la;
        if ja < a.len() - 1 {
            assert(a[ja] < a[a.len() - 1]);
        }
        if jb < b.len() - 1 {
            assert(b[jb] < b[b.len() - 1]);
        }
        assert(la == lb);
        let a2 = a.drop_last();
        let b2 = b.drop_last();
        assert forall|x: usize| a2.contains(x) <==> b2.contains(x) by {
            if a2.contains(x) {
                let j = choose|j: int| 0 <= j < a2.len() && a2[j] == x;
                assert(a[j] < a[a.len() - 1]);
                assert(a.contains(x));
                let m = choose|m: int| 0 <= m < b.len() && b[m] == x;
                assert(m != b.len() - 1);
                assert(b2[m] == x);
            }
            if b2.contains(x) {
                let j = choose|j: int| 0 <= j < b2.len() && b2[j] == x;
                assert(b[j] < b[b.len() - 1]);
                assert(b.contains(x));
                let m = choose|m: int| 0 <= m < a.len() && a[m] == x;
                assert(m != a.len() - 1);
                assert(a2[m] == x);
            }
        }
        lemma_increasing_unique(a2, b2);
        assert(a =~= a2.push(la));
        assert(b =~= b2.push(lb));
    }
}

/// The starts of the segments.
pub open spec fn segment_starts(segs: Seq<(Range<usize>, Seq<usize>)>) -> Seq<usize> {
    segs.map_values(|s: (Range<usize>, Seq<usize>)| s.0.start)
}

proof fn lemma_segment_starts(ranges: Seq<Range<usize>>, segs: Seq<(Range<usize>, Seq<usize>)>)
    requires
        is_segmentation(ranges, segs),
    ensures
        strictly_increasing(segment_starts(segs)),
        forall|p: usize|
            segment_starts(segs).contains(p) <==> (is_boundary(ranges, p as int) && exists|i: int|
                #[trigger] covers(ranges, i, p as int)),
{
    let st = segment_starts(segs);
    assert forall|a: int, b: int| 0 <= a < b < st.len() implies #[trigger] st[a] < #[trigger] st[b] by {
        assert(segs[a].0.start < segs[b].0.start);
    }
    assert forall|p: usize|
        st.contains(p) <==> (is_boundary(ranges, p as int) && exists|i: int| #[trigger] covers(ranges, i, p as int)) by {
        if st.contains(p) {
            let k = choose|k: int| 0 <= k < st.len() && st[k] == p;
            let seg = segs[k];
            assert(is_segment(ranges, seg.0.start as int, seg.0.end as int, seg.1));
            assert(covers(ranges, seg.1[0] as int, p as int));
        }
        if is_boundary(ranges, p as int) && exists|i: int| #[trigger] covers(ranges, i, p as int) {
            let i = choose|i: int| #[trigger] covers(ranges, i, p as int);
            let k = choose|k: int| 0 <= k < segs.len() && #[trigger] segs[k].0.start == p as int;
            assert(st[k] == p);
        }
    }
}

/// A segmentation of `ranges` is unique: any two are equal. So the
/// segments that `highlight_segments` and `combine_highlights` produce are
/// determined by their input.
pub proof fn lemma_segmentation_unique(
    ranges: Seq<Range<usize>>,
    s1: Seq<(Range<usize>, Seq<usize>)>,
    s2: Seq<(Range<usize>, Seq<usize>)>,
)
    requires
        is_segmentation(ranges, s1),
        is_segmentation(ranges, s2),
    ensures
        s1 == s2,
{
    lemma_segment_starts(ranges, s1);
    lemma_segment_starts(ranges, s2);
    lemma_increasing_unique(segment_starts(s1), segment_starts(s2));
    assert(s1.len() == segment_starts(s1).len());
    assert forall|k: int| 0 <= k < s1.len() implies s1[k] == s2[k] by {
        assert(segment_starts(s1)[k] == segment_starts(s2)[k]);
        let a = s1[k];
        let b = s2[k];
        assert(is_segment(ranges, a.0.start as int, a.0.end as int, a.1));
        assert(is_segment(ranges, b.0.start as int, b.0.end as int, b.1));
        assert(a.0.start == b.0.start);
        if a.0.end < b.0.end {
            assert(!is_boundary(ranges, a.0.end as int));
        }
        if b.0.end < a.0.end {
            assert(!is_boundary(ranges, b.0.end as int));
        }
        assert forall|x: usize| a.1.contains(x) <==> b.1.contains(x) by {
            if a.1.contains(x) {
                let j = choose|j: int| 0 <= j < a.1.len() && a.1[j] == x;
                assert(covers(ranges, a.1[j] as int, a.0.start as int));
            }
            if b.1.contains(x) {
                let j = choose|j: int| 0 <= j < b.1.len() && b.1[j] == x;
                assert(covers(ranges, b.1[j] as int, b.0.start as int));
            }
        }
        lemma_increasing_unique(a.1, b.1);
    }
    assert(s1 =~= s2);
}

/// Where each highlight applies.
pub open spec fn ranges_of(h: Seq<(Range<usize>, HighlightStyle)>) -> Seq<Range<usize>> {
    h.map_values(|x: (Range<usize>, HighlightStyle)| x.0)
}

/// The styles of the highlights numbered by `ids`, in that order.
pub open spec fn styles_at(h: Seq<(Range<usize>, HighlightStyle)>, ids: Seq<usize>) -> Seq<HighlightStyle> {
    ids.map_values(|i: usize| h[i as int].1)
}

/// `result` gives, for each segment of `segs`, its range and the style that
/// layering the styles of the highlights holding it, in the order in which
/// the highlights are listed, over the empty highlight gives.
pub open spec fn is_combination<B, M>(
    h: Seq<(Range<usize>, HighlightStyle)>,
    segs: Seq<(Range<usize>, Seq<usize>)>,
    result: Seq<(Range<usize>, HighlightStyle)>,
    blend: B,
    mix: M,
) -> bool where B: Fn(Hsla, Hsla) -> Hsla, M: Fn(u32, u32) -> u32 {
    &&& is_segmentation(ranges_of(h), segs)
    &&& result.len() == segs.len()
    &&& forall|k: int|
        0 <= k < result.len() ==> (#[trigger] result[k]).0 == segs[k].0 && layers_to(
            empty_highlight(),
            styles_at(h, segs[k].1),
            result[k].1,
            blend,
            mix,
        )
}

/// Combines two lists of highlighted ranges into one list of disjoint
/// ranges, in increasing order, each with the layered style of every
/// highlight that covers it. The pieces are cut wherever a highlight starts
/// or ends; positions that no highlight covers are left out. Highlights are
/// layered in the order of `a` followed by `b`, using `blend` and `mix` as
/// `HighlightStyle::highlight` does.
pub fn combine_highlights<B, M>(
    a: Vec<(Range<usize>, HighlightStyle)>,
    b: Vec<(Range<usize>, HighlightStyle)>,
    blend: &B,
    mix: &M,
) -> (r: Vec<(Range<usize>, HighlightStyle)>)
    where B: Fn(Hsla, Hsla) -> Hsla, M: Fn(u32, u32) -> u32,
    requires
        forall|x: Hsla, y: Hsla| blend.requires((x, y)),
        forall|s: u32, d: u32| mix.requires((s, d)),
    ensures
        exists|segs: Seq<(Range<usize>, Seq<usize>)>|
            #[trigger] is_combination(a@ + b@, segs, r@, *blend, *mix),
{
    let mut all = a;
    let mut rest = b;
    all.append(&mut rest);
    let mut ranges: Vec<Range<usize>> = Vec::new();
    let mut i: usize = 0;
    while i < all.len()
        invariant
            i <= all@.len(),
            ranges@.len() == i,
            forall|j: int| 0 <= j < i ==> #[trigger] ranges@[j] == all@[j].0,
        decreases all.len() - i,
    {
        ranges.push(Range { start: all[i].0.start, end: all[i].0.end });
        i = i + 1;
    }
    assert(ranges@ =~= ranges_of(all@));
    let segs = highlight_segments(&ranges);
    let ghost gsegs = segments_view(segs@);
    let mut result: Vec<(Range<usize>, HighlightStyle)> = Vec::new();
    let mut s: usize = 0;
    while s < segs.len()
        invariant
            is_segmentation(ranges_of(all@), gsegs),
            gsegs == segments_view(segs@),
            ranges_of(all@).len() == all@.len(),
            forall|x: Hsla, y: Hsla| blend.requires((x, y)),
            forall|u: u32, d: u32| mix.requires((u, d)),
            s <= segs@.len(),
            result@.len() == s,
            forall|k: int|
                0 <= k < s ==> (#[trigger] result@[k]).0 == gsegs[k].0 && layers_to(
                    empty_highlight(),
                    styles_at(all@, gsegs[k].1),
                    result@[k].1,
                    *blend,
                    *mix,
                ),
        decreases segs.len() - s,
    {
        let ids = &segs[s].1;
        let ghost styles = styles_at(all@, ids@);
        assert(gsegs[s as int].1 == ids@);
        assert(is_segment(
            ranges_of(all@),
            gsegs[s as int].0.start as int,
            gsegs[s as int].0.end as int,
            gsegs[s as int].1,
        ));
        let mut style = HighlightStyle::default();
        let ghost mut chain: Seq<HighlightStyle> = seq![style];
        let mut j: usize = 0;
        while j < ids.len()
            invariant
                forall|x: Hsla, y: Hsla| blend.requires((x, y)),
                forall|u: u32, d: u32| mix.requires((u, d)),
                j <= ids@.len(),
                styles == styles_at(all@, ids@),
                forall|t: int| 0 <= t < ids@.len() ==> #[trigger] ids@[t] < all@.len(),
                chain.len() == j + 1,
                chain[0] == empty_highlight(),
                chain.last() == style,
                forall|t: int|
                    0 <= t < j ==> #[trigger] layered(chain[t], styles[t], chain[t + 1], *blend, *mix),
            decreases ids.len() - j,
        {
            let id = ids[j];
            let other = all[id].1;
            let ghost before = style;
            style.highlight(other, blend, mix);
            proof {
                let ghost old_chain = chain;
                chain = chain.push(style);
                assert(styles[j as int] == other);
                assert forall|t: int|
                    0 <= t < j + 1 implies #[trigger] layered(chain[t], styles[t], chain[t + 1], *blend, *mix) by {
                    if t < j {
                        assert(chain[t] == old_chain[t]);
                        assert(chain[t + 1] == old_chain[t + 1]);
                    }
                }
            }
            j = j + 1;
        }
        assert(is_layer_chain(empty_highlight(), styles, chain, *blend, *mix));
        result.push((Range { start: segs[s].0.start, end: segs[s].0.end }, style));
        s = s + 1;
    }
    assert(all@ == a@ + b@);
    assert(is_combination(a@ + b@, gsegs, result@, *blend, *mix));
    result
}

/// The non-empty ranges of `h` do not overlap one another.
pub open spec fn nonempty_disjoint(h: Seq<(Range<usize>, HighlightStyle)>) -> bool {
    forall|i: int, j: int|
        0 <= i < j < h.len() && h[i].0.start < h[i].0.end && h[j].0.start < h[j].0.end ==> (
        #[trigger] h[i].0.end <= #[trigger] h[j].0.start || h[j].0.end <= h[i].0.start)
}

/// Where the non-empty ranges do not overlap, a position is held by one range
/// at most, and no boundary lies strictly inside a range.
proof fn lemma_disjoint_facts(h: Seq<(Range<usize>, HighlightStyle)>, i: int)
    requires
        nonempty_disjoint(h),
        0 <= i < h.len(),
        h[i].0.start < h[i].0.end,
    ensures
        forall|j: int, p: int|
            #[trigger] covers(ranges_of(h), j, p) && covers(ranges_of(h), i, p) ==> j == i,
        forall|m: int| h[i].0.start < m < h[i].0.end ==> !#[trigger] is_boundary(ranges_of(h), m),
{
    let rs = ranges_of(h);
    assert forall|j: int, p: int| #[trigger] covers(rs, j, p) && covers(rs, i, p) implies j == i by {
        if j < i {
            assert(h[j].0.end <= h[i].0.start || h[i].0.end <= h[j].0.start);
        } else if j > i {
            assert(h[i].0.end <= h[j].0.start || h[j].0.end <= h[i].0.start);
        }
    }
    assert forall|m: int| h[i].0.start < m < h[i].0.end implies !#[trigger] is_boundary(rs, m) by {
        if is_boundary(rs, m) {
            let j = choose|j: int| 0 <= j < rs.len() && #[trigger] is_boundary_of(rs[j], m);
            if rs[j].start == m {
                assert(covers(rs, j, m) && covers(rs, i, m));
            } else {
                assert(covers(rs, j, m - 1) && covers(rs, i, m - 1));
            }
        }
    }
}

/// Each highlight with a non-empty range is a piece.
proof fn lemma_disjoint_each_kept<B, M>(
    h: Seq<(Range<usize>, HighlightStyle)>,
    segs: Seq<(Range<usize>, Seq<usize>)>,
    r: Seq<(Range<usize>, HighlightStyle)>,
    blend: B,
    mix: M,
    i: int,
) -> (k: int)
    where B: Fn(Hsla, Hsla) -> Hsla, M: Fn(u32, u32) -> u32,
    requires
        is_combination(h, segs, r, blend, mix),
        nonempty_disjoint(h),
        0 <= i < h.len(),
        h[i].0.start < h[i].0.end,
    ensures
        0 <= k < r.len(),
        segs[k].1[0] == i,
        r[k] == h[i],
{
    let rs = ranges_of(h);
    let p = h[i].0.start as int;
    assert(is_boundary_of(rs[i], p));
    assert(is_boundary(rs, p));
    assert(covers(rs, i, p));
    let k = choose|k: int| 0 <= k < segs.len() && #[trigger] segs[k].0.start == p;
    let i2 = lemma_disjoint_piece(h, segs, r, blend, mix, k);
    lemma_disjoint_facts(h, i);
    assert(covers(rs, i2, p));
    assert(i2 == i);
    k
}

/// Piece `k` of `r` holds one highlight only, with a non-empty range, and is
/// that highlight, its range and its style.
pub open spec fn is_kept_piece(
    h: Seq<(Range<usize>, HighlightStyle)>,
    segs: Seq<(Range<usize>, Seq<usize>)>,
    r: Seq<(Range<usize>, HighlightStyle)>,
    k: int,
) -> bool {
    &&& segs[k].1.len() == 1
    &&& segs[k].1[0] < h.len()
    &&& h[segs[k].1[0] as int].0.start < h[segs[k].1[0] as int].0.end
    &&& r[k] == h[segs[k].1[0] as int]
}

/// Highlights whose non-empty ranges do not overlap come back as they are:
/// piece `k` is the highlight numbered by the one entry of `segs[k].1`, with
/// its own range and style; every highlight with a non-empty range is a
/// piece; and the pieces come in increasing order of their starts.
pub proof fn lemma_disjoint_highlights_kept<B, M>(
    h: Seq<(Range<usize>, HighlightStyle)>,
    segs: Seq<(Range<usize>, Seq<usize>)>,
    r: Seq<(Range<usize>, HighlightStyle)>,
    blend: B,
    mix: M,
)
    where B: Fn(Hsla, Hsla) -> Hsla, M: Fn(u32, u32) -> u32,
    requires
        is_combination(h, segs, r, blend, mix),
        nonempty_disjoint(h),
    ensures
        forall|k: int| 0 <= k < r.len() ==> #[trigger] is_kept_piece(h, segs, r, k),
        forall|i: int|
            0 <= i < h.len() && h[i].0.start < h[i].0.end ==> exists|k: int|
                0 <= k < r.len() && #[trigger] segs[k].1[0] == i,
        forall|k: int, l: int| 0 <= k < l < r.len() ==> #[trigger] r[k].0.start < #[trigger] r[l].0.start,
{
    assert forall|k: int| 0 <= k < r.len() implies #[trigger] is_kept_piece(h, segs, r, k) by {
        let i = lemma_disjoint_piece(h, segs, r, blend, mix, k);
    }
    assert forall|i: int| 0 <= i < h.len() && h[i].0.start < h[i].0.end implies exists|k: int|
        0 <= k < r.len() && #[trigger] segs[k].1[0] == i by {
        let k = lemma_disjoint_each_kept(h, segs, r, blend, mix, i);
    }
    assert forall|k: int, l: int| 0 <= k < l < r.len() implies #[trigger] r[k].0.start < #[trigger] r[l].0.start by {
        assert(r[k].0 == segs[k].0);
        assert(r[l].0 == segs[l].0);
        assert(segs[k].0.start < segs[l].0.start);
    }
}

/// Piece `k` of highlights that do not overlap is the highlight that holds it.
proof fn lemma_disjoint_piece<B, M>(
    h: Seq<(Range<usize>, HighlightStyle)>,
    segs: Seq<(Range<usize>, Seq<usize>)>,
    r: Seq<(Range<usize>, HighlightStyle)>,
    blend: B,
    mix: M,
    k: int,
) -> (i: int)
    where B: Fn(Hsla, Hsla) -> Hsla, M: Fn(u32, u32) -> u32,
    requires
        is_combination(h, segs, r, blend, mix),
        nonempty_disjoint(h),
        0 <= k < r.len(),
    ensures
        0 <= i < h.len(),
        i == segs[k].1[0],
        segs[k].1 == seq![segs[k].1[0]],
        h[i].0.start < h[i].0.end,
        r[k] == h[i],
        segs[k].0.start == h[i].0.start,
{
    let rs = ranges_of(h);
    let seg = segs[k];
    assert(is_segment(rs, seg.0.start as int, seg.0.end as int, seg.1));
    let i = seg.1[0] as int;
    assert(covers(rs, seg.1[0] as int, seg.0.start as int));
    lemma_disjoint_facts(h, i);
    assert(is_boundary_of(rs[i], rs[i].start as int));
    assert(is_boundary_of(rs[i], rs[i].end as int));
    if seg.0.start > rs[i].start {
        assert(!is_boundary(rs, seg.0.start as int));
    }
    if seg.0.end < rs[i].end {
        assert(!is_boundary(rs, seg.0.end as int));
    }
    if seg.0.end > rs[i].end {
        assert(!is_boundary(rs, rs[i].end as int));
    }
    if seg.1.len() > 1 {
        assert(covers(rs, seg.1[1] as int, seg.0.start as int));
        assert(seg.1[0] < seg.1[1]);
    }
    assert(seg.1 =~= seq![seg.1[0]]);
    assert(styles_at(h, seg.1) =~= seq![h[i].1]);
    lemma_layers_single(h[i].1, r[k].1, blend, mix);
    assert(r[k].0 == seg.0);
    assert(r[k] == h[i]);
    i
}

/// The highlight numbers `ids`, renumbered for an entry inserted at `t`.
pub open spec fn shift_ids(ids: Seq<usize>, t: int) -> Seq<usize> {
    ids.map_values(|i: usize| if i < t { i } else { (i + 1) as usize })
}

/// The segments `segs`, with their highlights renumbered for an entry inserted at `t`.
pub open spec fn shift_segments(segs: Seq<(Range<usize>, Seq<usize>)>, t: int) -> Seq<(Range<usize>, Seq<usize>)> {
    segs.map_values(|s: (Range<usize>, Seq<usize>)| (s.0, shift_ids(s.1, t)))
}

/// Inserting an empty range adds no boundary, and the ranges after it hold
/// what they held before, one number further on.
proof fn lemma_insert_empty_range(rs: Seq<Range<usize>>, t: int, e: Range<usize>)
    requires
        0 <= t <= rs.len(),
        e.end <= e.start,
    ensures
        forall|p: int| is_boundary(rs.insert(t, e), p) <==> is_boundary(rs, p),
        forall|j: int, p: int|
            #[trigger] covers(rs.insert(t, e), j, p) <==> ((j < t && covers(rs, j, p)) || (j > t && covers(
                rs,
                j - 1,
                p,
            ))),
{
    let rs2 = rs.insert(t, e);
    assert forall|p: int| is_boundary(rs2, p) <==> is_boundary(rs, p) by {
        if is_boundary(rs2, p) {
            let j = choose|j: int| 0 <= j < rs2.len() && #[trigger] is_boundary_of(rs2[j], p);
            if j < t {
                assert(is_boundary_of(rs[j], p));
            } else if j > t {
                assert(is_boundary_of(rs[j - 1], p));
            }
        }
        if is_boundary(rs, p) {
            let j = choose|j: int| 0 <= j < rs.len() && #[trigger] is_boundary_of(rs[j], p);
            if j < t {
                assert(is_boundary_of(rs2[j], p));
            } else {
                assert(is_boundary_of(rs2[j + 1], p));
            }
        }
    }
    assert forall|j: int, p: int|
        #[trigger] covers(rs2, j, p) <==> ((j < t && covers(rs, j, p)) || (j > t && covers(rs, j - 1, p))) by {
        if 0 <= j < rs2.len() {
            if j < t {
                assert(rs2[j] == rs[j]);
            } else if j > t {
                assert(rs2[j] == rs[j - 1]);
            }
        }
    }
}

/// A segment stays one, with its highlights renumbered, when an empty range
/// is inserted, and the other way round; the highlights it lists keep their styles.
proof fn lemma_shift_segment(
    h: Seq<(Range<usize>, HighlightStyle)>,
    t: int,
    e: (Range<usize>, HighlightStyle),
    start: int,
    end: int,
    ids: Seq<usize>,
)
    requires
        0 <= t <= h.len(),
        h.len() < usize::MAX,
        e.0.end <= e.0.start,
        forall|j: int| 0 <= j < ids.len() ==> #[trigger] ids[j] < h.len(),
    ensures
        is_segment(ranges_of(h), start, end, ids) <==> is_segment(
            ranges_of(h.insert(t, e)),
            start,
            end,
            shift_ids(ids, t),
        ),
        is_segment(ranges_of(h), start, end, ids) ==> styles_at(h.insert(t, e), shift_ids(ids, t))
            == styles_at(h, ids),
{
    let rs = ranges_of(h);
    let h2 = h.insert(t, e);
    let rs2 = ranges_of(h2);
    assert(rs2 =~= rs.insert(t, e.0));
    lemma_insert_empty_range(rs, t, e.0);
    let sh = shift_ids(ids, t);
    if is_segment(rs, start, end, ids) {
        assert forall|a: int, b: int| 0 <= a < b < sh.len() implies #[trigger] sh[a] < #[trigger] sh[b] by {
            assert(ids[a] < ids[b]);
            assert(covers(rs, ids[b] as int, start));
        }
        assert forall|j: int| 0 <= j < sh.len() implies covers(rs2, #[trigger] sh[j] as int, start) by {
            assert(covers(rs, ids[j] as int, start));
        }
        assert forall|j: int| #[trigger] covers(rs2, j, start) implies sh.contains(j as usize) by {
            let i = if j < t { j } else { j - 1 };
            assert(covers(rs, i, start));
            assert(ids.contains(i as usize));
            let m = choose|m: int| 0 <= m < ids.len() && ids[m] == i as usize;
            assert(sh[m] == j as usize);
        }
        assert forall|m: int| !(start < m < end) || !#[trigger] is_boundary(rs2, m) by {
            if start < m < end {
                assert(!is_boundary(rs, m));
            }
        }
        assert(is_boundary(rs2, start));
        assert(is_boundary(rs2, end));
        assert(is_segment(rs2, start, end, sh));
        assert forall|j: int| 0 <= j < ids.len() implies #[trigger] styles_at(h2, sh)[j] == styles_at(h, ids)[j] by {
            assert(covers(rs, ids[j] as int, start));
            if ids[j] < t {
                assert(h2[ids[j] as int] == h[ids[j] as int]);
            } else {
                assert(h2[ids[j] + 1] == h[ids[j] as int]);
            }
        }
        assert(styles_at(h2, sh) =~= styles_at(h, ids));
    }
    if is_segment(rs2, start, end, sh) {
        assert forall|j: int| 0 <= j < ids.len() implies covers(rs, #[trigger] ids[j] as int, start) by {
            assert(covers(rs2, sh[j] as int, start));
        }
        assert forall|a: int, b: int| 0 <= a < b < ids.len() implies #[trigger] ids[a] < #[trigger] ids[b] by {
            assert(sh[a] < sh[b]);
            assert(covers(rs2, sh[a] as int, start));
            assert(covers(rs2, sh[b] as int, start));
        }
        assert forall|i: int| #[trigger] covers(rs, i, start) implies ids.contains(i as usize) by {
            let j = if i < t { i } else { i + 1 };
            assert(covers(rs2, j, start));
            assert(sh.contains(j as usize));
            let m = choose|m: int| 0 <= m < sh.len() && sh[m] == j as usize;
            assert(covers(rs2, sh[m] as int, start));
            assert(ids[m] == i as usize);
        }
        assert forall|m: int| !(start < m < end) || !#[trigger] is_boundary(rs, m) by {
            if start < m < end {
                assert(!is_boundary(rs2, m));
            }
        }
        assert(is_boundary(rs, start));
        assert(is_boundary(rs, end));
        assert(is_segment(rs, start, end, ids));
    }
}

/// The highlight numbers `ids`, renumbered for the entry at `t` taken out.
pub open spec fn unshift_ids(ids: Seq<usize>, t: int) -> Seq<usize> {
    ids.map_values(|i: usize| if i < t { i } else { (i - 1) as usize })
}

/// The segments `segs`, with their highlights renumbered for the entry at `t` taken out.
pub open spec fn unshift_segments(segs: Seq<(Range<usize>, Seq<usize>)>, t: int) -> Seq<(Range<usize>, Seq<usize>)> {
    segs.map_values(|s: (Range<usize>, Seq<usize>)| (s.0, unshift_ids(s.1, t)))
}

/// Combining highlights with an entry inserted, when its pieces follow
/// `segs2` renumbered: a result of one is a result of the other.
proof fn lemma_combination_shift<B, M>(
    h: Seq<(Range<usize>, HighlightStyle)>,
    t: int,
    e: (Range<usize>, HighlightStyle),
    segs: Seq<(Range<usize>, Seq<usize>)>,
    r: Seq<(Range<usize>, HighlightStyle)>,
    blend: B,
    mix: M,
)
    where B: Fn(Hsla, Hsla) -> Hsla, M: Fn(u32, u32) -> u32,
    requires
        0 <= t <= h.len(),
        h.len() < usize::MAX,
        e.0.end <= e.0.start,
        forall|k: int, j: int| 0 <= k < segs.len() && 0 <= j < segs[k].1.len() ==> #[trigger] segs[k].1[j] < h.len(),
    ensures
        is_combination(h, segs, r, blend, mix) <==> is_combination(
            h.insert(t, e),
            shift_segments(segs, t),
            r,
            blend,
            mix,
        ),
{
    let rs = ranges_of(h);
    let h2 = h.insert(t, e);
    let rs2 = ranges_of(h2);
    let segs2 = shift_segments(segs, t);
    assert(rs2 =~= rs.insert(t, e.0));
    lemma_insert_empty_range(rs, t, e.0);
    assert forall|k: int| 0 <= k < segs.len() implies {
        &&& is_segment(rs, segs[k].0.start as int, segs[k].0.end as int, segs[k].1) <==> is_segment(
            rs2,
            #[trigger] segs2[k].0.start as int,
            segs2[k].0.end as int,
            segs2[k].1,
        )
        &&& is_segment(rs, segs[k].0.start as int, segs[k].0.end as int, segs[k].1) ==> styles_at(
            h2,
            segs2[k].1,
        ) == styles_at(h, segs[k].1)
    } by {
        lemma_shift_segment(h, t, e, segs[k].0.start as int, segs[k].0.end as int, segs[k].1);
    }
    if is_combination(h, segs, r, blend, mix) {
        assert forall|k: int|
            0 <= k < segs2.len() implies is_segment(
            rs2,
            #[trigger] segs2[k].0.start as int,
            segs2[k].0.end as int,
            segs2[k].1,
        ) by {
            assert(is_segment(rs, segs[k].0.start as int, segs[k].0.end as int, segs[k].1));
        }
        assert forall|k: int, l: int|
            0 <= k < l < segs2.len() implies #[trigger] segs2[k].0.start < #[trigger] segs2[l].0.start by {
            assert(segs[k].0.start < segs[l].0.start);
        }
        assert forall|p: int, i: int|
            is_boundary(rs2, p) && #[trigger] covers(rs2, i, p) implies exists|k: int|
            0 <= k < segs2.len() && #[trigger] segs2[k].0.start == p by {
            let i0 = if i < t { i } else { i - 1 };
            assert(covers(rs, i0, p));
            let k = choose|k: int| 0 <= k < segs.len() && #[trigger] segs[k].0.start == p;
            assert(segs2[k].0.start == p);
        }
        assert(is_segmentation(rs2, segs2));
        assert forall|k: int| 0 <= k < r.len() implies (#[trigger] r[k]).0 == segs2[k].0 && layers_to(
            empty_highlight(),
            styles_at(h2, segs2[k].1),
            r[k].1,
            blend,
            mix,
        ) by {
            assert(r[k].0 == segs[k].0);
            assert(is_segment(rs, segs[k].0.start as int, segs[k].0.end as int, segs[k].1));
            assert(styles_at(h2, segs2[k].1) == styles_at(h, segs[k].1));
        }
        assert(is_combination(h2, segs2, r, blend, mix));
    }
    if is_combination(h2, segs2, r, blend, mix) {
        assert forall|k: int|
            0 <= k < segs.len() implies is_segment(
            rs,
            #[trigger] segs[k].0.start as int,
            segs[k].0.end as int,
            segs[k].1,
        ) by {
            assert(segs2[k].0 == segs[k].0);
            assert(is_segment(rs2, segs2[k].0.start as int, segs2[k].0.end as int, segs2[k].1));
        }
        assert forall|k: int, l: int|
            0 <= k < l < segs.len() implies #[trigger] segs[k].0.start < #[trigger] segs[l].0.start by {
            assert(segs2[k].0.start < segs2[l].0.start);
        }
        assert forall|p: int, i: int|
            is_boundary(rs, p) && #[trigger] covers(rs, i, p) implies exists|k: int|
            0 <= k < segs.len() && #[trigger] segs[k].0.start == p by {
            let i2 = if i < t { i } else { i + 1 };
            assert(covers(rs2, i2, p));
            let k = choose|k: int| 0 <= k < segs2.len() && #[trigger] segs2[k].0.start == p;
            assert(segs[k].0.start == p);
        }
        assert(is_segmentation(rs, segs));
        assert forall|k: int| 0 <= k < r.len() implies (#[trigger] r[k]).0 == segs[k].0 && layers_to(
            empty_highlight(),
            styles_at(h, segs[k].1),
            r[k].1,
            blend,
            mix,
        ) by {
            assert(r[k].0 == segs2[k].0);
            assert(is_segment(rs, segs[k].0.start as int, segs[k].0.end as int, segs[k].1));
            assert(styles_at(h2, segs2[k].1) == styles_at(h, segs[k].1));
        }
        assert(is_combination(h, segs, r, blend, mix));
    }
}

/// A highlight whose range is empty changes nothing. Inserting one at `t`
/// keeps every combination of the highlights: the same pieces, ranges and
/// styles, with the highlights of each piece renumbered. And every
/// combination of the highlights with it inserted is, renumbered back, a
/// combination of the highlights without it. So inserting or removing any
/// number of such highlights leaves the result alone.
pub proof fn lemma_empty_highlight_ignored<B, M>(
    h: Seq<(Range<usize>, HighlightStyle)>,
    t: int,
    e: (Range<usize>, HighlightStyle),
    segs: Seq<(Range<usize>, Seq<usize>)>,
    segs2: Seq<(Range<usize>, Seq<usize>)>,
    r: Seq<(Range<usize>, HighlightStyle)>,
    blend: B,
    mix: M,
)
    where B: Fn(Hsla, Hsla) -> Hsla, M: Fn(u32, u32) -> u32,
    requires
        0 <= t <= h.len(),
        h.len() < usize::MAX,
        e.0.end <= e.0.start,
    ensures
        is_combination(h, segs, r, blend, mix) ==> is_combination(
            h.insert(t, e),
            shift_segments(segs, t),
            r,
            blend,
            mix,
        ),
        is_combination(h.insert(t, e), segs2, r, blend, mix) ==> is_combination(
            h,
            unshift_segments(segs2, t),
            r,
            blend,
            mix,
        ),
{
    let rs = ranges_of(h);
    let h2 = h.insert(t, e);
    let rs2 = ranges_of(h2);
    assert(rs2 =~= rs.insert(t, e.0));
    lemma_insert_empty_range(rs, t, e.0);
    if is_combination(h, segs, r, blend, mix) {
        assert forall|k: int, j: int| 0 <= k < segs.len() && 0 <= j < segs[k].1.len() implies #[trigger] segs[k].1[j] < h.len() by {
            assert(is_segment(rs, segs[k].0.start as int, segs[k].0.end as int, segs[k].1));
            assert(covers(rs, segs[k].1[j] as int, segs[k].0.start as int));
        }
        lemma_combination_shift(h, t, e, segs, r, blend, mix);
    }
    if is_combination(h2, segs2, r, blend, mix) {
        let segs1 = unshift_segments(segs2, t);
        assert forall|k: int, j: int| 0 <= k < segs1.len() && 0 <= j < segs1[k].1.len() implies #[trigger] segs1[k].1[j] < h.len() && segs2[k].1[j] == shift_ids(segs1[k].1, t)[j] by {
            assert(is_segment(rs2, segs2[k].0.start as int, segs2[k].0.end as int, segs2[k].1));
            assert(covers(rs2, segs2[k].1[j] as int, segs2[k].0.start as int));
        }
        assert forall|k: int| 0 <= k < segs2.len() implies #[trigger] shift_segments(segs1, t)[k] == segs2[k] by {
            assert(shift_ids(segs1[k].1, t) =~= segs2[k].1);
        }
        assert(shift_segments(segs1, t) =~= segs2);
        lemma_combination_shift(h, t, e, segs1, r, blend, mix);
    }
}

} // verus!
