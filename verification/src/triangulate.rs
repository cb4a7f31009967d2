use vstd::prelude::*;

use crate::geometry::cap_flip_coherent;
use crate::geometry::le_total_preorder;
use crate::geometry::SliceGeometry;
use crate::triangle::Triangle;

verus! {

broadcast use vstd::seq_lib::group_to_multiset_ensures, vstd::seq_lib::to_multiset_insert;

/// Whether the elements of `s` in the window `[from, to)` ascend under the
/// geometry's projected lexicographic order.
pub open spec fn ascending_by_proj<V, G: SliceGeometry<V>>(
    g: G,
    s: Seq<V>,
    from: int,
    to: int,
) -> bool {
    forall|i: int, j: int| from <= i < j < to ==> #[trigger] g.le_spec(s[i], s[j])
}

/// Whether the elements of `s` in the window `[from, to)` descend under the
/// geometry's projected lexicographic order.
pub open spec fn descending_by_proj<V, G: SliceGeometry<V>>(
    g: G,
    s: Seq<V>,
    from: int,
    to: int,
) -> bool {
    forall|i: int, j: int| from <= i < j < to ==> #[trigger] g.le_spec(s[j], s[i])
}

/// Whether `s` is sorted, every element before every later one, under the
/// geometry's projected lexicographic order.
pub open spec fn sorted_by_proj<V, G: SliceGeometry<V>>(g: G, s: Seq<V>) -> bool {
    ascending_by_proj(g, s, 0, s.len() as int)
}

/// `s` with `x` inserted before the first element that `x` compares less
/// than or equal to: the insertion step of the sort.
pub open spec fn insert_by_proj<V, G: SliceGeometry<V>>(g: G, s: Seq<V>, x: V) -> Seq<V>
    decreases s.len(),
{
    if s.len() == 0 {
        seq![x]
    } else if g.le_spec(x, s.first()) {
        seq![x] + s
    } else {
        seq![s.first()] + insert_by_proj(g, s.drop_first(), x)
    }
}

/// The first `i` points of `pts`, insertion-sorted by `le_spec`.
pub open spec fn sort_prefix_spec<V, G: SliceGeometry<V>>(g: G, pts: Seq<V>, i: int) -> Seq<V>
    decreases i,
{
    if i <= 0 {
        Seq::empty()
    } else {
        insert_by_proj(g, sort_prefix_spec(g, pts, i - 1), pts[i - 1])
    }
}

/// What `sort_points` returns: the points insertion-sorted by the
/// geometry's projected lexicographic order, ties kept in input order.
pub open spec fn sort_spec<V, G: SliceGeometry<V>>(g: G, pts: Seq<V>) -> Seq<V> {
    sort_prefix_spec(g, pts, pts.len() as int)
}

/// Inserting before the first element `x` is `le` to is the same as
/// inserting at that element's index.
proof fn lemma_insert_at<V, G: SliceGeometry<V>>(g: G, s: Seq<V>, x: V, p: int)
    requires
        0 <= p <= s.len(),
        forall|q: int| 0 <= q < p ==> !g.le_spec(x, #[trigger] s[q]),
        p < s.len() ==> g.le_spec(x, s[p]),
    ensures
        insert_by_proj(g, s, x) == s.insert(p, x),
    decreases s.len(),
{
    if p == 0 {
        if s.len() == 0 {
            assert(insert_by_proj(g, s, x) =~= s.insert(0, x));
        } else {
            assert(insert_by_proj(g, s, x) =~= s.insert(0, x));
        }
    } else {
        assert(!g.le_spec(x, s.first()));
        lemma_insert_at(g, s.drop_first(), x, p - 1);
        assert(seq![s.first()] + s.drop_first().insert(p - 1, x) =~= s.insert(p, x));
    }
}

/// Sorts the points by their 2D projection in the plane's basis,
/// lexicographically by x then y. The result is exactly `sort_spec`: a
/// permutation of the input, and sorted provided the comparison is a total
/// preorder (which the intended lexicographic comparison is, away from NaN).
pub fn sort_points<V: Copy, G: SliceGeometry<V>>(geometry: &G, points: Vec<V>) -> (r: Vec<V>)
    ensures
        r@ == sort_spec(*geometry, points@),
        r@.to_multiset() == points@.to_multiset(),
        r@.len() == points@.len(),
        le_total_preorder(*geometry) ==> sorted_by_proj(*geometry, r@),
{
    let mut out: Vec<V> = Vec::new();
    let mut idx: usize = 0;
    while idx < points.len()
        invariant
            idx <= points@.len(),
            out@.len() == idx,
            out@ == sort_prefix_spec(*geometry, points@, idx as int),
            out@.to_multiset() == points@.take(idx as int).to_multiset(),
            le_total_preorder(*geometry) ==> sorted_by_proj(*geometry, out@),
        decreases points@.len() - idx,
    {
        let x = points[idx];
        let mut p: usize = 0;
        while p < out.len() && !geometry.le(&x, &out[p])
            invariant
                p <= out@.len(),
                forall|q: int| 0 <= q < p ==> !geometry.le_spec(x, #[trigger] out@[q]),
            decreases out@.len() - p,
        {
            p = p + 1;
        }
        let ghost prev = out@;
        out.insert(p, x);
        proof {
            lemma_insert_at(*geometry, prev, x, p as int);
            assert(out@ == sort_prefix_spec(*geometry, points@, idx + 1));
            assert(points@.take(idx + 1) =~= points@.take(idx as int).push(x));
            assert(out@.to_multiset() == points@.take(idx + 1).to_multiset());
            if le_total_preorder(*geometry) {
                assert forall|i: int, j: int| 0 <= i < j < out@.len() implies #[trigger] geometry.le_spec(
                    out@[i],
                    out@[j],
                ) by {
                    if j < p {
                        assert(geometry.le_spec(prev[i], prev[j]));
                    } else if i < p && j == p {
                        assert(!geometry.le_spec(x, prev[i]));
                        assert(geometry.le_spec(prev[i], x) || geometry.le_spec(x, prev[i]));
                    } else if i < p && j > p {
                        assert(geometry.le_spec(prev[i], prev[j - 1]));
                    } else if i == p && j > p {
                        // le(x, prev[p]) holds by the scan's exit, and the
                        // rest follows by transitivity along the sorted tail.
                        if p < prev.len() {
                            assert(geometry.le_spec(x, prev[p as int]));
                            if j - 1 > p {
                                assert(geometry.le_spec(prev[p as int], prev[j - 1]));
                            }
                        }
                    } else {
                        assert(geometry.le_spec(prev[i - 1], prev[j - 1]));
                    }
                }
            }
        }
        idx = idx + 1;
    }
    proof {
        assert(points@.take(points@.len() as int) =~= points@);
    }
    out
}


/// Every three consecutive points of `s` taken from the window
/// `[from, to)` make a strict left turn.
pub open spec fn chain_ccw<V, G: SliceGeometry<V>>(g: G, s: Seq<V>, from: int, to: int) -> bool {
    forall|i: int|
        from <= i && i + 2 < to ==> #[trigger] g.ccw_spec(s[i], s[i + 1], s[i + 2])
}

/// The shape `monotone_chain` guarantees of its result: the hull is a lower
/// chain of length `k` followed by an upper chain, and all consecutive
/// triples within either chain turn strictly left — so no three consecutive
/// hull points are collinear, except possibly across the two points where
/// the chains are stitched together. When the projected comparison is a
/// total preorder, the lower chain ascends and the upper chain descends in
/// it: the hull runs from the lexicographically least point to the greatest
/// and back.
pub open spec fn hull_chains_ok<V, G: SliceGeometry<V>>(g: G, h: Seq<V>, k: int) -> bool {
    &&& 2 <= k <= h.len()
    &&& chain_ccw(g, h, 0, k)
    &&& chain_ccw(g, h, k - 1, h.len() as int)
    &&& le_total_preorder(g) ==> ascending_by_proj(g, h, 0, k)
    &&& le_total_preorder(g) ==> descending_by_proj(g, h, k - 1, h.len() as int)
}

/// One step of the chain construction: pop the stack while its top two
/// elements and the candidate fail to turn strictly left and the stack
/// holds more than `floor` elements besides those two, then push the
/// candidate.
pub open spec fn chain_push<V, G: SliceGeometry<V>>(g: G, h: Seq<V>, floor: int, p: V) -> Seq<V>
    decreases h.len(),
{
    if h.len() >= 2 && h.len() >= floor + 2 && !g.ccw_spec(h[h.len() - 2], h[h.len() - 1], p) {
        chain_push(g, h.drop_last(), floor, p)
    } else {
        h.push(p)
    }
}

/// The lower chain built from the first `i` sorted points.
pub open spec fn lower_chain_spec<V, G: SliceGeometry<V>>(g: G, pts: Seq<V>, i: int) -> Seq<V>
    decreases i,
{
    if i <= 0 {
        Seq::empty()
    } else {
        chain_push(g, lower_chain_spec(g, pts, i - 1), 0, pts[i - 1])
    }
}

/// The stack after the whole lower chain and then the points from the end
/// of the sorted list down to index `j`, taken in reverse, with pops never
/// reaching below `floor` elements.
pub open spec fn upper_chain_spec<V, G: SliceGeometry<V>>(
    g: G,
    pts: Seq<V>,
    floor: int,
    j: int,
) -> Seq<V>
    decreases pts.len() - j,
{
    if j >= pts.len() {
        lower_chain_spec(g, pts, pts.len() as int)
    } else {
        chain_push(g, upper_chain_spec(g, pts, floor, j + 1), floor, pts[j])
    }
}

/// What `monotone_chain` returns: sort the points, build the lower chain
/// left to right and the upper chain right to left, then drop the two
/// stitch duplicates — the convex hull, written as a function of the
/// geometry's order and orientation predicates alone.
pub open spec fn monotone_chain_spec<V, G: SliceGeometry<V>>(g: G, pts: Seq<V>) -> Seq<V> {
    let sorted = sort_spec(g, pts);
    let lower = lower_chain_spec(g, sorted, sorted.len() as int);
    let full = upper_chain_spec(g, sorted, lower.len() as int, 0);
    full.drop_last().remove(lower.len() as int)
}

/// Andrew's monotone chain over points sorted by projected (x, y): builds
/// the lower chain left to right and the upper chain right to left, popping
/// while the last two points and the candidate fail to turn strictly left,
/// then drops the two stitch duplicates.
///
/// The result is pinned exactly to `monotone_chain_spec` — the same
/// construction written as a function of `le_spec` and `ccw_spec` alone —
/// so any two runs over the same geometry agree point for point. Beyond the
/// exact value, the contract restates what the construction guarantees:
/// every result point is one of the input points, and the result is convex
/// in the discrete sense of `hull_chains_ok`. That the polygon is the
/// geometric convex hull (exactly the extreme points, all inputs inside) is
/// a fact about the plane, not about the predicates, and would need
/// geometric axioms on `ccw_spec`; the concrete scenarios in the test suite
/// exercise that reading.
pub fn monotone_chain<V: Copy, G: SliceGeometry<V>>(geometry: &G, vertices: Vec<V>) -> (hull: Vec<V>)
    requires
        vertices@.len() >= 2,
    ensures
        hull@ == monotone_chain_spec(*geometry, vertices@),
        hull@.len() >= 2,
        forall|i: int| 0 <= i < hull@.len() ==> vertices@.contains(#[trigger] hull@[i]),
        exists|k: int| hull_chains_ok(*geometry, hull@, k),
{
    let points = sort_points(geometry, vertices);
    proof {
        assert forall|q: int| 0 <= q < points@.len() implies vertices@.contains(
            #[trigger] points@[q],
        ) by {
            assert(points@.to_multiset().contains(points@[q]));
        }
    }
    let mut hull: Vec<V> = Vec::new();

    // Lower chain.
    let mut i: usize = 0;
    while i < points.len()
        invariant
            i <= points@.len(),
            points@.len() >= 2,
            hull@.len() <= i,
            i >= 1 ==> hull@.len() >= 1 && hull@.last() == points@[i - 1],
            i >= 2 ==> hull@.len() >= 2,
            le_total_preorder(*geometry) ==> sorted_by_proj(*geometry, points@),
            hull@ == lower_chain_spec(*geometry, points@, i as int),
            forall|q: int|
                0 <= q < hull@.len() ==> points@.take(i as int).contains(#[trigger] hull@[q]),
            le_total_preorder(*geometry) ==> ascending_by_proj(
                *geometry,
                hull@,
                0,
                hull@.len() as int,
            ),
            chain_ccw(*geometry, hull@, 0, hull@.len() as int),
        decreases points@.len() - i,
    {
        let p = points[i];
        let ghost entry = hull@;
        while hull.len() >= 2 && !geometry.is_ccw(
            &hull[hull.len() - 2],
            &hull[hull.len() - 1],
            &p,
        )
            invariant
                hull@.len() <= i,
                i >= 1 ==> hull@.len() >= 1,
                chain_push(*geometry, hull@, 0, p) == chain_push(*geometry, entry, 0, p),
                forall|q: int|
                    0 <= q < hull@.len() ==> points@.take(i as int).contains(#[trigger] hull@[q]),
                le_total_preorder(*geometry) ==> ascending_by_proj(
                    *geometry,
                    hull@,
                    0,
                    hull@.len() as int,
                ),
                chain_ccw(*geometry, hull@, 0, hull@.len() as int),
            decreases hull@.len(),
        {
            let ghost pre = hull@;
            hull.pop();
            proof {
                assert(hull@ =~= pre.drop_last());
                assert(chain_push(*geometry, pre, 0, p) == chain_push(*geometry, hull@, 0, p));
            }
        }
        let ghost before = hull@;
        hull.push(p);
        proof {
            assert(chain_push(*geometry, before, 0, p) == before.push(p));
            assert(hull@ == chain_push(*geometry, entry, 0, p));
            assert(hull@ == lower_chain_spec(*geometry, points@, i + 1));
            assert forall|q: int| 0 <= q && q + 2 < hull@.len() implies #[trigger] geometry.ccw_spec(
                hull@[q],
                hull@[q + 1],
                hull@[q + 2],
            ) by {
                if q + 2 < before.len() as int {
                    assert(geometry.ccw_spec(before[q], before[q + 1], before[q + 2]));
                }
            }
            assert forall|q: int| 0 <= q < hull@.len() implies points@.take(i + 1).contains(
                #[trigger] hull@[q],
            ) by {
                if q < before.len() {
                    let w = choose|w: int|
                        0 <= w < i && points@.take(i as int)[w] == before[q];
                    assert(points@.take(i + 1)[w] == before[q]);
                } else {
                    assert(points@.take(i + 1)[i as int] == p);
                }
            }
            if le_total_preorder(*geometry) {
                assert forall|q1: int, q2: int| 0 <= q1 < q2 < hull@.len()
                    implies #[trigger] geometry.le_spec(hull@[q1], hull@[q2]) by {
                    if q2 < before.len() {
                        assert(geometry.le_spec(before[q1], before[q2]));
                    } else {
                        let w = choose|w: int|
                            0 <= w < i && points@.take(i as int)[w] == before[q1];
                        assert(points@[w] == before[q1]);
                        assert(geometry.le_spec(points@[w], points@[i as int]));
                    }
                }
            }
        }
        i = i + 1;
    }

    let lower_len: usize = hull.len();
    let ghost lower_seq = hull@;

    // Upper chain: same rule over the points in reverse, never popping into
    // the lower chain.
    let mut j: usize = points.len();
    while j > 0
        invariant
            j <= points@.len(),
            points@.len() >= 2,
            2 <= lower_len,
            lower_seq.len() == lower_len,
            lower_seq.last() == points@.last(),
            hull@.len() >= lower_len,
            hull@.subrange(0, lower_len as int) =~= lower_seq,
            j == points@.len() ==> hull@ =~= lower_seq,
            j < points@.len() ==> hull@.len() >= lower_len + 1 && hull@[lower_len as int]
                == points@.last(),
            j == 0 ==> hull@.len() >= lower_len + 2,
            forall|q: int| 0 <= q < hull@.len() ==> points@.contains(#[trigger] hull@[q]),
            forall|q: int|
                lower_len <= q < hull@.len() ==> points@.skip(j as int).contains(
                    #[trigger] hull@[q],
                ),
            le_total_preorder(*geometry) ==> sorted_by_proj(*geometry, points@),
            le_total_preorder(*geometry) ==> ascending_by_proj(
                *geometry,
                hull@,
                0,
                lower_len as int,
            ),
            le_total_preorder(*geometry) ==> descending_by_proj(
                *geometry,
                hull@,
                lower_len as int,
                hull@.len() as int,
            ),
            lower_seq == lower_chain_spec(*geometry, points@, points@.len() as int),
            hull@ == upper_chain_spec(*geometry, points@, lower_len as int, j as int),
            chain_ccw(*geometry, hull@, 0, lower_len as int),
            chain_ccw(*geometry, hull@, lower_len as int, hull@.len() as int),
        decreases j,
    {
        j = j - 1;
        let p = points[j];
        let ghost entry = hull@;
        proof {
            assert forall|q: int| lower_len <= q < hull@.len() implies points@.skip(
                j as int,
            ).contains(#[trigger] hull@[q]) by {
                let w = choose|w: int|
                    0 <= w < points@.skip(j + 1).len() && #[trigger] points@.skip(j + 1)[w]
                        == hull@[q];
                assert(points@.skip(j as int)[w + 1] == hull@[q]);
            }
        }
        while hull.len() >= 2 && hull.len() - 2 >= lower_len && !geometry.is_ccw(
            &hull[hull.len() - 2],
            &hull[hull.len() - 1],
            &p,
        )
            invariant
                j <= points@.len() - 1,
                points@.len() >= 2,
                2 <= lower_len,
                lower_seq.len() == lower_len,
                lower_seq.last() == points@.last(),
                hull@.len() >= lower_len,
                hull@.subrange(0, lower_len as int) =~= lower_seq,
                hull@.len() == lower_len ==> j == points@.len() - 1 && hull@ =~= lower_seq,
                hull@.len() > lower_len ==> hull@[lower_len as int] == points@.last(),
                forall|q: int| 0 <= q < hull@.len() ==> points@.contains(#[trigger] hull@[q]),
                forall|q: int|
                    lower_len <= q < hull@.len() ==> points@.skip(j as int).contains(
                        #[trigger] hull@[q],
                    ),
                le_total_preorder(*geometry) ==> sorted_by_proj(*geometry, points@),
                le_total_preorder(*geometry) ==> ascending_by_proj(
                    *geometry,
                    hull@,
                    0,
                    lower_len as int,
                ),
                le_total_preorder(*geometry) ==> descending_by_proj(
                    *geometry,
                    hull@,
                    lower_len as int,
                    hull@.len() as int,
                ),
                chain_push(*geometry, hull@, lower_len as int, p) == chain_push(
                    *geometry,
                    entry,
                    lower_len as int,
                    p,
                ),
                chain_ccw(*geometry, hull@, 0, lower_len as int),
                chain_ccw(*geometry, hull@, lower_len as int, hull@.len() as int),
            decreases hull@.len(),
        {
            let ghost pre = hull@;
            hull.pop();
            proof {
                assert(hull@ =~= pre.drop_last());
                assert(chain_push(*geometry, pre, lower_len as int, p) == chain_push(
                    *geometry,
                    hull@,
                    lower_len as int,
                    p,
                ));
            }
        }
        let ghost before = hull@;
        hull.push(p);
        proof {
            assert(chain_push(*geometry, before, lower_len as int, p) == before.push(p));
            assert(hull@ == chain_push(*geometry, entry, lower_len as int, p));
            assert(hull@ == upper_chain_spec(*geometry, points@, lower_len as int, j as int));
            if before.len() == lower_len {
                assert(p == points@.last());
            }
            assert(hull@.subrange(0, lower_len as int) =~= before.subrange(0, lower_len as int));
            assert forall|q: int| lower_len <= q && q + 2 < hull@.len()
                implies #[trigger] geometry.ccw_spec(hull@[q], hull@[q + 1], hull@[q + 2]) by {
                if q + 2 < before.len() as int {
                    assert(geometry.ccw_spec(before[q], before[q + 1], before[q + 2]));
                }
            }
            assert forall|q: int| 0 <= q && q + 2 < lower_len
                implies #[trigger] geometry.ccw_spec(hull@[q], hull@[q + 1], hull@[q + 2]) by {
                assert(geometry.ccw_spec(before[q], before[q + 1], before[q + 2]));
            }
            assert forall|q: int| lower_len <= q < hull@.len() implies points@.skip(
                j as int,
            ).contains(#[trigger] hull@[q]) by {
                if q < before.len() {
                    assert(points@.skip(j as int).contains(before[q]));
                } else {
                    assert(points@.skip(j as int)[0] == p);
                }
            }
            if le_total_preorder(*geometry) {
                assert forall|q1: int, q2: int| 0 <= q1 < q2 < lower_len
                    implies #[trigger] geometry.le_spec(hull@[q1], hull@[q2]) by {
                    assert(geometry.le_spec(before[q1], before[q2]));
                }
                assert forall|q1: int, q2: int| lower_len <= q1 < q2 < hull@.len()
                    implies #[trigger] geometry.le_spec(hull@[q2], hull@[q1]) by {
                    if q2 < before.len() {
                        assert(geometry.le_spec(before[q2], before[q1]));
                    } else {
                        let w = choose|w: int|
                            0 <= w < points@.skip(j as int).len() && points@.skip(j as int)[w]
                                == before[q1];
                        assert(points@[j + w] == before[q1]);
                        assert(geometry.le_spec(points@[j as int], points@[j + w]));
                    }
                }
            }
        }
    }

    let ghost full = hull@;
    // Drop the duplicate of the first point (the upper chain's last push)
    // and the duplicate of the lower chain's last point (its first push).
    hull.pop();
    let ghost popped = hull@;
    let _stitch = hull.remove(lower_len);
    proof {
        let r = hull@;
        assert(r.len() >= lower_len);
        assert(r == monotone_chain_spec(*geometry, vertices@)) by {
            assert(points@ == sort_spec(*geometry, vertices@));
            assert(full == upper_chain_spec(*geometry, points@, lower_len as int, 0));
            assert(lower_len as int == lower_chain_spec(
                *geometry,
                points@,
                points@.len() as int,
            ).len());
            assert(popped =~= full.drop_last());
            assert(r == full.drop_last().remove(lower_len as int));
        };
        assert forall|q: int| 0 <= q < r.len() implies vertices@.contains(#[trigger] r[q]) by {
            if q < lower_len {
                assert(r[q] == full[q]);
            } else {
                assert(r[q] == full[q + 1]);
            }
            assert(points@.contains(r[q]));
            let w = choose|w: int| 0 <= w < points@.len() && points@[w] == r[q];
            assert(vertices@.contains(points@[w]));
        }
        assert(hull_chains_ok(*geometry, r, lower_len as int)) by {
            assert(full[lower_len as int] == full[lower_len - 1]);
            assert forall|q: int| 0 <= q && q + 2 < lower_len
                implies #[trigger] geometry.ccw_spec(r[q], r[q + 1], r[q + 2]) by {
                assert(geometry.ccw_spec(full[q], full[q + 1], full[q + 2]));
            }
            assert forall|q: int| lower_len - 1 <= q && q + 2 < r.len()
                implies #[trigger] geometry.ccw_spec(r[q], r[q + 1], r[q + 2]) by {
                if q == lower_len - 1 {
                    // r's triple at the chain boundary is full's triple at
                    // `lower_len`, because of the duplicate.
                    assert(r[q] == full[lower_len as int]);
                    assert(r[q + 1] == full[lower_len + 1]);
                    assert(r[q + 2] == full[lower_len + 2]);
                    assert(geometry.ccw_spec(
                        full[lower_len as int],
                        full[lower_len + 1],
                        full[lower_len + 2],
                    ));
                } else {
                    assert(r[q] == full[q + 1]);
                    assert(r[q + 1] == full[q + 2]);
                    assert(r[q + 2] == full[q + 3]);
                    assert(chain_ccw(*geometry, full, lower_len as int, full.len() as int));
                    assert(lower_len <= q + 1);
                    assert(q + 1 + 2 < full.len());
                    assert(geometry.ccw_spec(full[q + 1], full[q + 1 + 1], full[q + 1 + 2]));
                }
            }
            if le_total_preorder(*geometry) {
                assert forall|q1: int, q2: int| 0 <= q1 < q2 < lower_len
                    implies #[trigger] geometry.le_spec(r[q1], r[q2]) by {
                    assert(r[q1] == full[q1] && r[q2] == full[q2]);
                    assert(geometry.le_spec(full[q1], full[q2]));
                }
                assert forall|q1: int, q2: int| lower_len - 1 <= q1 < q2 < r.len()
                    implies #[trigger] geometry.le_spec(r[q2], r[q1]) by {
                    assert(r[q2] == full[q2 + 1]);
                    if q1 == lower_len - 1 {
                        assert(r[q1] == full[lower_len as int]);
                        assert(geometry.le_spec(full[q2 + 1], full[lower_len as int]));
                    } else {
                        assert(r[q1] == full[q1 + 1]);
                        assert(geometry.le_spec(full[q2 + 1], full[q1 + 1]));
                    }
                }
            }
        };
    }
    hull
}

/// The upper-side cap triangle fanned from `h[i]`, `h[i+1]` to the apex
/// `h.last()`, and the lower-side one, which reverses the winding and flips
/// the normals.
pub open spec fn cap_pair_ok<V, G: SliceGeometry<V>>(
    g: G,
    bounds: <G as SliceGeometry<V>>::Bounds,
    h: Seq<V>,
    lower: Seq<Triangle<V>>,
    upper: Seq<Triangle<V>>,
) -> bool {
    &&& lower.len() == h.len() - 2
    &&& upper.len() == h.len() - 2
    &&& forall|i: int|
        0 <= i < upper.len() ==> #[trigger] upper[i] == (Triangle {
            a: g.cap_vertex_spec(bounds, h[i], false),
            b: g.cap_vertex_spec(bounds, h[i + 1], false),
            c: g.cap_vertex_spec(bounds, h.last(), false),
        })
    &&& forall|i: int|
        0 <= i < lower.len() ==> #[trigger] lower[i] == (Triangle {
            a: g.cap_vertex_spec(bounds, h[i], true),
            b: g.cap_vertex_spec(bounds, h.last(), true),
            c: g.cap_vertex_spec(bounds, h[i + 1], true),
        })
}

/// How `triangulate` builds its two caps out of the point cloud `pts`: a
/// fan over `monotone_chain_spec(g, pts)` — the convex hull of exactly
/// these points — one triangle pair per fan step, UVs mapped through the
/// bounds of the whole cloud. Only the `Vec` carrying the points to the
/// bounds computation is existentially quantified; the hull polygon and
/// every triangle of both caps are pinned.
pub open spec fn caps_from<V, G: SliceGeometry<V>>(
    g: G,
    pts: Seq<V>,
    lower: Seq<Triangle<V>>,
    upper: Seq<Triangle<V>>,
) -> bool {
    let h = monotone_chain_spec(g, pts);
    &&& exists|k: int| hull_chains_ok(g, h, k)
    &&& forall|i: int| 0 <= i < h.len() ==> pts.contains(#[trigger] h[i])
    &&& exists|cloud: Vec<V>|
        #![trigger g.bounds_spec(cloud)]
        cloud@ == pts && cap_pair_ok(g, g.bounds_spec(cloud), h, lower, upper)
}

/// The cap triangle of the opposite side: winding reversed and every vertex
/// normal negated.
pub open spec fn mirrored<V, G: SliceGeometry<V>>(g: G, t: Triangle<V>) -> Triangle<V> {
    Triangle {
        a: g.flip_normal_spec(t.a),
        b: g.flip_normal_spec(t.c),
        c: g.flip_normal_spec(t.b),
    }
}

/// Builds the cross-section cap for both sides out of the collected cap
/// points: projects them into the plane's basis, takes their convex hull and
/// fans it into triangles, with UVs from the cloud's bounds mapped through
/// the texture bounds. Returns `None` when fewer than 3 points were
/// collected; the pair is `(lower cap, upper cap)`, the lower cap with
/// reversed winding and negated normals. `caps_from` pins both caps
/// triangle by triangle to the fan over `monotone_chain_spec` of the input.
pub fn triangulate<V: Copy, G: SliceGeometry<V>>(geometry: &G, vertices: Vec<V>) -> (r: Option<
    (Vec<Triangle<V>>, Vec<Triangle<V>>),
>)
    ensures
        r is Some <==> vertices@.len() >= 3,
        r matches Some(caps) ==> {
            &&& caps.0@.len() == caps.1@.len()
            &&& caps_from(*geometry, vertices@, caps.0@, caps.1@)
            &&& (cap_flip_coherent(*geometry) ==> forall|i: int|
                0 <= i < caps.0@.len() ==> #[trigger] caps.0@[i] == mirrored(
                    *geometry,
                    caps.1@[i],
                ))
        },
{
    if vertices.len() < 3 {
        return None;
    }
    let ghost cloud = vertices;
    let bounds = geometry.bounds_of(&vertices);
    let mut hull = monotone_chain(geometry, vertices);
    let ghost h_full = hull@;
    let ghost k = choose|k: int| hull_chains_ok(*geometry, h_full, k);

    let apex = hull.pop().unwrap();
    let apex_up = geometry.cap_vertex(&bounds, &apex, false);
    let apex_dn = geometry.cap_vertex(&bounds, &apex, true);

    let mut lower: Vec<Triangle<V>> = Vec::new();
    let mut upper: Vec<Triangle<V>> = Vec::new();
    let mut i: usize = 0;
    while i < hull.len() - 1
        invariant
            hull@.len() >= 1,
            hull@.len() == h_full.len() - 1,
            forall|q: int| 0 <= q < hull@.len() ==> hull@[q] == #[trigger] h_full[q],
            apex == h_full.last(),
            i <= hull@.len() - 1 || i == 0,
            apex_up == geometry.cap_vertex_spec(bounds, apex, false),
            apex_dn == geometry.cap_vertex_spec(bounds, apex, true),
            lower@.len() == i,
            upper@.len() == i,
            forall|q: int|
                0 <= q < i ==> #[trigger] upper@[q] == (Triangle {
                    a: geometry.cap_vertex_spec(bounds, h_full[q], false),
                    b: geometry.cap_vertex_spec(bounds, h_full[q + 1], false),
                    c: geometry.cap_vertex_spec(bounds, h_full.last(), false),
                }),
            forall|q: int|
                0 <= q < i ==> #[trigger] lower@[q] == (Triangle {
                    a: geometry.cap_vertex_spec(bounds, h_full[q], true),
                    b: geometry.cap_vertex_spec(bounds, h_full.last(), true),
                    c: geometry.cap_vertex_spec(bounds, h_full[q + 1], true),
                }),
        decreases hull@.len() - i,
    {
        let a_up = geometry.cap_vertex(&bounds, &hull[i], false);
        let b_up = geometry.cap_vertex(&bounds, &hull[i + 1], false);
        upper.push(Triangle { a: a_up, b: b_up, c: apex_up });
        let a_dn = geometry.cap_vertex(&bounds, &hull[i], true);
        let b_dn = geometry.cap_vertex(&bounds, &hull[i + 1], true);
        lower.push(Triangle { a: a_dn, b: apex_dn, c: b_dn });
        proof {
            assert(hull@[i as int] == h_full[i as int]);
            assert(hull@[i + 1] == h_full[i + 1]);
            assert(upper@[i as int] == (Triangle { a: a_up, b: b_up, c: apex_up }));
            assert(lower@[i as int] == (Triangle { a: a_dn, b: apex_dn, c: b_dn }));
        }
        i = i + 1;
    }

    proof {
        assert(lower@.len() == h_full.len() - 2);
        assert(cap_pair_ok(*geometry, geometry.bounds_spec(cloud), h_full, lower@, upper@));
        assert(caps_from(*geometry, cloud@, lower@, upper@)) by {
            assert(h_full == monotone_chain_spec(*geometry, cloud@));
            assert(hull_chains_ok(*geometry, h_full, k));
            assert(cap_pair_ok(*geometry, geometry.bounds_spec(cloud), h_full, lower@, upper@));
        }
        if cap_flip_coherent(*geometry) {
            assert forall|q: int| 0 <= q < lower@.len() implies #[trigger] lower@[q] == mirrored(
                *geometry,
                upper@[q],
            ) by {
                assert(geometry.cap_vertex_spec(bounds, h_full[q], true)
                    == geometry.flip_normal_spec(geometry.cap_vertex_spec(bounds, h_full[q], false)));
                assert(geometry.cap_vertex_spec(bounds, h_full[q + 1], true)
                    == geometry.flip_normal_spec(
                    geometry.cap_vertex_spec(bounds, h_full[q + 1], false),
                ));
                assert(geometry.cap_vertex_spec(bounds, h_full.last(), true)
                    == geometry.flip_normal_spec(
                    geometry.cap_vertex_spec(bounds, h_full.last(), false),
                ));
            }
        }
    }
    Some((lower, upper))
}

/// A non-empty cap always comes from a hull polygon of at least three
/// points — the convex hull of the collected cross-section points, each
/// hull point one of them.
pub proof fn lemma_nonempty_cap_has_polygon<V, G: SliceGeometry<V>>(
    g: G,
    pts: Seq<V>,
    lower: Seq<Triangle<V>>,
    upper: Seq<Triangle<V>>,
)
    requires
        caps_from(g, pts, lower, upper),
        lower.len() > 0,
    ensures
        monotone_chain_spec(g, pts).len() >= 3,
        lower.len() == monotone_chain_spec(g, pts).len() - 2,
        exists|k: int| hull_chains_ok(g, monotone_chain_spec(g, pts), k),
        forall|i: int|
            0 <= i < monotone_chain_spec(g, pts).len() ==> pts.contains(
                #[trigger] monotone_chain_spec(g, pts)[i],
            ),
{
    let h = monotone_chain_spec(g, pts);
    let cloud = choose|cloud: Vec<V>|
        #![trigger g.bounds_spec(cloud)]
        cloud@ == pts && cap_pair_ok(g, g.bounds_spec(cloud), h, lower, upper);
    assert(lower.len() == h.len() - 2);
}

} // verus!
