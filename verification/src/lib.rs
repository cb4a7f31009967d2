//! A slicing kernel for convex triangle meshes: given a triangle soup and an
//! oriented cutting plane, it routes and splits the triangles into the
//! portions above and below the plane and fills each cut with a triangulated
//! cross-section cap, so both sides come back as closed meshes.
//!
//! The kernel is generic over the vertex type and over a [`SliceGeometry`],
//! the small capability set it needs around vertices: plane classification,
//! edge/plane interpolation, 2D projection predicates and cap-vertex
//! construction. Those operations are floating-point and live with the
//! caller; everything else — the splitter's case analysis, the routing, the
//! convex-hull and fan triangulation of the cap, and the driver — is
//! verified here against the geometry's spec-level functions: each function's
//! contract pins its output down exactly, and the proof functions state the
//! kernel's laws (mass conservation, partition, cap pairing, plane-flip
//! symmetry, no-hit behavior, on-plane cap points).

use vstd::prelude::*;

pub mod geometry;
pub mod triangle;
pub mod triangulate;

pub use crate::geometry::Side;
pub use crate::geometry::SliceGeometry;
pub use crate::triangle::SplitChildren;
pub use crate::triangle::Triangle;
pub use crate::triangle::TriangleSplit;
pub use crate::triangulate::monotone_chain;
pub use crate::triangulate::sort_points;
pub use crate::triangulate::triangulate;

use crate::geometry::cap_flip_coherent;
use crate::geometry::crossings_on_plane;
use crate::geometry::flip_side;
use crate::geometry::flipped_geometry;
use crate::triangle::extra_of;
use crate::triangle::lemma_split_children;
use crate::triangle::lemma_split_flip;
use crate::triangle::lemma_split_points_on_plane;
use crate::triangle::intersect_triangle;
use crate::triangle::split_spec;
use crate::triangulate::caps_from;
use crate::triangulate::mirrored;

verus! {

/// One side of a sliced mesh: the surface triangles that fell on this side of
/// the plane (`hull`) and the planar cap filling the cut (`cross_section`).
pub struct SubMesh<V> {
    pub hull: Vec<Triangle<V>>,
    pub cross_section: Vec<Triangle<V>>,
}

/// Groups a flat vertex list into triangles, three consecutive vertices
/// each. A stream that is not a multiple of three long is a caller bug:
/// this function demands whole triangles up front.
pub fn vertex_to_triangle<V: Copy>(vertices: Vec<V>) -> (r: Vec<Triangle<V>>)
    requires
        vertices@.len() % 3 == 0,
    ensures
        r@.len() == vertices@.len() / 3,
        forall|i: int|
            0 <= i < r@.len() ==> r@[i] == (Triangle {
                a: vertices@[3 * i],
                b: vertices@[3 * i + 1],
                c: vertices@[3 * i + 2],
            }),
{
    let mut r: Vec<Triangle<V>> = Vec::new();
    let mut i: usize = 0;
    while i < vertices.len()
        invariant
            vertices@.len() % 3 == 0,
            i % 3 == 0,
            i <= vertices@.len(),
            r@.len() == i / 3,
            forall|j: int|
                0 <= j < r@.len() ==> r@[j] == (Triangle {
                    a: vertices@[3 * j],
                    b: vertices@[3 * j + 1],
                    c: vertices@[3 * j + 2],
                }),
        decreases vertices@.len() - i,
    {
        assert(i + 2 < vertices@.len()) by {
            assert(vertices@.len() - i >= 3) by (nonlinear_arith)
                requires
                    i % 3 == 0,
                    vertices@.len() % 3 == 0,
                    i < vertices@.len(),
            ;
        };
        let t = Triangle { a: vertices[i], b: vertices[i + 1], c: vertices[i + 2] };
        r.push(t);
        i = i + 3;
    }
    r
}

/// Flattens a triangle list back into a vertex list, three vertices per
/// triangle.
pub fn triangle_to_vertex<V: Copy>(triangles: Vec<Triangle<V>>) -> (r: Vec<V>)
    ensures
        r@.len() == 3 * triangles@.len(),
        forall|i: int|
            0 <= i < triangles@.len() ==> r@[3 * i] == triangles@[i].a && r@[3 * i + 1]
                == triangles@[i].b && r@[3 * i + 2] == triangles@[i].c,
{
    let mut r: Vec<V> = Vec::new();
    let mut i: usize = 0;
    while i < triangles.len()
        invariant
            i <= triangles@.len(),
            r@.len() == 3 * i,
            forall|j: int|
                0 <= j < i ==> r@[3 * j] == triangles@[j].a && r@[3 * j + 1] == triangles@[j].b
                    && r@[3 * j + 2] == triangles@[j].c,
        decreases triangles@.len() - i,
    {
        let t = triangles[i];
        r.push(t.a);
        r.push(t.b);
        r.push(t.c);
        i = i + 1;
    }
    r
}

/// The side a whole (unsplit) triangle is routed to: the side of its first
/// vertex not lying on the plane, or `On` when all three lie on the plane
/// (such a coplanar triangle is routed upward).
pub open spec fn route_side<V, G: SliceGeometry<V>>(g: G, t: Triangle<V>) -> Side {
    if g.side_spec(t.a) != Side::On {
        g.side_spec(t.a)
    } else if g.side_spec(t.b) != Side::On {
        g.side_spec(t.b)
    } else if g.side_spec(t.c) != Side::On {
        g.side_spec(t.c)
    } else {
        Side::On
    }
}

/// What one input triangle contributes to the upper hull: its upper split
/// children, or the triangle itself unless it is routed below.
pub open spec fn upper_part<V, G: SliceGeometry<V>>(g: G, t: Triangle<V>) -> Seq<Triangle<V>> {
    match split_spec(g, t) {
        Some(s) => s.upper_seq(),
        None => if route_side(g, t) == Side::Below {
            seq![]
        } else {
            seq![t]
        },
    }
}

/// What one input triangle contributes to the lower hull.
pub open spec fn lower_part<V, G: SliceGeometry<V>>(g: G, t: Triangle<V>) -> Seq<Triangle<V>> {
    match split_spec(g, t) {
        Some(s) => s.lower_seq(),
        None => if route_side(g, t) == Side::Below {
            seq![t]
        } else {
            seq![]
        },
    }
}

/// What one input triangle contributes to the cross-section point cloud.
pub open spec fn cross_part<V, G: SliceGeometry<V>>(g: G, t: Triangle<V>) -> Seq<V> {
    match split_spec(g, t) {
        Some(s) => s.points_seq(),
        None => seq![],
    }
}

/// The whole upper hull of a slice: each triangle's upper contribution, in
/// input order.
pub open spec fn all_upper<V, G: SliceGeometry<V>>(g: G, ts: Seq<Triangle<V>>) -> Seq<Triangle<V>>
    decreases ts.len(),
{
    if ts.len() == 0 {
        Seq::empty()
    } else {
        all_upper(g, ts.drop_last()) + upper_part(g, ts.last())
    }
}

/// The whole lower hull of a slice.
pub open spec fn all_lower<V, G: SliceGeometry<V>>(g: G, ts: Seq<Triangle<V>>) -> Seq<Triangle<V>>
    decreases ts.len(),
{
    if ts.len() == 0 {
        Seq::empty()
    } else {
        all_lower(g, ts.drop_last()) + lower_part(g, ts.last())
    }
}

/// All cross-section points a slice collects, in input order.
pub open spec fn all_cross<V, G: SliceGeometry<V>>(g: G, ts: Seq<Triangle<V>>) -> Seq<V>
    decreases ts.len(),
{
    if ts.len() == 0 {
        Seq::empty()
    } else {
        all_cross(g, ts.drop_last()) + cross_part(g, ts.last())
    }
}

/// Slices a convex triangle mesh by the cutting plane inside `geometry`.
///
/// Each input triangle is either routed whole to one side or split, with its
/// children tiling it; the split points are collected and, when at least 3
/// were found, triangulated into the two cross-section caps. Returns `None`
/// when one side would be empty — the plane missed the mesh — and otherwise
/// `Some((upper, lower))`.
pub fn slice_convex<V: Copy, G: SliceGeometry<V>>(triangles: Vec<Triangle<V>>, geometry: &G) -> (r:
    Option<(SubMesh<V>, SubMesh<V>)>)
    ensures
        r is Some <==> (all_upper(*geometry, triangles@).len() > 0 && all_lower(
            *geometry,
            triangles@,
        ).len() > 0),
        r matches Some(pair) ==> {
            &&& pair.0.hull@ == all_upper(*geometry, triangles@)
            &&& pair.1.hull@ == all_lower(*geometry, triangles@)
            &&& pair.0.cross_section@.len() == pair.1.cross_section@.len()
            &&& (all_cross(*geometry, triangles@).len() >= 3 ==> caps_from(
                *geometry,
                all_cross(*geometry, triangles@),
                pair.1.cross_section@,
                pair.0.cross_section@,
            ))
            &&& (all_cross(*geometry, triangles@).len() < 3 ==> pair.0.cross_section@.len() == 0)
            &&& (cap_flip_coherent(*geometry) ==> forall|i: int|
                0 <= i < pair.1.cross_section@.len() ==> #[trigger] pair.1.cross_section@[i]
                    == mirrored(*geometry, pair.0.cross_section@[i]))
        },
{
    let mut upper: Vec<Triangle<V>> = Vec::new();
    let mut lower: Vec<Triangle<V>> = Vec::new();
    let mut cross: Vec<V> = Vec::new();

    let mut i: usize = 0;
    while i < triangles.len()
        invariant
            i <= triangles@.len(),
            upper@ == all_upper(*geometry, triangles@.take(i as int)),
            lower@ == all_lower(*geometry, triangles@.take(i as int)),
            cross@ == all_cross(*geometry, triangles@.take(i as int)),
        decreases triangles@.len() - i,
    {
        let triangle = triangles[i];
        let ghost prev_upper = upper@;
        let ghost prev_lower = lower@;
        let ghost prev_cross = cross@;
        if let Some(split) = intersect_triangle(geometry, triangle) {
            cross.push(split.points.0);
            cross.push(split.points.1);
            split.append_to(&mut lower, &mut upper);
        } else {
            let side_a = geometry.classify(&triangle.a);
            let side_b = geometry.classify(&triangle.b);
            let side_c = geometry.classify(&triangle.c);

            // The plane did not split this triangle: route it whole, by its
            // first vertex that is not on the plane.
            let side = if side_a != Side::On {
                side_a
            } else if side_b != Side::On {
                side_b
            } else if side_c != Side::On {
                side_c
            } else {
                Side::On
            };
            if side == Side::Above || side == Side::On {
                upper.push(triangle);
            } else {
                lower.push(triangle);
            }
        }
        proof {
            let ts1 = triangles@.take(i + 1);
            assert(ts1.drop_last() =~= triangles@.take(i as int));
            assert(ts1.last() == triangles@[i as int]);
            assert(upper@ =~= prev_upper + upper_part(*geometry, triangle));
            assert(lower@ =~= prev_lower + lower_part(*geometry, triangle));
            assert(cross@ =~= prev_cross + cross_part(*geometry, triangle));
        }
        i = i + 1;
    }
    proof {
        assert(triangles@.take(triangles@.len() as int) =~= triangles@);
    }

    if !(upper.is_empty() || lower.is_empty()) {
        let (lower_cross, upper_cross) = match triangulate(geometry, cross) {
            Some(caps) => caps,
            // Fewer than 3 points were gathered: the caps stay empty.
            None => (Vec::new(), Vec::new()),
        };
        Some(
            (
                SubMesh { hull: upper, cross_section: upper_cross },
                SubMesh { hull: lower, cross_section: lower_cross },
            ),
        )
    } else {
        // No slicing occurred.
        None
    }
}

/// How many triangles the splits of `ts` add beyond one per input triangle.
pub open spec fn split_extra<V, G: SliceGeometry<V>>(g: G, ts: Seq<Triangle<V>>) -> nat
    decreases ts.len(),
{
    if ts.len() == 0 {
        0
    } else {
        split_extra(g, ts.drop_last()) + match split_spec(g, ts.last()) {
            Some(s) => extra_of(s),
            None => 0,
        }
    }
}

/// Mass conservation: the two hulls together hold exactly one triangle per
/// input triangle plus one or two extra per split — so never fewer than the
/// input.
pub proof fn lemma_mass_conservation<V, G: SliceGeometry<V>>(g: G, ts: Seq<Triangle<V>>)
    ensures
        all_upper(g, ts).len() + all_lower(g, ts).len() == ts.len() + split_extra(g, ts),
        all_upper(g, ts).len() + all_lower(g, ts).len() >= ts.len(),
    decreases ts.len(),
{
    if ts.len() > 0 {
        lemma_mass_conservation(g, ts.drop_last());
        lemma_split_children(g, ts.last());
    }
}

/// Partition: a triangle the splitter leaves whole goes, in its own person,
/// to exactly one of the two hulls; a split triangle contributes exactly its
/// children, each side receiving at least one. Nothing is duplicated or
/// dropped: the driver's hulls are precisely the concatenation of these
/// per-triangle contributions, in input order.
pub proof fn lemma_partition<V, G: SliceGeometry<V>>(g: G, t: Triangle<V>)
    ensures
        split_spec(g, t) is None ==> (upper_part(g, t) == seq![t] && lower_part(g, t)
            == Seq::<Triangle<V>>::empty()) || (upper_part(g, t) == Seq::<Triangle<V>>::empty()
            && lower_part(g, t) == seq![t]),
        split_spec(g, t) matches Some(s) ==> upper_part(g, t) == s.upper_seq() && lower_part(g, t)
            == s.lower_seq() && 1 <= s.upper_seq().len() <= 2 && 1 <= s.lower_seq().len() <= 2,
{
    lemma_split_children(g, t);
}

/// Whether every vertex of every triangle lies strictly above the plane.
pub open spec fn all_strictly_above<V, G: SliceGeometry<V>>(g: G, ts: Seq<Triangle<V>>) -> bool {
    forall|i: int|
        0 <= i < ts.len() ==> {
            &&& g.side_spec(#[trigger] ts[i].a) == Side::Above
            &&& g.side_spec(ts[i].b) == Side::Above
            &&& g.side_spec(ts[i].c) == Side::Above
        }
}

/// No-hit idempotence: a mesh strictly above the plane is never split and
/// goes whole to the upper side, so the lower side stays empty and
/// `slice_convex` returns `None`.
pub proof fn lemma_no_hit<V, G: SliceGeometry<V>>(g: G, ts: Seq<Triangle<V>>)
    requires
        all_strictly_above(g, ts),
    ensures
        all_upper(g, ts) == ts,
        all_lower(g, ts) == Seq::<Triangle<V>>::empty(),
        all_cross(g, ts) == Seq::<V>::empty(),
    decreases ts.len(),
{
    if ts.len() > 0 {
        lemma_no_hit(g, ts.drop_last());
        assert(split_spec(g, ts.last()) is None);
        assert(all_upper(g, ts) =~= ts);
        assert(all_lower(g, ts) =~= Seq::<Triangle<V>>::empty());
        assert(all_cross(g, ts) =~= Seq::<V>::empty());
    } else {
        assert(all_upper(g, ts) =~= ts);
    }
}

/// Plane-flip symmetry: slicing with the reversed plane exchanges the two
/// hulls and keeps the cross-section points, provided no input triangle lies
/// entirely on the plane (such a triangle is routed upward under either
/// orientation).
pub proof fn lemma_plane_flip<V, G1: SliceGeometry<V>, G2: SliceGeometry<V>>(
    g1: G1,
    g2: G2,
    ts: Seq<Triangle<V>>,
)
    requires
        flipped_geometry(g1, g2),
        forall|i: int|
            0 <= i < ts.len() ==> !(g1.side_spec(#[trigger] ts[i].a) == Side::On && g1.side_spec(
                ts[i].b,
            ) == Side::On && g1.side_spec(ts[i].c) == Side::On),
    ensures
        all_upper(g2, ts) == all_lower(g1, ts),
        all_lower(g2, ts) == all_upper(g1, ts),
        all_cross(g2, ts) == all_cross(g1, ts),
    decreases ts.len(),
{
    if ts.len() > 0 {
        lemma_plane_flip(g1, g2, ts.drop_last());
        let t = ts.last();
        lemma_split_flip(g1, g2, t);
        if split_spec(g1, t) is None {
            assert(g2.side_spec(t.a) == flip_side(g1.side_spec(t.a)));
            assert(g2.side_spec(t.b) == flip_side(g1.side_spec(t.b)));
            assert(g2.side_spec(t.c) == flip_side(g1.side_spec(t.c)));
            assert(route_side(g2, t) == flip_side(route_side(g1, t)));
        }
        assert(all_upper(g2, ts) =~= all_lower(g1, ts));
        assert(all_lower(g2, ts) =~= all_upper(g1, ts));
        assert(all_cross(g2, ts) =~= all_cross(g1, ts));
    } else {
        assert(all_upper(g2, ts) =~= all_lower(g1, ts));
        assert(all_lower(g2, ts) =~= all_upper(g1, ts));
        assert(all_cross(g2, ts) =~= all_cross(g1, ts));
    }
}

/// On-plane cap points: every point the slice collects for the cross
/// section classifies as `On` — it is an edge crossing, which the geometry
/// puts on the plane, or a vertex that already lay there.
pub proof fn lemma_cap_points_on_plane<V, G: SliceGeometry<V>>(g: G, ts: Seq<Triangle<V>>)
    requires
        crossings_on_plane(g),
    ensures
        forall|j: int|
            0 <= j < all_cross(g, ts).len() ==> g.side_spec(
                #[trigger] all_cross(g, ts)[j],
            ) == Side::On,
    decreases ts.len(),
{
    if ts.len() > 0 {
        lemma_cap_points_on_plane(g, ts.drop_last());
        let t = ts.last();
        if split_spec(g, t) is Some {
            lemma_split_points_on_plane(g, t);
        }
        assert forall|j: int| 0 <= j < all_cross(g, ts).len() implies g.side_spec(
            #[trigger] all_cross(g, ts)[j],
        ) == Side::On by {
            let prev = all_cross(g, ts.drop_last());
            if j < prev.len() {
                assert(all_cross(g, ts)[j] == prev[j]);
            }
        }
    }
}

} // verus!
