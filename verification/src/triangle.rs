use vstd::prelude::*;

use crate::geometry::crossings_on_plane;
use crate::geometry::flip_side;
use crate::geometry::flipped_geometry;
use crate::geometry::Side;
use crate::geometry::SliceGeometry;

verus! {

/// An ordered triple of vertices; the winding `a -> b -> c` defines the
/// outward face by the right-hand rule.
#[derive(Clone, Copy, Debug, PartialEq)]
pub struct Triangle<V> {
    pub a: V,
    pub b: V,
    pub c: V,
}

impl<V> Triangle<V> {
    pub fn new(a: V, b: V, c: V) -> (t: Self)
        ensures
            t == (Triangle { a, b, c }),
    {
        Triangle { a, b, c }
    }

    /// Reverses the winding order of this triangle.
    pub fn reverse_winding(&mut self)
        ensures
            *final(self) == (Triangle { a: old(self).a, b: old(self).c, c: old(self).b }),
    {
        core::mem::swap(&mut self.b, &mut self.c);
    }

    /// Negates the normal of each vertex of this triangle.
    pub fn flip_normals<G: SliceGeometry<V>>(&mut self, geometry: &G)
        ensures
            *final(self) == (Triangle {
                a: geometry.flip_normal_spec(old(self).a),
                b: geometry.flip_normal_spec(old(self).b),
                c: geometry.flip_normal_spec(old(self).c),
            }),
    {
        self.a = geometry.flip_normal(&self.a);
        self.b = geometry.flip_normal(&self.b);
        self.c = geometry.flip_normal(&self.c);
    }
}

/// The children of a split triangle, tagged by which side the lone child
/// lies on. Each child keeps the parent's winding orientation.
pub enum SplitChildren<V> {
    /// One vertex of the parent lay on the plane: one child per side.
    OneLowerOneUpper { lower: Triangle<V>, upper: Triangle<V> },
    /// The lone off-plane vertex lay above: the quadrilateral below the
    /// plane is split into two children.
    TwoLowerOneUpper { lower0: Triangle<V>, lower1: Triangle<V>, upper: Triangle<V> },
    /// The lone off-plane vertex lay below: the quadrilateral above the
    /// plane is split into two children.
    OneLowerTwoUpper { lower: Triangle<V>, upper0: Triangle<V>, upper1: Triangle<V> },
}

/// Result of splitting one triangle against the plane: the two vertices the
/// split contributes to the cross-section polygon, and the 2 or 3 children
/// that tile the parent.
pub struct TriangleSplit<V> {
    /// The split points lying on the plane. Where one parent vertex lay
    /// exactly on the plane, that vertex is the second point — the cap
    /// triangulator needs it to close the polygon.
    pub points: (V, V),
    pub children: SplitChildren<V>,
}

impl<V> TriangleSplit<V> {
    /// The children on the lower side, in emission order.
    pub open spec fn lower_seq(self) -> Seq<Triangle<V>> {
        match self.children {
            SplitChildren::OneLowerOneUpper { lower, upper } => seq![lower],
            SplitChildren::TwoLowerOneUpper { lower0, lower1, upper } => seq![lower0, lower1],
            SplitChildren::OneLowerTwoUpper { lower, upper0, upper1 } => seq![lower],
        }
    }

    /// The children on the upper side, in emission order.
    pub open spec fn upper_seq(self) -> Seq<Triangle<V>> {
        match self.children {
            SplitChildren::OneLowerOneUpper { lower, upper } => seq![upper],
            SplitChildren::TwoLowerOneUpper { lower0, lower1, upper } => seq![upper],
            SplitChildren::OneLowerTwoUpper { lower, upper0, upper1 } => seq![upper0, upper1],
        }
    }

    /// The two cap points as a sequence, in emission order.
    pub open spec fn points_seq(self) -> Seq<V> {
        seq![self.points.0, self.points.1]
    }

    /// Appends the lower children to `lower` and the upper children to
    /// `upper`.
    pub fn append_to(self, lower: &mut Vec<Triangle<V>>, upper: &mut Vec<Triangle<V>>)
        ensures
            final(lower)@ == old(lower)@ + self.lower_seq(),
            final(upper)@ == old(upper)@ + self.upper_seq(),
    {
        match self.children {
            SplitChildren::OneLowerOneUpper { lower: l, upper: u } => {
                lower.push(l);
                upper.push(u);
                assert(lower@ =~= old(lower)@ + self.lower_seq());
                assert(upper@ =~= old(upper)@ + self.upper_seq());
            },
            SplitChildren::TwoLowerOneUpper { lower0, lower1, upper: u } => {
                lower.push(lower0);
                lower.push(lower1);
                upper.push(u);
                assert(lower@ =~= old(lower)@ + self.lower_seq());
                assert(upper@ =~= old(upper)@ + self.upper_seq());
            },
            SplitChildren::OneLowerTwoUpper { lower: l, upper0, upper1 } => {
                lower.push(l);
                upper.push(upper0);
                upper.push(upper1);
                assert(lower@ =~= old(lower)@ + self.lower_seq());
                assert(upper@ =~= old(upper)@ + self.upper_seq());
            },
        }
    }
}


/// The configurations in which the splitter leaves a triangle whole: all
/// three vertices on one side (or all on the plane), a whole edge on the
/// plane, or a single on-plane vertex with the other two on a common side.
pub open spec fn no_split_config(sa: Side, sb: Side, sc: Side) -> bool {
    ||| sa == sb && sb == sc
    ||| (sa == Side::On && sb == Side::On) || (sb == Side::On && sc == Side::On) || (sc
        == Side::On && sa == Side::On)
    ||| (sa == Side::On && sb != Side::On && sb == sc) || (sb == Side::On && sa != Side::On && sa
        == sc) || (sc == Side::On && sa != Side::On && sa == sb)
}

/// Split of a triangle whose vertex `a` lies on the plane, with `ip` the
/// crossing of edge `b -> c`. The on-plane vertex is emitted as a cap point
/// together with the crossing.
pub open spec fn split_at_vertex_a<V>(t: Triangle<V>, ip: V, side_b: Side) -> TriangleSplit<V> {
    let with_b = Triangle { a: t.a, b: t.b, c: ip };
    let with_c = Triangle { a: t.a, b: ip, c: t.c };
    TriangleSplit {
        points: (ip, t.a),
        children: if side_b == Side::Above {
            SplitChildren::OneLowerOneUpper { lower: with_c, upper: with_b }
        } else {
            SplitChildren::OneLowerOneUpper { lower: with_b, upper: with_c }
        },
    }
}

/// Split of a triangle whose vertex `b` lies on the plane, with `ip` the
/// crossing of edge `a -> c`.
pub open spec fn split_at_vertex_b<V>(t: Triangle<V>, ip: V, side_a: Side) -> TriangleSplit<V> {
    let with_a = Triangle { a: t.a, b: t.b, c: ip };
    let with_c = Triangle { a: ip, b: t.b, c: t.c };
    TriangleSplit {
        points: (ip, t.b),
        children: if side_a == Side::Above {
            SplitChildren::OneLowerOneUpper { lower: with_c, upper: with_a }
        } else {
            SplitChildren::OneLowerOneUpper { lower: with_a, upper: with_c }
        },
    }
}

/// Split of a triangle whose vertex `c` lies on the plane, with `ip` the
/// crossing of edge `a -> b`.
pub open spec fn split_at_vertex_c<V>(t: Triangle<V>, ip: V, side_a: Side) -> TriangleSplit<V> {
    let with_a = Triangle { a: t.a, b: ip, c: t.c };
    let with_b = Triangle { a: ip, b: t.b, c: t.c };
    TriangleSplit {
        points: (ip, t.c),
        children: if side_a == Side::Above {
            SplitChildren::OneLowerOneUpper { lower: with_b, upper: with_a }
        } else {
            SplitChildren::OneLowerOneUpper { lower: with_a, upper: with_b }
        },
    }
}

/// Split with vertex `b` alone on its side: `ip` is the crossing of edge
/// `a -> b`, `ip2` the crossing of edge `b -> c`. The majority quadrilateral
/// is cut by the diagonal from `a` to `ip2`.
pub open spec fn split_lone_b<V>(t: Triangle<V>, ip: V, ip2: V, side_a: Side) -> TriangleSplit<V> {
    let lone = Triangle { a: ip, b: t.b, c: ip2 };
    let quad0 = Triangle { a: t.a, b: ip, c: ip2 };
    let quad1 = Triangle { a: t.a, b: ip2, c: t.c };
    TriangleSplit {
        points: (ip, ip2),
        children: if side_a == Side::Above {
            SplitChildren::OneLowerTwoUpper { lower: lone, upper0: quad0, upper1: quad1 }
        } else {
            SplitChildren::TwoLowerOneUpper { lower0: quad0, lower1: quad1, upper: lone }
        },
    }
}

/// Split with vertex `a` alone on its side: `ip` is the crossing of edge
/// `a -> b`, `ip2` the crossing of edge `a -> c`. The majority quadrilateral
/// is cut by the diagonal from `ip` to `c`.
pub open spec fn split_lone_a<V>(t: Triangle<V>, ip: V, ip2: V, side_a: Side) -> TriangleSplit<V> {
    let lone = Triangle { a: t.a, b: ip, c: ip2 };
    let quad0 = Triangle { a: ip, b: t.b, c: t.c };
    let quad1 = Triangle { a: ip2, b: ip, c: t.c };
    TriangleSplit {
        points: (ip, ip2),
        children: if side_a == Side::Above {
            SplitChildren::TwoLowerOneUpper { lower0: quad0, lower1: quad1, upper: lone }
        } else {
            SplitChildren::OneLowerTwoUpper { lower: lone, upper0: quad0, upper1: quad1 }
        },
    }
}

/// Split with vertex `c` alone on its side: `ip` is the crossing of edge
/// `c -> a`, `ip2` the crossing of edge `c -> b`. The majority quadrilateral
/// is cut by the diagonal from `a` to `ip2`.
pub open spec fn split_lone_c<V>(t: Triangle<V>, ip: V, ip2: V, side_a: Side) -> TriangleSplit<V> {
    let lone = Triangle { a: ip, b: ip2, c: t.c };
    let quad0 = Triangle { a: t.a, b: ip2, c: ip };
    let quad1 = Triangle { a: t.a, b: t.b, c: ip2 };
    TriangleSplit {
        points: (ip, ip2),
        children: if side_a == Side::Above {
            SplitChildren::OneLowerTwoUpper { lower: lone, upper0: quad0, upper1: quad1 }
        } else {
            SplitChildren::TwoLowerOneUpper { lower0: quad0, lower1: quad1, upper: lone }
        },
    }
}

/// The fallback split that cuts the edges out of `c`: tried when the two
/// vertices `a` and `b` share a side, and also when a crossing expected on
/// another edge was not found (an inconsistency between classification and
/// edge intersection, absorbed rather than extrapolated).
pub open spec fn split_through_c<V, G: SliceGeometry<V>>(g: G, t: Triangle<V>) -> Option<
    TriangleSplit<V>,
> {
    match g.crossing_spec(t.c, t.a) {
        Some(ip) => match g.crossing_spec(t.c, t.b) {
            Some(ip2) => Some(split_lone_c(t, ip, ip2, g.side_spec(t.a))),
            None => None,
        },
        None => None,
    }
}

/// What the splitter returns for a triangle: `None` when the triangle is left
/// whole (routed by the driver), otherwise the split, exactly as
/// `intersect_triangle` builds it.
pub open spec fn split_spec<V, G: SliceGeometry<V>>(g: G, t: Triangle<V>) -> Option<
    TriangleSplit<V>,
> {
    let sa = g.side_spec(t.a);
    let sb = g.side_spec(t.b);
    let sc = g.side_spec(t.c);
    if no_split_config(sa, sb, sc) {
        None
    } else if sa == Side::On {
        match g.crossing_spec(t.b, t.c) {
            Some(ip) => Some(split_at_vertex_a(t, ip, sb)),
            None => None,
        }
    } else if sb == Side::On {
        match g.crossing_spec(t.a, t.c) {
            Some(ip) => Some(split_at_vertex_b(t, ip, sa)),
            None => None,
        }
    } else if sc == Side::On {
        match g.crossing_spec(t.a, t.b) {
            Some(ip) => Some(split_at_vertex_c(t, ip, sa)),
            None => None,
        }
    } else if sa != sb && g.crossing_spec(t.a, t.b) is Some && sa == sc {
        match g.crossing_spec(t.b, t.c) {
            Some(ip2) => Some(split_lone_b(t, g.crossing_spec(t.a, t.b)->0, ip2, sa)),
            None => split_through_c(g, t),
        }
    } else if sa != sb && g.crossing_spec(t.a, t.b) is Some {
        match g.crossing_spec(t.a, t.c) {
            Some(ip2) => Some(split_lone_a(t, g.crossing_spec(t.a, t.b)->0, ip2, sa)),
            None => None,
        }
    } else {
        split_through_c(g, t)
    }
}

/// Splits one triangle against the plane. Returns `None` when the triangle
/// does not genuinely cross the plane — coplanar, entirely on one side, an
/// edge on the plane, or touching it at a single vertex — in which case the
/// driver routes the whole triangle. Otherwise returns the 2 or 3 children
/// tiling the triangle, with the parent's winding preserved, plus the two cap
/// points on the plane.
pub fn intersect_triangle<V: Copy, G: SliceGeometry<V>>(geometry: &G, triangle: Triangle<V>) -> (r:
    Option<TriangleSplit<V>>)
    ensures
        r == split_spec(*geometry, triangle),
{
    let side_a = geometry.classify(&triangle.a);
    let side_b = geometry.classify(&triangle.b);
    let side_c = geometry.classify(&triangle.c);

    // Entirely on one side of the plane, or entirely on it.
    if side_a == side_b && side_b == side_c {
        return None;
    }
    // A whole edge lies on the plane.
    if (side_a == Side::On && side_b == Side::On) || (side_b == Side::On && side_c == Side::On)
        || (side_c == Side::On && side_a == Side::On) {
        return None;
    }
    // One vertex on the plane, the other two on a common side.
    if (side_a == Side::On && side_b != Side::On && side_b == side_c) || (side_b == Side::On
        && side_a != Side::On && side_a == side_c) || (side_c == Side::On && side_a != Side::On
        && side_a == side_b) {
        return None;
    }

    if side_a == Side::On {
        // The plane enters at `a` and exits through edge `b -> c`.
        if let Some(ip) = geometry.edge_crossing(&triangle.b, &triangle.c) {
            return Some(
                TriangleSplit {
                    points: (ip, triangle.a),
                    children: if side_b == Side::Above {
                        SplitChildren::OneLowerOneUpper {
                            lower: Triangle { a: triangle.a, b: ip, c: triangle.c },
                            upper: Triangle { a: triangle.a, b: triangle.b, c: ip },
                        }
                    } else {
                        SplitChildren::OneLowerOneUpper {
                            lower: Triangle { a: triangle.a, b: triangle.b, c: ip },
                            upper: Triangle { a: triangle.a, b: ip, c: triangle.c },
                        }
                    },
                },
            );
        }
    } else if side_b == Side::On {
        // The plane enters at `b` and exits through edge `a -> c`.
        if let Some(ip) = geometry.edge_crossing(&triangle.a, &triangle.c) {
            return Some(
                TriangleSplit {
                    points: (ip, triangle.b),
                    children: if side_a == Side::Above {
                        SplitChildren::OneLowerOneUpper {
                            lower: Triangle { a: ip, b: triangle.b, c: triangle.c },
                            upper: Triangle { a: triangle.a, b: triangle.b, c: ip },
                        }
                    } else {
                        SplitChildren::OneLowerOneUpper {
                            lower: Triangle { a: triangle.a, b: triangle.b, c: ip },
                            upper: Triangle { a: ip, b: triangle.b, c: triangle.c },
                        }
                    },
                },
            );
        }
    } else if side_c == Side::On {
        // The plane enters at `c` and exits through edge `a -> b`.
        if let Some(ip) = geometry.edge_crossing(&triangle.a, &triangle.b) {
            return Some(
                TriangleSplit {
                    points: (ip, triangle.c),
                    children: if side_a == Side::Above {
                        SplitChildren::OneLowerOneUpper {
                            lower: Triangle { a: ip, b: triangle.b, c: triangle.c },
                            upper: Triangle { a: triangle.a, b: ip, c: triangle.c },
                        }
                    } else {
                        SplitChildren::OneLowerOneUpper {
                            lower: Triangle { a: triangle.a, b: ip, c: triangle.c },
                            upper: Triangle { a: ip, b: triangle.b, c: triangle.c },
                        }
                    },
                },
            );
        }
    } else {
        // No vertex on the plane: the plane cuts two edges, and the lone
        // vertex's side gets one child while the other side gets two.
        if side_a != side_b {
            if let Some(ip) = geometry.edge_crossing(&triangle.a, &triangle.b) {
                if side_a == side_c {
                    // `b` is alone on its side; cut edges a->b and b->c.
                    if let Some(ip2) = geometry.edge_crossing(&triangle.b, &triangle.c) {
                        let lone = Triangle { a: ip, b: triangle.b, c: ip2 };
                        let quad0 = Triangle { a: triangle.a, b: ip, c: ip2 };
                        let quad1 = Triangle { a: triangle.a, b: ip2, c: triangle.c };
                        return Some(
                            TriangleSplit {
                                points: (ip, ip2),
                                children: if side_a == Side::Above {
                                    SplitChildren::OneLowerTwoUpper {
                                        lower: lone,
                                        upper0: quad0,
                                        upper1: quad1,
                                    }
                                } else {
                                    SplitChildren::TwoLowerOneUpper {
                                        lower0: quad0,
                                        lower1: quad1,
                                        upper: lone,
                                    }
                                },
                            },
                        );
                    }
                } else {
                    // `a` is alone on its side; cut edges a->b and a->c.
                    if let Some(ip2) = geometry.edge_crossing(&triangle.a, &triangle.c) {
                        let lone = Triangle { a: triangle.a, b: ip, c: ip2 };
                        let quad0 = Triangle { a: ip, b: triangle.b, c: triangle.c };
                        let quad1 = Triangle { a: ip2, b: ip, c: triangle.c };
                        return Some(
                            TriangleSplit {
                                points: (ip, ip2),
                                children: if side_a == Side::Above {
                                    SplitChildren::TwoLowerOneUpper {
                                        lower0: quad0,
                                        lower1: quad1,
                                        upper: lone,
                                    }
                                } else {
                                    SplitChildren::OneLowerTwoUpper {
                                        lower: lone,
                                        upper0: quad0,
                                        upper1: quad1,
                                    }
                                },
                            },
                        );
                    } else {
                        return None;
                    }
                }
            }
        }
        // `c` is alone on its side (or a crossing expected on another edge
        // was missing): cut edges c->a and c->b.
        if let Some(ip) = geometry.edge_crossing(&triangle.c, &triangle.a) {
            if let Some(ip2) = geometry.edge_crossing(&triangle.c, &triangle.b) {
                let lone = Triangle { a: ip, b: ip2, c: triangle.c };
                let quad0 = Triangle { a: triangle.a, b: ip2, c: ip };
                let quad1 = Triangle { a: triangle.a, b: triangle.b, c: ip2 };
                return Some(
                    TriangleSplit {
                        points: (ip, ip2),
                        children: if side_a == Side::Above {
                            SplitChildren::OneLowerTwoUpper {
                                lower: lone,
                                upper0: quad0,
                                upper1: quad1,
                            }
                        } else {
                            SplitChildren::TwoLowerOneUpper {
                                lower0: quad0,
                                lower1: quad1,
                                upper: lone,
                            }
                        },
                    },
                );
            }
        }
    }
    None
}

/// How many triangles a split adds beyond the one it replaces.
pub open spec fn extra_of<V>(s: TriangleSplit<V>) -> nat {
    match s.children {
        SplitChildren::OneLowerOneUpper { .. } => 1,
        SplitChildren::TwoLowerOneUpper { .. } => 2,
        SplitChildren::OneLowerTwoUpper { .. } => 2,
    }
}

/// Every split replaces its triangle by `1 + extra_of` children — one or two
/// on one side, the rest on the other — and a triangle that is not split
/// contributes to neither side here. Together with the driver's routing this
/// is the partition of the input: each triangle is either routed whole to
/// exactly one side or replaced by exactly its own children.
pub proof fn lemma_split_children<V, G: SliceGeometry<V>>(g: G, t: Triangle<V>)
    ensures
        split_spec(g, t) matches Some(s) ==> s.lower_seq().len() + s.upper_seq().len() == 1
            + extra_of(s),
        split_spec(g, t) matches Some(s) ==> 1 <= s.lower_seq().len() <= 2 && 1
            <= s.upper_seq().len() <= 2,
{
    if let Some(s) = split_spec(g, t) {
        match s.children {
            SplitChildren::OneLowerOneUpper { .. } => {},
            SplitChildren::TwoLowerOneUpper { .. } => {},
            SplitChildren::OneLowerTwoUpper { .. } => {},
        }
    }
}

/// Both points a split emits to the cross-section lie on the plane, as far
/// as the geometry's crossings do: each is either an edge crossing or a
/// parent vertex that classified as `On`.
pub proof fn lemma_split_points_on_plane<V, G: SliceGeometry<V>>(g: G, t: Triangle<V>)
    requires
        crossings_on_plane(g),
        split_spec(g, t) is Some,
    ensures
        g.side_spec(split_spec(g, t)->0.points.0) == Side::On,
        g.side_spec(split_spec(g, t)->0.points.1) == Side::On,
{
    let sa = g.side_spec(t.a);
    let sb = g.side_spec(t.b);
    let sc = g.side_spec(t.c);
    if !no_split_config(sa, sb, sc) {
        if sa == Side::On {
            assert(g.crossing_spec(t.b, t.c) matches Some(p) ==> g.side_spec(p) == Side::On);
        } else if sb == Side::On {
            assert(g.crossing_spec(t.a, t.c) matches Some(p) ==> g.side_spec(p) == Side::On);
        } else if sc == Side::On {
            assert(g.crossing_spec(t.a, t.b) matches Some(p) ==> g.side_spec(p) == Side::On);
        } else {
            assert(g.crossing_spec(t.a, t.b) matches Some(p) ==> g.side_spec(p) == Side::On);
            assert(g.crossing_spec(t.b, t.c) matches Some(p) ==> g.side_spec(p) == Side::On);
            assert(g.crossing_spec(t.a, t.c) matches Some(p) ==> g.side_spec(p) == Side::On);
            assert(g.crossing_spec(t.c, t.a) matches Some(p) ==> g.side_spec(p) == Side::On);
            assert(g.crossing_spec(t.c, t.b) matches Some(p) ==> g.side_spec(p) == Side::On);
        }
    }
}

/// Splitting against the reversed plane gives the same split with the two
/// sides exchanged: the same cap points, the upper children now below and
/// the lower children above.
pub proof fn lemma_split_flip<V, G1: SliceGeometry<V>, G2: SliceGeometry<V>>(
    g1: G1,
    g2: G2,
    t: Triangle<V>,
)
    requires
        flipped_geometry(g1, g2),
    ensures
        split_spec(g2, t) is Some <==> split_spec(g1, t) is Some,
        split_spec(g1, t) matches Some(s1) ==> {
            let s2 = split_spec(g2, t)->0;
            &&& s2.points == s1.points
            &&& s2.upper_seq() == s1.lower_seq()
            &&& s2.lower_seq() == s1.upper_seq()
        },
{
    assert(g2.side_spec(t.a) == flip_side(g1.side_spec(t.a)));
    assert(g2.side_spec(t.b) == flip_side(g1.side_spec(t.b)));
    assert(g2.side_spec(t.c) == flip_side(g1.side_spec(t.c)));
    assert(g2.crossing_spec(t.a, t.b) == g1.crossing_spec(t.a, t.b));
    assert(g2.crossing_spec(t.a, t.c) == g1.crossing_spec(t.a, t.c));
    assert(g2.crossing_spec(t.b, t.c) == g1.crossing_spec(t.b, t.c));
    assert(g2.crossing_spec(t.c, t.a) == g1.crossing_spec(t.c, t.a));
    assert(g2.crossing_spec(t.c, t.b) == g1.crossing_spec(t.c, t.b));
}

/// Whether `v` is a vertex of the parent triangle or one of the two split
/// points.
pub open spec fn from_parent<V>(s: TriangleSplit<V>, t: Triangle<V>, v: V) -> bool {
    v == t.a || v == t.b || v == t.c || v == s.points.0 || v == s.points.1
}

/// The children of a split are built out of the parent's vertices and the
/// two split points alone: no vertex is invented beyond the points the
/// geometry interpolated onto the plane.
pub proof fn lemma_split_vertices<V, G: SliceGeometry<V>>(g: G, t: Triangle<V>)
    requires
        split_spec(g, t) is Some,
    ensures
        forall|i: int|
            0 <= i < split_spec(g, t)->0.lower_seq().len() ==> {
                let ch = #[trigger] split_spec(g, t)->0.lower_seq()[i];
                from_parent(split_spec(g, t)->0, t, ch.a) && from_parent(
                    split_spec(g, t)->0,
                    t,
                    ch.b,
                ) && from_parent(split_spec(g, t)->0, t, ch.c)
            },
        forall|i: int|
            0 <= i < split_spec(g, t)->0.upper_seq().len() ==> {
                let ch = #[trigger] split_spec(g, t)->0.upper_seq()[i];
                from_parent(split_spec(g, t)->0, t, ch.a) && from_parent(
                    split_spec(g, t)->0,
                    t,
                    ch.b,
                ) && from_parent(split_spec(g, t)->0, t, ch.c)
            },
{
    let s = split_spec(g, t)->0;
    match s.children {
        SplitChildren::OneLowerOneUpper { lower, upper } => {
            assert(s.lower_seq() == seq![lower] && s.upper_seq() == seq![upper]);
        },
        SplitChildren::TwoLowerOneUpper { lower0, lower1, upper } => {
            assert(s.lower_seq() == seq![lower0, lower1] && s.upper_seq() == seq![upper]);
        },
        SplitChildren::OneLowerTwoUpper { lower, upper0, upper1 } => {
            assert(s.lower_seq() == seq![lower] && s.upper_seq() == seq![upper0, upper1]);
        },
    }
}

} // verus!
