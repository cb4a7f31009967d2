use vstd::prelude::*;

verus! {

/// Position of a point relative to the cutting plane.
///
/// `On` means the signed distance from the plane is within the tolerance the
/// geometry implementation uses; `Above` is the side the plane normal points
/// toward, `Below` the opposite side.
#[derive(Clone, Copy, Debug, PartialEq, Eq, Structural)]
pub enum Side {
    On,
    Above,
    Below,
}

/// The mirrored classification: `Above` and `Below` swap, `On` stays.
/// This is how every point classifies against the reversed plane
/// `(-normal, -dist)`.
pub open spec fn flip_side(s: Side) -> Side {
    match s {
        Side::On => Side::On,
        Side::Above => Side::Below,
        Side::Below => Side::Above,
    }
}

/// The numeric capabilities the slicing kernel needs around a vertex type `V`.
///
/// A value of an implementing type bundles the cutting plane, the texture
/// bounds and the vertex operations of the mesh's vertex type: classifying a
/// vertex against the plane, intersecting an edge with the plane, comparing
/// and orienting the projections of vertices in the plane's 2D basis, and
/// building cap vertices with mapped UV coordinates.
///
/// Each executable method is pinned to a spec-level function of the same
/// implementation (`side_spec`, `crossing_spec`, ...), so everything the
/// kernel proves is stated in terms of those functions. Implementations live
/// outside the verified kernel (they are floating-point code) and are not
/// themselves checked against the doc text below; the kernel's guarantees are
/// relative to the methods returning what their spec functions say.
pub trait SliceGeometry<V>: Sized {
    /// An opaque summary of a point cloud — typically the 2D bounding box
    /// of the projected points — from which cap UV coordinates are
    /// computed.
    type Bounds;

    /// Which side of the plane a vertex lies on.
    spec fn side_spec(&self, v: V) -> Side;

    /// The vertex interpolated where the edge from `a` to `b` meets the
    /// plane, or `None` when the edge is parallel to the plane or the
    /// intersection parameter falls outside the segment.
    spec fn crossing_spec(&self, a: V, b: V) -> Option<V>;

    /// Lexicographic "less or equal" on the 2D projections of two vertices
    /// in the plane's basis.
    spec fn le_spec(&self, a: V, b: V) -> bool;

    /// Whether the 2D projections of `a`, `b`, `c` make a strict left turn
    /// (positive cross product) in the plane's basis.
    spec fn ccw_spec(&self, a: V, b: V, c: V) -> bool;

    /// The bounds summary of a point cloud.
    spec fn bounds_spec(&self, pts: Vec<V>) -> Self::Bounds;

    /// The cap vertex built for a point: the point's position, a UV
    /// coordinate mapped from its place inside `bounds` through the texture
    /// bounds, and the plane normal — negated when `flip` is set.
    spec fn cap_vertex_spec(&self, bounds: Self::Bounds, v: V, flip: bool) -> V;

    /// The same vertex with its normal negated.
    spec fn flip_normal_spec(&self, v: V) -> V;

    fn classify(&self, v: &V) -> (s: Side)
        ensures
            s == self.side_spec(*v),
    ;

    fn edge_crossing(&self, a: &V, b: &V) -> (r: Option<V>)
        ensures
            r == self.crossing_spec(*a, *b),
    ;

    fn le(&self, a: &V, b: &V) -> (r: bool)
        ensures
            r == self.le_spec(*a, *b),
    ;

    fn is_ccw(&self, a: &V, b: &V, c: &V) -> (r: bool)
        ensures
            r == self.ccw_spec(*a, *b, *c),
    ;

    fn bounds_of(&self, pts: &Vec<V>) -> (b: Self::Bounds)
        ensures
            b == self.bounds_spec(*pts),
    ;

    fn cap_vertex(&self, bounds: &Self::Bounds, v: &V, flip: bool) -> (w: V)
        ensures
            w == self.cap_vertex_spec(*bounds, *v, flip),
    ;

    fn flip_normal(&self, v: &V) -> (w: V)
        ensures
            w == self.flip_normal_spec(*v),
    ;
}

/// Whether `le_spec` is a total preorder. The intended comparison —
/// lexicographic order on projected coordinates, with incomparable values
/// treated as equal — satisfies this whenever the projected coordinates are
/// not NaN.
pub open spec fn le_total_preorder<V, G: SliceGeometry<V>>(g: G) -> bool {
    &&& forall|a: V, b: V| #[trigger] g.le_spec(a, b) || #[trigger] g.le_spec(b, a)
    &&& forall|a: V, b: V, c: V|
        #[trigger] g.le_spec(a, b) && #[trigger] g.le_spec(b, c) ==> g.le_spec(a, c)
}

/// Whether every edge crossing the geometry reports classifies as `On`.
/// An implementation that interpolates the crossing onto the plane
/// satisfies this as far as its tolerance absorbs the rounding of the
/// interpolation.
pub open spec fn crossings_on_plane<V, G: SliceGeometry<V>>(g: G) -> bool {
    forall|a: V, b: V|
        #[trigger] g.crossing_spec(a, b) matches Some(p) ==> g.side_spec(p) == Side::On
}

/// Whether `g2` is `g1` with its cutting plane reversed: every point
/// classifies to the mirrored side, while edge crossings are unchanged (the
/// interpolation parameter `(d - n·a) / n·(b - a)` is invariant under
/// negating both the normal and the distance).
pub open spec fn flipped_geometry<V, G1: SliceGeometry<V>, G2: SliceGeometry<V>>(
    g1: G1,
    g2: G2,
) -> bool {
    &&& forall|v: V| #[trigger] g2.side_spec(v) == flip_side(g1.side_spec(v))
    &&& forall|a: V, b: V| #[trigger] g2.crossing_spec(a, b) == g1.crossing_spec(a, b)
}

/// Whether building a cap vertex with `flip` set gives exactly the unflipped
/// cap vertex with its normal negated. An implementation that builds both
/// from the same position and UV satisfies this by construction.
pub open spec fn cap_flip_coherent<V, G: SliceGeometry<V>>(g: G) -> bool {
    forall|bounds: <G as SliceGeometry<V>>::Bounds, v: V|
        #[trigger] g.cap_vertex_spec(bounds, v, true) == g.flip_normal_spec(
            g.cap_vertex_spec(bounds, v, false),
        )
}

} // verus!
