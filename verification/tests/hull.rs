use crab_claw::{
    monotone_chain, sort_points, triangle_to_vertex, triangulate, vertex_to_triangle, Side,
    SliceGeometry, Triangle,
};

/// A minimal vertex: a 2D position carried in the x and y of a 3D point,
/// with a UV and a normal slot for the cap builder.
#[derive(Clone, Copy, Debug, PartialEq)]
struct P {
    pos: [f32; 2],
    uv: [f32; 2],
    up: bool,
}

fn p(x: f32, y: f32) -> P {
    P { pos: [x, y], uv: [0.0, 0.0], up: true }
}

/// A geometry whose plane basis is the x/y plane itself: projections are the
/// positions, so hulls and UVs can be computed by hand.
struct FlatGeo {
    tb: [f32; 4],
}

fn cross_2d(a: [f32; 2], b: [f32; 2], c: [f32; 2]) -> f32 {
    (a[0] - b[0]) * (b[1] - c[1]) - (b[0] - c[0]) * (a[1] - b[1])
}

impl SliceGeometry<P> for FlatGeo {
    type Bounds = [f32; 4];

    // Ghost mirrors; never called at runtime.
    fn side_spec(&self, v: P) -> Side {
        self.classify(&v)
    }

    fn crossing_spec(&self, a: P, b: P) -> Option<P> {
        self.edge_crossing(&a, &b)
    }

    fn le_spec(&self, a: P, b: P) -> bool {
        self.le(&a, &b)
    }

    fn ccw_spec(&self, a: P, b: P, c: P) -> bool {
        self.is_ccw(&a, &b, &c)
    }

    fn bounds_spec(&self, pts: Vec<P>) -> [f32; 4] {
        self.bounds_of(&pts)
    }

    fn cap_vertex_spec(&self, bounds: [f32; 4], v: P, flip: bool) -> P {
        self.cap_vertex(&bounds, &v, flip)
    }

    fn flip_normal_spec(&self, v: P) -> P {
        self.flip_normal(&v)
    }

    fn classify(&self, _v: &P) -> Side {
        Side::On
    }

    fn edge_crossing(&self, _a: &P, _b: &P) -> Option<P> {
        None
    }

    fn le(&self, a: &P, b: &P) -> bool {
        let ord = a.pos[0]
            .partial_cmp(&b.pos[0])
            .unwrap_or(std::cmp::Ordering::Equal)
            .then_with(|| {
                a.pos[1].partial_cmp(&b.pos[1]).unwrap_or(std::cmp::Ordering::Equal)
            });
        ord != std::cmp::Ordering::Greater
    }

    fn is_ccw(&self, a: &P, b: &P, c: &P) -> bool {
        !(cross_2d(a.pos, b.pos, c.pos) <= 0.0)
    }

    fn bounds_of(&self, pts: &Vec<P>) -> [f32; 4] {
        let mut minx = f32::MAX;
        let mut miny = f32::MAX;
        let mut maxx = f32::MIN;
        let mut maxy = f32::MIN;
        for q in pts {
            minx = minx.min(q.pos[0]);
            miny = miny.min(q.pos[1]);
            maxx = maxx.max(q.pos[0]);
            maxy = maxy.max(q.pos[1]);
        }
        [minx, miny, maxx - minx, maxy - miny]
    }

    fn cap_vertex(&self, bounds: &[f32; 4], v: &P, flip: bool) -> P {
        let ux = (v.pos[0] - bounds[0]) / bounds[2];
        let uy = (v.pos[1] - bounds[1]) / bounds[3];
        P {
            pos: v.pos,
            uv: [
                ux * (self.tb[2] - self.tb[0]) + self.tb[0],
                uy * (self.tb[3] - self.tb[1]) + self.tb[1],
            ],
            up: !flip,
        }
    }

    fn flip_normal(&self, v: &P) -> P {
        P { pos: v.pos, uv: v.uv, up: !v.up }
    }
}

// The hull of a square with edge midpoints and an interior point is the
// four corners, counter-clockwise from the lexicographic minimum; the
// collinear midpoints and the interior point are discarded.
#[test]
fn hull_of_square_with_midpoints() {
    let g = FlatGeo { tb: [0.0, 0.0, 1.0, 1.0] };
    let pts = vec![
        p(1.0, 2.0),
        p(0.0, 0.0),
        p(2.0, 1.0),
        p(2.0, 2.0),
        p(1.0, 1.0),
        p(0.0, 2.0),
        p(1.0, 0.0),
        p(2.0, 0.0),
        p(0.0, 1.0),
    ];
    let hull = monotone_chain(&g, pts);
    let coords: Vec<[f32; 2]> = hull.iter().map(|v| v.pos).collect();
    assert_eq!(coords, vec![[0.0, 0.0], [2.0, 0.0], [2.0, 2.0], [0.0, 2.0]]);
}

// Duplicate points collapse: the hull of a triangle given twice is the
// triangle.
#[test]
fn hull_with_duplicates() {
    let g = FlatGeo { tb: [0.0, 0.0, 1.0, 1.0] };
    let pts = vec![
        p(0.0, 0.0),
        p(1.0, 0.0),
        p(0.0, 1.0),
        p(0.0, 0.0),
        p(1.0, 0.0),
        p(0.0, 1.0),
    ];
    let hull = monotone_chain(&g, pts);
    let coords: Vec<[f32; 2]> = hull.iter().map(|v| v.pos).collect();
    assert_eq!(coords, vec![[0.0, 0.0], [1.0, 0.0], [0.0, 1.0]]);
}

// Strict left turns everywhere on a hand-checked hull.
#[test]
fn hull_turns_left_everywhere() {
    let g = FlatGeo { tb: [0.0, 0.0, 1.0, 1.0] };
    let mut pts: Vec<P> = Vec::new();
    for i in 0..12u32 {
        let ang = (i as f32) * 0.5236;
        pts.push(p(ang.cos(), ang.sin()));
        pts.push(p(0.3 * ang.cos(), 0.3 * ang.sin()));
    }
    let hull = monotone_chain(&g, pts);
    assert_eq!(hull.len(), 12);
    let n: usize = hull.len();
    for i in 0..n {
        let a = hull[i].pos;
        let b = hull[(i + 1) % n].pos;
        let c = hull[(i + 2) % n].pos;
        assert!(cross_2d(a, b, c) > 0.0);
    }
}

// The fan triangulation of a square cap: two triangles per side, UVs mapped
// through the texture bounds, the lower cap mirrored.
#[test]
fn triangulate_square_cap() {
    let g = FlatGeo { tb: [0.5, 0.5, 1.0, 1.0] };
    let pts = vec![
        p(0.0, 0.0),
        p(2.0, 0.0),
        p(2.0, 2.0),
        p(0.0, 2.0),
        p(1.0, 1.0),
    ];
    let (lower, upper) = triangulate(&g, pts).expect("enough points");
    assert_eq!(upper.len(), 2);
    assert_eq!(lower.len(), 2);
    // The fan apex is the last hull point (0, 2), mapped to UV (0.5, 1).
    assert_eq!(upper[0].a.pos, [0.0, 0.0]);
    assert_eq!(upper[0].b.pos, [2.0, 0.0]);
    assert_eq!(upper[0].c.pos, [0.0, 2.0]);
    assert_eq!(upper[1].a.pos, [2.0, 0.0]);
    assert_eq!(upper[1].b.pos, [2.0, 2.0]);
    assert_eq!(upper[1].c.pos, [0.0, 2.0]);
    assert_eq!(upper[0].a.uv, [0.5, 0.5]);
    assert_eq!(upper[0].b.uv, [1.0, 0.5]);
    assert_eq!(upper[0].c.uv, [0.5, 1.0]);
    assert_eq!(upper[1].b.uv, [1.0, 1.0]);
    // The lower cap reverses the winding and flips the facing.
    for (dn, up) in lower.iter().zip(upper.iter()) {
        assert_eq!(dn.a.pos, up.a.pos);
        assert_eq!(dn.b.pos, up.c.pos);
        assert_eq!(dn.c.pos, up.b.pos);
        assert!(up.a.up && up.b.up && up.c.up);
        assert!(!dn.a.up && !dn.b.up && !dn.c.up);
    }
}

// A degenerate cloud (all points collinear) still triangulates, into empty
// caps.
#[test]
fn triangulate_collinear_cloud() {
    let g = FlatGeo { tb: [0.0, 0.0, 1.0, 1.0] };
    let pts = vec![p(0.0, 0.0), p(1.0, 0.0), p(2.0, 0.0), p(3.0, 0.0)];
    let (lower, upper) = triangulate(&g, pts).expect("enough points");
    assert_eq!(upper.len(), 0);
    assert_eq!(lower.len(), 0);
}

#[test]
fn vertex_grouping_round_trip() {
    let vs: Vec<P> = vec![
        p(0.0, 0.0),
        p(1.0, 0.0),
        p(0.0, 1.0),
        p(5.0, 5.0),
        p(6.0, 5.0),
        p(5.0, 6.0),
    ];
    let tris = vertex_to_triangle(vs.clone());
    assert_eq!(tris.len(), 2);
    assert_eq!(tris[0].a, vs[0]);
    assert_eq!(tris[0].b, vs[1]);
    assert_eq!(tris[0].c, vs[2]);
    assert_eq!(tris[1].a, vs[3]);
    let back = triangle_to_vertex(tris);
    assert_eq!(back, vs);
}

#[test]
fn winding_reversal_and_normal_flip() {
    let g = FlatGeo { tb: [0.0, 0.0, 1.0, 1.0] };
    let mut t = Triangle::new(p(0.0, 0.0), p(1.0, 0.0), p(0.0, 1.0));
    t.reverse_winding();
    assert_eq!(t.b.pos, [0.0, 1.0]);
    assert_eq!(t.c.pos, [1.0, 0.0]);
    assert!(t.a.up);
    t.flip_normals(&g);
    assert!(!t.a.up && !t.b.up && !t.c.up);
    assert_eq!(t.b.pos, [0.0, 1.0]);
}

// Points sort lexicographically by projected x, then y.
#[test]
fn points_sort_lexicographically() {
    let g = FlatGeo { tb: [0.0, 0.0, 1.0, 1.0] };
    let pts = vec![p(2.0, 0.0), p(0.0, 1.0), p(0.0, 0.0), p(1.0, 5.0), p(1.0, -5.0)];
    let sorted = sort_points(&g, pts);
    let coords: Vec<[f32; 2]> = sorted.iter().map(|v| v.pos).collect();
    assert_eq!(
        coords,
        vec![[0.0, 0.0], [0.0, 1.0], [1.0, -5.0], [1.0, 5.0], [2.0, 0.0]]
    );
}
