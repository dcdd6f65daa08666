//! Polygon clipping.
//!
//! A clipping attachment masks the geometry of the slots that follow it:
//! each emitted polygon is intersected against the mask, one mask edge at
//! a time, interpolating positions and texture coordinates where an edge
//! is crossed. A mask of zero area clips everything away.

use vstd::prelude::*;
use crate::fixed::{
    FX_ONE, fx_in_range, fx_lerp, fx_lerp_spec, cross_ratio, cross_ratio_spec,
};

verus! {

/// One vertex of a polygon being clipped: position and texture
/// coordinates, interpolated together at mask crossings.
#[derive(Clone, Copy, Debug, PartialEq, Eq, Structural)]
pub struct ClipVertex {
    pub x: i64,
    pub y: i64,
    pub u: i64,
    pub v: i64,
}

/// All coordinates of the vertex are storable.
pub open spec fn cv_in_range(p: ClipVertex) -> bool {
    &&& fx_in_range(p.x as int)
    &&& fx_in_range(p.y as int)
    &&& fx_in_range(p.u as int)
    &&& fx_in_range(p.v as int)
}

/// Every vertex of the polygon is storable.
pub open spec fn poly_in_range(ps: Seq<ClipVertex>) -> bool {
    forall|i: int| 0 <= i < ps.len() ==> cv_in_range(#[trigger] ps[i])
}

/// Twice the signed area a point spans with the directed edge from `a`
/// to `b`: positive on the edge's left.
pub open spec fn side_of(ax: int, ay: int, bx: int, by: int, px: int, py: int) -> int {
    (bx - ax) * (py - ay) - (by - ay) * (px - ax)
}

/// Whether a point lies on or left of the directed edge from `a` to `b`.
pub open spec fn inside_edge(a: (i64, i64), b: (i64, i64), p: ClipVertex) -> bool {
    side_of(a.0 as int, a.1 as int, b.0 as int, b.1 as int, p.x as int, p.y as int) >= 0
}

/// The vertex where the segment from `p` to `q` crosses the edge line,
/// all attributes interpolated by the crossing ratio.
pub open spec fn crossing_spec(a: (i64, i64), b: (i64, i64), p: ClipVertex, q: ClipVertex) -> ClipVertex {
    let dp = side_of(a.0 as int, a.1 as int, b.0 as int, b.1 as int, p.x as int, p.y as int);
    let dq = side_of(a.0 as int, a.1 as int, b.0 as int, b.1 as int, q.x as int, q.y as int);
    let t = cross_ratio_spec(dp, dq);
    ClipVertex {
        x: fx_lerp_spec(p.x as int, q.x as int, t) as i64,
        y: fx_lerp_spec(p.y as int, q.y as int, t) as i64,
        u: fx_lerp_spec(p.u as int, q.u as int, t) as i64,
        v: fx_lerp_spec(p.v as int, q.v as int, t) as i64,
    }
}

/// What one subject edge from `p` to its successor `q` contributes when
/// clipped against one mask edge: the start vertex while it is inside,
/// plus the crossing point whenever the edge changes side.
pub open spec fn contribution(a: (i64, i64), b: (i64, i64), p: ClipVertex, q: ClipVertex) -> Seq<ClipVertex> {
    if inside_edge(a, b, p) {
        if inside_edge(a, b, q) {
            seq![p]
        } else {
            seq![p, crossing_spec(a, b, p, q)]
        }
    } else {
        if inside_edge(a, b, q) {
            seq![crossing_spec(a, b, p, q)]
        } else {
            Seq::empty()
        }
    }
}

/// The clipped polygon against one mask edge, accumulated from subject
/// vertex `i` on.
pub open spec fn clip_edge_from(
    poly: Seq<ClipVertex>,
    a: (i64, i64),
    b: (i64, i64),
    i: int,
) -> Seq<ClipVertex>
    decreases poly.len() - i,
{
    if i < 0 || i >= poly.len() {
        Seq::empty()
    } else {
        contribution(a, b, poly[i], poly[(i + 1) % (poly.len() as int)])
            + clip_edge_from(poly, a, b, i + 1)
    }
}

/// The polygon clipped against one directed mask edge.
pub open spec fn clip_edge_spec(poly: Seq<ClipVertex>, a: (i64, i64), b: (i64, i64)) -> Seq<ClipVertex> {
    clip_edge_from(poly, a, b, 0)
}

/// The polygon clipped against mask edges `e` on.
pub open spec fn clip_all_from(poly: Seq<ClipVertex>, clip: Seq<(i64, i64)>, e: int) -> Seq<ClipVertex>
    decreases clip.len() - e,
{
    if e < 0 || e >= clip.len() {
        poly
    } else {
        clip_all_from(clip_edge_spec(poly, clip[e], clip[(e + 1) % (clip.len() as int)]), clip, e + 1)
    }
}

/// Twice the signed area of the mask polygon, by the shoelace sum from
/// vertex `i` on.
pub open spec fn area2_from(ps: Seq<(i64, i64)>, i: int) -> int
    decreases ps.len() - i,
{
    if i < 0 || i >= ps.len() {
        0
    } else {
        let p = ps[i];
        let q = ps[(i + 1) % (ps.len() as int)];
        (p.0 as int) * (q.1 as int) - (q.0 as int) * (p.1 as int) + area2_from(ps, i + 1)
    }
}

/// Twice the signed area of a polygon.
pub open spec fn area2(ps: Seq<(i64, i64)>) -> int {
    area2_from(ps, 0)
}

/// What clipping a polygon against a mask yields: nothing for a mask of
/// zero area or fewer than three vertices, otherwise the polygon cut
/// down by every mask edge in turn.
pub open spec fn clip_spec(poly: Seq<ClipVertex>, clip: Seq<(i64, i64)>) -> Seq<ClipVertex> {
    if clip.len() < 3 || area2(clip) == 0 {
        Seq::empty()
    } else {
        clip_all_from(poly, clip, 0)
    }
}

/// A polygon that lies entirely inside one mask edge's half-plane passes
/// that edge unchanged.
pub proof fn lemma_edge_all_inside(poly: Seq<ClipVertex>, a: (i64, i64), b: (i64, i64), i: int)
    requires
        0 <= i <= poly.len(),
        forall|j: int| 0 <= j < poly.len() ==> inside_edge(a, b, #[trigger] poly[j]),
    ensures
        clip_edge_from(poly, a, b, i) == poly.skip(i),
    decreases poly.len() - i,
{
    if i >= poly.len() {
        assert(clip_edge_from(poly, a, b, i) =~= poly.skip(i));
    } else {
        lemma_edge_all_inside(poly, a, b, i + 1);
        assert(contribution(a, b, poly[i], poly[(i + 1) % (poly.len() as int)]) == seq![poly[i]]);
        assert(seq![poly[i]] + poly.skip(i + 1) =~= poly.skip(i));
    }
}

/// A polygon fully contained in the mask — every vertex inside every
/// mask edge — comes out of the clip unchanged: clipping against a mask
/// that fully contains the geometry is the identity.
pub proof fn lemma_clip_contained(poly: Seq<ClipVertex>, clip: Seq<(i64, i64)>, e: int)
    requires
        0 <= e <= clip.len(),
        forall|k: int, j: int|
            0 <= k < clip.len() && 0 <= j < poly.len()
                ==> #[trigger] inside_edge(clip[k], clip[(k + 1) % (clip.len() as int)], poly[j]),
    ensures
        clip_all_from(poly, clip, e) == poly,
    decreases clip.len() - e,
{
    if e < clip.len() {
        lemma_edge_all_inside(poly, clip[e], clip[(e + 1) % (clip.len() as int)], 0);
        assert(poly.skip(0) =~= poly);
        lemma_clip_contained(poly, clip, e + 1);
    }
}

/// Clipping against a mask that fully contains the polygon yields the
/// polygon unchanged; a mask of zero area yields nothing.
pub proof fn lemma_clip_spec_ends(poly: Seq<ClipVertex>, clip: Seq<(i64, i64)>)
    ensures
        (clip.len() >= 3 && area2(clip) != 0 && (forall|k: int, j: int|
            0 <= k < clip.len() && 0 <= j < poly.len()
                ==> #[trigger] inside_edge(clip[k], clip[(k + 1) % (clip.len() as int)], poly[j])))
            ==> clip_spec(poly, clip) == poly,
        area2(clip) == 0 ==> clip_spec(poly, clip) == Seq::<ClipVertex>::empty(),
{
    if clip.len() >= 3 && area2(clip) != 0 && (forall|k: int, j: int|
        0 <= k < clip.len() && 0 <= j < poly.len()
            ==> #[trigger] inside_edge(clip[k], clip[(k + 1) % (clip.len() as int)], poly[j])) {
        lemma_clip_contained(poly, clip, 0);
    }
}

/// Signed side of a point against a directed edge, at runtime.
fn side_exec(a: (i64, i64), b: (i64, i64), px: i64, py: i64) -> (d: i128)
    requires
        fx_in_range(a.0 as int),
        fx_in_range(a.1 as int),
        fx_in_range(b.0 as int),
        fx_in_range(b.1 as int),
        fx_in_range(px as int),
        fx_in_range(py as int),
    ensures
        d as int == side_of(a.0 as int, a.1 as int, b.0 as int, b.1 as int, px as int, py as int),
        -0x4000_0000_0000_0000_0000 <= d <= 0x4000_0000_0000_0000_0000,
{
    proof {
        assert(-0x1000_0000_0000_0000_0000 <= (b.0 as int - a.0 as int) * (py as int - a.1 as int)
            <= 0x1000_0000_0000_0000_0000
            && -0x1000_0000_0000_0000_0000 <= (b.1 as int - a.1 as int) * (px as int - a.0 as int)
            <= 0x1000_0000_0000_0000_0000) by (nonlinear_arith)
            requires
                -0x8000_0000 <= b.0 as int - a.0 as int <= 0x8000_0000,
                -0x8000_0000 <= b.1 as int - a.1 as int <= 0x8000_0000,
                -0x8000_0000 <= px as int - a.0 as int <= 0x8000_0000,
                -0x8000_0000 <= py as int - a.1 as int <= 0x8000_0000,
        ;
    }
    let dx: i128 = b.0 as i128 - a.0 as i128;
    let dy: i128 = b.1 as i128 - a.1 as i128;
    let ex: i128 = px as i128 - a.0 as i128;
    let ey: i128 = py as i128 - a.1 as i128;
    dx * ey - dy * ex
}

/// Clip a polygon against one directed mask edge.
fn clip_edge(poly: &Vec<ClipVertex>, a: (i64, i64), b: (i64, i64)) -> (out: Vec<ClipVertex>)
    requires
        poly_in_range(poly@),
        fx_in_range(a.0 as int),
        fx_in_range(a.1 as int),
        fx_in_range(b.0 as int),
        fx_in_range(b.1 as int),
    ensures
        out@ == clip_edge_spec(poly@, a, b),
        poly_in_range(out@),
{
    let n = poly.len();
    let mut out: Vec<ClipVertex> = Vec::new();
    let mut i: usize = 0;
    while i < n
        invariant
            poly_in_range(poly@),
            fx_in_range(a.0 as int),
            fx_in_range(a.1 as int),
            fx_in_range(b.0 as int),
            fx_in_range(b.1 as int),
            0 <= i <= n,
            n == poly@.len(),
            out@ + clip_edge_from(poly@, a, b, i as int) == clip_edge_from(poly@, a, b, 0),
            poly_in_range(out@),
        decreases n - i,
    {
        let p = poly[i];
        let j = if i + 1 == n { 0 } else { i + 1 };
        let q = poly[j];
        proof {
            if i + 1 == n {
                vstd::arithmetic::div_mod::lemma_mod_self_0(n as int);
            } else {
                vstd::arithmetic::div_mod::lemma_small_mod((i + 1) as nat, n as nat);
            }
            assert(j as int == (i as int + 1) % (poly@.len() as int));
        }
        let dp = side_exec(a, b, p.x, p.y);
        let dq = side_exec(a, b, q.x, q.y);
        let ghost pre = out@;
        if dp >= 0 {
            out.push(p);
            if dq < 0 {
                let t = cross_ratio(dp, dq);
                out.push(ClipVertex {
                    x: fx_lerp(p.x, q.x, t),
                    y: fx_lerp(p.y, q.y, t),
                    u: fx_lerp(p.u, q.u, t),
                    v: fx_lerp(p.v, q.v, t),
                });
            }
        } else {
            if dq >= 0 {
                let t = cross_ratio(dp, dq);
                out.push(ClipVertex {
                    x: fx_lerp(p.x, q.x, t),
                    y: fx_lerp(p.y, q.y, t),
                    u: fx_lerp(p.u, q.u, t),
                    v: fx_lerp(p.v, q.v, t),
                });
            }
        }
        proof {
            assert(out@ =~= pre + contribution(a, b, poly@[i as int], poly@[j as int]));
            assert(pre + (contribution(a, b, poly@[i as int], poly@[j as int])
                + clip_edge_from(poly@, a, b, i as int + 1))
                =~= (pre + contribution(a, b, poly@[i as int], poly@[j as int]))
                    + clip_edge_from(poly@, a, b, i as int + 1));
        }
        i = i + 1;
    }
    out
}

/// Twice the signed area of a mask polygon, at runtime.
fn area2_exec(ps: &Vec<(i64, i64)>) -> (r: i128)
    requires
        forall|i: int| 0 <= i < ps@.len()
            ==> fx_in_range((#[trigger] ps@[i]).0 as int) && fx_in_range(ps@[i].1 as int),
    ensures
        r as int == area2(ps@),
{
    let n = ps.len();
    let mut acc: i128 = 0;
    let mut i: usize = n;
    while i > 0
        invariant
            forall|k: int| 0 <= k < ps@.len()
                ==> fx_in_range((#[trigger] ps@[k]).0 as int) && fx_in_range(ps@[k].1 as int),
            0 <= i <= n,
            n == ps@.len(),
            acc as int == area2_from(ps@, i as int),
            -((n - i) as int * 0x2000_0000_0000_0000) <= acc as int
                <= (n - i) as int * 0x2000_0000_0000_0000,
        decreases i,
    {
        i = i - 1;
        let p = ps[i];
        let j = if i + 1 == n { 0 } else { i + 1 };
        let q = ps[j];
        proof {
            if i + 1 == n {
                vstd::arithmetic::div_mod::lemma_mod_self_0(n as int);
            } else {
                vstd::arithmetic::div_mod::lemma_small_mod((i + 1) as nat, n as nat);
            }
            assert(j as int == (i as int + 1) % (ps@.len() as int));
            assert(-0x1000_0000_0000_0000 <= (p.0 as int) * (q.1 as int) <= 0x1000_0000_0000_0000
                && -0x1000_0000_0000_0000 <= (q.0 as int) * (p.1 as int) <= 0x1000_0000_0000_0000)
                by (nonlinear_arith)
                requires
                    -0x4000_0000 <= p.0 as int <= 0x4000_0000,
                    -0x4000_0000 <= p.1 as int <= 0x4000_0000,
                    -0x4000_0000 <= q.0 as int <= 0x4000_0000,
                    -0x4000_0000 <= q.1 as int <= 0x4000_0000,
            ;
            assert(i < 0x1_0000_0000_0000_0000);
        }
        acc = acc + ((p.0 as i128) * (q.1 as i128) - (q.0 as i128) * (p.1 as i128));
    }
    acc
}

/// Clip a polygon against a mask polygon: the geometry that survives
/// every mask edge, with positions and texture coordinates interpolated
/// at the crossings. A mask of zero area, or one of fewer than three
/// vertices, clips everything away.
pub fn clip_polygon(poly: &Vec<ClipVertex>, clip: &Vec<(i64, i64)>) -> (out: Vec<ClipVertex>)
    requires
        poly_in_range(poly@),
        forall|i: int| 0 <= i < clip@.len()
            ==> fx_in_range((#[trigger] clip@[i]).0 as int) && fx_in_range(clip@[i].1 as int),
    ensures
        out@ == clip_spec(poly@, clip@),
        poly_in_range(out@),
{
    let nc = clip.len();
    if nc < 3 {
        return Vec::new();
    }
    if area2_exec(clip) == 0 {
        return Vec::new();
    }
    let mut cur: Vec<ClipVertex> = Vec::new();
    let mut ci: usize = 0;
    while ci < poly.len()
        invariant
            poly_in_range(poly@),
            0 <= ci <= poly@.len(),
            cur@.len() == ci,
            forall|k: int| 0 <= k < ci ==> #[trigger] cur@[k] == poly@[k],
        decreases poly@.len() - ci,
    {
        cur.push(poly[ci]);
        ci = ci + 1;
    }
    proof {
        assert(cur@ =~= poly@);
    }
    let mut e: usize = 0;
    while e < nc
        invariant
            poly_in_range(poly@),
            forall|i: int| 0 <= i < clip@.len()
                ==> fx_in_range((#[trigger] clip@[i]).0 as int) && fx_in_range(clip@[i].1 as int),
            0 <= e <= nc,
            nc == clip@.len(),
            nc >= 3,
            poly_in_range(cur@),
            clip_all_from(cur@, clip@, e as int) == clip_all_from(poly@, clip@, 0),
        decreases nc - e,
    {
        let a = clip[e];
        let j = if e + 1 == nc { 0 } else { e + 1 };
        let b = clip[j];
        proof {
            if e + 1 == nc {
                vstd::arithmetic::div_mod::lemma_mod_self_0(nc as int);
            } else {
                vstd::arithmetic::div_mod::lemma_small_mod((e + 1) as nat, nc as nat);
            }
            assert(j as int == (e as int + 1) % (clip@.len() as int));
        }
        cur = clip_edge(&cur, a, b);
        e = e + 1;
    }
    cur
}

} // verus!
