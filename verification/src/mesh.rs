//! Mesh generation: from a posed skeleton to draw-ready triangles.
//!
//! Slots are walked strictly in the current draw order. A region
//! attachment becomes a quad positioned by its bone's world matrix; a
//! mesh attachment is deformed by linear-blend skinning over its bone
//! influences; a clipping attachment masks the slots that follow it up
//! to its end slot. Geometry that a mask clips away entirely is skipped,
//! though its slot still consumes draw order.

use vstd::prelude::*;
use crate::attachment::{
    Attachment, BoneInfluence, ClippingAttachment, MeshAttachment, RegionAttachment, mesh_wf,
    region_wf,
};
use crate::clip::{ClipVertex, clip_polygon, clip_spec, cv_in_range, poly_in_range};
use crate::color::{Color, color_in_range};
use crate::draw::{BlendMode, CullDirection};
use crate::fixed::{
    FX_ONE, fx_in_range, fx_add, fx_add_spec, fx_mul, fx_mul_spec, fx_sub, fx_sub_spec, fx_cos,
    fx_cos_spec, fx_sin, fx_sin_spec,
};
use crate::skeleton::{Bone, Skeleton, SkeletonData, Slot, skeleton_wf, skeleton_data_wf};

verus! {

/// One emitted vertex: world position, texture coordinates, final color.
#[derive(Clone, Copy, Debug, PartialEq, Eq, Structural)]
pub struct Vertex {
    pub x: i64,
    pub y: i64,
    pub u: i64,
    pub v: i64,
    pub color: Color,
}

/// One emitted triangle, by value.
pub type Tri = (Vertex, Vertex, Vertex);

/// One draw call: a texture, a blend mode, a winding, and an indexed
/// triangle list.
#[derive(Clone, Debug)]
pub struct Geometry {
    pub texture: usize,
    pub blend: BlendMode,
    pub cull: CullDirection,
    pub vertices: Vec<Vertex>,
    pub triangles: Vec<(usize, usize, usize)>,
}

/// Every triangle of the geometry indexes real vertices.
pub open spec fn geom_wf(g: Geometry) -> bool {
    forall|i: int| 0 <= i < g.triangles@.len()
        ==> {
            let t = #[trigger] g.triangles@[i];
            t.0 < g.vertices@.len() && t.1 < g.vertices@.len() && t.2 < g.vertices@.len()
        }
}

/// The triangles an indexed list draws, by value.
pub open spec fn tri_seq(verts: Seq<Vertex>, tris: Seq<(usize, usize, usize)>) -> Seq<Tri> {
    Seq::new(tris.len(), |i: int| (
        verts[tris[i].0 as int],
        verts[tris[i].1 as int],
        verts[tris[i].2 as int],
    ))
}

/// The triangles one geometry draws.
pub open spec fn geom_tris(g: Geometry) -> Seq<Tri> {
    tri_seq(g.vertices@, g.triangles@)
}

/// The triangles a list of geometries draws, in order, from index `i` on.
pub open spec fn tris_of_list_from(gs: Seq<Geometry>, i: int) -> Seq<Tri>
    decreases gs.len() - i,
{
    if i < 0 || i >= gs.len() {
        Seq::empty()
    } else {
        geom_tris(gs[i]) + tris_of_list_from(gs, i + 1)
    }
}

/// The triangles a list of geometries draws, in order.
pub open spec fn tris_of_list(gs: Seq<Geometry>) -> Seq<Tri> {
    tris_of_list_from(gs, 0)
}

/// Appending vertices leaves an already valid triangle list drawing the
/// same triangles.
pub proof fn lemma_tri_seq_extend(
    vold: Seq<Vertex>,
    vnew: Seq<Vertex>,
    tris: Seq<(usize, usize, usize)>,
)
    requires
        vold.len() <= vnew.len(),
        forall|k: int| 0 <= k < vold.len() ==> vold[k] == vnew[k],
        forall|i: int| 0 <= i < tris.len()
            ==> {
                let t = #[trigger] tris[i];
                t.0 < vold.len() && t.1 < vold.len() && t.2 < vold.len()
            },
    ensures
        tri_seq(vnew, tris) == tri_seq(vold, tris),
{
    assert(tri_seq(vnew, tris) =~= tri_seq(vold, tris));
}

/// A vertex carrying the attachment's final color.
pub open spec fn mk_vertex(p: ClipVertex, col: Color) -> Vertex {
    Vertex { x: p.x, y: p.y, u: p.u, v: p.v, color: col }
}

/// The triangle fan over a clipped polygon: nothing below three
/// vertices, else one triangle per further vertex around the first.
pub open spec fn fan_tris(poly: Seq<ClipVertex>, col: Color) -> Seq<Tri> {
    if poly.len() < 3 {
        Seq::empty()
    } else {
        Seq::new((poly.len() - 2) as nat, |t: int| (
            mk_vertex(poly[0], col),
            mk_vertex(poly[t + 1], col),
            mk_vertex(poly[t + 2], col),
        ))
    }
}

/// The mask applied to a polygon, if one is active.
pub open spec fn clip_applied(
    poly: Seq<ClipVertex>,
    cs: Option<(Seq<(i64, i64)>, usize)>,
) -> Seq<ClipVertex> {
    match cs {
        Some((mask, _)) => clip_spec(poly, mask),
        None => poly,
    }
}

/// A local point carried by a bone's world matrix and position.
pub open spec fn world_px(b: Bone, x: int, y: int) -> int {
    fx_add_spec(
        b.world_x as int,
        fx_add_spec(fx_mul_spec(b.a as int, x), fx_mul_spec(b.b as int, y)),
    )
}

pub open spec fn world_py(b: Bone, x: int, y: int) -> int {
    fx_add_spec(
        b.world_y as int,
        fx_add_spec(fx_mul_spec(b.c as int, x), fx_mul_spec(b.d as int, y)),
    )
}

/// The final color of a slot's geometry: the slot tint times the
/// attachment's baked tint, channelwise, optionally premultiplied by
/// its alpha.
pub open spec fn tinted(slot_col: Color, att_col: Color, premultiply: bool) -> Color {
    let c = Color {
        r: fx_mul_spec(slot_col.r as int, att_col.r as int) as i64,
        g: fx_mul_spec(slot_col.g as int, att_col.g as int) as i64,
        b: fx_mul_spec(slot_col.b as int, att_col.b as int) as i64,
        a: fx_mul_spec(slot_col.a as int, att_col.a as int) as i64,
    };
    if premultiply {
        Color {
            r: fx_mul_spec(c.r as int, c.a as int) as i64,
            g: fx_mul_spec(c.g as int, c.a as int) as i64,
            b: fx_mul_spec(c.b as int, c.a as int) as i64,
            a: c.a,
        }
    } else {
        c
    }
}

/// The four corners of a region quad in world space: half extents,
/// turned by the region's own rotation, carried by the bone; texture
/// corners from the region's rectangle.
pub open spec fn region_corners(b: Bone, r: RegionAttachment) -> Seq<ClipVertex> {
    let hw = fx_mul_spec(r.width as int, 2048);
    let hh = fx_mul_spec(r.height as int, 2048);
    let cr = fx_cos_spec(r.rotation as int);
    let sr = fx_sin_spec(r.rotation as int);
    let corner = |cx: int, cy: int, u: i64, v: i64| {
        let lx = fx_add_spec(
            r.x as int,
            fx_sub_spec(fx_mul_spec(cr, cx), fx_mul_spec(sr, cy)),
        );
        let ly = fx_add_spec(
            r.y as int,
            fx_add_spec(fx_mul_spec(sr, cx), fx_mul_spec(cr, cy)),
        );
        ClipVertex {
            x: world_px(b, lx, ly) as i64,
            y: world_py(b, lx, ly) as i64,
            u,
            v,
        }
    };
    seq![
        corner(-hw, -hh, r.u, r.v2),
        corner(hw, -hh, r.u2, r.v2),
        corner(hw, hh, r.u2, r.v),
        corner(-hw, hh, r.u, r.v),
    ]
}

/// Linear-blend skinning of one vertex: the weighted sum over its bone
/// influences, from influence `j` on.
pub open spec fn skin_from(bones: Seq<Bone>, infl: Seq<BoneInfluence>, j: int) -> (int, int)
    decreases infl.len() - j,
{
    if j < 0 || j >= infl.len() {
        (0, 0)
    } else {
        let w = infl[j];
        let b = bones[w.bone as int];
        let px = world_px(b, w.x as int, w.y as int);
        let py = world_py(b, w.x as int, w.y as int);
        let rest = skin_from(bones, infl, j + 1);
        (
            fx_add_spec(fx_mul_spec(w.weight as int, px), rest.0),
            fx_add_spec(fx_mul_spec(w.weight as int, py), rest.1),
        )
    }
}

/// All skinned vertices of a mesh attachment, with their texture
/// coordinates.
pub open spec fn skinned_vertices(bones: Seq<Bone>, m: MeshAttachment) -> Seq<ClipVertex> {
    Seq::new(m.vertices@.len(), |i: int| {
        let p = skin_from(bones, m.vertices@[i]@, 0);
        ClipVertex { x: p.0 as i64, y: p.1 as i64, u: m.uvs@[i].0, v: m.uvs@[i].1 }
    })
}

/// The triangles a mesh attachment draws: each of its triangles clipped
/// by the active mask and fanned, from triangle `ti` on.
pub open spec fn mesh_tris_from(
    sk: Seq<ClipVertex>,
    m: MeshAttachment,
    col: Color,
    cs: Option<(Seq<(i64, i64)>, usize)>,
    ti: int,
) -> Seq<Tri>
    decreases m.triangles@.len() - ti,
{
    if ti < 0 || ti >= m.triangles@.len() {
        Seq::empty()
    } else {
        let t = m.triangles@[ti];
        let poly = seq![sk[t.0 as int], sk[t.1 as int], sk[t.2 as int]];
        fan_tris(clip_applied(poly, cs), col) + mesh_tris_from(sk, m, col, cs, ti + 1)
    }
}

/// The winding a bone's world matrix gives its geometry: a negative
/// determinant mirrors the shape and flips the triangle winding.
pub open spec fn cull_of(b: Bone) -> CullDirection {
    if (b.a as int) * (b.d as int) - (b.c as int) * (b.b as int) < 0 {
        CullDirection::Clockwise
    } else {
        CullDirection::CounterClockwise
    }
}

/// The triangles one slot draws under the given mask state.
pub open spec fn slot_tris(
    bones: Seq<Bone>,
    slot: Slot,
    atts: Seq<Attachment>,
    premultiply: bool,
    cs: Option<(Seq<(i64, i64)>, usize)>,
) -> Seq<Tri> {
    match slot.attachment {
        Some(ai) => match atts[ai as int] {
            Attachment::Region(r) => fan_tris(
                clip_applied(region_corners(bones[slot.bone as int], r), cs),
                tinted(slot.color, r.color, premultiply),
            ),
            Attachment::Mesh(m) => mesh_tris_from(
                skinned_vertices(bones, m),
                m,
                tinted(slot.color, m.color, premultiply),
                cs,
                0,
            ),
            _ => Seq::empty(),
        },
        None => Seq::empty(),
    }
}

/// The mask state after a slot is processed: a clipping attachment arms
/// its polygon, carried to world space by the slot's bone, and the mask
/// is disarmed once its end slot has been drawn.
pub open spec fn next_clip(
    bones: Seq<Bone>,
    slot_index: usize,
    slot: Slot,
    atts: Seq<Attachment>,
    cs: Option<(Seq<(i64, i64)>, usize)>,
) -> Option<(Seq<(i64, i64)>, usize)> {
    let armed = match slot.attachment {
        Some(ai) => match atts[ai as int] {
            Attachment::Clipping(c) => Some((
                Seq::new(c.vertices@.len(), |j: int| (
                    world_px(bones[slot.bone as int], c.vertices@[j].0 as int,
                        c.vertices@[j].1 as int) as i64,
                    world_py(bones[slot.bone as int], c.vertices@[j].0 as int,
                        c.vertices@[j].1 as int) as i64,
                )),
                c.end_slot,
            )),
            _ => cs,
        },
        None => cs,
    };
    match armed {
        Some((mask, end)) => if end == slot_index {
            None
        } else {
            Some((mask, end))
        },
        None => None,
    }
}

/// Every triangle the skeleton draws, walking the draw order from
/// position `i` with the given mask state.
pub open spec fn draw_tris_from(
    bones: Seq<Bone>,
    slots: Seq<Slot>,
    order: Seq<usize>,
    atts: Seq<Attachment>,
    premultiply: bool,
    cs: Option<(Seq<(i64, i64)>, usize)>,
    i: int,
) -> Seq<Tri>
    decreases order.len() - i,
{
    if i < 0 || i >= order.len() {
        Seq::empty()
    } else {
        let si = order[i];
        let slot = slots[si as int];
        slot_tris(bones, slot, atts, premultiply, cs)
            + draw_tris_from(bones, slots, order, atts, premultiply,
                next_clip(bones, si, slot, atts, cs), i + 1)
    }
}

/// Every triangle the posed skeleton draws, in draw order, with no mask
/// active at the start.
pub open spec fn draw_tris(
    bones: Seq<Bone>,
    slots: Seq<Slot>,
    order: Seq<usize>,
    atts: Seq<Attachment>,
    premultiply: bool,
) -> Seq<Tri> {
    draw_tris_from(bones, slots, order, atts, premultiply, None, 0)
}


/// The atlas page a slot's attachment draws from; non-drawing
/// attachments report page zero and emit nothing anyway.
pub open spec fn slot_texture(slot: Slot, atts: Seq<Attachment>) -> usize {
    match slot.attachment {
        Some(ai) => match atts[ai as int] {
            Attachment::Region(r) => r.texture,
            Attachment::Mesh(m) => m.texture,
            _ => 0,
        },
        None => 0,
    }
}

/// The draw call one slot emits under the given mask state: its texture,
/// the slot's blend mode, the winding its bone's matrix gives it, and
/// its triangles — or nothing when no triangle survives.
pub open spec fn slot_batch(
    bones: Seq<Bone>,
    slot: Slot,
    atts: Seq<Attachment>,
    premultiply: bool,
    cs: Option<(Seq<(i64, i64)>, usize)>,
) -> Option<(usize, BlendMode, CullDirection, Seq<Tri>)> {
    let tris = slot_tris(bones, slot, atts, premultiply, cs);
    if tris.len() == 0 {
        None
    } else {
        Some((slot_texture(slot, atts), slot.blend, cull_of(bones[slot.bone as int]), tris))
    }
}

/// Every draw call the skeleton emits, walking the draw order from
/// position `i` with the given mask state.
pub open spec fn draw_batches_from(
    bones: Seq<Bone>,
    slots: Seq<Slot>,
    order: Seq<usize>,
    atts: Seq<Attachment>,
    premultiply: bool,
    cs: Option<(Seq<(i64, i64)>, usize)>,
    i: int,
) -> Seq<(usize, BlendMode, CullDirection, Seq<Tri>)>
    decreases order.len() - i,
{
    if i < 0 || i >= order.len() {
        Seq::empty()
    } else {
        let si = order[i];
        let slot = slots[si as int];
        let rest = draw_batches_from(bones, slots, order, atts, premultiply,
            next_clip(bones, si, slot, atts, cs), i + 1);
        match slot_batch(bones, slot, atts, premultiply, cs) {
            Some(b) => seq![b] + rest,
            None => rest,
        }
    }
}

/// Every draw call the posed skeleton emits, in draw order, with no mask
/// active at the start.
pub open spec fn draw_batches(
    bones: Seq<Bone>,
    slots: Seq<Slot>,
    order: Seq<usize>,
    atts: Seq<Attachment>,
    premultiply: bool,
) -> Seq<(usize, BlendMode, CullDirection, Seq<Tri>)> {
    draw_batches_from(bones, slots, order, atts, premultiply, None, 0)
}

/// A local point carried by a bone, at runtime.
fn world_point(b: &Bone, x: i64, y: i64) -> (r: (i64, i64))
    requires
        crate::skeleton::bone_cache_in_range(*b),
        fx_in_range(x as int),
        fx_in_range(y as int),
    ensures
        r.0 as int == world_px(*b, x as int, y as int),
        r.1 as int == world_py(*b, x as int, y as int),
        fx_in_range(r.0 as int),
        fx_in_range(r.1 as int),
{
    (
        fx_add(b.world_x, fx_add(fx_mul(b.a, x), fx_mul(b.b, y))),
        fx_add(b.world_y, fx_add(fx_mul(b.c, x), fx_mul(b.d, y))),
    )
}

/// The four world-space corners of a region quad, at runtime.
fn region_quad(b: &Bone, r: &RegionAttachment) -> (out: Vec<ClipVertex>)
    requires
        crate::skeleton::bone_cache_in_range(*b),
        region_wf(*r),
    ensures
        out@ == region_corners(*b, *r),
        poly_in_range(out@),
{
    let hw = fx_mul(r.width, 2048);
    let hh = fx_mul(r.height, 2048);
    let cr = fx_cos(r.rotation);
    let sr = fx_sin(r.rotation);
    let mut out: Vec<ClipVertex> = Vec::new();
    let c0 = region_corner(b, r, cr, sr, -hw, -hh, r.u, r.v2);
    let c1 = region_corner(b, r, cr, sr, hw, -hh, r.u2, r.v2);
    let c2 = region_corner(b, r, cr, sr, hw, hh, r.u2, r.v);
    let c3 = region_corner(b, r, cr, sr, -hw, hh, r.u, r.v);
    out.push(c0);
    out.push(c1);
    out.push(c2);
    out.push(c3);
    proof {
        assert(out@ =~= region_corners(*b, *r));
    }
    out
}

/// One region corner, at runtime.
fn region_corner(
    b: &Bone,
    r: &RegionAttachment,
    cr: i64,
    sr: i64,
    cx: i64,
    cy: i64,
    u: i64,
    v: i64,
) -> (out: ClipVertex)
    requires
        crate::skeleton::bone_cache_in_range(*b),
        region_wf(*r),
        cr as int == fx_cos_spec(r.rotation as int),
        sr as int == fx_sin_spec(r.rotation as int),
        -FX_ONE <= cr <= FX_ONE,
        -FX_ONE <= sr <= FX_ONE,
        fx_in_range(cx as int),
        fx_in_range(cy as int),
    ensures
        ({
            let lx = fx_add_spec(
                r.x as int,
                fx_sub_spec(fx_mul_spec(cr as int, cx as int), fx_mul_spec(sr as int, cy as int)),
            );
            let ly = fx_add_spec(
                r.y as int,
                fx_add_spec(fx_mul_spec(sr as int, cx as int), fx_mul_spec(cr as int, cy as int)),
            );
            out == (ClipVertex {
                x: world_px(*b, lx, ly) as i64,
                y: world_py(*b, lx, ly) as i64,
                u,
                v,
            })
        }),
        fx_in_range(out.x as int) && fx_in_range(out.y as int),
{
    let lx = fx_add(r.x, fx_sub(fx_mul(cr, cx), fx_mul(sr, cy)));
    let ly = fx_add(r.y, fx_add(fx_mul(sr, cx), fx_mul(cr, cy)));
    let p = world_point(b, lx, ly);
    ClipVertex { x: p.0, y: p.1, u, v }
}

/// Linear-blend skinning of one mesh vertex, at runtime.
fn skin_vertex(bones: &Vec<Bone>, infl: &Vec<BoneInfluence>) -> (r: (i64, i64))
    requires
        forall|j: int| 0 <= j < infl@.len()
            ==> crate::attachment::influence_wf(#[trigger] infl@[j], bones@.len() as int),
        forall|j: int| 0 <= j < bones@.len()
            ==> crate::skeleton::bone_cache_in_range(#[trigger] bones@[j]),
    ensures
        (r.0 as int, r.1 as int) == skin_from(bones@, infl@, 0),
        fx_in_range(r.0 as int),
        fx_in_range(r.1 as int),
{
    let n = infl.len();
    let mut ax: i64 = 0;
    let mut ay: i64 = 0;
    let mut j: usize = n;
    while j > 0
        invariant
            forall|q: int| 0 <= q < infl@.len()
                ==> crate::attachment::influence_wf(#[trigger] infl@[q], bones@.len() as int),
            forall|q: int| 0 <= q < bones@.len()
                ==> crate::skeleton::bone_cache_in_range(#[trigger] bones@[q]),
            0 <= j <= n,
            n == infl@.len(),
            (ax as int, ay as int) == skin_from(bones@, infl@, j as int),
            fx_in_range(ax as int),
            fx_in_range(ay as int),
        decreases j,
    {
        j = j - 1;
        let w = infl[j];
        let b = &bones[w.bone];
        let p = world_point(b, w.x, w.y);
        ax = fx_add(fx_mul(w.weight, p.0), ax);
        ay = fx_add(fx_mul(w.weight, p.1), ay);
    }
    (ax, ay)
}

/// Append a clipped polygon's fan to a geometry under construction.
fn push_fan(
    verts: &mut Vec<Vertex>,
    tris: &mut Vec<(usize, usize, usize)>,
    poly: &Vec<ClipVertex>,
    col: Color,
)
    requires
        forall|i: int| 0 <= i < old(tris)@.len()
            ==> {
                let t = #[trigger] old(tris)@[i];
                t.0 < old(verts)@.len() && t.1 < old(verts)@.len() && t.2 < old(verts)@.len()
            },
    ensures
        final(verts)@ == old(verts)@ + Seq::new(poly@.len(), |k: int| mk_vertex(poly@[k], col)),
        tri_seq(final(verts)@, final(tris)@)
            == tri_seq(old(verts)@, old(tris)@) + fan_tris(poly@, col),
        forall|i: int| 0 <= i < final(tris)@.len()
            ==> {
                let t = #[trigger] final(tris)@[i];
                t.0 < final(verts)@.len() && t.1 < final(verts)@.len() && t.2 < final(verts)@.len()
            },
{
    let ghost v0 = verts@;
    let ghost t0 = tris@;
    let base = verts.len();
    let np = poly.len();
    let mut k: usize = 0;
    while k < np
        invariant
            0 <= k <= np,
            np == poly@.len(),
            base == v0.len(),
            verts@.len() == v0.len() + k,
            forall|q: int| 0 <= q < v0.len() ==> #[trigger] verts@[q] == v0[q],
            forall|q: int| 0 <= q < k
                ==> #[trigger] verts@[base + q] == mk_vertex(poly@[q], col),
            tris@ == t0,
        decreases np - k,
    {
        let p = poly[k];
        verts.push(Vertex { x: p.x, y: p.y, u: p.u, v: p.v, color: col });
        k = k + 1;
    }
    proof {
        let rhs = v0 + Seq::new(poly@.len(), |q: int| mk_vertex(poly@[q], col));
        assert forall|idx: int| 0 <= idx < verts@.len() implies verts@[idx] == rhs[idx] by {
            if idx >= base {
                let qq = idx - base;
                assert(verts@[base + qq] == mk_vertex(poly@[qq], col));
            }
        }
        assert(verts@ =~= rhs);
        lemma_tri_seq_extend(v0, verts@, t0);
    }
    if np >= 3 {
        let ghost v1 = verts@;
        let vlen = verts.len();
        let nf = np - 2;
        let mut t: usize = 0;
        while t < nf
            invariant
                0 <= t <= nf,
                nf == np - 2,
                np == poly@.len(),
                np >= 3,
                base + np == v1.len(),
                vlen as int == v1.len(),
                verts@ == v1,
                base == v0.len(),
                forall|q: int| 0 <= q < np
                    ==> #[trigger] verts@[base + q] == mk_vertex(poly@[q], col),
                tris@.len() == t0.len() + t,
                forall|q: int| 0 <= q < t0.len() ==> #[trigger] tris@[q] == t0[q],
                forall|q: int| 0 <= q < t
                    ==> #[trigger] tris@[t0.len() + q] == (base, (base + q + 1) as usize, (base + q + 2) as usize),
                forall|i: int| 0 <= i < tris@.len()
                    ==> {
                        let tr = #[trigger] tris@[i];
                        tr.0 < verts@.len() && tr.1 < verts@.len() && tr.2 < verts@.len()
                    },
            decreases nf - t,
        {
            tris.push((base, base + t + 1, base + t + 2));
            t = t + 1;
        }
        proof {
            let lhs = tri_seq(verts@, tris@);
            let rhs = tri_seq(v1, t0) + fan_tris(poly@, col);
            assert(lhs.len() == rhs.len());
            assert forall|q: int| 0 <= q < lhs.len() implies lhs[q] == rhs[q] by {
                if q < t0.len() {
                    assert(tris@[q] == t0[q]);
                } else {
                    let qq = q - t0.len();
                    assert(tris@[t0.len() + qq] == (base, (base + qq + 1) as usize,
                        (base + qq + 2) as usize));
                    assert(verts@[base + 0] == mk_vertex(poly@[0], col));
                    assert(verts@[base + (qq + 1)] == mk_vertex(poly@[qq + 1], col));
                    assert(verts@[base + (qq + 2)] == mk_vertex(poly@[qq + 2], col));
                }
            }
            assert(lhs =~= rhs);
        }
    } else {
        proof {
            assert(fan_tris(poly@, col) =~= Seq::<Tri>::empty());
            assert(tri_seq(verts@, tris@) =~= tri_seq(v0, t0) + fan_tris(poly@, col));
        }
    }
}

/// The winding test, at runtime.
fn cull_exec(b: &Bone) -> (r: CullDirection)
    requires
        crate::skeleton::bone_cache_in_range(*b),
    ensures
        r == cull_of(*b),
{
    proof {
        assert(-0x1000_0000_0000_0000 <= (b.a as int) * (b.d as int) <= 0x1000_0000_0000_0000
            && -0x1000_0000_0000_0000 <= (b.c as int) * (b.b as int) <= 0x1000_0000_0000_0000)
            by (nonlinear_arith)
            requires
                -0x4000_0000 <= b.a as int <= 0x4000_0000,
                -0x4000_0000 <= b.b as int <= 0x4000_0000,
                -0x4000_0000 <= b.c as int <= 0x4000_0000,
                -0x4000_0000 <= b.d as int <= 0x4000_0000,
        ;
    }
    let det: i128 = (b.a as i128) * (b.d as i128) - (b.c as i128) * (b.b as i128);
    if det < 0 {
        CullDirection::Clockwise
    } else {
        CullDirection::CounterClockwise
    }
}

/// The final color of a slot's geometry, at runtime.
fn tint_exec(slot_col: Color, att_col: Color, premultiply: bool) -> (c: Color)
    requires
        color_in_range(slot_col),
        color_in_range(att_col),
    ensures
        c == tinted(slot_col, att_col, premultiply),
        color_in_range(c),
{
    let mut c = slot_col.mul(att_col);
    if premultiply {
        c.premultiply_alpha();
    }
    c
}


/// `tris_of_list` over a list with one geometry appended.
proof fn lemma_tris_push(gs: Seq<Geometry>, g: Geometry, i: int)
    requires
        0 <= i <= gs.len(),
    ensures
        tris_of_list_from(gs.push(g), i) == tris_of_list_from(gs, i) + geom_tris(g),
    decreases gs.len() - i,
{
    if i == gs.len() {
        assert(tris_of_list_from(gs.push(g), i + 1) =~= Seq::<Tri>::empty());
        assert(tris_of_list_from(gs.push(g), i) =~= geom_tris(g));
        assert(tris_of_list_from(gs, i) + geom_tris(g) =~= geom_tris(g));
    } else {
        lemma_tris_push(gs, g, i + 1);
        assert(gs.push(g)[i] == gs[i]);
        assert((geom_tris(gs[i]) + tris_of_list_from(gs, i + 1)) + geom_tris(g)
            =~= geom_tris(gs[i]) + (tris_of_list_from(gs, i + 1) + geom_tris(g)));
    }
}

/// `tris_of_list` split at the last geometry.
proof fn lemma_tris_last(gs: Seq<Geometry>, i: int)
    requires
        gs.len() > 0,
        0 <= i <= gs.len() - 1,
    ensures
        tris_of_list_from(gs, i)
            == tris_of_list_from(gs.drop_last(), i) + geom_tris(gs.last()),
    decreases gs.len() - i,
{
    if i == gs.len() - 1 {
        assert(tris_of_list_from(gs.drop_last(), i) =~= Seq::<Tri>::empty());
        assert(tris_of_list_from(gs, i + 1) =~= Seq::<Tri>::empty());
        assert(tris_of_list_from(gs, i) =~= geom_tris(gs[i]));
        assert(Seq::<Tri>::empty() + geom_tris(gs.last()) =~= geom_tris(gs.last()));
    } else {
        lemma_tris_last(gs, i + 1);
        assert(gs.drop_last()[i] == gs[i]);
        assert(geom_tris(gs[i]) + (tris_of_list_from(gs.drop_last(), i + 1) + geom_tris(gs.last()))
            =~= (geom_tris(gs[i]) + tris_of_list_from(gs.drop_last(), i + 1)) + geom_tris(gs.last()));
    }
}

/// A value copy of a geometry.
fn copy_geometry(g: &Geometry) -> (out: Geometry)
    ensures
        out.texture == g.texture,
        out.blend == g.blend,
        out.cull == g.cull,
        out.vertices@ == g.vertices@,
        out.triangles@ == g.triangles@,
{
    let mut verts: Vec<Vertex> = Vec::new();
    let nv = g.vertices.len();
    let mut i: usize = 0;
    while i < nv
        invariant
            0 <= i <= nv,
            nv == g.vertices@.len(),
            verts@.len() == i,
            forall|q: int| 0 <= q < i ==> #[trigger] verts@[q] == g.vertices@[q],
        decreases nv - i,
    {
        verts.push(g.vertices[i]);
        i = i + 1;
    }
    let mut tris: Vec<(usize, usize, usize)> = Vec::new();
    let nt = g.triangles.len();
    let mut k: usize = 0;
    while k < nt
        invariant
            0 <= k <= nt,
            nt == g.triangles@.len(),
            tris@.len() == k,
            forall|q: int| 0 <= q < k ==> #[trigger] tris@[q] == g.triangles@[q],
        decreases nt - k,
    {
        tris.push(g.triangles[k]);
        k = k + 1;
    }
    proof {
        assert(verts@ =~= g.vertices@);
        assert(tris@ =~= g.triangles@);
    }
    Geometry { texture: g.texture, blend: g.blend, cull: g.cull, vertices: verts, triangles: tris }
}

/// Whether two draw calls could be merged: same texture, same blend
/// mode, same winding.
pub open spec fn batch_compat(a: Geometry, b: Geometry) -> bool {
    a.texture == b.texture && a.blend == b.blend && a.cull == b.cull
}

/// A draw call reduced to what the renderer consumes: texture, blend
/// mode, winding and the triangles drawn.
pub open spec fn batch_view(g: Geometry) -> (usize, BlendMode, CullDirection, Seq<Tri>) {
    (g.texture, g.blend, g.cull, geom_tris(g))
}

/// A list of draw calls, reduced the same way.
pub open spec fn batch_views(gs: Seq<Geometry>) -> Seq<(usize, BlendMode, CullDirection, Seq<Tri>)> {
    Seq::new(gs.len(), |i: int| batch_view(gs[i]))
}

/// Whether two reduced draw calls could be merged.
pub open spec fn views_compat(
    a: (usize, BlendMode, CullDirection, Seq<Tri>),
    b: (usize, BlendMode, CullDirection, Seq<Tri>),
) -> bool {
    a.0 == b.0 && a.1 == b.1 && a.2 == b.2
}

/// The run-merge of a list of draw calls: each call is folded into the
/// batch before it when the two could be merged, and opens a new batch
/// otherwise. This is the exact grouping combined-draw mode produces.
pub open spec fn run_merge(
    xs: Seq<(usize, BlendMode, CullDirection, Seq<Tri>)>,
) -> Seq<(usize, BlendMode, CullDirection, Seq<Tri>)>
    decreases xs.len(),
{
    if xs.len() == 0 {
        Seq::empty()
    } else {
        let rest = run_merge(xs.drop_last());
        let x = xs.last();
        if rest.len() > 0 && views_compat(rest.last(), x) {
            rest.update(
                rest.len() - 1,
                (rest.last().0, rest.last().1, rest.last().2, rest.last().3 + x.3),
            )
        } else {
            rest.push(x)
        }
    }
}

/// One unfolding step of the run-merge over a prefix.
proof fn lemma_run_merge_step(gs: Seq<Geometry>, i: int)
    requires
        0 <= i < gs.len(),
    ensures
        batch_views(gs.take(i + 1)).len() == i + 1,
        batch_views(gs.take(i + 1)).drop_last() == batch_views(gs.take(i)),
        batch_views(gs.take(i + 1)).last() == batch_view(gs[i]),
{
    assert(batch_views(gs.take(i + 1)).drop_last() =~= batch_views(gs.take(i)));
    assert(gs.take(i + 1)[i] == gs[i]);
}

/// Merge consecutive compatible draw calls — same texture, blend mode
/// and winding — into fewer, larger ones. The combined batches draw
/// exactly the same triangles, in the same order, as the batches given:
/// combined-draw and simple-draw modes have identical coverage.
pub fn combine_batches(geoms: &Vec<Geometry>) -> (out: Vec<Geometry>)
    requires
        forall|k: int| 0 <= k < geoms@.len() ==> geom_wf(#[trigger] geoms@[k]),
    ensures
        batch_views(out@) == run_merge(batch_views(geoms@)),
        tris_of_list(out@) == tris_of_list(geoms@),
        forall|k: int| 0 <= k && k + 1 < out@.len()
            ==> !#[trigger] batch_compat(out@[k], out@[k + 1]),
        forall|k: int| 0 <= k < out@.len() ==> geom_wf(#[trigger] out@[k]),
{
    let n = geoms.len();
    let mut out: Vec<Geometry> = Vec::new();
    let mut i: usize = 0;
    while i < n
        invariant
            forall|k: int| 0 <= k < geoms@.len() ==> geom_wf(#[trigger] geoms@[k]),
            0 <= i <= n,
            n == geoms@.len(),
            tris_of_list(out@) + tris_of_list_from(geoms@, i as int) == tris_of_list(geoms@),
            batch_views(out@) == run_merge(batch_views(geoms@.take(i as int))),
            forall|k: int| 0 <= k && k + 1 < out@.len()
                ==> !#[trigger] batch_compat(out@[k], out@[k + 1]),
            forall|k: int| 0 <= k < out@.len() ==> geom_wf(#[trigger] out@[k]),
        decreases n - i,
    {
        let g = &geoms[i];
        let compatible = if out.len() > 0 {
            let last = &out[out.len() - 1];
            last.texture == g.texture && last.blend == g.blend && last.cull == g.cull
        } else {
            false
        };
        let ghost pre_out = out@;
        if compatible {
            let li = out.len() - 1;
            let mut last = out.remove(li);
            let ghost lv0 = last.vertices@;
            let ghost lt0 = last.triangles@;
            let base = last.vertices.len();
            let gv = g.vertices.len();
            let mut k: usize = 0;
            while k < gv
                invariant
                    0 <= k <= gv,
                    gv == g.vertices@.len(),
                    base == lv0.len(),
                    last.vertices@.len() == lv0.len() + k,
                    forall|q: int| 0 <= q < lv0.len()
                        ==> #[trigger] last.vertices@[q] == lv0[q],
                    forall|q: int| 0 <= q < k
                        ==> #[trigger] last.vertices@[base + q] == g.vertices@[q],
                    last.triangles@ == lt0,
                    last.texture == g.texture,
                    last.blend == g.blend,
                    last.cull == g.cull,
                decreases gv - k,
            {
                last.vertices.push(g.vertices[k]);
                k = k + 1;
            }
            let vlen = last.vertices.len();
            let gt = g.triangles.len();
            let mut t: usize = 0;
            while t < gt
                invariant
                    0 <= i < geoms@.len(),
                    geom_wf(geoms@[i as int]),
                    *g == geoms@[i as int],
                    0 <= t <= gt,
                    gt == g.triangles@.len(),
                    base == lv0.len(),
                    vlen as int == base + g.vertices@.len(),
                    last.vertices@.len() == vlen,
                    forall|q: int| 0 <= q < lv0.len()
                        ==> #[trigger] last.vertices@[q] == lv0[q],
                    forall|q: int| 0 <= q < g.vertices@.len()
                        ==> #[trigger] last.vertices@[base + q] == g.vertices@[q],
                    last.triangles@.len() == lt0.len() + t,
                    forall|q: int| 0 <= q < lt0.len()
                        ==> #[trigger] last.triangles@[q] == lt0[q],
                    forall|q: int| 0 <= q < t
                        ==> #[trigger] last.triangles@[lt0.len() + q]
                            == ((base + g.triangles@[q].0) as usize,
                                (base + g.triangles@[q].1) as usize,
                                (base + g.triangles@[q].2) as usize),
                    last.texture == g.texture,
                    last.blend == g.blend,
                    last.cull == g.cull,
                decreases gt - t,
            {
                let tr = g.triangles[t];
                last.triangles.push((base + tr.0, base + tr.1, base + tr.2));
                t = t + 1;
            }
            proof {
                let lhs = geom_tris(last);
                let rhs = tri_seq(lv0, lt0) + geom_tris(geoms@[i as int]);
                assert(lhs.len() == rhs.len());
                assert forall|q: int| 0 <= q < lhs.len() implies lhs[q] == rhs[q] by {
                    if q < lt0.len() {
                        assert(last.triangles@[q] == lt0[q]);
                        assert(last.vertices@[lt0[q].0 as int] == lv0[lt0[q].0 as int]);
                        assert(last.vertices@[lt0[q].1 as int] == lv0[lt0[q].1 as int]);
                        assert(last.vertices@[lt0[q].2 as int] == lv0[lt0[q].2 as int]);
                    } else {
                        let qq = q - lt0.len();
                        let tr = geoms@[i as int].triangles@[qq];
                        assert(last.triangles@[lt0.len() + qq] == ((base + tr.0) as usize,
                            (base + tr.1) as usize, (base + tr.2) as usize));
                        assert(last.vertices@[base + tr.0] == geoms@[i as int].vertices@[tr.0 as int]);
                        assert(last.vertices@[base + tr.1] == geoms@[i as int].vertices@[tr.1 as int]);
                        assert(last.vertices@[base + tr.2] == geoms@[i as int].vertices@[tr.2 as int]);
                    }
                }
                assert(lhs =~= rhs);
            }
            out.push(last);
            proof {
                assert(pre_out.remove(pre_out.len() - 1) =~= pre_out.drop_last());
                lemma_tris_push(pre_out.drop_last(), out@.last(), 0);
                lemma_tris_last(pre_out, 0);
                assert((tris_of_list(pre_out.drop_last()) + (tri_seq(lv0, lt0)
                    + geom_tris(geoms@[i as int])))
                    =~= ((tris_of_list(pre_out.drop_last()) + tri_seq(lv0, lt0))
                        + geom_tris(geoms@[i as int])));
                assert(tri_seq(lv0, lt0) == geom_tris(pre_out.last()));
                assert(tris_of_list(out@)
                    == tris_of_list(pre_out) + geom_tris(geoms@[i as int]));
                assert(tris_of_list(pre_out) + (geom_tris(geoms@[i as int])
                    + tris_of_list_from(geoms@, i as int + 1))
                    =~= (tris_of_list(pre_out) + geom_tris(geoms@[i as int]))
                        + tris_of_list_from(geoms@, i as int + 1));
                assert(geom_wf(pre_out.last()));
                assert forall|q: int| 0 <= q < out@.last().triangles@.len()
                    implies {
                        let tr = #[trigger] out@.last().triangles@[q];
                        tr.0 < out@.last().vertices@.len()
                            && tr.1 < out@.last().vertices@.len()
                            && tr.2 < out@.last().vertices@.len()
                    } by {
                    if q < lt0.len() {
                        assert(out@.last().triangles@[q] == lt0[q]);
                    } else {
                        let qq = q - lt0.len();
                        let tr = geoms@[i as int].triangles@[qq];
                        assert(out@.last().triangles@[lt0.len() + qq]
                            == ((base + tr.0) as usize, (base + tr.1) as usize,
                                (base + tr.2) as usize));
                    }
                }
                assert(geom_wf(out@.last()));
                lemma_run_merge_step(geoms@, i as int);
                assert(batch_views(pre_out).last()
                    == batch_view(pre_out.last()));
                assert(views_compat(batch_views(pre_out).last(), batch_view(geoms@[i as int])));
                assert(batch_view(out@.last()) == (
                    batch_views(pre_out).last().0,
                    batch_views(pre_out).last().1,
                    batch_views(pre_out).last().2,
                    batch_views(pre_out).last().3 + batch_view(geoms@[i as int]).3,
                ));
                assert(batch_views(out@) =~= batch_views(pre_out).update(
                    pre_out.len() - 1,
                    batch_view(out@.last()),
                ));
                assert(batch_views(out@) =~= run_merge(batch_views(geoms@.take(i as int + 1))));
                assert forall|k: int| 0 <= k && k + 1 < out@.len()
                    implies !#[trigger] batch_compat(out@[k], out@[k + 1]) by {
                    assert(!batch_compat(pre_out[k], pre_out[k + 1]));
                    if k + 1 < out@.len() - 1 {
                        assert(out@[k] == pre_out[k] && out@[k + 1] == pre_out[k + 1]);
                    } else {
                        assert(out@[k] == pre_out[k]);
                        assert(out@[k + 1].texture == pre_out[k + 1].texture
                            && out@[k + 1].blend == pre_out[k + 1].blend
                            && out@[k + 1].cull == pre_out[k + 1].cull);
                    }
                }
            }
        } else {
            out.push(copy_geometry(g));
            proof {
                assert(geom_tris(out@.last()) =~= geom_tris(geoms@[i as int]));
                lemma_tris_push(pre_out, out@.last(), 0);
                assert(tris_of_list(pre_out) + (geom_tris(geoms@[i as int])
                    + tris_of_list_from(geoms@, i as int + 1))
                    =~= (tris_of_list(pre_out) + geom_tris(geoms@[i as int]))
                        + tris_of_list_from(geoms@, i as int + 1));
                assert(geom_wf(out@.last()));
                lemma_run_merge_step(geoms@, i as int);
                assert(batch_view(out@.last()) == batch_view(geoms@[i as int]));
                if pre_out.len() > 0 {
                    assert(batch_views(pre_out).last() == batch_view(pre_out.last()));
                    assert(!views_compat(batch_views(pre_out).last(),
                        batch_view(geoms@[i as int])));
                }
                assert(batch_views(out@) =~= batch_views(pre_out).push(
                    batch_view(geoms@[i as int])));
                assert(batch_views(out@) =~= run_merge(batch_views(geoms@.take(i as int + 1))));
            }
        }
        i = i + 1;
    }
    proof {
        assert(geoms@.take(n as int) =~= geoms@);
    }
    out
}


/// The mask state a live clip vector stands for.
pub open spec fn cs_view(a: Option<(Vec<(i64, i64)>, usize)>) -> Option<(Seq<(i64, i64)>, usize)> {
    match a {
        Some((m, e)) => Some((m@, e)),
        None => None,
    }
}

/// Every mask coordinate is storable.
pub open spec fn cs_in_range(cs: Option<(Seq<(i64, i64)>, usize)>) -> bool {
    match cs {
        Some((m, _)) => forall|j: int| 0 <= j < m.len()
            ==> fx_in_range((#[trigger] m[j]).0 as int) && fx_in_range(m[j].1 as int),
        None => true,
    }
}

/// Turn a posed skeleton into draw-ready geometry, one draw call per
/// attachment that survives clipping, walking the slots in the current
/// draw order. The triangles emitted are exactly those of `draw_tris`:
/// region quads carried by their bone, skinned meshes, both cut by any
/// active clipping mask; a slot whose geometry clips away entirely emits
/// nothing but still consumes its place in the order.
#[verifier::rlimit(100)]
pub fn generate(skeleton: &Skeleton, skeleton_data: &SkeletonData, premultiply: bool) -> (out: Vec<Geometry>)
    requires
        skeleton_wf(skeleton, skeleton_data.attachments@.len() as int),
        skeleton_data_wf(*skeleton_data),
        skeleton.bones_view().len() == skeleton_data.bones@.len(),
        skeleton.slots_view().len() == skeleton_data.slots@.len(),
        forall|i: int| 0 <= i < skeleton.bones_view().len()
            ==> crate::skeleton::bone_cache_in_range(#[trigger] skeleton.bones_view()[i]),
    ensures
        batch_views(out@) == draw_batches(
            skeleton.bones_view(),
            skeleton.slots_view(),
            skeleton.draw_order_view(),
            skeleton_data.attachments@,
            premultiply,
        ),
        tris_of_list(out@) == draw_tris(
            skeleton.bones_view(),
            skeleton.slots_view(),
            skeleton.draw_order_view(),
            skeleton_data.attachments@,
            premultiply,
        ),
        forall|k: int| 0 <= k < out@.len() ==> geom_wf(#[trigger] out@[k]),
{
    let bones = skeleton.bones();
    let slots = skeleton.slots();
    let order = skeleton.draw_order();
    let n = order.len();
    let ghost bv = skeleton.bones_view();
    let ghost sv = skeleton.slots_view();
    let ghost ov = skeleton.draw_order_view();
    let ghost av = skeleton_data.attachments@;
    let mut out: Vec<Geometry> = Vec::new();
    let mut active: Option<(Vec<(i64, i64)>, usize)> = None;
    let mut i: usize = 0;
    while i < n
        invariant
            skeleton_wf(skeleton, skeleton_data.attachments@.len() as int),
            skeleton_data_wf(*skeleton_data),
            forall|q: int| 0 <= q < skeleton.bones_view().len()
                ==> crate::skeleton::bone_cache_in_range(#[trigger] skeleton.bones_view()[q]),
            skeleton.bones_view().len() == skeleton_data.bones@.len(),
            skeleton.slots_view().len() == skeleton_data.slots@.len(),
            bv == skeleton.bones_view(),
            sv == skeleton.slots_view(),
            ov == skeleton.draw_order_view(),
            av == skeleton_data.attachments@,
            bones@ == bv,
            slots@ == sv,
            order@ == ov,
            0 <= i <= n,
            n == ov.len(),
            cs_in_range(cs_view(active)),
            tris_of_list(out@) + draw_tris_from(bv, sv, ov, av, premultiply, cs_view(active), i as int)
                == draw_tris(bv, sv, ov, av, premultiply),
            batch_views(out@) + draw_batches_from(bv, sv, ov, av, premultiply, cs_view(active), i as int)
                == draw_batches(bv, sv, ov, av, premultiply),
            forall|k: int| 0 <= k < out@.len() ==> geom_wf(#[trigger] out@[k]),
        decreases n - i,
    {
        let si = order[i];
        let slot = slots[si];
        let ghost cs0 = cs_view(active);
        let ghost pre_out = out@;
        match slot.attachment {
            None => {
                proof {
                    assert(slot_tris(bv, slot, av, premultiply, cs0) =~= Seq::<Tri>::empty());
                    assert(slot_batch(bv, slot, av, premultiply, cs0) is None);
                    assert(Seq::<Tri>::empty()
                        + draw_tris_from(bv, sv, ov, av, premultiply,
                            next_clip(bv, si, slot, av, cs0), i as int + 1)
                        =~= draw_tris_from(bv, sv, ov, av, premultiply,
                            next_clip(bv, si, slot, av, cs0), i as int + 1));
                }
            },
            Some(ai) => {
                match &skeleton_data.attachments[ai] {
                    Attachment::Region(r) => {
                        proof {
                            assert(crate::skeleton::slot_wf(skeleton.slots_view()[si as int],
                                skeleton.bones_view().len() as int,
                                skeleton_data.attachments@.len() as int));
                            assert(crate::attachment::attachment_wf(
                                skeleton_data.attachments@[ai as int],
                                bv.len() as int, sv.len() as int));
                        }
                        let b = &bones[slot.bone];
                        let quad = region_quad(b, r);
                        let clipped = match &active {
                            Some((mask, _)) => clip_polygon(&quad, mask),
                            None => quad,
                        };
                        let col = tint_exec(slot.color, r.color, premultiply);
                        let mut verts: Vec<Vertex> = Vec::new();
                        let mut tris: Vec<(usize, usize, usize)> = Vec::new();
                        push_fan(&mut verts, &mut tris, &clipped, col);
                        proof {
                            assert(tri_seq(verts@, tris@) =~= fan_tris(clipped@, col));
                            assert(fan_tris(clipped@, col)
                                == slot_tris(bv, slot, av, premultiply, cs0));
                        }
                        if tris.len() > 0 {
                            let g = Geometry {
                                texture: r.texture,
                                blend: slot.blend,
                                cull: cull_exec(b),
                                vertices: verts,
                                triangles: tris,
                            };
                            out.push(g);
                            proof {
                                lemma_tris_push(pre_out, out@.last(), 0);
                                assert(geom_tris(out@.last())
                                    == slot_tris(bv, slot, av, premultiply, cs0));
                                assert(slot_texture(slot, av) == out@.last().texture);
                                assert(cull_of(bv[slot.bone as int]) == out@.last().cull);
                                assert(slot_batch(bv, slot, av, premultiply, cs0)
                                    == Some(batch_view(out@.last())));
                                assert(batch_views(out@)
                                    =~= batch_views(pre_out).push(batch_view(out@.last())));
                            }
                        } else {
                            proof {
                                assert(slot_tris(bv, slot, av, premultiply, cs0)
                                    =~= Seq::<Tri>::empty());
                                assert(slot_batch(bv, slot, av, premultiply, cs0) is None);
                            }
                        }
                    },
                    Attachment::Mesh(m) => {
                        proof {
                            assert(crate::skeleton::slot_wf(skeleton.slots_view()[si as int],
                                skeleton.bones_view().len() as int,
                                skeleton_data.attachments@.len() as int));
                            assert(crate::attachment::attachment_wf(
                                skeleton_data.attachments@[ai as int],
                                bv.len() as int, sv.len() as int));
                            assert(mesh_wf(*m, bv.len() as int));
                        }
                        let b = &bones[slot.bone];
                        let nv = m.vertices.len();
                        let mut sk: Vec<ClipVertex> = Vec::new();
                        let mut vi: usize = 0;
                        while vi < nv
                            invariant
                                mesh_wf(*m, bv.len() as int),
                                forall|q: int| 0 <= q < bv.len()
                                    ==> crate::skeleton::bone_cache_in_range(#[trigger] bv[q]),
                                bones@ == bv,
                                0 <= vi <= nv,
                                nv == m.vertices@.len(),
                                sk@.len() == vi,
                                forall|q: int| 0 <= q < vi
                                    ==> #[trigger] sk@[q] == skinned_vertices(bv, *m)[q],
                            decreases nv - vi,
                        {
                            let p = skin_vertex(bones, &m.vertices[vi]);
                            sk.push(ClipVertex {
                                x: p.0,
                                y: p.1,
                                u: m.uvs[vi].0,
                                v: m.uvs[vi].1,
                            });
                            vi = vi + 1;
                        }
                        proof {
                            assert(sk@ =~= skinned_vertices(bv, *m));
                        }
                        let col = tint_exec(slot.color, m.color, premultiply);
                        let mut verts: Vec<Vertex> = Vec::new();
                        let mut tris: Vec<(usize, usize, usize)> = Vec::new();
                        let ntr = m.triangles.len();
                        let mut ti: usize = 0;
                        while ti < ntr
                            invariant
                                mesh_wf(*m, bv.len() as int),
                                sk@ == skinned_vertices(bv, *m),
                                sk@.len() == m.vertices@.len(),
                                poly_in_range(sk@),
                                cs_in_range(cs0),
                                cs_view(active) == cs0,
                                0 <= ti <= ntr,
                                ntr == m.triangles@.len(),
                                tri_seq(verts@, tris@)
                                    == mesh_tris_from(sk@, *m, col, cs0, 0).take(
                                        mesh_tris_from(sk@, *m, col, cs0, 0).len()
                                            - mesh_tris_from(sk@, *m, col, cs0, ti as int).len()),
                                tri_seq(verts@, tris@) + mesh_tris_from(sk@, *m, col, cs0, ti as int)
                                    == mesh_tris_from(sk@, *m, col, cs0, 0),
                                forall|q: int| 0 <= q < tris@.len()
                                    ==> {
                                        let tr = #[trigger] tris@[q];
                                        tr.0 < verts@.len() && tr.1 < verts@.len()
                                            && tr.2 < verts@.len()
                                    },
                            decreases ntr - ti,
                        {
                            let tr = m.triangles[ti];
                            let mut poly: Vec<ClipVertex> = Vec::new();
                            poly.push(sk[tr.0]);
                            poly.push(sk[tr.1]);
                            poly.push(sk[tr.2]);
                            proof {
                                assert(poly@ =~= seq![sk@[tr.0 as int], sk@[tr.1 as int],
                                    sk@[tr.2 as int]]);
                            }
                            let clipped = match &active {
                                Some((mask, _)) => clip_polygon(&poly, mask),
                                None => poly,
                            };
                            push_fan(&mut verts, &mut tris, &clipped, col);
                            ti = ti + 1;
                        }
                        proof {
                            assert(tri_seq(verts@, tris@)
                                == slot_tris(bv, slot, av, premultiply, cs0));
                        }
                        if tris.len() > 0 {
                            let g = Geometry {
                                texture: m.texture,
                                blend: slot.blend,
                                cull: cull_exec(b),
                                vertices: verts,
                                triangles: tris,
                            };
                            out.push(g);
                            proof {
                                lemma_tris_push(pre_out, out@.last(), 0);
                                assert(geom_tris(out@.last())
                                    == slot_tris(bv, slot, av, premultiply, cs0));
                                assert(slot_texture(slot, av) == out@.last().texture);
                                assert(cull_of(bv[slot.bone as int]) == out@.last().cull);
                                assert(slot_batch(bv, slot, av, premultiply, cs0)
                                    == Some(batch_view(out@.last())));
                                assert(batch_views(out@)
                                    =~= batch_views(pre_out).push(batch_view(out@.last())));
                            }
                        } else {
                            proof {
                                assert(slot_tris(bv, slot, av, premultiply, cs0)
                                    =~= Seq::<Tri>::empty());
                                assert(slot_batch(bv, slot, av, premultiply, cs0) is None);
                            }
                        }
                    },
                    Attachment::Clipping(c) => {
                        proof {
                            assert(crate::skeleton::slot_wf(skeleton.slots_view()[si as int],
                                skeleton.bones_view().len() as int,
                                skeleton_data.attachments@.len() as int));
                            assert(crate::attachment::attachment_wf(
                                skeleton_data.attachments@[ai as int],
                                bv.len() as int, sv.len() as int));
                            assert(crate::attachment::clipping_wf(*c, sv.len() as int));
                        }
                        let b = &bones[slot.bone];
                        let nm = c.vertices.len();
                        let mut mask: Vec<(i64, i64)> = Vec::new();
                        let mut mi: usize = 0;
                        while mi < nm
                            invariant
                                crate::attachment::clipping_wf(*c, sv.len() as int),
                                crate::skeleton::bone_cache_in_range(bv[slot.bone as int]),
                                slot.bone < bv.len(),
                                bones@ == bv,
                                *b == bv[slot.bone as int],
                                0 <= mi <= nm,
                                nm == c.vertices@.len(),
                                mask@.len() == mi,
                                forall|q: int| 0 <= q < mi
                                    ==> #[trigger] mask@[q] == (
                                        world_px(bv[slot.bone as int], c.vertices@[q].0 as int,
                                            c.vertices@[q].1 as int) as i64,
                                        world_py(bv[slot.bone as int], c.vertices@[q].0 as int,
                                            c.vertices@[q].1 as int) as i64,
                                    ),
                                forall|q: int| 0 <= q < mi
                                    ==> fx_in_range((#[trigger] mask@[q]).0 as int)
                                        && fx_in_range(mask@[q].1 as int),
                            decreases nm - mi,
                        {
                            let mv = c.vertices[mi];
                            let p = world_point(b, mv.0, mv.1);
                            mask.push(p);
                            mi = mi + 1;
                        }
                        active = Some((mask, c.end_slot));
                        proof {
                            assert(slot_tris(bv, slot, av, premultiply, cs0)
                                =~= Seq::<Tri>::empty());
                            assert(slot_batch(bv, slot, av, premultiply, cs0) is None);
                        }
                    },
                    Attachment::BoundingBox(_) => {
                        proof {
                            assert(slot_tris(bv, slot, av, premultiply, cs0)
                                =~= Seq::<Tri>::empty());
                            assert(slot_batch(bv, slot, av, premultiply, cs0) is None);
                        }
                    },
                    Attachment::Path(_) => {
                        proof {
                            assert(slot_tris(bv, slot, av, premultiply, cs0)
                                =~= Seq::<Tri>::empty());
                            assert(slot_batch(bv, slot, av, premultiply, cs0) is None);
                        }
                    },
                    Attachment::Point(_) => {
                        proof {
                            assert(slot_tris(bv, slot, av, premultiply, cs0)
                                =~= Seq::<Tri>::empty());
                            assert(slot_batch(bv, slot, av, premultiply, cs0) is None);
                        }
                    },
                }
            },
        }
        let disarm = match &active {
            Some((_, e)) => *e == si,
            None => false,
        };
        if disarm {
            active = None;
        }
        proof {
            assert(cs_view(active) == next_clip(bv, si, slot, av, cs0));
            assert(tris_of_list(out@)
                =~= tris_of_list(pre_out) + slot_tris(bv, slot, av, premultiply, cs0));
            assert((tris_of_list(pre_out) + slot_tris(bv, slot, av, premultiply, cs0))
                + draw_tris_from(bv, sv, ov, av, premultiply, cs_view(active), i as int + 1)
                =~= tris_of_list(pre_out) + (slot_tris(bv, slot, av, premultiply, cs0)
                    + draw_tris_from(bv, sv, ov, av, premultiply, cs_view(active), i as int + 1)));
            match slot_batch(bv, slot, av, premultiply, cs0) {
                Some(b) => {
                    assert(batch_views(out@) =~= batch_views(pre_out) + seq![b]);
                    assert((batch_views(pre_out) + seq![b])
                        + draw_batches_from(bv, sv, ov, av, premultiply, cs_view(active),
                            i as int + 1)
                        =~= batch_views(pre_out) + (seq![b]
                            + draw_batches_from(bv, sv, ov, av, premultiply, cs_view(active),
                                i as int + 1)));
                },
                None => {
                    assert(batch_views(out@) == batch_views(pre_out));
                },
            }
        }
        i = i + 1;
    }
    out
}

} // verus!
