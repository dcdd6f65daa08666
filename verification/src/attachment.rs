//! Visual content a slot can carry.
//!
//! The variant set is closed and fixed by the authoring format; only
//! regions and meshes produce geometry, a clipping attachment masks the
//! slots that follow it, and the remaining variants carry authoring data
//! that the generator skips.

use vstd::prelude::*;
use crate::color::{Color, color_in_range};
use crate::fixed::fx_in_range;

verus! {

/// One weighted bone influence of a skinned mesh vertex.
#[derive(Clone, Copy, Debug)]
pub struct BoneInfluence {
    /// Index of the influencing bone.
    pub bone: usize,
    /// Vertex position in that bone's local space.
    pub x: i64,
    pub y: i64,
    /// Blend weight of this influence.
    pub weight: i64,
}

/// A textured quad positioned relative to its slot's bone.
#[derive(Clone, Debug)]
pub struct RegionAttachment {
    /// Local offset from the bone.
    pub x: i64,
    pub y: i64,
    /// Local rotation, fixed-point degrees.
    pub rotation: i64,
    /// Quad size.
    pub width: i64,
    pub height: i64,
    /// Baked tint.
    pub color: Color,
    /// Atlas page this region draws from.
    pub texture: usize,
    /// Texture rectangle: left, top, right, bottom.
    pub u: i64,
    pub v: i64,
    pub u2: i64,
    pub v2: i64,
}

/// A deformable triangulated mesh with per-vertex bone weights.
#[derive(Clone, Debug)]
pub struct MeshAttachment {
    /// Per-vertex bone influences.
    pub vertices: Vec<Vec<BoneInfluence>>,
    /// Per-vertex texture coordinates, parallel to `vertices`.
    pub uvs: Vec<(i64, i64)>,
    /// Triangle list: indices into `vertices`.
    pub triangles: Vec<(usize, usize, usize)>,
    /// Baked tint.
    pub color: Color,
    /// Atlas page this mesh draws from.
    pub texture: usize,
}

/// A polygon mask applied to the slots that follow, up to its end slot.
#[derive(Clone, Debug)]
pub struct ClippingAttachment {
    /// Mask polygon in the slot bone's local space.
    pub vertices: Vec<(i64, i64)>,
    /// Index of the last slot the mask covers.
    pub end_slot: usize,
}

/// A non-rendered polygon used for hit detection.
#[derive(Clone, Debug)]
pub struct BoundingBoxAttachment {
    pub vertices: Vec<(i64, i64)>,
}

/// A non-rendered path.
#[derive(Clone, Debug)]
pub struct PathAttachment {
    pub vertices: Vec<(i64, i64)>,
    pub closed: bool,
}

/// A non-rendered named point.
#[derive(Clone, Debug)]
pub struct PointAttachment {
    pub x: i64,
    pub y: i64,
    pub rotation: i64,
}

/// Visual content attached to a slot.
#[derive(Clone, Debug)]
pub enum Attachment {
    Region(RegionAttachment),
    Mesh(MeshAttachment),
    Clipping(ClippingAttachment),
    BoundingBox(BoundingBoxAttachment),
    Path(PathAttachment),
    Point(PointAttachment),
}

/// Scalars of one bone influence are storable and its weight is a ratio.
pub open spec fn influence_wf(w: BoneInfluence, bone_count: int) -> bool {
    &&& 0 <= w.bone < bone_count
    &&& fx_in_range(w.x as int)
    &&& fx_in_range(w.y as int)
    &&& fx_in_range(w.weight as int)
}

/// A storable coordinate pair.
pub open spec fn pair_in_range(p: (i64, i64)) -> bool {
    fx_in_range(p.0 as int) && fx_in_range(p.1 as int)
}

/// Every coordinate pair in the list is storable.
pub open spec fn pairs_in_range(ps: Seq<(i64, i64)>) -> bool {
    forall|i: int| 0 <= i < ps.len() ==> pair_in_range(#[trigger] ps[i])
}

/// Scalars of a region attachment are storable.
pub open spec fn region_wf(r: RegionAttachment) -> bool {
    &&& color_in_range(r.color)
    &&& fx_in_range(r.x as int)
    &&& fx_in_range(r.y as int)
    &&& fx_in_range(r.rotation as int)
    &&& fx_in_range(r.width as int)
    &&& fx_in_range(r.height as int)
    &&& fx_in_range(r.u as int)
    &&& fx_in_range(r.v as int)
    &&& fx_in_range(r.u2 as int)
    &&& fx_in_range(r.v2 as int)
}

/// A mesh's influences, texture coordinates and triangle indices are all
/// valid against the bone pool and its own vertex count.
pub open spec fn mesh_wf(m: MeshAttachment, bone_count: int) -> bool {
    &&& color_in_range(m.color)
    &&& m.uvs@.len() == m.vertices@.len()
    &&& forall|i: int, j: int|
        0 <= i < m.vertices@.len() && 0 <= j < m.vertices@[i]@.len()
            ==> influence_wf(#[trigger] m.vertices@[i]@[j], bone_count)
    &&& pairs_in_range(m.uvs@)
    &&& forall|i: int| 0 <= i < m.triangles@.len()
        ==> {
            let t = #[trigger] m.triangles@[i];
            t.0 < m.vertices@.len() && t.1 < m.vertices@.len() && t.2 < m.vertices@.len()
        }
}

/// A clip mask covers a valid end slot and its polygon is storable.
pub open spec fn clipping_wf(c: ClippingAttachment, slot_count: int) -> bool {
    &&& 0 <= c.end_slot < slot_count
    &&& pairs_in_range(c.vertices@)
}

/// Well-formedness of an attachment against the skeleton it belongs to.
pub open spec fn attachment_wf(a: Attachment, bone_count: int, slot_count: int) -> bool {
    match a {
        Attachment::Region(r) => region_wf(r),
        Attachment::Mesh(m) => mesh_wf(m, bone_count),
        Attachment::Clipping(c) => clipping_wf(c, slot_count),
        Attachment::BoundingBox(_) => true,
        Attachment::Path(_) => true,
        Attachment::Point(_) => true,
    }
}

} // verus!
