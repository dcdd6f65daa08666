//! Bone hierarchy and world-transform propagation.
//!
//! A skeleton instance owns an array of bones; a bone refers to its parent
//! by index into the same array, and every parent precedes its children,
//! so one pass in index order is a valid topological visit. A bone's world
//! pose is decomposed into a wrapped world rotation, a world scale pair
//! and a world position, and the 2x2 world matrix is derived from those
//! together with the bone's local shear. The per-bone inherit flag decides
//! whether the parent's rotation and scale are folded in; the translation
//! always passes through the parent's full matrix.

use vstd::prelude::*;
use crate::attachment::{Attachment, attachment_wf};
use crate::color::{Color, color_in_range};
use crate::draw::BlendMode;
use crate::error::EngineError;
use crate::fixed::{
    FX_LIMIT, DEG_QUARTER, fx_in_range, fx_clip, fx_add, fx_add_spec, fx_mul, fx_mul_spec,
    fx_sin, fx_sin_spec, fx_cos, fx_cos_spec, wrap_deg, wrap_deg_spec, DEG_FULL,
};

verus! {

/// How a bone folds its parent's world rotation and scale into its own.
#[derive(Clone, Copy, Debug, PartialEq, Eq, Structural)]
pub enum Inherit {
    /// Rotation and scale are both inherited.
    Full,
    /// Neither rotation nor scale is inherited; only the translation.
    OnlyTranslation,
    /// Rotation is inherited, scale is not.
    RotationOnly,
    /// Scale is inherited, rotation is not.
    ScaleOnly,
    /// Everything but scale is inherited; the bone keeps its authored
    /// scale however its ancestors stretch.
    NoScale,
}

/// Whether the flag folds the parent's world rotation in.
pub open spec fn inherits_rotation(f: Inherit) -> bool {
    f == Inherit::Full || f == Inherit::RotationOnly || f == Inherit::NoScale
}

/// Whether the flag folds the parent's world scale in.
pub open spec fn inherits_scale(f: Inherit) -> bool {
    f == Inherit::Full || f == Inherit::ScaleOnly
}

/// Authored description of one bone.
#[derive(Clone, Debug)]
pub struct BoneData {
    /// Bone name, unique within the skeleton.
    pub name: String,
    /// Index of the parent bone; it must be smaller than this bone's own
    /// index. Roots have no parent.
    pub parent: Option<usize>,
    /// Default local pose.
    pub x: i64,
    pub y: i64,
    pub rotation: i64,
    pub scale_x: i64,
    pub scale_y: i64,
    pub shear_x: i64,
    pub shear_y: i64,
    /// Transform-inheritance flag.
    pub inherit: Inherit,
}

/// One live bone: current local pose plus the world pose cached by the
/// last propagation pass.
#[derive(Clone, Copy, Debug)]
pub struct Bone {
    /// Index of the parent bone within the same skeleton, smaller than
    /// this bone's own index.
    pub parent: Option<usize>,
    /// Transform-inheritance flag.
    pub inherit: Inherit,
    /// Local translation.
    pub x: i64,
    pub y: i64,
    /// Local rotation, fixed-point degrees.
    pub rotation: i64,
    /// Local scale.
    pub scale_x: i64,
    pub scale_y: i64,
    /// Local shear, fixed-point degrees.
    pub shear_x: i64,
    pub shear_y: i64,
    /// World position, valid after `update_world_transform`.
    pub world_x: i64,
    pub world_y: i64,
    /// World rotation in `[0, DEG_FULL)`, valid after `update_world_transform`.
    pub world_rotation: i64,
    /// World scale, valid after `update_world_transform`.
    pub world_scale_x: i64,
    pub world_scale_y: i64,
    /// World 2x2 matrix columns, valid after `update_world_transform`.
    pub a: i64,
    pub b: i64,
    pub c: i64,
    pub d: i64,
}

/// The local fields that drive propagation; world fields are excluded.
pub open spec fn local_eq(b1: Bone, b2: Bone) -> bool {
    &&& b1.parent == b2.parent
    &&& b1.inherit == b2.inherit
    &&& b1.x == b2.x
    &&& b1.y == b2.y
    &&& b1.rotation == b2.rotation
    &&& b1.scale_x == b2.scale_x
    &&& b1.scale_y == b2.scale_y
    &&& b1.shear_x == b2.shear_x
    &&& b1.shear_y == b2.shear_y
}

/// The local fields of one bone are storable scalars.
pub open spec fn bone_local_wf(b: Bone) -> bool {
    &&& fx_in_range(b.x as int)
    &&& fx_in_range(b.y as int)
    &&& fx_in_range(b.rotation as int)
    &&& fx_in_range(b.scale_x as int)
    &&& fx_in_range(b.scale_y as int)
    &&& fx_in_range(b.shear_x as int)
    &&& fx_in_range(b.shear_y as int)
}

/// A well-formed bone array: each parent precedes its child and every
/// local scalar is storable.
pub open spec fn bones_wf(bs: Seq<Bone>) -> bool {
    forall|i: int| 0 <= i < bs.len() ==> #[trigger] bone_wf_at(bs, i)
}

/// Well-formedness of the bone at index `i`.
pub open spec fn bone_wf_at(bs: Seq<Bone>, i: int) -> bool {
    &&& bone_local_wf(bs[i])
    &&& match bs[i].parent {
        Some(p) => 0 <= p < i,
        None => true,
    }
}

/// World rotation of bone `i`: the parent's world rotation plus the local
/// rotation when the flag inherits rotation, the local rotation alone
/// otherwise; always wrapped into `[0, DEG_FULL)`.
pub open spec fn world_rot_of(bs: Seq<Bone>, i: int) -> int
    decreases i,
{
    let b = bs[i];
    match b.parent {
        Some(p) => {
            if 0 <= p < i && inherits_rotation(b.inherit) {
                wrap_deg_spec(world_rot_of(bs, p as int) + b.rotation)
            } else {
                wrap_deg_spec(b.rotation as int)
            }
        },
        None => wrap_deg_spec(b.rotation as int),
    }
}

/// World x-scale of bone `i`: the parent's scale times the local scale
/// when the flag inherits scale, the local scale alone otherwise.
pub open spec fn world_sx_of(bs: Seq<Bone>, i: int) -> int
    decreases i,
{
    let b = bs[i];
    match b.parent {
        Some(p) => {
            if 0 <= p < i && inherits_scale(b.inherit) {
                fx_mul_spec(world_sx_of(bs, p as int), b.scale_x as int)
            } else {
                fx_clip(b.scale_x as int)
            }
        },
        None => fx_clip(b.scale_x as int),
    }
}

/// World y-scale of bone `i`.
pub open spec fn world_sy_of(bs: Seq<Bone>, i: int) -> int
    decreases i,
{
    let b = bs[i];
    match b.parent {
        Some(p) => {
            if 0 <= p < i && inherits_scale(b.inherit) {
                fx_mul_spec(world_sy_of(bs, p as int), b.scale_y as int)
            } else {
                fx_clip(b.scale_y as int)
            }
        },
        None => fx_clip(b.scale_y as int),
    }
}

/// First column of bone `i`'s world matrix: the world rotation sheared by
/// the local x-shear, scaled by the world x-scale.
pub open spec fn mat_a_of(bs: Seq<Bone>, i: int) -> int {
    fx_mul_spec(fx_cos_spec(world_rot_of(bs, i) + bs[i].shear_x), world_sx_of(bs, i))
}

pub open spec fn mat_c_of(bs: Seq<Bone>, i: int) -> int {
    fx_mul_spec(fx_sin_spec(world_rot_of(bs, i) + bs[i].shear_x), world_sx_of(bs, i))
}

/// Second column: a quarter turn ahead of the rotation, sheared by the
/// local y-shear, scaled by the world y-scale.
pub open spec fn mat_b_of(bs: Seq<Bone>, i: int) -> int {
    fx_mul_spec(
        fx_cos_spec(world_rot_of(bs, i) + (DEG_QUARTER as int) + bs[i].shear_y),
        world_sy_of(bs, i),
    )
}

pub open spec fn mat_d_of(bs: Seq<Bone>, i: int) -> int {
    fx_mul_spec(
        fx_sin_spec(world_rot_of(bs, i) + (DEG_QUARTER as int) + bs[i].shear_y),
        world_sy_of(bs, i),
    )
}

/// World x-position of bone `i`: the local offset carried through the
/// parent's full world matrix and added to the parent's position; a root
/// keeps its local offset.
pub open spec fn world_x_of(bs: Seq<Bone>, i: int) -> int
    decreases i,
{
    let b = bs[i];
    match b.parent {
        Some(p) => {
            if 0 <= p < i {
                fx_add_spec(
                    world_x_of(bs, p as int),
                    fx_add_spec(
                        fx_mul_spec(mat_a_of(bs, p as int), b.x as int),
                        fx_mul_spec(mat_b_of(bs, p as int), b.y as int),
                    ),
                )
            } else {
                fx_clip(b.x as int)
            }
        },
        None => fx_clip(b.x as int),
    }
}

/// World y-position of bone `i`.
pub open spec fn world_y_of(bs: Seq<Bone>, i: int) -> int
    decreases i,
{
    let b = bs[i];
    match b.parent {
        Some(p) => {
            if 0 <= p < i {
                fx_add_spec(
                    world_y_of(bs, p as int),
                    fx_add_spec(
                        fx_mul_spec(mat_c_of(bs, p as int), b.x as int),
                        fx_mul_spec(mat_d_of(bs, p as int), b.y as int),
                    ),
                )
            } else {
                fx_clip(b.y as int)
            }
        },
        None => fx_clip(b.y as int),
    }
}

/// Whether the world fields cached on bone `bs[i]` agree with the pose
/// that the locals of `bs` determine.
pub open spec fn world_fields_current(bs: Seq<Bone>, i: int) -> bool {
    world_fields_match(bs, bs[i], i)
}

/// The world pose of a bone is a function of the local fields alone:
/// two bone arrays whose locals agree everywhere give every bone the
/// same world pose, whatever world fields are cached on them.
pub proof fn lemma_world_depends_on_locals(b1: Seq<Bone>, b2: Seq<Bone>, i: int)
    requires
        b1.len() == b2.len(),
        0 <= i < b1.len(),
        forall|j: int| 0 <= j < b1.len() ==> local_eq(#[trigger] b1[j], b2[j]),
    ensures
        world_rot_of(b1, i) == world_rot_of(b2, i),
        world_sx_of(b1, i) == world_sx_of(b2, i),
        world_sy_of(b1, i) == world_sy_of(b2, i),
        world_x_of(b1, i) == world_x_of(b2, i),
        world_y_of(b1, i) == world_y_of(b2, i),
        mat_a_of(b1, i) == mat_a_of(b2, i),
        mat_b_of(b1, i) == mat_b_of(b2, i),
        mat_c_of(b1, i) == mat_c_of(b2, i),
        mat_d_of(b1, i) == mat_d_of(b2, i),
    decreases i,
{
    match b1[i].parent {
        Some(p) => {
            if 0 <= p < i {
                lemma_world_depends_on_locals(b1, b2, p as int);
            }
        },
        None => {},
    }
}

/// Whether two bone arrays agree on the local fields of bone `i` and of
/// every ancestor of bone `i`.
pub open spec fn chain_eq(b1: Seq<Bone>, b2: Seq<Bone>, i: int) -> bool
    decreases i,
{
    &&& local_eq(b1[i], b2[i])
    &&& match b1[i].parent {
        Some(p) => {
            if 0 <= p < i {
                chain_eq(b1, b2, p as int)
            } else {
                true
            }
        },
        None => true,
    }
}

/// A bone's world pose depends on its own ancestor chain alone. Two bone
/// arrays that agree on bone `i` and its ancestors give bone `i` the same
/// world pose, however the bones outside that chain — its siblings and
/// their subtrees — are arranged or posed. In particular, evaluating
/// siblings in any order leaves every bone's world transform unchanged:
/// only the parent-before-child order matters.
pub proof fn lemma_world_depends_on_ancestors(b1: Seq<Bone>, b2: Seq<Bone>, i: int)
    requires
        0 <= i < b1.len(),
        i < b2.len(),
        chain_eq(b1, b2, i),
    ensures
        world_rot_of(b1, i) == world_rot_of(b2, i),
        world_sx_of(b1, i) == world_sx_of(b2, i),
        world_sy_of(b1, i) == world_sy_of(b2, i),
        world_x_of(b1, i) == world_x_of(b2, i),
        world_y_of(b1, i) == world_y_of(b2, i),
        mat_a_of(b1, i) == mat_a_of(b2, i),
        mat_b_of(b1, i) == mat_b_of(b2, i),
        mat_c_of(b1, i) == mat_c_of(b2, i),
        mat_d_of(b1, i) == mat_d_of(b2, i),
    decreases i,
{
    match b1[i].parent {
        Some(p) => {
            if 0 <= p < i {
                lemma_world_depends_on_ancestors(b1, b2, p as int);
            }
        },
        None => {},
    }
}

/// A bone whose inherit flag does not take the parent's scale keeps its
/// authored local scale as its world scale, however its ancestors are
/// scaled.
pub proof fn lemma_no_scale_keeps_local_scale(bs: Seq<Bone>, i: int)
    requires
        0 <= i < bs.len(),
        !inherits_scale(bs[i].inherit),
        bone_local_wf(bs[i]),
    ensures
        world_sx_of(bs, i) == bs[i].scale_x as int,
        world_sy_of(bs, i) == bs[i].scale_y as int,
{
}

/// Authored description of one slot.
#[derive(Clone, Debug)]
pub struct SlotData {
    /// Slot name, unique within the skeleton.
    pub name: String,
    /// Bone the slot rides on.
    pub bone: usize,
    /// Default tint.
    pub color: Color,
    /// Default attachment, an index into the template's attachment list.
    pub attachment: Option<usize>,
    /// Compositing mode for this slot's geometry.
    pub blend: BlendMode,
}

/// One live slot: current attachment and tint.
#[derive(Clone, Copy, Debug)]
pub struct Slot {
    /// Bone the slot rides on.
    pub bone: usize,
    /// Current tint, separate from any attachment-baked color.
    pub color: Color,
    /// Current attachment, an index into the template's attachment list.
    pub attachment: Option<usize>,
    /// Compositing mode for this slot's geometry.
    pub blend: BlendMode,
}

/// The authored skeleton template: bones in parent-before-child order,
/// slots in authoring draw order, and the attachment pool they refer to.
pub struct SkeletonData {
    pub bones: Vec<BoneData>,
    pub slots: Vec<SlotData>,
    pub attachments: Vec<Attachment>,
    /// Attachment names, parallel to `attachments`.
    pub attachment_names: Vec<String>,
}

/// Whether a live slot is well formed against the given pool sizes.
pub open spec fn slot_wf(s: Slot, bone_count: int, attachment_count: int) -> bool {
    &&& 0 <= s.bone < bone_count
    &&& color_in_range(s.color)
    &&& match s.attachment {
        Some(a) => 0 <= a < attachment_count,
        None => true,
    }
}

/// Whether an authored slot is well formed against the given pool sizes.
pub open spec fn slot_data_wf(s: SlotData, bone_count: int, attachment_count: int) -> bool {
    &&& 0 <= s.bone < bone_count
    &&& color_in_range(s.color)
    &&& match s.attachment {
        Some(a) => 0 <= a < attachment_count,
        None => true,
    }
}

/// The live slot an authored slot starts as.
pub open spec fn slot_from_data(d: SlotData) -> Slot {
    Slot { bone: d.bone, color: d.color, attachment: d.attachment, blend: d.blend }
}

/// Whether a whole template is well formed.
pub open spec fn skeleton_data_wf(d: SkeletonData) -> bool {
    &&& bone_data_wf(d.bones@)
    &&& d.attachment_names@.len() == d.attachments@.len()
    &&& forall|i: int| 0 <= i < d.slots@.len()
        ==> slot_data_wf(#[trigger] d.slots@[i], d.bones@.len() as int, d.attachments@.len() as int)
    &&& forall|i: int| 0 <= i < d.attachments@.len()
        ==> attachment_wf(#[trigger] d.attachments@[i], d.bones@.len() as int, d.slots@.len() as int)
}

/// Whether one authored bone is well formed at index `i`.
pub open spec fn bone_data_wf_at(ds: Seq<BoneData>, i: int) -> bool {
    &&& match ds[i].parent {
        Some(p) => 0 <= p < i,
        None => true,
    }
    &&& fx_in_range(ds[i].x as int)
    &&& fx_in_range(ds[i].y as int)
    &&& fx_in_range(ds[i].rotation as int)
    &&& fx_in_range(ds[i].scale_x as int)
    &&& fx_in_range(ds[i].scale_y as int)
    &&& fx_in_range(ds[i].shear_x as int)
    &&& fx_in_range(ds[i].shear_y as int)
}

/// Whether the whole authored bone list is well formed.
pub open spec fn bone_data_wf(ds: Seq<BoneData>) -> bool {
    forall|i: int| 0 <= i < ds.len() ==> #[trigger] bone_data_wf_at(ds, i)
}

/// The live bone a template bone starts as: the authored local pose with
/// a cleared world cache.
pub open spec fn bone_from_data(d: BoneData) -> Bone {
    Bone {
        parent: d.parent,
        inherit: d.inherit,
        x: d.x,
        y: d.y,
        rotation: d.rotation,
        scale_x: d.scale_x,
        scale_y: d.scale_y,
        shear_x: d.shear_x,
        shear_y: d.shear_y,
        world_x: 0,
        world_y: 0,
        world_rotation: 0,
        world_scale_x: 0,
        world_scale_y: 0,
        a: 0,
        b: 0,
        c: 0,
        d: 0,
    }
}

/// Relies on `<str as PartialEq>::eq`: true exactly when the two strings
/// are the same sequence of characters.
#[verifier::external_body]
fn str_eq(a: &str, b: &str) -> (r: bool)
    ensures
        r == (a@ == b@),
{
    a == b
}

/// Whether the scalar is storable; the runtime check behind `bone_data_wf`.
fn scalar_ok(v: i64) -> (r: bool)
    ensures
        r == fx_in_range(v as int),
{
    -FX_LIMIT <= v && v <= FX_LIMIT
}

/// Runtime check behind `pair_in_range`.
fn pair_ok(p: &(i64, i64)) -> (r: bool)
    ensures
        r == crate::attachment::pair_in_range(*p),
{
    scalar_ok(p.0) && scalar_ok(p.1)
}

/// Runtime check behind a list of `pair_in_range`.
fn pairs_ok(ps: &Vec<(i64, i64)>) -> (r: bool)
    ensures
        r == crate::attachment::pairs_in_range(ps@),
{
    let n = ps.len();
    let mut i: usize = 0;
    while i < n
        invariant
            0 <= i <= n,
            n == ps@.len(),
            forall|j: int| 0 <= j < i ==> crate::attachment::pair_in_range(#[trigger] ps@[j]),
        decreases n - i,
    {
        if !pair_ok(&ps[i]) {
            return false;
        }
        i = i + 1;
    }
    true
}

/// Runtime check behind `attachment_wf`.
fn attachment_ok(a: &Attachment, bone_count: usize, slot_count: usize) -> (r: bool)
    ensures
        r == attachment_wf(*a, bone_count as int, slot_count as int),
{
    match a {
        Attachment::Region(reg) => {
            scalar_ok(reg.color.r) && scalar_ok(reg.color.g) && scalar_ok(reg.color.b)
                && scalar_ok(reg.color.a)
                && scalar_ok(reg.x) && scalar_ok(reg.y) && scalar_ok(reg.rotation)
                && scalar_ok(reg.width) && scalar_ok(reg.height) && scalar_ok(reg.u)
                && scalar_ok(reg.v) && scalar_ok(reg.u2) && scalar_ok(reg.v2)
        },
        Attachment::Mesh(m) => {
            if !(scalar_ok(m.color.r) && scalar_ok(m.color.g) && scalar_ok(m.color.b)
                && scalar_ok(m.color.a)) {
                return false;
            }
            if m.uvs.len() != m.vertices.len() {
                return false;
            }
            let nv = m.vertices.len();
            let mut i: usize = 0;
            while i < nv
                invariant
                    *a == Attachment::Mesh(*m),
                    0 <= i <= nv,
                    nv == m.vertices@.len(),
                    forall|p: int, q: int|
                        0 <= p < i && 0 <= q < m.vertices@[p]@.len()
                            ==> crate::attachment::influence_wf(
                                #[trigger] m.vertices@[p]@[q], bone_count as int),
                decreases nv - i,
            {
                let infl = &m.vertices[i];
                let ni = infl.len();
                let mut j: usize = 0;
                while j < ni
                    invariant
                        *a == Attachment::Mesh(*m),
                        0 <= i < nv,
                        nv == m.vertices@.len(),
                        0 <= j <= ni,
                        ni == infl@.len(),
                        infl@ == m.vertices@[i as int]@,
                        forall|q: int| 0 <= q < j
                            ==> crate::attachment::influence_wf(
                                #[trigger] infl@[q], bone_count as int),
                    decreases ni - j,
                {
                    let w = &infl[j];
                    if !(w.bone < bone_count && scalar_ok(w.x) && scalar_ok(w.y)
                        && scalar_ok(w.weight)) {
                        proof {
                            assert(!crate::attachment::influence_wf(
                                m.vertices@[i as int]@[j as int], bone_count as int));
                            assert(!crate::attachment::mesh_wf(*m, bone_count as int));
                            assert(!attachment_wf(*a, bone_count as int, slot_count as int));
                        }
                        return false;
                    }
                    j = j + 1;
                }
                i = i + 1;
            }
            if !pairs_ok(&m.uvs) {
                return false;
            }
            let nt = m.triangles.len();
            let mut k: usize = 0;
            while k < nt
                invariant
                    *a == Attachment::Mesh(*m),
                    0 <= k <= nt,
                    nt == m.triangles@.len(),
                    forall|p: int| 0 <= p < k
                        ==> {
                            let t = #[trigger] m.triangles@[p];
                            t.0 < m.vertices@.len() && t.1 < m.vertices@.len()
                                && t.2 < m.vertices@.len()
                        },
                decreases nt - k,
            {
                let t = &m.triangles[k];
                if !(t.0 < m.vertices.len() && t.1 < m.vertices.len() && t.2 < m.vertices.len()) {
                    proof {
                        let tk = m.triangles@[k as int];
                        assert(!(tk.0 < m.vertices@.len() && tk.1 < m.vertices@.len()
                            && tk.2 < m.vertices@.len()));
                        assert(!crate::attachment::mesh_wf(*m, bone_count as int));
                        assert(!attachment_wf(*a, bone_count as int, slot_count as int));
                    }
                    return false;
                }
                k = k + 1;
            }
            true
        },
        Attachment::Clipping(c) => c.end_slot < slot_count && pairs_ok(&c.vertices),
        Attachment::BoundingBox(_) => true,
        Attachment::Path(_) => true,
        Attachment::Point(_) => true,
    }
}

/// One live skeleton instance: its own bone and slot arrays, cloned from
/// a template's hierarchy, plus the current draw order.
pub struct Skeleton {
    bones: Vec<Bone>,
    names: Vec<String>,
    slots: Vec<Slot>,
    draw_order: Vec<usize>,
}

/// The live parts of a skeleton are well formed against the template's
/// attachment pool.
pub open spec fn skeleton_wf(s: &Skeleton, attachment_count: int) -> bool {
    &&& bones_wf(s.bones_view())
    &&& s.names_view().len() == s.bones_view().len()
    &&& forall|i: int| 0 <= i < s.slots_view().len()
        ==> slot_wf(#[trigger] s.slots_view()[i], s.bones_view().len() as int, attachment_count)
    &&& s.draw_order_view().len() == s.slots_view().len()
    &&& forall|i: int| 0 <= i < s.draw_order_view().len()
        ==> 0 <= #[trigger] s.draw_order_view()[i] < s.slots_view().len()
}

impl Skeleton {
    /// The live bones, as the contracts speak of them.
    pub closed spec fn bones_view(&self) -> Seq<Bone> {
        self.bones@
    }

    /// The bone names, parallel to `bones_view`.
    pub closed spec fn names_view(&self) -> Seq<String> {
        self.names@
    }

    /// The live slots, in authoring order.
    pub closed spec fn slots_view(&self) -> Seq<Slot> {
        self.slots@
    }

    /// The current draw order: indices into `slots_view`.
    pub closed spec fn draw_order_view(&self) -> Seq<usize> {
        self.draw_order@
    }

    /// Build a live skeleton from a template. Fails with a load error —
    /// and only then — when the template is malformed: a bone parent that
    /// does not precede its child, a scalar outside the storable range,
    /// or a slot or attachment referring outside the template's pools.
    pub fn new(skeleton_data: &SkeletonData) -> (r: Result<Skeleton, EngineError>)
        ensures
            r is Ok <==> skeleton_data_wf(*skeleton_data),
            r matches Ok(s) ==> {
                &&& s.bones_view().len() == skeleton_data.bones@.len()
                &&& s.names_view().len() == skeleton_data.bones@.len()
                &&& forall|i: int| 0 <= i < skeleton_data.bones@.len()
                    ==> #[trigger] s.bones_view()[i] == bone_from_data(skeleton_data.bones@[i])
                &&& forall|i: int| 0 <= i < skeleton_data.bones@.len()
                    ==> #[trigger] s.names_view()[i]@ == skeleton_data.bones@[i].name@
                &&& bones_wf(s.bones_view())
                &&& s.slots_view().len() == skeleton_data.slots@.len()
                &&& forall|i: int| 0 <= i < skeleton_data.slots@.len()
                    ==> #[trigger] s.slots_view()[i] == slot_from_data(skeleton_data.slots@[i])
                &&& s.draw_order_view().len() == skeleton_data.slots@.len()
                &&& forall|i: int| 0 <= i < skeleton_data.slots@.len()
                    ==> #[trigger] s.draw_order_view()[i] == i
                &&& skeleton_wf(&s, skeleton_data.attachments@.len() as int)
            },
            r matches Err(e) ==> e == EngineError::Load,
    {
        let n = skeleton_data.bones.len();
        let mut bones: Vec<Bone> = Vec::new();
        let mut names: Vec<String> = Vec::new();
        let mut i: usize = 0;
        while i < n
            invariant
                0 <= i <= n,
                n == skeleton_data.bones@.len(),
                bones@.len() == i,
                names@.len() == i,
                forall|j: int| 0 <= j < i
                    ==> #[trigger] bones@[j] == bone_from_data(skeleton_data.bones@[j]),
                forall|j: int| 0 <= j < i
                    ==> #[trigger] names@[j]@ == skeleton_data.bones@[j].name@,
                forall|j: int| 0 <= j < i ==> #[trigger] bone_data_wf_at(skeleton_data.bones@, j),
            decreases n - i,
        {
            let d = &skeleton_data.bones[i];
            let parent_ok = match d.parent {
                Some(p) => p < i,
                None => true,
            };
            if !(parent_ok && scalar_ok(d.x) && scalar_ok(d.y) && scalar_ok(d.rotation)
                && scalar_ok(d.scale_x) && scalar_ok(d.scale_y) && scalar_ok(d.shear_x)
                && scalar_ok(d.shear_y)) {
                proof {
                    assert(!bone_data_wf_at(skeleton_data.bones@, i as int));
                }
                return Err(EngineError::Load);
            }
            bones.push(Bone {
                parent: d.parent,
                inherit: d.inherit,
                x: d.x,
                y: d.y,
                rotation: d.rotation,
                scale_x: d.scale_x,
                scale_y: d.scale_y,
                shear_x: d.shear_x,
                shear_y: d.shear_y,
                world_x: 0,
                world_y: 0,
                world_rotation: 0,
                world_scale_x: 0,
                world_scale_y: 0,
                a: 0,
                b: 0,
                c: 0,
                d: 0,
            });
            names.push(d.name.clone());
            i = i + 1;
        }
        proof {
            assert forall|j: int| 0 <= j < bones@.len() implies #[trigger] bone_wf_at(bones@, j) by {
                assert(bone_data_wf_at(skeleton_data.bones@, j));
            }
        }
        if skeleton_data.attachment_names.len() != skeleton_data.attachments.len() {
            return Err(EngineError::Load);
        }
        let ns = skeleton_data.slots.len();
        let na = skeleton_data.attachments.len();
        let mut slots: Vec<Slot> = Vec::new();
        let mut draw_order: Vec<usize> = Vec::new();
        let mut si: usize = 0;
        while si < ns
            invariant
                0 <= si <= ns,
                ns == skeleton_data.slots@.len(),
                na == skeleton_data.attachments@.len(),
                n == skeleton_data.bones@.len(),
                slots@.len() == si,
                draw_order@.len() == si,
                forall|j: int| 0 <= j < si
                    ==> #[trigger] slots@[j] == slot_from_data(skeleton_data.slots@[j]),
                forall|j: int| 0 <= j < si ==> #[trigger] draw_order@[j] == j,
                forall|j: int| 0 <= j < si
                    ==> slot_data_wf(#[trigger] skeleton_data.slots@[j], n as int, na as int),
            decreases ns - si,
        {
            let sd = &skeleton_data.slots[si];
            let att_ok = match sd.attachment {
                Some(a) => a < na,
                None => true,
            };
            if !(sd.bone < n && att_ok && scalar_ok(sd.color.r) && scalar_ok(sd.color.g)
                && scalar_ok(sd.color.b) && scalar_ok(sd.color.a)) {
                return Err(EngineError::Load);
            }
            slots.push(Slot {
                bone: sd.bone,
                color: sd.color,
                attachment: sd.attachment,
                blend: sd.blend,
            });
            draw_order.push(si);
            si = si + 1;
        }
        let mut ai: usize = 0;
        while ai < na
            invariant
                0 <= ai <= na,
                na == skeleton_data.attachments@.len(),
                ns == skeleton_data.slots@.len(),
                n == skeleton_data.bones@.len(),
                forall|j: int| 0 <= j < ai
                    ==> attachment_wf(#[trigger] skeleton_data.attachments@[j], n as int, ns as int),
            decreases na - ai,
        {
            if !attachment_ok(&skeleton_data.attachments[ai], n, ns) {
                return Err(EngineError::Load);
            }
            ai = ai + 1;
        }
        Ok(Skeleton { bones, names, slots, draw_order })
    }

    /// Recompute every bone's cached world pose from the current locals,
    /// visiting parents before children. Locals are untouched; afterwards
    /// every bone's world fields agree with the pose its ancestor chain
    /// determines.
    pub fn update_world_transform(&mut self)
        requires
            bones_wf(old(self).bones_view()),
        ensures
            final(self).bones_view().len() == old(self).bones_view().len(),
            final(self).names_view() == old(self).names_view(),
            final(self).slots_view() == old(self).slots_view(),
            final(self).draw_order_view() == old(self).draw_order_view(),
            forall|i: int| 0 <= i < old(self).bones_view().len()
                ==> local_eq(#[trigger] final(self).bones_view()[i], old(self).bones_view()[i]),
            forall|i: int| 0 <= i < old(self).bones_view().len()
                ==> #[trigger] world_fields_current(final(self).bones_view(), i),
            forall|i: int| 0 <= i < old(self).bones_view().len()
                ==> bone_cache_in_range(#[trigger] final(self).bones_view()[i]),
    {
        let ghost old_bs = self.bones@;
        let n = self.bones.len();
        let mut i: usize = 0;
        while i < n
            invariant
                0 <= i <= n,
                n == self.bones@.len(),
                old_bs.len() == n,
                self.names@ == old(self).names_view(),
                self.slots@ == old(self).slots_view(),
                self.draw_order@ == old(self).draw_order_view(),
                bones_wf(old_bs),
                forall|j: int| 0 <= j < n ==> local_eq(#[trigger] self.bones@[j], old_bs[j]),
                forall|j: int| 0 <= j < i ==> world_fields_match(old_bs, #[trigger] self.bones@[j], j),
                forall|j: int| 0 <= j < i ==> bone_cache_in_range(#[trigger] self.bones@[j]),
            decreases n - i,
        {
            let bone = self.bones[i];
            proof {
                assert(bone_wf_at(old_bs, i as int));
            }
            let (wrot, wsx, wsy, wx, wy) = match bone.parent {
                Some(p) => {
                    let pb = self.bones[p];
                    proof {
                        assert(world_fields_match(old_bs, pb, p as int));
                        assert(0 <= wrap_deg_spec(pb.world_rotation as int) < DEG_FULL as int);
                    }
                    let wrot = if inherit_takes_rotation(bone.inherit) {
                        wrap_deg(pb.world_rotation + bone.rotation)
                    } else {
                        wrap_deg(bone.rotation)
                    };
                    let (wsx, wsy) = if inherit_takes_scale(bone.inherit) {
                        (fx_mul(pb.world_scale_x, bone.scale_x), fx_mul(pb.world_scale_y, bone.scale_y))
                    } else {
                        (bone.scale_x, bone.scale_y)
                    };
                    let wx = fx_add(pb.world_x, fx_add(fx_mul(pb.a, bone.x), fx_mul(pb.b, bone.y)));
                    let wy = fx_add(pb.world_y, fx_add(fx_mul(pb.c, bone.x), fx_mul(pb.d, bone.y)));
                    (wrot, wsx, wsy, wx, wy)
                },
                None => (wrap_deg(bone.rotation), bone.scale_x, bone.scale_y, bone.x, bone.y),
            };
            let ma = fx_mul(fx_cos(wrot + bone.shear_x), wsx);
            let mc = fx_mul(fx_sin(wrot + bone.shear_x), wsx);
            let mb = fx_mul(fx_cos(wrot + DEG_QUARTER + bone.shear_y), wsy);
            let md = fx_mul(fx_sin(wrot + DEG_QUARTER + bone.shear_y), wsy);
            self.bones[i] = Bone {
                world_x: wx,
                world_y: wy,
                world_rotation: wrot,
                world_scale_x: wsx,
                world_scale_y: wsy,
                a: ma,
                b: mb,
                c: mc,
                d: md,
                ..bone
            };
            i = i + 1;
        }
        proof {
            assert forall|k: int| 0 <= k < old_bs.len()
                implies #[trigger] world_fields_current(self.bones@, k) by {
                lemma_world_depends_on_locals(old_bs, self.bones@, k);
            }
        }
    }

    /// The live bones of this skeleton.
    pub fn bones(&self) -> (r: &Vec<Bone>)
        ensures
            r@ == self.bones_view(),
    {
        &self.bones
    }

    /// The live bones of this skeleton, for mutation: animation and user
    /// code pose the skeleton by writing local fields here.
    pub fn bones_mut(&mut self) -> (r: &mut Vec<Bone>)
        ensures
            r@ == old(self).bones_view(),
            final(self).bones_view() == final(r)@,
            final(self).names_view() == old(self).names_view(),
            final(self).slots_view() == old(self).slots_view(),
            final(self).draw_order_view() == old(self).draw_order_view(),
    {
        &mut self.bones
    }

    /// The live slots of this skeleton, in authoring order.
    pub fn slots(&self) -> (r: &Vec<Slot>)
        ensures
            r@ == self.slots_view(),
    {
        &self.slots
    }

    /// The live slots, for mutation: animation and user code retint and
    /// re-attach slots by writing here.
    pub fn slots_mut(&mut self) -> (r: &mut Vec<Slot>)
        ensures
            r@ == old(self).slots_view(),
            final(self).slots_view() == final(r)@,
            final(self).bones_view() == old(self).bones_view(),
            final(self).names_view() == old(self).names_view(),
            final(self).draw_order_view() == old(self).draw_order_view(),
    {
        &mut self.slots
    }

    /// The current draw order: indices into the slot array, front to back.
    pub fn draw_order(&self) -> (r: &Vec<usize>)
        ensures
            r@ == self.draw_order_view(),
    {
        &self.draw_order
    }

    /// Override the draw order. Fails with a state error — and only then,
    /// leaving the skeleton unchanged — when the given order has the wrong
    /// length or names a slot outside the valid range.
    pub fn set_draw_order(&mut self, order: &Vec<usize>) -> (r: Result<(), EngineError>)
        ensures
            r is Ok <==> (order@.len() == old(self).slots_view().len()
                && forall|i: int| 0 <= i < order@.len()
                    ==> 0 <= #[trigger] order@[i] < old(self).slots_view().len()),
            r is Ok ==> final(self).draw_order_view() == order@,
            r is Err ==> final(self).draw_order_view() == old(self).draw_order_view(),
            r matches Err(e) ==> e == EngineError::State,
            final(self).bones_view() == old(self).bones_view(),
            final(self).names_view() == old(self).names_view(),
            final(self).slots_view() == old(self).slots_view(),
    {
        let n = order.len();
        if n != self.slots.len() {
            return Err(EngineError::State);
        }
        let mut i: usize = 0;
        while i < n
            invariant
                0 <= i <= n,
                n == order@.len(),
                forall|j: int| 0 <= j < i ==> 0 <= #[trigger] order@[j] < self.slots_view().len(),
                self == old(self),
                n == self.slots_view().len(),
            decreases n - i,
        {
            if order[i] >= self.slots.len() {
                return Err(EngineError::State);
            }
            i = i + 1;
        }
        let mut copy: Vec<usize> = Vec::new();
        let mut k: usize = 0;
        while k < n
            invariant
                0 <= k <= n,
                n == order@.len(),
                copy@.len() == k,
                forall|j: int| 0 <= j < k ==> #[trigger] copy@[j] == order@[j],
                self == old(self),
            decreases n - k,
        {
            copy.push(order[k]);
            k = k + 1;
        }
        proof {
            assert(copy@ =~= order@);
        }
        self.draw_order = copy;
        Ok(())
    }

    /// Swap the attachment a slot carries. Fails with a state error — and
    /// only then, leaving the skeleton unchanged — when the slot index or
    /// the attachment index is outside the valid range of the template.
    pub fn set_attachment(
        &mut self,
        skeleton_data: &SkeletonData,
        slot: usize,
        attachment: Option<usize>,
    ) -> (r: Result<(), EngineError>)
        ensures
            r is Ok <==> (slot < old(self).slots_view().len() && match attachment {
                Some(a) => a < skeleton_data.attachments@.len(),
                None => true,
            }),
            r is Ok ==> final(self).slots_view() == old(self).slots_view().update(
                slot as int,
                Slot { attachment, ..old(self).slots_view()[slot as int] },
            ),
            r is Err ==> final(self).slots_view() == old(self).slots_view(),
            r matches Err(e) ==> e == EngineError::State,
            final(self).bones_view() == old(self).bones_view(),
            final(self).names_view() == old(self).names_view(),
            final(self).draw_order_view() == old(self).draw_order_view(),
    {
        if slot >= self.slots.len() {
            return Err(EngineError::State);
        }
        match attachment {
            Some(a) => {
                if a >= skeleton_data.attachments.len() {
                    return Err(EngineError::State);
                }
            },
            None => {},
        }
        let s = self.slots[slot];
        self.slots[slot] = Slot { attachment, ..s };
        Ok(())
    }

    /// Find an attachment index by name in the template's pool.
    pub fn find_attachment(skeleton_data: &SkeletonData, name: &str) -> (r: Option<usize>)
        ensures
            r is Some <==> (exists|i: int|
                0 <= i < skeleton_data.attachment_names@.len()
                    && #[trigger] skeleton_data.attachment_names@[i]@ == name@),
            r matches Some(k) ==> k < skeleton_data.attachment_names@.len()
                && skeleton_data.attachment_names@[k as int]@ == name@,
    {
        let n = skeleton_data.attachment_names.len();
        let mut i: usize = 0;
        while i < n
            invariant
                0 <= i <= n,
                n == skeleton_data.attachment_names@.len(),
                forall|j: int| 0 <= j < i
                    ==> #[trigger] skeleton_data.attachment_names@[j]@ != name@,
            decreases n - i,
        {
            if str_eq(skeleton_data.attachment_names[i].as_str(), name) {
                return Some(i);
            }
            i = i + 1;
        }
        None
    }

    /// Find the first bone with the given name.
    pub fn find_bone(&self, name: &str) -> (r: Option<&Bone>)
        requires
            self.bones_view().len() == self.names_view().len(),
        ensures
            r is Some <==> (exists|i: int|
                0 <= i < self.names_view().len() && #[trigger] self.names_view()[i]@ == name@),
            r matches Some(b) ==> (exists|i: int|
                {
                    &&& 0 <= i < self.names_view().len()
                    &&& #[trigger] self.names_view()[i]@ == name@
                    &&& *b == self.bones_view()[i]
                    &&& forall|j: int| 0 <= j < i ==> #[trigger] self.names_view()[j]@ != name@
                }),
    {
        let n = self.names.len();
        let mut i: usize = 0;
        while i < n
            invariant
                0 <= i <= n,
                n == self.names_view().len(),
                self.bones_view().len() == self.names_view().len(),
                forall|j: int| 0 <= j < i ==> #[trigger] self.names_view()[j]@ != name@,
            decreases n - i,
        {
            if str_eq(self.names[i].as_str(), name) {
                return Some(&self.bones[i]);
            }
            i = i + 1;
        }
        None
    }
}

/// Whether the flag folds the parent's world rotation in.
pub fn inherit_takes_rotation(f: Inherit) -> (r: bool)
    ensures
        r == inherits_rotation(f),
{
    match f {
        Inherit::Full => true,
        Inherit::RotationOnly => true,
        Inherit::NoScale => true,
        Inherit::OnlyTranslation => false,
        Inherit::ScaleOnly => false,
    }
}

/// Whether the flag folds the parent's world scale in.
pub fn inherit_takes_scale(f: Inherit) -> (r: bool)
    ensures
        r == inherits_scale(f),
{
    match f {
        Inherit::Full => true,
        Inherit::ScaleOnly => true,
        Inherit::RotationOnly => false,
        Inherit::NoScale => false,
        Inherit::OnlyTranslation => false,
    }
}

/// Every cached world field of the bone is a storable scalar.
pub open spec fn bone_cache_in_range(b: Bone) -> bool {
    &&& fx_in_range(b.world_x as int)
    &&& fx_in_range(b.world_y as int)
    &&& fx_in_range(b.world_rotation as int)
    &&& fx_in_range(b.world_scale_x as int)
    &&& fx_in_range(b.world_scale_y as int)
    &&& fx_in_range(b.a as int)
    &&& fx_in_range(b.b as int)
    &&& fx_in_range(b.c as int)
    &&& fx_in_range(b.d as int)
}

/// Whether the world fields cached on bone `b` agree with the pose that
/// the locals of `bs` determine for index `i`.
pub open spec fn world_fields_match(bs: Seq<Bone>, b: Bone, i: int) -> bool {
    &&& b.world_rotation as int == world_rot_of(bs, i)
    &&& b.world_scale_x as int == world_sx_of(bs, i)
    &&& b.world_scale_y as int == world_sy_of(bs, i)
    &&& b.world_x as int == world_x_of(bs, i)
    &&& b.world_y as int == world_y_of(bs, i)
    &&& b.a as int == mat_a_of(bs, i)
    &&& b.b as int == mat_b_of(bs, i)
    &&& b.c as int == mat_c_of(bs, i)
    &&& b.d as int == mat_d_of(bs, i)
}

} // verus!
