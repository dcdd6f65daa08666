use skelanim::animation::{Animation, AttachmentKey, AttachmentTimeline, Curve, Keyframe, Target, Timeline, sample};
use skelanim::attachment::{Attachment, ClippingAttachment, RegionAttachment};
use skelanim::clip::{ClipVertex, clip_polygon};
use skelanim::color::Color;
use skelanim::draw::BlendMode;
use skelanim::fixed::{FX_ONE, fx_cos, fx_lerp, fx_sin};
use skelanim::mesh::{Geometry, combine_batches, generate};
use skelanim::skeleton::{BoneData, Inherit, Skeleton, SkeletonData, SlotData};
use skelanim::state::{AnimationState, AnimationStateData, EventItem, animations_valid};

fn bone(name: &str, parent: Option<usize>, x: i64, y: i64) -> BoneData {
    BoneData {
        name: name.to_string(),
        parent,
        x,
        y,
        rotation: 0,
        scale_x: FX_ONE,
        scale_y: FX_ONE,
        shear_x: 0,
        shear_y: 0,
        inherit: Inherit::Full,
    }
}

fn opaque() -> Color {
    Color { r: FX_ONE, g: FX_ONE, b: FX_ONE, a: FX_ONE }
}

fn two_bone_data() -> SkeletonData {
    SkeletonData {
        bones: vec![bone("root", None, 0, 0), bone("child", Some(0), 0, 100 * FX_ONE)],
        slots: vec![],
        attachments: vec![],
        attachment_names: vec![],
    }
}

#[test]
fn child_world_position_follows_offset() {
    let data = two_bone_data();
    let mut skel = Skeleton::new(&data).unwrap();
    skel.update_world_transform();
    let child = &skel.bones()[1];
    assert_eq!(child.world_x, 0);
    assert_eq!(child.world_y, 100 * FX_ONE);
}

#[test]
fn rotated_root_turns_child_position() {
    let data = two_bone_data();
    let mut skel = Skeleton::new(&data).unwrap();
    skel.bones_mut()[0].rotation = 90 * FX_ONE;
    skel.update_world_transform();
    let child = &skel.bones()[1];
    assert_eq!(child.world_x, -100 * FX_ONE);
    assert_eq!(child.world_y, 0);
}

#[test]
fn sibling_pose_does_not_move_other_children() {
    let mut data = two_bone_data();
    data.bones.push(bone("sibling", Some(0), 5 * FX_ONE, 0));
    let mut a = Skeleton::new(&data).unwrap();
    let mut b = Skeleton::new(&data).unwrap();
    b.bones_mut()[2].x = -40 * FX_ONE;
    b.bones_mut()[2].rotation = 33 * FX_ONE;
    a.update_world_transform();
    b.update_world_transform();
    assert_eq!(a.bones()[1].world_x, b.bones()[1].world_x);
    assert_eq!(a.bones()[1].world_y, b.bones()[1].world_y);
    assert_eq!(a.bones()[1].world_rotation, b.bones()[1].world_rotation);
}

#[test]
fn no_scale_bone_keeps_world_scale() {
    let mut data = two_bone_data();
    data.bones[1].inherit = Inherit::NoScale;
    data.bones[1].scale_x = 3 * FX_ONE;
    data.bones[1].scale_y = 2 * FX_ONE;
    let mut skel = Skeleton::new(&data).unwrap();
    for parent_scale in [FX_ONE / 10, 10 * FX_ONE] {
        skel.bones_mut()[0].scale_x = parent_scale;
        skel.bones_mut()[0].scale_y = parent_scale;
        skel.update_world_transform();
        assert_eq!(skel.bones()[1].world_scale_x, 3 * FX_ONE);
        assert_eq!(skel.bones()[1].world_scale_y, 2 * FX_ONE);
    }
}

#[test]
fn trig_is_exact_at_quadrants() {
    assert_eq!(fx_sin(0), 0);
    assert_eq!(fx_sin(90 * FX_ONE), FX_ONE);
    assert_eq!(fx_sin(180 * FX_ONE), 0);
    assert_eq!(fx_cos(0), FX_ONE);
    assert_eq!(fx_cos(90 * FX_ONE), 0);
    assert_eq!(fx_cos(180 * FX_ONE), -FX_ONE);
}

#[test]
fn bad_parent_is_a_load_error() {
    let mut data = two_bone_data();
    data.bones[1].parent = Some(5);
    assert!(Skeleton::new(&data).is_err());
}

#[test]
fn find_bone_by_name() {
    let data = two_bone_data();
    let skel = Skeleton::new(&data).unwrap();
    assert!(skel.find_bone("child").is_some());
    assert!(skel.find_bone("nobody").is_none());
}

fn keys(points: &[(i64, i64)]) -> Vec<Keyframe> {
    points
        .iter()
        .map(|&(time, value)| Keyframe { time, value, curve: Curve::Linear })
        .collect()
}

#[test]
fn sampling_interpolates_linearly() {
    let ks = keys(&[(0, 0), (4 * FX_ONE, 400 * FX_ONE)]);
    assert_eq!(sample(&ks, 0), 0);
    assert_eq!(sample(&ks, 2 * FX_ONE), 200 * FX_ONE);
    assert_eq!(sample(&ks, 4 * FX_ONE), 400 * FX_ONE);
    assert_eq!(sample(&ks, 9 * FX_ONE), 400 * FX_ONE);
}

#[test]
fn stepped_curve_holds_until_next_key() {
    let ks = vec![
        Keyframe { time: 0, value: 7, curve: Curve::Stepped },
        Keyframe { time: 2 * FX_ONE, value: 9, curve: Curve::Stepped },
    ];
    assert_eq!(sample(&ks, FX_ONE), 7);
    assert_eq!(sample(&ks, 2 * FX_ONE), 9);
}

#[test]
fn self_blend_reproduces_the_pose() {
    let ks = keys(&[(0, 1), (3 * FX_ONE, 10 * FX_ONE + 1)]);
    for t in [0, FX_ONE / 2, FX_ONE, 2 * FX_ONE + 17] {
        let v = sample(&ks, t);
        assert_eq!(fx_lerp(v, v, FX_ONE / 2), v);
        assert_eq!(fx_lerp(v, v, 1), v);
    }
}

fn one_bone_anim(name: &str, value: i64) -> Animation {
    Animation {
        name: name.to_string(),
        duration: 4 * FX_ONE,
        timelines: vec![Timeline {
            target: Target::BoneX(0),
            keys: keys(&[(0, value), (4 * FX_ONE, value)]),
        }],
        attachment_timelines: vec![],
        events: vec![],
    }
}

#[test]
fn crossfade_starts_at_a_and_ends_at_b() {
    let anims = vec![one_bone_anim("a", 10 * FX_ONE), one_bone_anim("b", 50 * FX_ONE)];
    let cfg = AnimationStateData { default_mix: 2 * FX_ONE, mixes: vec![] };
    let data = SkeletonData {
        bones: vec![bone("root", None, 0, 0)],
        slots: vec![],
        attachments: vec![],
        attachment_names: vec![],
    };

    let mut skel = Skeleton::new(&data).unwrap();
    let mut state = AnimationState::new();
    state.set_animation(&cfg, &anims, 0, 0, true).unwrap();
    state.set_animation(&cfg, &anims, 0, 1, true).unwrap();

    // at the start of the fade the pose is animation A's alone
    state.apply(&mut skel, &anims);
    assert_eq!(skel.bones()[0].x, 10 * FX_ONE);

    // halfway through the two-second fade the pose sits between the two
    state.update(&anims, FX_ONE).unwrap();
    skel.bones_mut()[0].x = 0;
    state.apply(&mut skel, &anims);
    let mid = skel.bones()[0].x;
    assert!(10 * FX_ONE <= mid && mid <= 50 * FX_ONE);

    // past the mix window the incoming entry owns the track
    state.update(&anims, 2 * FX_ONE).unwrap();
    skel.bones_mut()[0].x = 0;
    state.apply(&mut skel, &anims);
    assert_eq!(skel.bones()[0].x, 50 * FX_ONE);
}

#[test]
fn crossfade_moves_monotonically() {
    let anims = vec![one_bone_anim("a", 0), one_bone_anim("b", 100 * FX_ONE)];
    let cfg = AnimationStateData { default_mix: 4 * FX_ONE, mixes: vec![] };
    let data = SkeletonData {
        bones: vec![bone("root", None, 0, 0)],
        slots: vec![],
        attachments: vec![],
        attachment_names: vec![],
    };
    let mut skel = Skeleton::new(&data).unwrap();
    let mut state = AnimationState::new();
    state.set_animation(&cfg, &anims, 0, 0, true).unwrap();
    state.set_animation(&cfg, &anims, 0, 1, true).unwrap();
    let mut last = -1;
    for _ in 0..8 {
        skel.bones_mut()[0].x = 0;
        state.apply(&mut skel, &anims);
        let v = skel.bones()[0].x;
        assert!(v >= last);
        last = v;
        state.update(&anims, FX_ONE / 2).unwrap();
    }
}

#[test]
fn completion_event_fires_once() {
    let anims = vec![one_bone_anim("a", FX_ONE)];
    let cfg = AnimationStateData { default_mix: 0, mixes: vec![] };
    let mut state = AnimationState::new();
    state.set_animation(&cfg, &anims, 0, 0, false).unwrap();
    state.update(&anims, 5 * FX_ONE).unwrap();
    let events = state.drain_events();
    assert_eq!(events.len(), 1);
    assert!(matches!(events[0], EventItem::Complete { track: 0 }));
    state.update(&anims, FX_ONE).unwrap();
    assert_eq!(state.drain_events().len(), 0);
}

#[test]
fn unknown_animation_is_a_state_error() {
    let anims = vec![one_bone_anim("a", FX_ONE)];
    let cfg = AnimationStateData { default_mix: 0, mixes: vec![] };
    let mut state = AnimationState::new();
    assert!(state.set_animation(&cfg, &anims, 0, 3, false).is_err());
}

#[test]
fn timeline_event_fires_when_passed() {
    let mut anim = one_bone_anim("a", FX_ONE);
    anim.events.push(skelanim::animation::EventKey {
        time: 2 * FX_ONE,
        name: "footstep".to_string(),
    });
    let anims = vec![anim];
    let cfg = AnimationStateData { default_mix: 0, mixes: vec![] };
    let data = SkeletonData {
        bones: vec![bone("root", None, 0, 0)],
        slots: vec![],
        attachments: vec![],
        attachment_names: vec![],
    };
    let mut skel = Skeleton::new(&data).unwrap();
    let mut state = AnimationState::new();
    state.set_animation(&cfg, &anims, 0, 0, false).unwrap();
    state.apply(&mut skel, &anims);
    assert_eq!(state.drain_events().len(), 0);
    state.update(&anims, 3 * FX_ONE).unwrap();
    state.apply(&mut skel, &anims);
    let events = state.drain_events();
    assert_eq!(events.len(), 1);
    match &events[0] {
        EventItem::Timeline { name, time } => {
            assert_eq!(name, "footstep");
            assert_eq!(*time, 2 * FX_ONE);
        },
        other => panic!("unexpected event {:?}", other),
    }
    // applying again without advancing does not repeat the event
    state.apply(&mut skel, &anims);
    assert_eq!(state.drain_events().len(), 0);
}

fn quad_region() -> RegionAttachment {
    RegionAttachment {
        x: 0,
        y: 0,
        rotation: 0,
        width: 20 * FX_ONE,
        height: 20 * FX_ONE,
        color: opaque(),
        texture: 0,
        u: 0,
        v: 0,
        u2: FX_ONE,
        v2: FX_ONE,
    }
}

fn skeleton_with_region() -> SkeletonData {
    SkeletonData {
        bones: vec![bone("root", None, 0, 0)],
        slots: vec![SlotData {
            name: "body".to_string(),
            bone: 0,
            color: opaque(),
            attachment: Some(0),
            blend: BlendMode::Normal,
        }],
        attachments: vec![Attachment::Region(quad_region())],
        attachment_names: vec!["quad".to_string()],
    }
}

fn flat_triangles(gs: &[Geometry]) -> Vec<(skelanim::mesh::Vertex, skelanim::mesh::Vertex, skelanim::mesh::Vertex)> {
    let mut out = Vec::new();
    for g in gs {
        for &(a, b, c) in &g.triangles {
            out.push((g.vertices[a], g.vertices[b], g.vertices[c]));
        }
    }
    out
}

#[test]
fn region_quad_emits_two_triangles() {
    let data = skeleton_with_region();
    let mut skel = Skeleton::new(&data).unwrap();
    skel.update_world_transform();
    let gs = generate(&skel, &data, false);
    assert_eq!(gs.len(), 1);
    assert_eq!(gs[0].triangles.len(), 2);
    assert_eq!(gs[0].vertices.len(), 4);
    let xs: Vec<i64> = gs[0].vertices.iter().map(|v| v.x).collect();
    assert!(xs.contains(&(10 * FX_ONE)) && xs.contains(&(-10 * FX_ONE)));
}

fn skeleton_with_clip(mask: Vec<(i64, i64)>) -> SkeletonData {
    SkeletonData {
        bones: vec![bone("root", None, 0, 0)],
        slots: vec![
            SlotData {
                name: "mask".to_string(),
                bone: 0,
                color: opaque(),
                attachment: Some(1),
                blend: BlendMode::Normal,
            },
            SlotData {
                name: "body".to_string(),
                bone: 0,
                color: opaque(),
                attachment: Some(0),
                blend: BlendMode::Normal,
            },
        ],
        attachments: vec![
            Attachment::Region(quad_region()),
            Attachment::Clipping(ClippingAttachment { vertices: mask, end_slot: 1 }),
        ],
        attachment_names: vec!["quad".to_string(), "mask".to_string()],
    }
}

#[test]
fn containing_clip_leaves_quad_unchanged() {
    let big = vec![
        (-100 * FX_ONE, -100 * FX_ONE),
        (100 * FX_ONE, -100 * FX_ONE),
        (100 * FX_ONE, 100 * FX_ONE),
        (-100 * FX_ONE, 100 * FX_ONE),
    ];
    let clipped_data = skeleton_with_clip(big);
    let mut clipped_skel = Skeleton::new(&clipped_data).unwrap();
    clipped_skel.update_world_transform();
    let clipped = generate(&clipped_skel, &clipped_data, false);

    let plain_data = skeleton_with_region();
    let mut plain_skel = Skeleton::new(&plain_data).unwrap();
    plain_skel.update_world_transform();
    let plain = generate(&plain_skel, &plain_data, false);

    assert_eq!(flat_triangles(&clipped), flat_triangles(&plain));
}

#[test]
fn zero_area_clip_swallows_everything() {
    let flat = vec![(0, 0), (50 * FX_ONE, 0), (100 * FX_ONE, 0)];
    let data = skeleton_with_clip(flat);
    let mut skel = Skeleton::new(&data).unwrap();
    skel.update_world_transform();
    let gs = generate(&skel, &data, false);
    assert_eq!(flat_triangles(&gs).len(), 0);
}

#[test]
fn clip_polygon_direct_ends() {
    let quad = vec![
        ClipVertex { x: -FX_ONE, y: -FX_ONE, u: 0, v: 0 },
        ClipVertex { x: FX_ONE, y: -FX_ONE, u: FX_ONE, v: 0 },
        ClipVertex { x: FX_ONE, y: FX_ONE, u: FX_ONE, v: FX_ONE },
        ClipVertex { x: -FX_ONE, y: FX_ONE, u: 0, v: FX_ONE },
    ];
    let big = vec![
        (-10 * FX_ONE, -10 * FX_ONE),
        (10 * FX_ONE, -10 * FX_ONE),
        (10 * FX_ONE, 10 * FX_ONE),
        (-10 * FX_ONE, 10 * FX_ONE),
    ];
    assert_eq!(clip_polygon(&quad, &big), quad);
    let degenerate = vec![(0, 0), (FX_ONE, 0), (2 * FX_ONE, 0)];
    assert_eq!(clip_polygon(&quad, &degenerate).len(), 0);
}

#[test]
fn combined_mode_draws_the_same_triangles() {
    let mut data = skeleton_with_region();
    // a second slot on the same texture merges; its own region sits elsewhere
    let mut shifted = quad_region();
    shifted.x = 30 * FX_ONE;
    data.slots.push(SlotData {
        name: "arm".to_string(),
        bone: 0,
        color: opaque(),
        attachment: Some(1),
        blend: BlendMode::Normal,
    });
    data.attachments.push(Attachment::Region(shifted));
    data.attachment_names.push("shifted".to_string());
    let mut skel = Skeleton::new(&data).unwrap();
    skel.update_world_transform();
    let simple = generate(&skel, &data, false);
    let combined = combine_batches(&simple);
    assert_eq!(simple.len(), 2);
    assert_eq!(combined.len(), 1);
    assert_eq!(flat_triangles(&simple), flat_triangles(&combined));
}

#[test]
fn draw_order_override_reorders_batches() {
    let mut data = skeleton_with_region();
    let mut shifted = quad_region();
    shifted.x = 30 * FX_ONE;
    shifted.texture = 1;
    data.slots.push(SlotData {
        name: "arm".to_string(),
        bone: 0,
        color: opaque(),
        attachment: Some(1),
        blend: BlendMode::Normal,
    });
    data.attachments.push(Attachment::Region(shifted));
    data.attachment_names.push("shifted".to_string());
    let mut skel = Skeleton::new(&data).unwrap();
    skel.update_world_transform();
    skel.set_draw_order(&vec![1, 0]).unwrap();
    let gs = generate(&skel, &data, false);
    assert_eq!(gs[0].texture, 1);
    assert_eq!(gs[1].texture, 0);
    assert!(skel.set_draw_order(&vec![1, 7]).is_err());
}

#[test]
fn promotion_queues_an_event() {
    let anims = vec![one_bone_anim("a", 10 * FX_ONE), one_bone_anim("b", 50 * FX_ONE)];
    let cfg = AnimationStateData { default_mix: 2 * FX_ONE, mixes: vec![] };
    let mut state = AnimationState::new();
    state.set_animation(&cfg, &anims, 0, 0, true).unwrap();
    state.set_animation(&cfg, &anims, 0, 1, true).unwrap();
    state.drain_events();
    state.update(&anims, 3 * FX_ONE).unwrap();
    let events = state.drain_events();
    assert!(events.iter().any(|e| matches!(e, EventItem::Promoted { track: 0 })));
}

#[test]
fn track_alpha_scales_the_contribution() {
    let anims = vec![one_bone_anim("a", 100 * FX_ONE)];
    let cfg = AnimationStateData { default_mix: 0, mixes: vec![] };
    let data = SkeletonData {
        bones: vec![bone("root", None, 0, 0)],
        slots: vec![],
        attachments: vec![],
        attachment_names: vec![],
    };
    let mut skel = Skeleton::new(&data).unwrap();
    let mut state = AnimationState::new();
    state.set_animation(&cfg, &anims, 0, 0, true).unwrap();
    state.set_track_alpha(0, FX_ONE / 2).unwrap();
    state.apply(&mut skel, &anims);
    assert_eq!(skel.bones()[0].x, 50 * FX_ONE);
    assert!(state.set_track_alpha(3, FX_ONE).is_err());
    assert!(state.set_track_alpha(0, 2 * FX_ONE).is_err());
}

#[test]
fn animation_validation_catches_bad_data() {
    let good = vec![one_bone_anim("a", FX_ONE)];
    assert!(animations_valid(&good, 0));

    let mut unsorted = one_bone_anim("b", FX_ONE);
    unsorted.timelines[0].keys[1].time = 0;
    assert!(!animations_valid(&vec![unsorted], 0));

    let mut bad_key = one_bone_anim("c", FX_ONE);
    bad_key.attachment_timelines.push(AttachmentTimeline {
        slot: 0,
        keys: vec![AttachmentKey { time: 0, attachment: Some(9) }],
    });
    assert!(!animations_valid(&vec![bad_key.clone()], 2));
    assert!(animations_valid(&vec![bad_key], 10));
}

#[test]
fn combined_batches_never_leave_mergeable_neighbours() {
    let mut data = skeleton_with_region();
    let mut same_page = quad_region();
    same_page.x = 30 * FX_ONE;
    let mut other_page = quad_region();
    other_page.x = 60 * FX_ONE;
    other_page.texture = 1;
    for (name, att) in [("arm", same_page), ("head", other_page)] {
        data.slots.push(SlotData {
            name: name.to_string(),
            bone: 0,
            color: opaque(),
            attachment: Some(data.attachments.len()),
            blend: BlendMode::Normal,
        });
        data.attachments.push(Attachment::Region(att));
        data.attachment_names.push(name.to_string());
    }
    let mut skel = Skeleton::new(&data).unwrap();
    skel.update_world_transform();
    let simple = generate(&skel, &data, false);
    let combined = combine_batches(&simple);
    assert_eq!(simple.len(), 3);
    assert_eq!(combined.len(), 2);
    for pair in combined.windows(2) {
        assert!(!(pair[0].texture == pair[1].texture
            && pair[0].blend == pair[1].blend
            && pair[0].cull == pair[1].cull));
    }
    assert_eq!(flat_triangles(&simple), flat_triangles(&combined));
}
