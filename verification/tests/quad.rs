use bevy_ui_render::extract::{ExtractedUiNode, UiNodeType};
use bevy_ui_render::geometry::{Color, Mat4, Rect, Vec2, Vec3, Vec4};
use bevy_ui_render::quad::{
    clip_offsets, clip_offsets_turned, PlacedNode, QuadMeasures, QUAD_INDICES,
};
use bevy_ui_render::scalar::Scalar;

fn scalar(value: f32) -> Scalar {
    Scalar { bits: value.to_bits() }
}

fn vec2(x: f32, y: f32) -> Vec2 {
    Vec2 { x: scalar(x), y: scalar(y) }
}

fn vec3(x: f32, y: f32, z: f32) -> Vec3 {
    Vec3 { x: scalar(x), y: scalar(y), z: scalar(z) }
}

fn vec4(x: f32, y: f32, z: f32, w: f32) -> Vec4 {
    Vec4 { x: scalar(x), y: scalar(y), z: scalar(z), w: scalar(w) }
}

fn placed() -> PlacedNode {
    PlacedNode {
        node: ExtractedUiNode {
            stack_index: 0,
            transform: Mat4 {
                x_axis: vec4(1.0, 0.0, 0.0, 0.0),
                y_axis: vec4(0.0, 1.0, 0.0, 0.0),
                z_axis: vec4(0.0, 0.0, 1.0, 0.0),
                w_axis: vec4(0.0, 0.0, 0.0, 1.0),
            },
            background_color: Color::white(),
            rect: Rect { min: vec2(0.0, 0.0), max: vec2(10.0, 20.0) },
            image: 1,
            atlas_size: None,
            clip: None,
            flip_x: false,
            flip_y: false,
            scale_factor: scalar(1.0),
            node_type: UiNodeType::Sprite,
        },
        quad: QuadMeasures {
            corners: [
                vec3(0.0, 0.0, 5.0),
                vec3(10.0, 0.0, 5.0),
                vec3(10.0, 20.0, 5.0),
                vec3(0.0, 20.0, 5.0),
            ],
            uvs: [vec2(0.0, 0.0), vec2(1.0, 0.0), vec2(1.0, 1.0), vec2(0.0, 1.0)],
            color: [scalar(0.1), scalar(0.2), scalar(0.3), scalar(0.4)],
            clipped: vec2(0.0, 0.0),
            size: vec2(10.0, 20.0),
        },
    }
}

#[test]
fn corners_go_around_the_rectangle() {
    let rect = Rect { min: vec2(1.0, 2.0), max: vec2(3.0, 4.0) };
    assert_eq!(
        rect.corners(),
        [vec2(1.0, 2.0), vec2(3.0, 2.0), vec2(3.0, 4.0), vec2(1.0, 4.0)]
    );
}

#[test]
fn clipping_moves_corners_inwards() {
    let distances = [vec2(2.0, -1.0), vec2(-3.0, 4.0), vec2(5.0, -6.0), vec2(-7.0, 8.0)];
    assert_eq!(
        clip_offsets(Some(distances)),
        [vec2(2.0, 0.0), vec2(-3.0, 4.0), vec2(0.0, -6.0), vec2(0.0, 0.0)]
    );
    let lost = [vec2(f32::NAN, 1.0), vec2(-1.0, f32::NAN), vec2(f32::NAN, f32::NAN), vec2(1.0, -1.0)];
    assert_eq!(
        clip_offsets(Some(lost)),
        [vec2(0.0, 1.0), vec2(-1.0, 0.0), vec2(0.0, 0.0), vec2(1.0, -1.0)]
    );
}

#[test]
fn turned_corners_move_inwards() {
    let distances = [vec2(2.0, -1.0), vec2(-3.0, 4.0), vec2(5.0, -6.0), vec2(-7.0, 8.0)];
    assert_eq!(clip_offsets_turned(Some(distances), false, false), clip_offsets(Some(distances)));
    assert_eq!(
        clip_offsets_turned(Some(distances), true, true),
        [vec2(0.0, -1.0), vec2(0.0, 0.0), vec2(5.0, 0.0), vec2(-7.0, 8.0)]
    );
    assert_eq!(
        clip_offsets_turned(Some(distances), true, false),
        [vec2(0.0, 0.0), vec2(0.0, 4.0), vec2(5.0, -6.0), vec2(-7.0, 0.0)]
    );
    assert_eq!(
        clip_offsets_turned(Some(distances), false, true),
        [vec2(2.0, -1.0), vec2(-3.0, 0.0), vec2(0.0, 0.0), vec2(0.0, 8.0)]
    );
    assert_eq!(clip_offsets_turned(None, true, true), clip_offsets(None));
}

#[test]
fn corners_face_those_of_the_region() {
    let rect = Rect { min: vec2(1.0, 2.0), max: vec2(3.0, 4.0) };
    let corners = rect.corners();
    assert_eq!(rect.facing_corners(false, false), corners);
    assert_eq!(
        rect.facing_corners(true, false),
        [corners[1], corners[0], corners[3], corners[2]]
    );
    assert_eq!(
        rect.facing_corners(false, true),
        [corners[3], corners[2], corners[1], corners[0]]
    );
    assert_eq!(
        rect.facing_corners(true, true),
        [corners[2], corners[3], corners[0], corners[1]]
    );
}

#[test]
fn negative_sizes_are_turned_around() {
    let mut node = placed().node;
    assert_eq!(node.turned_axes(vec2(10.0, 20.0)), (false, false));
    assert_eq!(node.turned_axes(vec2(-10.0, 20.0)), (true, false));
    assert_eq!(node.turned_axes(vec2(10.0, -20.0)), (false, true));
    assert_eq!(node.turned_axes(vec2(-0.0, f32::NAN)), (false, false));
    node.transform.x_axis.y = scalar(0.5);
    assert_eq!(node.turned_axes(vec2(-10.0, -20.0)), (false, false));
}

/// Measures the quad of a box of this size around the origin that is turned around along both axes.
fn turned(width: f32, height: f32, clip: Rect) -> PlacedNode {
    let number = |value: Scalar| f32::from_bits(value.bits);
    let mut node = placed();
    node.node.transform.x_axis = vec4(-1.0, 0.0, 0.0, 0.0);
    node.node.transform.y_axis = vec4(0.0, -1.0, 0.0, 0.0);
    node.quad.size = vec2(-width, -height);
    let (turned_x, turned_y) = node.node.turned_axes(node.quad.size);
    assert!(turned_x && turned_y);
    let (x, y) = (width / 2.0, height / 2.0);
    let positions = [(x, y), (-x, y), (-x, -y), (x, -y)];
    let targets = clip.facing_corners(turned_x, turned_y);
    let distances = [0, 1, 2, 3].map(|i: usize| {
        vec2(number(targets[i].x) - positions[i].0, number(targets[i].y) - positions[i].1)
    });
    let offsets = clip_offsets_turned(Some(distances), turned_x, turned_y);
    node.quad.clipped = vec2(
        (number(offsets[0].x) - number(offsets[1].x)).abs(),
        (number(offsets[1].y) - number(offsets[2].y)).abs(),
    );
    node
}

#[test]
fn boxes_that_are_turned_around_are_culled_outside_of_the_region() {
    let region = |min: f32, max: f32| Rect { min: vec2(min, -100.0), max: vec2(max, 100.0) };
    let outside = turned(10.0, 10.0, region(6.0, 100.0));
    assert_eq!(outside.quad.clipped, vec2(11.0, 0.0));
    assert!(outside.is_culled());
    assert!(turned(10.0, 10.0, region(-100.0, -6.0)).is_culled());
    let partly = turned(10.0, 10.0, region(4.0, 100.0));
    assert_eq!(partly.quad.clipped, vec2(9.0, 0.0));
    assert!(!partly.is_culled());
    assert!(!turned(10.0, 10.0, region(-100.0, 100.0)).is_culled());
}

#[test]
fn nothing_moves_without_a_clip_region() {
    assert_eq!(clip_offsets(None), [Vec2::zero(), Vec2::zero(), Vec2::zero(), Vec2::zero()]);
}

#[test]
fn completely_clipped_boxes_are_culled() {
    let mut node = placed();
    node.quad.clipped = vec2(10.0, 0.0);
    assert!(node.is_culled());
    node.quad.clipped = vec2(9.999, 19.999);
    assert!(!node.is_culled());
    node.quad.clipped = vec2(0.0, 25.0);
    assert!(node.is_culled());
    node.quad.clipped = vec2(f32::NAN, 0.0);
    assert!(!node.is_culled());
}

#[test]
fn boxes_without_extent_are_culled() {
    let mut node = placed();
    node.quad.size = vec2(0.0, 20.0);
    assert!(node.is_culled());
}

#[test]
fn unclipped_boxes_are_drawn() {
    assert!(!placed().is_culled());
}

#[test]
fn boxes_that_are_turned_around_are_culled_like_others() {
    let mut node = placed();
    node.node.transform.x_axis = vec4(-1.0, 0.0, 0.0, 0.0);
    node.node.transform.y_axis = vec4(0.0, -1.0, 0.0, 0.0);
    node.quad.size = vec2(-10.0, -20.0);
    assert!(!node.is_culled());
    node.quad.clipped = vec2(9.999, 19.999);
    assert!(!node.is_culled());
    node.quad.clipped = vec2(10.0, 0.0);
    assert!(node.is_culled());
    node.quad.clipped = vec2(0.0, 20.0);
    assert!(node.is_culled());
    node.quad.clipped = vec2(0.0, 0.0);
    node.quad.size = vec2(-0.0, -20.0);
    assert!(node.is_culled());
}

#[test]
fn rotated_boxes_are_drawn() {
    let mut node = placed();
    node.quad.clipped = vec2(100.0, 100.0);
    node.node.transform.x_axis.y = scalar(0.5);
    assert!(!node.is_culled());
    node.node.transform.x_axis.y = scalar(-0.0);
    assert!(node.is_culled());
}

#[test]
fn the_atlas_gives_the_extent() {
    let mut node = placed().node;
    assert_eq!(node.atlas_extent(), vec2(10.0, 20.0));
    node.atlas_size = Some(vec2(64.0, 32.0));
    assert_eq!(node.atlas_extent(), vec2(64.0, 32.0));
}

#[test]
fn flips_compose() {
    let mut node = placed();
    let plain = node.flipped_uvs();
    assert_eq!(plain, node.quad.uvs);
    node.node.flip_x = true;
    let flipped_x = node.flipped_uvs();
    assert_eq!(flipped_x, [plain[1], plain[0], plain[3], plain[2]]);
    node.node.flip_y = true;
    assert_eq!(node.flipped_uvs(), [plain[2], plain[3], plain[0], plain[1]]);
    node.node.flip_x = false;
    assert_eq!(node.flipped_uvs(), [plain[3], plain[2], plain[1], plain[0]]);

    let mut twice = placed();
    twice.node.flip_x = true;
    twice.quad.uvs = flipped_x;
    assert_eq!(twice.flipped_uvs(), plain);
}

#[test]
fn triangles_cover_the_quad() {
    assert_eq!(QUAD_INDICES, [0, 2, 3, 0, 1, 2]);
    let mut node = placed();
    node.node.flip_x = true;
    let first = node.vertex(0);
    assert_eq!(first.position, vec3(0.0, 0.0, 5.0));
    assert_eq!(first.uv, vec2(1.0, 0.0));
    assert_eq!(first.color, [scalar(0.1), scalar(0.2), scalar(0.3), scalar(0.4)]);
    let positions: Vec<Vec3> = (0..6).map(|i| node.vertex(i).position).collect();
    let corners = node.quad.corners;
    assert_eq!(
        positions,
        vec![corners[0], corners[2], corners[3], corners[0], corners[1], corners[2]]
    );
}

#[test]
fn a_vertex_is_nine_words() {
    let words = placed().vertex(1).words();
    let expected: Vec<u32> = [10.0f32, 20.0, 5.0, 1.0, 1.0, 0.1, 0.2, 0.3, 0.4]
        .iter()
        .map(|v| v.to_bits())
        .collect();
    assert_eq!(words.to_vec(), expected);
}
