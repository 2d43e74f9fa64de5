use bevy_render::render_resource::BufferUsages;
use bevy_ui_render::extract::{ExtractedUiNode, UiNodeType};
use bevy_ui_render::geometry::{Color, Mat4, Rect, Vec2, Vec3, Vec4};
use bevy_ui_render::prepare::{prepare_uinodes, UiBatch, UiMeta, UiParamsUniform};
use bevy_ui_render::quad::{PlacedNode, QuadMeasures};
use bevy_ui_render::scalar::Scalar;
use bevy_ui_render::sort::sort_by_stack_index;
use bevy_ui_render::vertex_buffer::{ALL_USAGES, VERTEX_USAGE};

fn scalar(value: f32) -> Scalar {
    Scalar { bits: value.to_bits() }
}

fn vec2(x: f32, y: f32) -> Vec2 {
    Vec2 { x: scalar(x), y: scalar(y) }
}

fn vec4(x: f32, y: f32, z: f32, w: f32) -> Vec4 {
    Vec4 { x: scalar(x), y: scalar(y), z: scalar(z), w: scalar(w) }
}

fn placed(stack_index: usize, image: u64, node_type: UiNodeType, z: f32) -> PlacedNode {
    let corner = Vec3 { x: scalar(0.0), y: scalar(0.0), z: scalar(z) };
    PlacedNode {
        node: ExtractedUiNode {
            stack_index,
            transform: Mat4 {
                x_axis: vec4(1.0, 0.0, 0.0, 0.0),
                y_axis: vec4(0.0, 1.0, 0.0, 0.0),
                z_axis: vec4(0.0, 0.0, 1.0, 0.0),
                w_axis: vec4(0.0, 0.0, z, 1.0),
            },
            background_color: Color::white(),
            rect: Rect { min: vec2(0.0, 0.0), max: vec2(1.0, 1.0) },
            image,
            atlas_size: None,
            clip: None,
            flip_x: false,
            flip_y: false,
            scale_factor: scalar(1.0),
            node_type,
        },
        quad: QuadMeasures {
            corners: [corner, corner, corner, corner],
            uvs: [vec2(0.0, 0.0), vec2(1.0, 0.0), vec2(1.0, 1.0), vec2(0.0, 1.0)],
            color: [scalar(1.0), scalar(1.0), scalar(1.0), scalar(1.0)],
            clipped: vec2(0.0, 0.0),
            size: vec2(1.0, 1.0),
        },
    }
}

fn culled(mut node: PlacedNode) -> PlacedNode {
    node.quad.clipped = vec2(1.0, 0.0);
    node
}

fn is_batch(batch: &UiBatch, start: u32, end: u32, image: u64, node_type: UiNodeType, z: f32) -> bool {
    batch.range == (start..end)
        && batch.image == image
        && batch.node_type == node_type
        && batch.z == scalar(z)
}

#[test]
fn a_new_meta_is_empty() {
    let meta: UiMeta = UiMeta::default();
    assert_eq!(meta.vertices.buffer.len(), 0);
    assert!(meta.view_bind_group.is_none());
    assert!(meta.params_uniforms(UiNodeType::Sprite).is_none());
    assert!(meta.params_uniforms(UiNodeType::Text).is_none());
}

#[test]
fn usages_are_those_of_buffers() {
    assert_eq!(VERTEX_USAGE, BufferUsages::VERTEX.bits());
    assert_eq!(ALL_USAGES, BufferUsages::all().bits());
}

#[test]
fn a_box_that_is_turned_around_is_drawn() {
    let mut meta: UiMeta = UiMeta::default();
    let mut node = placed(0, 1, UiNodeType::Sprite, 0.5);
    node.node.transform.x_axis = vec4(-1.0, 0.0, 0.0, 0.0);
    node.node.transform.y_axis = vec4(0.0, -1.0, 0.0, 0.0);
    node.node.rect.max = vec2(10.0, 10.0);
    node.quad.size = vec2(-10.0, -10.0);
    let batches = prepare_uinodes(&mut meta, &mut vec![node]).batches;
    assert_eq!(meta.vertices.buffer.len(), 6);
    assert_eq!(batches.len(), 1);
    assert!(is_batch(&batches[0], 0, 6, 1, UiNodeType::Sprite, 0.5));
}

#[test]
fn no_boxes_make_no_batches() {
    let mut meta: UiMeta = UiMeta::default();
    let prepared = prepare_uinodes(&mut meta, &mut vec![]);
    assert!(prepared.batches.is_empty());
    assert_eq!(meta.vertices.buffer.len(), 0);
}

#[test]
fn boxes_that_show_one_image_share_a_batch() {
    let mut meta: UiMeta = UiMeta::default();
    let mut nodes = vec![
        placed(0, 1, UiNodeType::Sprite, 0.5),
        placed(1, 1, UiNodeType::Sprite, 1.5),
        placed(2, 2, UiNodeType::Sprite, 2.5),
        placed(3, 2, UiNodeType::Text, 3.5),
        placed(4, 2, UiNodeType::Text, 4.5),
    ];
    let batches = prepare_uinodes(&mut meta, &mut nodes).batches;
    assert_eq!(meta.vertices.buffer.len(), 30);
    assert_eq!(batches.len(), 3);
    assert!(is_batch(&batches[0], 0, 12, 1, UiNodeType::Sprite, 1.5));
    assert!(is_batch(&batches[1], 12, 18, 2, UiNodeType::Sprite, 2.5));
    assert!(is_batch(&batches[2], 18, 30, 2, UiNodeType::Text, 4.5));
}

#[test]
fn the_first_box_starts_a_batch_whatever_it_shows() {
    let mut meta: UiMeta = UiMeta::default();
    let mut zero = vec![placed(0, 0, UiNodeType::Sprite, 1.0)];
    let batches = prepare_uinodes(&mut meta, &mut zero).batches;
    assert_eq!(batches.len(), 1);
    assert!(is_batch(&batches[0], 0, 6, 0, UiNodeType::Sprite, 1.0));
    let mut text = vec![placed(0, 9, UiNodeType::Text, 2.0)];
    let batches = prepare_uinodes(&mut meta, &mut text).batches;
    assert_eq!(batches.len(), 1);
    assert!(is_batch(&batches[0], 0, 6, 9, UiNodeType::Text, 2.0));
}

#[test]
fn culled_boxes_have_no_vertices() {
    let mut meta: UiMeta = UiMeta::default();
    let mut nodes = vec![
        placed(0, 1, UiNodeType::Sprite, 0.5),
        culled(placed(1, 1, UiNodeType::Sprite, 1.5)),
        placed(2, 1, UiNodeType::Sprite, 2.5),
        culled(placed(3, 1, UiNodeType::Sprite, 3.5)),
    ];
    let batches = prepare_uinodes(&mut meta, &mut nodes).batches;
    assert_eq!(meta.vertices.buffer.len(), 12);
    assert_eq!(batches.len(), 1);
    assert!(is_batch(&batches[0], 0, 12, 1, UiNodeType::Sprite, 2.5));
}

#[test]
fn a_culled_box_of_another_image_still_ends_the_batch() {
    let mut meta: UiMeta = UiMeta::default();
    let mut nodes = vec![
        placed(0, 1, UiNodeType::Sprite, 0.5),
        culled(placed(1, 2, UiNodeType::Sprite, 1.5)),
        placed(2, 1, UiNodeType::Sprite, 2.5),
    ];
    let batches = prepare_uinodes(&mut meta, &mut nodes).batches;
    assert_eq!(meta.vertices.buffer.len(), 12);
    assert_eq!(batches.len(), 2);
    assert!(is_batch(&batches[0], 0, 6, 1, UiNodeType::Sprite, 0.5));
    assert!(is_batch(&batches[1], 6, 12, 1, UiNodeType::Sprite, 2.5));
}

#[test]
fn preparing_again_changes_nothing() {
    let mut meta: UiMeta = UiMeta::default();
    let mut nodes = vec![
        placed(1, 2, UiNodeType::Sprite, 1.5),
        placed(0, 1, UiNodeType::Sprite, 0.5),
        placed(0, 2, UiNodeType::Text, 0.5),
    ];
    let first = prepare_uinodes(&mut meta, &mut nodes);
    let order: Vec<(usize, u64)> = nodes.iter().map(|p| (p.node.stack_index, p.node.image)).collect();
    let second = prepare_uinodes(&mut meta, &mut nodes);
    let again: Vec<(usize, u64)> = nodes.iter().map(|p| (p.node.stack_index, p.node.image)).collect();
    assert_eq!(order, vec![(0, 1), (0, 2), (1, 2)]);
    assert_eq!(again, order);
    assert_eq!(meta.vertices.buffer.len(), 18);
    assert!(second.new_params.is_empty());
    assert_eq!(second.batches.len(), first.batches.len());
    for (a, b) in first.batches.iter().zip(&second.batches) {
        assert_eq!((&a.range, a.image, a.node_type, a.z), (&b.range, b.image, b.node_type, b.z));
    }
}

#[test]
fn the_vertices_of_the_last_frame_are_replaced() {
    let mut meta: UiMeta = UiMeta::default();
    let mut two = vec![placed(0, 1, UiNodeType::Sprite, 0.0), placed(1, 1, UiNodeType::Sprite, 0.0)];
    prepare_uinodes(&mut meta, &mut two);
    assert_eq!(meta.vertices.buffer.len(), 12);
    let mut one = vec![placed(0, 1, UiNodeType::Sprite, 0.0)];
    prepare_uinodes(&mut meta, &mut one);
    assert_eq!(meta.vertices.buffer.len(), 6);
}

#[test]
fn text_is_drawn_over_its_node() {
    let mut nodes = vec![
        placed(0, 1, UiNodeType::Sprite, 0.0),
        placed(1, 1, UiNodeType::Sprite, 1.0),
        placed(2, 1, UiNodeType::Sprite, 2.0),
        placed(0, 5, UiNodeType::Text, 3.0),
        placed(0, 6, UiNodeType::Text, 4.0),
        placed(2, 5, UiNodeType::Text, 5.0),
    ];
    let mut meta: UiMeta = UiMeta::default();
    let batches = prepare_uinodes(&mut meta, &mut nodes).batches;
    let order: Vec<(usize, u64)> = nodes.iter().map(|p| (p.node.stack_index, p.node.image)).collect();
    assert_eq!(order, vec![(0, 1), (0, 5), (0, 6), (1, 1), (2, 1), (2, 5)]);
    assert_eq!(batches.len(), 5);
    assert!(is_batch(&batches[3], 18, 30, 1, UiNodeType::Sprite, 2.0));
}

#[test]
fn sorting_is_stable() {
    let indices: Vec<usize> = vec![3, 1, 2, 1, 3, 0, 2, 1, 1, 0, 7, 3];
    let mut nodes: Vec<PlacedNode> = indices
        .iter()
        .enumerate()
        .map(|(i, index)| placed(*index, i as u64, UiNodeType::Sprite, 0.0))
        .collect();
    sort_by_stack_index(&mut nodes);
    let sorted: Vec<(usize, u64)> = nodes.iter().map(|p| (p.node.stack_index, p.node.image)).collect();
    let mut expected: Vec<(usize, u64)> =
        indices.iter().enumerate().map(|(i, index)| (*index, i as u64)).collect();
    expected.sort_by_key(|(index, _)| *index);
    assert_eq!(sorted, expected);
}

#[test]
fn the_parameters_number_the_kinds_of_node() {
    let numbered = |node_type: u32| UiParamsUniform { node_type, pad0: 0, pad1: 0, pad2: 0 };
    assert_eq!(UiNodeType::Sprite.params(), numbered(0));
    assert_eq!(UiNodeType::Text.params(), numbered(1));
}

#[test]
fn missing_parameters_are_made_once() {
    let mut meta: UiMeta = UiMeta::default();
    let new_params = prepare_uinodes(&mut meta, &mut vec![]).new_params;
    assert_eq!(new_params, vec![UiNodeType::Sprite, UiNodeType::Text]);
    let sprite = &meta.params_uniforms(UiNodeType::Sprite).unwrap().uniforms;
    assert_eq!(sprite.len(), 1);
    assert_eq!(sprite.get_label(), Some("ui_sprite_params_buffer"));
    let text = &meta.params_uniforms(UiNodeType::Text).unwrap().uniforms;
    assert_eq!(text.len(), 1);
    assert_eq!(text.get_label(), Some("ui_text_params_buffer"));

    assert!(prepare_uinodes(&mut meta, &mut vec![]).new_params.is_empty());
    assert_eq!(meta.params_uniforms(UiNodeType::Sprite).unwrap().uniforms.len(), 1);

    meta.text_params_uniforms = None;
    let new_params = prepare_uinodes(&mut meta, &mut vec![]).new_params;
    assert_eq!(new_params, vec![UiNodeType::Text]);
    assert_eq!(meta.params_uniforms(UiNodeType::Text).unwrap().uniforms.len(), 1);
}
