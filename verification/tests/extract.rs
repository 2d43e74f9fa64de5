use bevy_ui_render::extract::{
    extract_text_uinodes, extract_uinodes, DefaultImage, ExtractedUiNodes, PositionedGlyph,
    TextNodeItem, TextureAtlas, UiImage, UiNodeItem, UiNodeType,
};
use bevy_ui_render::geometry::{Color, Mat4, Rect, Vec2, Vec4};
use bevy_ui_render::scalar::Scalar;

fn scalar(value: f32) -> Scalar {
    Scalar { bits: value.to_bits() }
}

fn vec2(x: f32, y: f32) -> Vec2 {
    Vec2 { x: scalar(x), y: scalar(y) }
}

fn vec4(x: f32, y: f32, z: f32, w: f32) -> Vec4 {
    Vec4 { x: scalar(x), y: scalar(y), z: scalar(z), w: scalar(w) }
}

fn at(x: f32) -> Mat4 {
    Mat4 {
        x_axis: vec4(1.0, 0.0, 0.0, 0.0),
        y_axis: vec4(0.0, 1.0, 0.0, 0.0),
        z_axis: vec4(0.0, 0.0, 1.0, 0.0),
        w_axis: vec4(x, 0.0, 0.0, 1.0),
    }
}

fn rect(x0: f32, y0: f32, x1: f32, y1: f32) -> Rect {
    Rect { min: vec2(x0, y0), max: vec2(x1, y1) }
}

fn gray(level: f32, alpha: f32) -> Color {
    Color::Rgba {
        red: scalar(level),
        green: scalar(level),
        blue: scalar(level),
        alpha: scalar(alpha),
    }
}

fn node(x: f32) -> UiNodeItem {
    UiNodeItem {
        calculated_size: vec2(10.0, 20.0),
        transform: at(x),
        background_color: gray(0.5, 1.0),
        image: Some(UiImage { texture: 7, loaded: true, flip_x: true, flip_y: false }),
        visible: true,
        clip: Some(rect(0.0, 0.0, 5.0, 5.0)),
    }
}

fn default_image() -> DefaultImage {
    DefaultImage { texture: 99, loaded: true }
}

#[test]
fn a_visible_node_is_extracted_as_it_is() {
    let mut extracted = ExtractedUiNodes::default();
    extract_uinodes(&mut extracted, &vec![None, Some(node(3.0))], default_image(), scalar(2.0));
    assert_eq!(extracted.uinodes.len(), 1);
    let uinode = &extracted.uinodes[0];
    assert_eq!(uinode.stack_index, 1);
    assert_eq!(uinode.transform, at(3.0));
    assert_eq!(uinode.background_color, gray(0.5, 1.0));
    assert_eq!(uinode.rect, rect(0.0, 0.0, 10.0, 20.0));
    assert_eq!(uinode.image, 7);
    assert_eq!(uinode.atlas_size, None);
    assert_eq!(uinode.clip, Some(rect(0.0, 0.0, 5.0, 5.0)));
    assert!(uinode.flip_x);
    assert!(!uinode.flip_y);
    assert_eq!(uinode.scale_factor, scalar(2.0));
    assert_eq!(uinode.node_type, UiNodeType::Sprite);
}

#[test]
fn a_node_without_an_image_shows_the_default_image() {
    let mut item = node(0.0);
    item.image = None;
    let mut extracted = ExtractedUiNodes::default();
    extract_uinodes(&mut extracted, &vec![Some(item)], default_image(), scalar(1.0));
    assert_eq!(extracted.uinodes.len(), 1);
    assert_eq!(extracted.uinodes[0].image, 99);
    assert!(!extracted.uinodes[0].flip_x);
    assert!(!extracted.uinodes[0].flip_y);

    let unloaded = DefaultImage { texture: 99, loaded: false };
    extract_uinodes(&mut extracted, &vec![Some(item)], unloaded, scalar(1.0));
    assert_eq!(extracted.uinodes.len(), 0);
}

#[test]
fn hidden_loading_and_transparent_nodes_are_skipped() {
    let mut hidden = node(0.0);
    hidden.visible = false;
    let mut loading = node(1.0);
    loading.image = Some(UiImage { texture: 8, loaded: false, flip_x: false, flip_y: false });
    let mut transparent = node(2.0);
    transparent.background_color = gray(1.0, 0.0);
    let mut negative_zero = node(3.0);
    negative_zero.background_color = Color::Hsla {
        hue: scalar(0.0),
        saturation: scalar(1.0),
        lightness: scalar(1.0),
        alpha: scalar(-0.0),
    };
    let mut faint = node(4.0);
    faint.background_color = Color::RgbaLinear {
        red: scalar(0.0),
        green: scalar(0.0),
        blue: scalar(0.0),
        alpha: scalar(0.01),
    };
    let stack = vec![
        Some(hidden),
        Some(loading),
        Some(transparent),
        Some(negative_zero),
        Some(faint),
    ];
    let mut extracted = ExtractedUiNodes::default();
    extract_uinodes(&mut extracted, &stack, default_image(), scalar(1.0));
    assert_eq!(extracted.uinodes.len(), 1);
    assert_eq!(extracted.uinodes[0].stack_index, 4);
    assert_eq!(extracted.uinodes[0].transform, at(4.0));
}

#[test]
fn sprites_follow_the_stack_and_replace_those_of_the_last_frame() {
    let mut extracted = ExtractedUiNodes::default();
    extract_uinodes(&mut extracted, &vec![Some(node(9.0))], default_image(), scalar(1.0));
    let stack = vec![Some(node(0.0)), None, Some(node(2.0)), Some(node(3.0))];
    extract_uinodes(&mut extracted, &stack, default_image(), scalar(1.0));
    let indices: Vec<usize> = extracted.uinodes.iter().map(|n| n.stack_index).collect();
    assert_eq!(indices, vec![0, 2, 3]);
    for uinode in &extracted.uinodes {
        assert_eq!(uinode.transform, at(uinode.stack_index as f32));
    }
}

fn glyph(section_index: usize, atlas: usize, glyph_index: usize, x: f32) -> PositionedGlyph {
    PositionedGlyph { section_index, atlas, glyph_index, transform: at(x) }
}

fn text(glyphs: Vec<PositionedGlyph>) -> TextNodeItem {
    TextNodeItem {
        size: vec2(30.0, 10.0),
        section_colors: vec![gray(0.25, 1.0), gray(0.75, 1.0)],
        glyphs,
        visible: true,
        clip: None,
    }
}

fn atlases() -> Vec<TextureAtlas> {
    vec![
        TextureAtlas {
            texture: 50,
            size: vec2(64.0, 64.0),
            textures: vec![rect(0.0, 0.0, 8.0, 8.0), rect(8.0, 0.0, 16.0, 8.0)],
        },
        TextureAtlas {
            texture: 51,
            size: vec2(128.0, 32.0),
            textures: vec![rect(1.0, 1.0, 2.0, 2.0)],
        },
    ]
}

#[test]
fn glyphs_are_appended_with_the_color_of_their_section() {
    let mut extracted = ExtractedUiNodes::default();
    extract_uinodes(&mut extracted, &vec![Some(node(0.0))], default_image(), scalar(1.0));
    let item = text(vec![glyph(1, 0, 1, 1.0), glyph(0, 1, 0, 2.0), glyph(0, 0, 0, 3.0)]);
    assert!(item.glyphs_in_bounds(&atlases()));
    extract_text_uinodes(&mut extracted, &vec![None, Some(item)], &atlases(), scalar(2.0));
    assert_eq!(extracted.uinodes.len(), 4);
    assert_eq!(extracted.uinodes[0].node_type, UiNodeType::Sprite);
    let first = &extracted.uinodes[1];
    assert_eq!(first.stack_index, 1);
    assert_eq!(first.transform, at(1.0));
    assert_eq!(first.background_color, gray(0.75, 1.0));
    assert_eq!(first.rect, rect(8.0, 0.0, 16.0, 8.0));
    assert_eq!(first.image, 50);
    assert_eq!(first.atlas_size, Some(vec2(64.0, 64.0)));
    assert_eq!(first.clip, None);
    assert!(!first.flip_x);
    assert!(!first.flip_y);
    assert_eq!(first.scale_factor, scalar(2.0));
    assert_eq!(first.node_type, UiNodeType::Text);
    let second = &extracted.uinodes[2];
    assert_eq!(second.image, 51);
    assert_eq!(second.atlas_size, Some(vec2(128.0, 32.0)));
    assert_eq!(second.rect, rect(1.0, 1.0, 2.0, 2.0));
    assert_eq!(second.background_color, gray(0.25, 1.0));
    assert_eq!(extracted.uinodes[3].background_color, gray(0.25, 1.0));
    assert_eq!(extracted.uinodes[3].transform, at(3.0));
}

#[test]
fn hidden_and_empty_texts_are_skipped() {
    let mut hidden = text(vec![glyph(0, 0, 0, 0.0)]);
    hidden.visible = false;
    let mut collapsed = text(vec![glyph(0, 0, 0, 0.0)]);
    collapsed.size = vec2(0.0, -0.0);
    let mut flat = text(vec![glyph(0, 0, 0, 0.0)]);
    flat.size = vec2(0.0, 1.0);
    let mut extracted = ExtractedUiNodes::default();
    let stack = vec![Some(hidden), Some(collapsed), Some(flat)];
    extract_text_uinodes(&mut extracted, &stack, &atlases(), scalar(1.0));
    assert_eq!(extracted.uinodes.len(), 1);
    assert_eq!(extracted.uinodes[0].stack_index, 2);
}

#[test]
fn glyphs_before_any_section_are_white() {
    let item = text(vec![glyph(usize::MAX, 0, 0, 0.0), glyph(usize::MAX, 0, 1, 1.0), glyph(1, 0, 0, 2.0)]);
    assert!(item.glyphs_in_bounds(&atlases()));
    let mut extracted = ExtractedUiNodes::default();
    extract_text_uinodes(&mut extracted, &vec![Some(item)], &atlases(), scalar(1.0));
    assert_eq!(extracted.uinodes[0].background_color, Color::white());
    assert_eq!(extracted.uinodes[1].background_color, Color::white());
    assert_eq!(extracted.uinodes[2].background_color, gray(0.75, 1.0));
}

#[test]
fn glyphs_out_of_bounds_are_found() {
    assert!(!text(vec![glyph(2, 0, 0, 0.0)]).glyphs_in_bounds(&atlases()));
    assert!(!text(vec![glyph(0, 2, 0, 0.0)]).glyphs_in_bounds(&atlases()));
    assert!(!text(vec![glyph(0, 1, 1, 0.0)]).glyphs_in_bounds(&atlases()));
    let late = text(vec![glyph(0, 0, 0, 0.0), glyph(usize::MAX, 0, 0, 1.0)]);
    assert!(!late.glyphs_in_bounds(&atlases()));
    let mut hidden = text(vec![glyph(2, 5, 9, 0.0)]);
    hidden.visible = false;
    assert!(hidden.glyphs_in_bounds(&atlases()));
}

#[test]
fn white_is_opaque_white() {
    assert_eq!(Color::white(), gray(1.0, 1.0));
    assert_eq!(Color::white().a(), scalar(1.0));
}
