use bevy_ui_render::camera::{
    extract_default_ui_camera_view, CameraItem, UVec2, UVec4, UiCameraConfig,
};
use bevy_ui_render::geometry::Vec2;
use bevy_ui_render::scalar::Scalar;

fn size(x: f32, y: f32) -> Vec2 {
    Vec2 { x: Scalar { bits: x.to_bits() }, y: Scalar { bits: y.to_bits() } }
}

fn camera(entity: u64) -> CameraItem {
    CameraItem {
        entity,
        config: None,
        logical_viewport_size: Some(size(400.0, 300.0)),
        physical_viewport_rect: Some((UVec2 { x: 10, y: 20 }, UVec2 { x: 810, y: 620 })),
        physical_viewport_size: Some(UVec2 { x: 800, y: 600 }),
        hdr: true,
    }
}

#[test]
fn a_camera_shows_the_interface_over_its_viewport() {
    let view = camera(5).view().unwrap();
    assert_eq!(view.camera, 5);
    assert_eq!(view.logical_size, size(400.0, 300.0));
    assert!(view.hdr);
    assert_eq!(view.viewport, UVec4 { x: 10, y: 20, z: 800, w: 600 });
}

#[test]
fn switched_off_cameras_show_nothing() {
    let mut off = camera(1);
    off.config = Some(UiCameraConfig { show_ui: false });
    let mut on = camera(2);
    on.config = Some(UiCameraConfig { show_ui: true });
    let views = extract_default_ui_camera_view(&vec![off, on, camera(3)]);
    let cameras: Vec<u64> = views.iter().map(|v| v.camera).collect();
    assert_eq!(cameras, vec![2, 3]);
}

#[test]
fn cameras_without_a_viewport_show_nothing() {
    let mut a = camera(1);
    a.logical_viewport_size = None;
    let mut b = camera(2);
    b.physical_viewport_rect = None;
    let mut c = camera(3);
    c.physical_viewport_size = None;
    assert!(extract_default_ui_camera_view(&vec![a, b, c]).is_empty());
}
