//! The views through which cameras show the user interface.
use crate::geometry::Vec2;
use vstd::prelude::*;

verus! {

/// A position or a size in physical pixels.
#[derive(Clone, Copy, Debug, PartialEq, Eq, Structural)]
pub struct UVec2 {
    pub x: u32,
    pub y: u32,
}

/// A viewport in physical pixels: its position, then its size.
#[derive(Clone, Copy, Debug, PartialEq, Eq, Structural)]
pub struct UVec4 {
    pub x: u32,
    pub y: u32,
    pub z: u32,
    pub w: u32,
}

/// How a camera shows the user interface.
#[derive(Clone, Copy, Debug, PartialEq, Eq, Structural)]
pub struct UiCameraConfig {
    pub show_ui: bool,
}

/// A camera, as its components describe it.
#[derive(Clone, Copy, Debug)]
pub struct CameraItem {
    pub entity: u64,
    pub config: Option<UiCameraConfig>,
    pub logical_viewport_size: Option<Vec2>,
    /// The smallest and the largest corner.
    pub physical_viewport_rect: Option<(UVec2, UVec2)>,
    pub physical_viewport_size: Option<UVec2>,
    pub hdr: bool,
}

/// The view of the user interface that a camera shows.
#[derive(Clone, Copy, Debug)]
pub struct UiCameraView {
    /// The camera.
    pub camera: u64,
    /// The extent of the projection, which has its origin at the top left.
    pub logical_size: Vec2,
    pub hdr: bool,
    pub viewport: UVec4,
}

impl CameraItem {
    /// The view that the camera shows: one over its whole viewport, unless the user interface is
    /// switched off for the camera or the camera has no viewport yet.
    pub open spec fn view_spec(self) -> Option<UiCameraView> {
        if self.config == Some(UiCameraConfig { show_ui: false })
            || self.logical_viewport_size is None || self.physical_viewport_rect is None
            || self.physical_viewport_size is None {
            None
        } else {
            let (origin, _) = self.physical_viewport_rect->0;
            let size = self.physical_viewport_size->0;
            Some(
                UiCameraView {
                    camera: self.entity,
                    logical_size: self.logical_viewport_size->0,
                    hdr: self.hdr,
                    viewport: UVec4 { x: origin.x, y: origin.y, z: size.x, w: size.y },
                },
            )
        }
    }

    /// The view that the camera shows.
    pub fn view(&self) -> (r: Option<UiCameraView>)
        ensures
            r == self.view_spec(),
    {
        if let Some(config) = self.config {
            if !config.show_ui {
                return None;
            }
        }
        match (
            self.logical_viewport_size,
            self.physical_viewport_rect,
            self.physical_viewport_size,
        ) {
            (Some(logical_size), Some((origin, _)), Some(size)) => Some(
                UiCameraView {
                    camera: self.entity,
                    logical_size,
                    hdr: self.hdr,
                    viewport: UVec4 { x: origin.x, y: origin.y, z: size.x, w: size.y },
                },
            ),
            _ => None,
        }
    }
}

/// The views of the cameras that show the user interface, in the order of the cameras.
pub open spec fn views_of(cameras: Seq<CameraItem>) -> Seq<UiCameraView> {
    cameras.filter_map(|c: CameraItem| c.view_spec())
}

/// The views of the cameras that show the user interface, in the order of the cameras.
pub fn extract_default_ui_camera_view(cameras: &Vec<CameraItem>) -> (r: Vec<UiCameraView>)
    ensures
        r@ == views_of(cameras@),
{
    let mut views: Vec<UiCameraView> = Vec::new();
    let mut i: usize = 0;
    while i < cameras.len()
        invariant
            i <= cameras@.len(),
            views@ == views_of(cameras@.take(i as int)),
        decreases cameras@.len() - i,
    {
        proof {
            assert(cameras@.take(i + 1).drop_last() =~= cameras@.take(i as int));
        }
        if let Some(view) = cameras[i].view() {
            views.push(view);
        }
        i = i + 1;
    }
    assert(cameras@.take(i as int) =~= cameras@);
    views
}

/// A camera for which the user interface is switched off shows none of it.
pub proof fn law_switched_off_cameras_show_nothing(camera: CameraItem)
    requires
        camera.config == Some(UiCameraConfig { show_ui: false }),
    ensures
        camera.view_spec() is None,
{
}

/// A camera adds a view to those of the cameras before it if and only if it has a viewport and the
/// user interface is not switched off for it, and the cameras after it change none of these views.
pub proof fn law_cameras_add_their_views(cameras: Seq<CameraItem>, c: int)
    requires
        0 <= c < cameras.len(),
    ensures
        ({
            let camera = cameras[c];
            let switched_off = camera.config is Some && !camera.config->0.show_ui;
            let shown = !switched_off && camera.logical_viewport_size is Some
                && camera.physical_viewport_rect is Some && camera.physical_viewport_size is Some;
            &&& views_of(cameras.take(0)).len() == 0
            &&& shown ==> views_of(cameras.take(c + 1)).len() == views_of(cameras.take(c)).len() + 1
            &&& !shown ==> views_of(cameras.take(c + 1)) == views_of(cameras.take(c))
            &&& views_of(cameras.take(c)).is_prefix_of(views_of(cameras.take(c + 1)))
            &&& views_of(cameras.take(c + 1)).is_prefix_of(views_of(cameras))
        }),
    decreases cameras.len(),
{
    assert(cameras.take(c + 1).drop_last() =~= cameras.take(c));
    if c < cameras.len() - 1 {
        let rest = cameras.drop_last();
        law_cameras_add_their_views(rest, c);
        assert(rest.take(c) =~= cameras.take(c) && rest.take(c + 1) =~= cameras.take(c + 1));
    } else {
        assert(cameras.take(c + 1) =~= cameras);
    }
}

/// The view that a camera adds has what the camera has: its entity, its logical size, its dynamic
/// range, and the origin and the size of its viewport.
pub proof fn law_views_are_those_of_their_cameras(cameras: Seq<CameraItem>, c: int)
    requires
        0 <= c < cameras.len(),
        cameras[c].config is Some ==> cameras[c].config->0.show_ui,
        cameras[c].logical_viewport_size is Some,
        cameras[c].physical_viewport_rect is Some,
        cameras[c].physical_viewport_size is Some,
    ensures
        ({
            let camera = cameras[c];
            let view = views_of(cameras)[views_of(cameras.take(c)).len() as int];
            let (origin, _) = camera.physical_viewport_rect->0;
            let size = camera.physical_viewport_size->0;
            &&& view.camera == camera.entity
            &&& view.hdr == camera.hdr
            &&& view.logical_size.x.bits == camera.logical_viewport_size->0.x.bits
            &&& view.logical_size.y.bits == camera.logical_viewport_size->0.y.bits
            &&& view.viewport.x == origin.x && view.viewport.y == origin.y
            &&& view.viewport.z == size.x && view.viewport.w == size.y
        }),
{
    law_cameras_add_their_views(cameras, c);
    assert(cameras.take(c + 1).drop_last() =~= cameras.take(c));
    let before = views_of(cameras.take(c));
    let upto = views_of(cameras.take(c + 1));
    assert(upto == before.push(cameras[c].view_spec()->0));
    assert(upto[before.len() as int] == views_of(cameras)[before.len() as int]);
}

} // verus!
