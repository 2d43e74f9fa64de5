//! The quad that shows a box: how clipping moves its corners, when it is not drawn at all, and
//! the vertices of its two triangles.
//!
//! The four corners of a quad are numbered around it: the corner at the smallest coordinates,
//! then along the horizontal axis, then up, then back.
use crate::extract::ExtractedUiNode;
use crate::geometry::{Rect, Vec2, Vec3};
use crate::scalar::{
    law_abs_drops_the_sign, law_comparisons_follow_the_numbers, law_parts_add_up, Scalar,
};
use vstd::prelude::*;

verus! {

/// The corners of the two triangles that make up a quad.
pub const QUAD_INDICES: [usize; 6] = [0, 2, 3, 0, 1, 2];

/// The number of vertices of a quad.
pub const QUAD_VERTICES: u32 = 6;

/// What the transform and the clip region of a box make of its quad.
#[derive(Clone, Copy, Debug)]
pub struct QuadMeasures {
    /// The corners, moved inwards to the clip region.
    pub corners: [Vec3; 4],
    /// What each corner shows of the image, before it is flipped.
    pub uvs: [Vec2; 4],
    /// The red, green, blue and alpha of the box, in linear color space.
    pub color: [Scalar; 4],
    /// How much clipping takes off the width and the height, without a sign: what the corners at
    /// both ends of each move inwards, each measured against the corner of the clip region that
    /// it faces.
    pub clipped: Vec2,
    /// The transformed width and height; negative where the transform turns the box around.
    pub size: Vec2,
}

/// A box together with the measures of its quad.
#[derive(Clone, Copy, Debug)]
pub struct PlacedNode {
    pub node: ExtractedUiNode,
    pub quad: QuadMeasures,
}

/// A corner of a triangle, as the shader reads it.
#[derive(Clone, Copy, Debug)]
pub struct UiVertex {
    pub position: Vec3,
    pub uv: Vec2,
    pub color: [Scalar; 4],
}

impl UiVertex {
    /// The nine words of the vertex in the order in which the shader reads them.
    pub open spec fn words_spec(self) -> [u32; 9] {
        [
            self.position.x.bits,
            self.position.y.bits,
            self.position.z.bits,
            self.uv.x.bits,
            self.uv.y.bits,
            self.color[0].bits,
            self.color[1].bits,
            self.color[2].bits,
            self.color[3].bits,
        ]
    }

    /// The nine words of the vertex: position, image coordinates, color.
    pub fn words(&self) -> (r: [u32; 9])
        ensures
            r == self.words_spec(),
    {
        [
            self.position.x.bits,
            self.position.y.bits,
            self.position.z.bits,
            self.uv.x.bits,
            self.uv.y.bits,
            self.color[0].bits,
            self.color[1].bits,
            self.color[2].bits,
            self.color[3].bits,
        ]
    }
}

/// The part of a distance by which a corner moves inwards: the corners on the lower side move up,
/// and those on the upper side move down. A distance that is no number moves nothing.
pub open spec fn inward_part(distance: Scalar, lower: bool) -> Scalar {
    if lower {
        distance.positive_part_spec()
    } else {
        distance.negative_part_spec()
    }
}

/// How far corner `i` moves to lie within the clip region, given how far it is from the corner of
/// the region that it faces: inwards where it lies outside, and not at all elsewhere. Along an
/// axis along which the quad is turned around, its corners have changed sides.
pub open spec fn clip_offset(distance: Vec2, turned_x: bool, turned_y: bool, i: int) -> Vec2 {
    Vec2 {
        x: inward_part(distance.x, (i == 0 || i == 3) != turned_x),
        y: inward_part(distance.y, (i == 0 || i == 1) != turned_y),
    }
}

/// How far each corner moves to lie within the clip region, if there is one, given how far it is
/// from the corner of the region that it faces.
pub open spec fn clip_offsets_spec(
    distances: Option<[Vec2; 4]>,
    turned_x: bool,
    turned_y: bool,
) -> [Vec2; 4] {
    match distances {
        Some(d) => [
            clip_offset(d[0], turned_x, turned_y, 0),
            clip_offset(d[1], turned_x, turned_y, 1),
            clip_offset(d[2], turned_x, turned_y, 2),
            clip_offset(d[3], turned_x, turned_y, 3),
        ],
        None => [Vec2::zero(), Vec2::zero(), Vec2::zero(), Vec2::zero()],
    }
}

/// The part of a distance by which a corner moves inwards.
fn inward(distance: Scalar, lower: bool) -> (r: Scalar)
    ensures
        r == inward_part(distance, lower),
{
    if lower {
        distance.positive_part()
    } else {
        distance.negative_part()
    }
}

/// How far each corner of a quad moves to lie within the clip region, if there is one. This does
/// not hold of a quad that is rotated.
pub fn clip_offsets(distances: Option<[Vec2; 4]>) -> (r: [Vec2; 4])
    ensures
        r == clip_offsets_spec(distances, false, false),
{
    clip_offsets_turned(distances, false, false)
}

/// How far each corner of a quad moves to lie within the clip region, if there is one, where the
/// quad may be turned around along either axis.
pub fn clip_offsets_turned(distances: Option<[Vec2; 4]>, turned_x: bool, turned_y: bool) -> (r:
    [Vec2; 4])
    ensures
        r == clip_offsets_spec(distances, turned_x, turned_y),
{
    match distances {
        Some(d) => [
            Vec2 { x: inward(d[0].x, !turned_x), y: inward(d[0].y, !turned_y) },
            Vec2 { x: inward(d[1].x, turned_x), y: inward(d[1].y, !turned_y) },
            Vec2 { x: inward(d[2].x, turned_x), y: inward(d[2].y, turned_y) },
            Vec2 { x: inward(d[3].x, !turned_x), y: inward(d[3].y, turned_y) },
        ],
        None => [Vec2::zero(), Vec2::zero(), Vec2::zero(), Vec2::zero()],
    }
}

impl Rect {
    /// The corners of the rectangle that the corners of a quad face, where the quad may be turned
    /// around along either axis.
    pub fn facing_corners(self, turned_x: bool, turned_y: bool) -> (r: [Vec2; 4])
        ensures
            forall|i: int|
                0 <= i < 4 ==> #[trigger] r[i] == self.corners_spec()[flipped_corner(
                    turned_x,
                    turned_y,
                    i,
                )],
    {
        let mut corners = self.corners();
        if turned_x {
            corners = [corners[1], corners[0], corners[3], corners[2]];
        }
        if turned_y {
            corners = [corners[3], corners[2], corners[1], corners[0]];
        }
        corners
    }
}

impl ExtractedUiNode {
    /// The size of the image that the box shows a part of.
    pub open spec fn atlas_extent_spec(&self) -> Vec2 {
        match self.atlas_size {
            Some(size) => size,
            None => self.rect.max,
        }
    }

    /// The size of the image that the box shows a part of: that of the atlas, or else the box is
    /// the whole image.
    pub fn atlas_extent(&self) -> (r: Vec2)
        ensures
            r == self.atlas_extent_spec(),
    {
        match self.atlas_size {
            Some(size) => size,
            None => self.rect.max,
        }
    }

    /// Whether the box is turned around along the horizontal and along the vertical axis, given
    /// its transformed width and height: that one is negative. A box that is rotated counts as
    /// not turned.
    pub open spec fn turned_axes_spec(&self, size: Vec2) -> (bool, bool) {
        let straight = self.transform.x_axis.y.is_zero_spec();
        (straight && size.x.is_below_zero_spec(), straight && size.y.is_below_zero_spec())
    }

    /// Whether the box is turned around along the horizontal and along the vertical axis.
    pub fn turned_axes(&self, size: Vec2) -> (r: (bool, bool))
        ensures
            r == self.turned_axes_spec(size),
    {
        let straight = self.transform.x_axis.y.is_zero();
        (straight && size.x.is_below_zero(), straight && size.y.is_below_zero())
    }
}

impl PlacedNode {
    /// The depth at which the box is drawn.
    pub open spec fn z(self) -> Scalar {
        self.node.transform.w_axis.z
    }

    /// Whether the box is not drawn because it is clipped completely: clipping takes off at least
    /// its width or at least its height, whichever way round the box lies. A box that is rotated
    /// is always drawn: this test is made only where the horizontal axis stays horizontal.
    pub open spec fn is_culled_spec(self) -> bool {
        &&& self.node.transform.x_axis.y.is_zero_spec()
        &&& {
            ||| self.quad.clipped.x.at_least_spec(self.quad.size.x.abs_spec())
            ||| self.quad.clipped.y.at_least_spec(self.quad.size.y.abs_spec())
        }
    }

    /// Whether the box is not drawn because it is clipped completely.
    pub fn is_culled(&self) -> (r: bool)
        ensures
            r == self.is_culled_spec(),
    {
        self.node.transform.x_axis.y.is_zero() && (self.quad.clipped.x.at_least(
            self.quad.size.x.abs(),
        ) || self.quad.clipped.y.at_least(self.quad.size.y.abs()))
    }

    /// What corner `i` shows of the image.
    pub open spec fn uv_spec(self, i: int) -> Vec2 {
        self.quad.uvs[flipped_corner(self.node.flip_x, self.node.flip_y, i)]
    }

    /// Vertex `i` of the quad.
    pub open spec fn vertex_spec(self, i: int) -> UiVertex {
        let corner = QUAD_INDICES[i] as int;
        UiVertex {
            position: self.quad.corners[corner],
            uv: self.uv_spec(corner),
            color: self.quad.color,
        }
    }

    /// The vertices of the two triangles.
    pub open spec fn vertices_spec(self) -> Seq<UiVertex> {
        Seq::new(QUAD_VERTICES as nat, |i: int| self.vertex_spec(i))
    }

    /// What each corner shows of the image once it is flipped.
    pub fn flipped_uvs(&self) -> (r: [Vec2; 4])
        ensures
            forall|i: int| 0 <= i < 4 ==> #[trigger] r[i] == self.uv_spec(i),
    {
        let mut uvs = self.quad.uvs;
        if self.node.flip_x {
            uvs = [uvs[1], uvs[0], uvs[3], uvs[2]];
        }
        if self.node.flip_y {
            uvs = [uvs[3], uvs[2], uvs[1], uvs[0]];
        }
        uvs
    }

    /// Vertex `i` of the two triangles.
    pub fn vertex(&self, i: usize) -> (r: UiVertex)
        requires
            i < QUAD_VERTICES,
        ensures
            r == self.vertex_spec(i as int),
    {
        let uvs = self.flipped_uvs();
        let corner: usize = QUAD_INDICES[i];
        UiVertex {
            position: self.quad.corners[corner],
            uv: uvs[corner],
            color: self.quad.color,
        }
    }
}

/// The corner whose part of the image corner `i` shows: its mirror image along each axis that is
/// flipped.
pub open spec fn flipped_corner(flip_x: bool, flip_y: bool, i: int) -> int {
    if flip_x && flip_y {
        (i + 2) % 4
    } else if flip_x {
        if i % 2 == 0 {
            i + 1
        } else {
            i - 1
        }
    } else if flip_y {
        3 - i
    } else {
        i
    }
}

/// Clipping moves every corner towards the inside of the quad or not at all, by no more than the
/// distance to the clip region, and without a clip region no corner moves. The inside lies upwards
/// of the corners at the lower end of an axis, and downwards of those at the upper end; the two
/// ends are exchanged where the quad is turned around.
pub proof fn law_clipping_moves_corners_inwards(
    distances: Option<[Vec2; 4]>,
    turned_x: bool,
    turned_y: bool,
    i: int,
)
    requires
        0 <= i < 4,
    ensures
        ({
            let o = clip_offsets_spec(distances, turned_x, turned_y)[i];
            let facing = flipped_corner(turned_x, turned_y, i);
            &&& facing == 0 || facing == 3 ==> o.x.value() >= 0
            &&& facing == 1 || facing == 2 ==> o.x.value() <= 0
            &&& facing == 0 || facing == 1 ==> o.y.value() >= 0
            &&& facing == 2 || facing == 3 ==> o.y.value() <= 0
            &&& o.x.is_zero_spec() || distances is Some && o.x == distances->0[i].x
            &&& o.y.is_zero_spec() || distances is Some && o.y == distances->0[i].y
            &&& distances is None ==> o == Vec2::zero()
        }),
{
    assert(Scalar::zero().value() == 0);
}

/// A box that is rotated is drawn, whatever its clip region.
pub proof fn law_rotated_boxes_are_drawn(placed: PlacedNode)
    requires
        !placed.node.transform.x_axis.y.is_zero_spec(),
    ensures
        !placed.is_culled_spec(),
{
}

/// A box with a width and a height is drawn if clipping takes nothing off it, whichever way round
/// it lies.
pub proof fn law_unclipped_boxes_are_drawn(placed: PlacedNode)
    requires
        placed.quad.clipped.is_zero_spec(),
        !placed.quad.size.x.is_zero_spec(),
        !placed.quad.size.y.is_zero_spec(),
    ensures
        !placed.is_culled_spec(),
{
    law_abs_drops_the_sign(placed.quad.size.x);
    law_abs_drops_the_sign(placed.quad.size.y);
}

/// Flipping along both axes is flipping along one and then along the other, in either order, and
/// flipping twice changes nothing.
pub proof fn law_flips_compose(flip_x: bool, flip_y: bool, i: int)
    requires
        0 <= i < 4,
    ensures
        0 <= flipped_corner(flip_x, flip_y, i) < 4,
        flipped_corner(flip_x, flip_y, i) == flipped_corner(
            flip_x,
            false,
            flipped_corner(false, flip_y, i),
        ),
        flipped_corner(flip_x, flip_y, i) == flipped_corner(
            false,
            flip_y,
            flipped_corner(flip_x, false, i),
        ),
        flipped_corner(flip_x, flip_y, flipped_corner(flip_x, flip_y, i)) == i,
{
}

/// Both triangles have three different corners, they share two of them, and together they have
/// all four.
pub proof fn law_triangles_cover_the_quad(corner: usize)
    requires
        corner < 4,
    ensures
        QUAD_INDICES[0] != QUAD_INDICES[1] && QUAD_INDICES[1] != QUAD_INDICES[2] && QUAD_INDICES[0]
            != QUAD_INDICES[2],
        QUAD_INDICES[3] != QUAD_INDICES[4] && QUAD_INDICES[4] != QUAD_INDICES[5] && QUAD_INDICES[3]
            != QUAD_INDICES[5],
        QUAD_INDICES[0] == QUAD_INDICES[3] && QUAD_INDICES[1] == QUAD_INDICES[5],
        exists|i: int| 0 <= i < 6 && #[trigger] QUAD_INDICES[i] == corner,
{
    assert(QUAD_INDICES[0] == 0 && QUAD_INDICES[4] == 1 && QUAD_INDICES[1] == 2 && QUAD_INDICES[2]
        == 3);
}

/// A box is drawn if and only if it is rotated or clipping leaves something of its width and of its
/// height, whatever their signs. What is no number is no reason to leave a box out.
pub proof fn law_boxes_with_something_left_are_drawn(placed: PlacedNode)
    ensures
        ({
            let tilt = placed.node.transform.x_axis.y;
            let (cx, cy) = (placed.quad.clipped.x, placed.quad.clipped.y);
            let (sx, sy) = (placed.quad.size.x, placed.quad.size.y);
            let width_left = cx.is_nan_spec() || sx.is_nan_spec() || cx.value() < sx.value()
                || cx.value() < -sx.value();
            let height_left = cy.is_nan_spec() || sy.is_nan_spec() || cy.value() < sy.value()
                || cy.value() < -sy.value();
            !placed.is_culled_spec() <==> tilt.bits != 0 && tilt.bits != 0x8000_0000 || width_left
                && height_left
        }),
{
    law_comparisons_follow_the_numbers(placed.node.transform.x_axis.y, Scalar::zero());
    law_abs_drops_the_sign(placed.quad.size.x);
    law_abs_drops_the_sign(placed.quad.size.y);
}

/// Clipping moves a corner by exactly the distance to the corner of the region that it faces where
/// that leads inwards, and by nothing where it leads outwards, along each axis by itself. The first
/// and the last corner lie at the lower end of the horizontal axis, the first two at that of the
/// vertical one; the ends are exchanged where the quad is turned around.
pub proof fn law_clipping_moves_corners_onto_the_region(
    distances: [Vec2; 4],
    turned_x: bool,
    turned_y: bool,
    i: int,
)
    requires
        0 <= i < 4,
    ensures
        ({
            let o = clip_offsets_spec(Some(distances), turned_x, turned_y)[i];
            let (x, y) = (distances[i].x, distances[i].y);
            let up_x = (i == 0 || i == 3) != turned_x;
            let up_y = (i == 0 || i == 1) != turned_y;
            let inwards_x = !x.is_nan_spec() && (up_x && x.value() > 0 || !up_x && x.value() < 0);
            let inwards_y = !y.is_nan_spec() && (up_y && y.value() > 0 || !up_y && y.value() < 0);
            &&& inwards_x ==> o.x.bits == x.bits
            &&& !inwards_x ==> o.x.bits == 0
            &&& inwards_y ==> o.y.bits == y.bits
            &&& !inwards_y ==> o.y.bits == 0
        }),
        clip_offsets_spec(None, turned_x, turned_y)[i].x.bits == 0,
        clip_offsets_spec(None, turned_x, turned_y)[i].y.bits == 0,
{
    law_parts_add_up(distances[i].x);
    law_parts_add_up(distances[i].y);
}

/// Mirroring along an axis exchanges the two ends of that axis and leaves the other axis alone: the
/// second and the third corner are at the far end of the horizontal axis, the third and the fourth
/// at that of the vertical one.
pub proof fn law_mirroring_exchanges_the_ends(flip_x: bool, flip_y: bool, i: int)
    requires
        0 <= i < 4,
    ensures
        ({
            let m = flipped_corner(flip_x, flip_y, i);
            &&& 0 <= m < 4
            &&& (m == 1 || m == 2) == ((i == 1 || i == 2) != flip_x)
            &&& (m == 2 || m == 3) == ((i == 2 || i == 3) != flip_y)
        }),
{
}

/// A box is turned around along an axis if its extent there is a number below zero and the box is not
/// rotated, and the image that it shows a part of is as large as its atlas, or else as the part.
pub proof fn law_negative_extents_are_turned(node: ExtractedUiNode, size: Vec2)
    ensures
        ({
            let tilt = node.transform.x_axis.y.bits;
            let straight = tilt == 0 || tilt == 0x8000_0000;
            let (x, y) = (size.x.bits, size.y.bits);
            &&& node.turned_axes_spec(size).0 <==> straight && 0x8000_0000 < x <= 0xff80_0000
            &&& node.turned_axes_spec(size).1 <==> straight && 0x8000_0000 < y <= 0xff80_0000
        }),
        node.atlas_size is Some ==> node.atlas_extent_spec() == node.atlas_size->0,
        node.atlas_size is None ==> node.atlas_extent_spec() == node.rect.max,
{
    law_comparisons_follow_the_numbers(node.transform.x_axis.y, size.x);
    law_comparisons_follow_the_numbers(size.x, size.y);
    law_comparisons_follow_the_numbers(size.y, size.x);
}

/// Each vertex of a quad has the position of its corner, what the mirrored corner shows of the image,
/// and the color of the box, in that order: three words, two and four.
pub proof fn law_vertices_carry_their_corner(placed: PlacedNode, i: int, c: int, m: int)
    requires
        0 <= i < 6,
        0 <= c < 4,
        0 <= m < 4,
        i == 0 || i == 3 ==> c == 0,
        i == 4 ==> c == 1,
        i == 1 || i == 5 ==> c == 2,
        i == 2 ==> c == 3,
        (m == 1 || m == 2) == ((c == 1 || c == 2) != placed.node.flip_x),
        (m == 2 || m == 3) == ((c == 2 || c == 3) != placed.node.flip_y),
    ensures
        placed.vertices_spec().len() == 6,
        ({
            let words = placed.vertices_spec()[i].words_spec();
            let position = placed.quad.corners[c];
            let uv = placed.quad.uvs[m];
            &&& words[0] == position.x.bits && words[1] == position.y.bits && words[2]
                == position.z.bits
            &&& words[3] == uv.x.bits && words[4] == uv.y.bits
            &&& words[5] == placed.quad.color[0].bits && words[6] == placed.quad.color[1].bits
            &&& words[7] == placed.quad.color[2].bits && words[8] == placed.quad.color[3].bits
        }),
{
    law_mirroring_exchanges_the_ends(placed.node.flip_x, placed.node.flip_y, c);
    assert(QUAD_INDICES[i] == c) by {
        assert(QUAD_INDICES[0] == 0 && QUAD_INDICES[1] == 2 && QUAD_INDICES[2] == 3
            && QUAD_INDICES[3] == 0 && QUAD_INDICES[4] == 1 && QUAD_INDICES[5] == 2);
    }
    assert(flipped_corner(placed.node.flip_x, placed.node.flip_y, c) == m);
}

} // verus!
