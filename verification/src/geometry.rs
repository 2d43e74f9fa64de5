//! Points, rectangles, transforms and colors, over encoded coordinates.
use crate::scalar::{law_comparisons_follow_the_numbers, Scalar};
use vstd::prelude::*;

verus! {

/// A point or an extent in the plane.
#[derive(Clone, Copy, Debug, PartialEq, Eq, Structural)]
pub struct Vec2 {
    pub x: Scalar,
    pub y: Scalar,
}

/// A point in space.
#[derive(Clone, Copy, Debug, PartialEq, Eq, Structural)]
pub struct Vec3 {
    pub x: Scalar,
    pub y: Scalar,
    pub z: Scalar,
}

/// One column of a transform.
#[derive(Clone, Copy, Debug, PartialEq, Eq, Structural)]
pub struct Vec4 {
    pub x: Scalar,
    pub y: Scalar,
    pub z: Scalar,
    pub w: Scalar,
}

/// A rectangle, by its smallest and its largest corner.
#[derive(Clone, Copy, Debug, PartialEq, Eq, Structural)]
pub struct Rect {
    pub min: Vec2,
    pub max: Vec2,
}

/// A transform, by its columns.
#[derive(Clone, Copy, Debug, PartialEq, Eq, Structural)]
pub struct Mat4 {
    pub x_axis: Vec4,
    pub y_axis: Vec4,
    pub z_axis: Vec4,
    pub w_axis: Vec4,
}

/// A color in one of the color spaces that a style can name.
#[derive(Clone, Copy, Debug, PartialEq, Eq, Structural)]
pub enum Color {
    Rgba { red: Scalar, green: Scalar, blue: Scalar, alpha: Scalar },
    RgbaLinear { red: Scalar, green: Scalar, blue: Scalar, alpha: Scalar },
    Hsla { hue: Scalar, saturation: Scalar, lightness: Scalar, alpha: Scalar },
}

impl Vec2 {
    /// The origin.
    #[verifier::allow_in_spec]
    pub fn zero() -> (r: Vec2)
        returns
            (Vec2 { x: Scalar::zero(), y: Scalar::zero() }),
    {
        Vec2 { x: Scalar::zero(), y: Scalar::zero() }
    }

    /// Whether both coordinates are zero.
    pub open spec fn is_zero_spec(self) -> bool {
        self.x.is_zero_spec() && self.y.is_zero_spec()
    }

    /// Whether both coordinates are zero, of either sign.
    pub fn is_zero(self) -> (r: bool)
        ensures
            r == self.is_zero_spec(),
    {
        self.x.is_zero() && self.y.is_zero()
    }
}

impl Rect {
    /// The corners in the order in which a quad lists them: around the rectangle from the
    /// smallest corner, along the horizontal axis first.
    pub open spec fn corners_spec(self) -> [Vec2; 4] {
        [
            Vec2 { x: self.min.x, y: self.min.y },
            Vec2 { x: self.max.x, y: self.min.y },
            Vec2 { x: self.max.x, y: self.max.y },
            Vec2 { x: self.min.x, y: self.max.y },
        ]
    }

    /// The corners, in quad order.
    pub fn corners(self) -> (r: [Vec2; 4])
        ensures
            r == self.corners_spec(),
    {
        [
            Vec2 { x: self.min.x, y: self.min.y },
            Vec2 { x: self.max.x, y: self.min.y },
            Vec2 { x: self.max.x, y: self.max.y },
            Vec2 { x: self.min.x, y: self.max.y },
        ]
    }
}

impl Color {
    /// Opaque white.
    #[verifier::allow_in_spec]
    pub fn white() -> (r: Color)
        returns
            (Color::Rgba {
                red: Scalar::one(),
                green: Scalar::one(),
                blue: Scalar::one(),
                alpha: Scalar::one(),
            }),
    {
        Color::Rgba {
            red: Scalar::one(),
            green: Scalar::one(),
            blue: Scalar::one(),
            alpha: Scalar::one(),
        }
    }

    /// The opacity, in whichever color space.
    pub open spec fn alpha_spec(self) -> Scalar {
        match self {
            Color::Rgba { alpha, .. } => alpha,
            Color::RgbaLinear { alpha, .. } => alpha,
            Color::Hsla { alpha, .. } => alpha,
        }
    }

    /// The opacity.
    pub fn a(self) -> (r: Scalar)
        ensures
            r == self.alpha_spec(),
    {
        match self {
            Color::Rgba { alpha, .. } => alpha,
            Color::RgbaLinear { alpha, .. } => alpha,
            Color::Hsla { alpha, .. } => alpha,
        }
    }
}

/// The corners go around the rectangle: the second and the third have the largest abscissa, the third
/// and the fourth the largest ordinate, and the others the smallest.
pub proof fn law_corners_go_around(rect: Rect, i: int)
    requires
        0 <= i < 4,
    ensures
        i == 1 || i == 2 ==> rect.corners_spec()[i].x == rect.max.x,
        i == 0 || i == 3 ==> rect.corners_spec()[i].x == rect.min.x,
        i == 2 || i == 3 ==> rect.corners_spec()[i].y == rect.max.y,
        i == 0 || i == 1 ==> rect.corners_spec()[i].y == rect.min.y,
{
}

/// The opacity is the alpha of the color in every color space, and a vector is zero if both of its
/// coordinates are zero of either sign.
pub proof fn law_opacity_is_alpha(color: Color, v: Vec2)
    ensures
        match color {
            Color::Rgba { red, green, blue, alpha } => color.alpha_spec() == alpha,
            Color::RgbaLinear { red, green, blue, alpha } => color.alpha_spec() == alpha,
            Color::Hsla { hue, saturation, lightness, alpha } => color.alpha_spec() == alpha,
        },
        v.is_zero_spec() <==> (v.x.bits == 0 || v.x.bits == 0x8000_0000) && (v.y.bits == 0
            || v.y.bits == 0x8000_0000),
{
    law_comparisons_follow_the_numbers(v.x, v.y);
    law_comparisons_follow_the_numbers(v.y, v.x);
}

} // verus!
