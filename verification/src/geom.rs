use vstd::prelude::*;

use crate::transform::RelativeTransform;

verus! {

/// The double-precision affine map of the glam crate, used for the numeric
/// side of screen-space geometry. Verus sees values of it as opaque.
#[verifier::external_type_specification]
#[verifier::external_body]
pub struct ExDAffine2(glam::DAffine2);

/// The affine map that glam builds from a transform's parts: scale first,
/// then rotation, then translation.
pub uninterp spec fn affine_of(px: int, py: int, sx: int, sy: int, rot: int) -> glam::DAffine2;

/// The product of two affine maps, the left one applied last.
pub uninterp spec fn affine_compose(a: glam::DAffine2, b: glam::DAffine2) -> glam::DAffine2;

/// Whether the screen point lands inside the axis-aligned local rectangle
/// once mapped through the inverse of the affine.
pub uninterp spec fn affine_hit(
    a: glam::DAffine2,
    x: int,
    y: int,
    x0: int,
    y0: int,
    x1: int,
    y1: int,
) -> bool;

/// The affine map of one transform in a parent's space.
pub open spec fn spec_affine(t: RelativeTransform) -> glam::DAffine2 {
    affine_of(
        t.position.0 as int,
        t.position.1 as int,
        t.scale.0 as int,
        t.scale.1 as int,
        t.rotation as int,
    )
}

/// The parent-first product of the affine maps of a path of transforms:
/// the screen map of the last transform on the path.
pub open spec fn product_affine(ts: Seq<RelativeTransform>) -> glam::DAffine2
    decreases ts.len(),
{
    if ts.len() == 0 {
        arbitrary()
    } else if ts.len() == 1 {
        spec_affine(ts[0])
    } else {
        affine_compose(product_affine(ts.drop_last()), spec_affine(ts.last()))
    }
}

impl RelativeTransform {
    /// Relies on glam::DAffine2::from_scale_angle_translation: the affine map
    /// built from scale, angle in radians, and translation, applied in that
    /// order. The integer parts are handed to glam unchanged, with the
    /// thousandth-scale divided out and degrees turned to radians.
    #[verifier::external_body]
    pub fn to_glam_affine(&self) -> (r: glam::DAffine2)
        ensures
            r == affine_of(
                self.position.0 as int,
                self.position.1 as int,
                self.scale.0 as int,
                self.scale.1 as int,
                self.rotation as int,
            ),
            r == spec_affine(*self),
    {
        let translation = glam::I64Vec2::new(self.position.0, self.position.1).as_dvec2();
        let scale = glam::I64Vec2::new(self.scale.0, self.scale.1).as_dvec2()
            / glam::I64Vec2::new(1000, 1000).as_dvec2();
        let angle = glam::I64Vec2::new(self.rotation, 0).as_dvec2().x.to_radians();
        glam::DAffine2::from_scale_angle_translation(scale, angle, translation)
    }
}

/// Relies on glam's multiplication of DAffine2: the composition of the two
/// maps, with `a` applied after `b`.
#[verifier::external_body]
pub fn compose_affine(a: glam::DAffine2, b: glam::DAffine2) -> (r: glam::DAffine2)
    ensures
        r == affine_compose(a, b),
{
    a * b
}

/// Relies on glam::DAffine2::inverse and transform_point2: maps the screen
/// point through the inverse of the affine into local space, and on
/// DVec2::cmpge / cmple: compares the local point against the rectangle
/// from (x0, y0) to (x1, y1).
#[verifier::external_body]
pub fn affine_contains(
    a: &glam::DAffine2,
    x: i64,
    y: i64,
    x0: i64,
    y0: i64,
    x1: i64,
    y1: i64,
) -> (r: bool)
    ensures
        r == affine_hit(*a, x as int, y as int, x0 as int, y0 as int, x1 as int, y1 as int),
{
    let p = a.inverse().transform_point2(glam::I64Vec2::new(x, y).as_dvec2());
    let lo = glam::I64Vec2::new(x0, y0).as_dvec2();
    let hi = glam::I64Vec2::new(x1, y1).as_dvec2();
    p.cmpge(lo).all() && p.cmple(hi).all()
}

} // verus!
