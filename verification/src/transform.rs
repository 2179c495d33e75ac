use vstd::prelude::*;

verus! {

/// A position, scale and rotation relative to a parent item.
///
/// Coordinates are whole pixels. Scale factors are counted in thousandths,
/// so a scale of 1000 leaves sizes as they are. Rotation is whole degrees.
#[derive(Debug, Clone, Copy, PartialEq, Eq)]
pub struct RelativeTransform {
    pub position: (i64, i64),
    pub scale: (i64, i64),
    pub rotation: i64,
}

impl RelativeTransform {
    /// The identity transform: no offset, unit scale, no rotation.
    pub open spec fn identity() -> RelativeTransform {
        RelativeTransform { position: (0, 0), scale: (1000, 1000), rotation: 0 }
    }

    /// Builds the identity transform.
    pub fn new_identity() -> (r: RelativeTransform)
        ensures
            r == RelativeTransform::identity(),
    {
        RelativeTransform { position: (0, 0), scale: (1000, 1000), rotation: 0 }
    }

    /// Builds a transform from its parts.
    pub fn new(px: i64, py: i64, sx: i64, sy: i64, rotation: i64) -> (r: RelativeTransform)
        ensures
            r == (RelativeTransform { position: (px, py), scale: (sx, sy), rotation }),
    {
        RelativeTransform { position: (px, py), scale: (sx, sy), rotation }
    }
}

impl Default for RelativeTransform {
    /// The default transform is the identity.
    fn default() -> (r: RelativeTransform)
        ensures
            r == RelativeTransform::identity(),
    {
        RelativeTransform::new_identity()
    }
}

} // verus!
