//! The vertices that enter and leave the vertex stage.
use crate::math::{Vec2, Vec3, Vec4};
use vstd::prelude::*;

verus! {

/// A vertex of a mesh, in object space.
#[derive(Clone, Copy, Debug, PartialEq, Eq, Structural)]
pub struct Vertex {
    pub position: Vec3,
    pub normal: Vec3,
    pub tangent: Vec3,
    pub colour: Vec3,
    pub uv: Vec2,
}

/// A vertex after the vertex stage: a homogeneous position with the
/// attributes that are interpolated over the triangle.
#[derive(Clone, Copy, Debug, PartialEq, Eq, Structural)]
pub struct FragIn {
    pub position: Vec4,
    pub normal: Vec3,
    pub tangent: Vec3,
    pub colour: Vec3,
    pub uv: Vec2,
}

impl FragIn {
    pub open spec fn lerp_spec(self, other: FragIn, num: int, den: int) -> FragIn {
        FragIn {
            position: self.position.lerp_spec(other.position, num, den),
            normal: self.normal.lerp_spec(other.normal, num, den),
            tangent: self.tangent.lerp_spec(other.tangent, num, den),
            colour: self.colour.lerp_spec(other.colour, num, den),
            uv: self.uv.lerp_spec(other.uv, num, den),
        }
    }

    /// The vertex `num / den` of the way from `self` to `other`, every
    /// component interpolated alike.
    pub fn lerp(self, other: FragIn, num: i64, den: i64) -> (r: FragIn)
        requires
            0 <= num <= den,
            den > 0,
        ensures
            r == self.lerp_spec(other, num as int, den as int),
    {
        FragIn {
            position: self.position.lerp(other.position, num, den),
            normal: self.normal.lerp(other.normal, num, den),
            tangent: self.tangent.lerp(other.tangent, num, den),
            colour: self.colour.lerp(other.colour, num, den),
            uv: self.uv.lerp(other.uv, num, den),
        }
    }
}

} // verus!
