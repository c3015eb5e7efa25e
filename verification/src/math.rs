//! Vectors and matrices over 16.16 fixed-point scalars.
use crate::fixed::{floor_div, lerp, lerp_fixed, saturate, saturate_i128, wide_mul};
use vstd::prelude::*;

verus! {

/// A vector of two fixed-point scalars.
#[derive(Clone, Copy, Debug, PartialEq, Eq, Structural)]
pub struct Vec2 {
    pub x: i32,
    pub y: i32,
}

/// A vector of three fixed-point scalars.
#[derive(Clone, Copy, Debug, PartialEq, Eq, Structural)]
pub struct Vec3 {
    pub x: i32,
    pub y: i32,
    pub z: i32,
}

/// A vector of four fixed-point scalars.
#[derive(Clone, Copy, Debug, PartialEq, Eq, Structural)]
pub struct Vec4 {
    pub x: i32,
    pub y: i32,
    pub z: i32,
    pub w: i32,
}

/// A 4x4 matrix of fixed-point scalars, held by columns.
#[derive(Clone, Copy, Debug, PartialEq, Eq, Structural)]
pub struct Mat4 {
    pub x_axis: Vec4,
    pub y_axis: Vec4,
    pub z_axis: Vec4,
    pub w_axis: Vec4,
}

/// One row of a matrix-vector product: the four products are summed exactly,
/// then the sum is rounded down to a fixed-point number and saturated.
pub open spec fn row_product(a: int, b: int, c: int, d: int, v: Vec4) -> int {
    saturate((a * v.x + b * v.y + c * v.z + d * v.w) / 65536)
}

fn row_product_exec(a: i32, b: i32, c: i32, d: i32, v: Vec4) -> (r: i32)
    ensures
        r == row_product(a as int, b as int, c as int, d as int, v),
{
    let xs: i128 = wide_mul(a as i64, v.x as i64);
    let ys: i128 = wide_mul(b as i64, v.y as i64);
    let zs: i128 = wide_mul(c as i64, v.z as i64);
    let ws: i128 = wide_mul(d as i64, v.w as i64);
    proof {
        crate::fixed::lemma_mul_bound(a as int, v.x as int, 0x8000_0000, 0x8000_0000);
        crate::fixed::lemma_mul_bound(b as int, v.y as int, 0x8000_0000, 0x8000_0000);
        crate::fixed::lemma_mul_bound(c as int, v.z as int, 0x8000_0000, 0x8000_0000);
        crate::fixed::lemma_mul_bound(d as int, v.w as int, 0x8000_0000, 0x8000_0000);
    }
    saturate_i128(floor_div(xs + ys + zs + ws, 65536))
}

impl Vec2 {
    pub open spec fn lerp_spec(self, other: Vec2, num: int, den: int) -> Vec2 {
        Vec2 {
            x: lerp(self.x as int, other.x as int, num, den) as i32,
            y: lerp(self.y as int, other.y as int, num, den) as i32,
        }
    }

    /// The vector `num / den` of the way from `self` to `other`.
    pub fn lerp(self, other: Vec2, num: i64, den: i64) -> (r: Vec2)
        requires
            0 <= num <= den,
            den > 0,
        ensures
            r == self.lerp_spec(other, num as int, den as int),
    {
        Vec2 { x: lerp_fixed(self.x, other.x, num, den), y: lerp_fixed(self.y, other.y, num, den) }
    }
}

impl Vec3 {
    pub open spec fn lerp_spec(self, other: Vec3, num: int, den: int) -> Vec3 {
        Vec3 {
            x: lerp(self.x as int, other.x as int, num, den) as i32,
            y: lerp(self.y as int, other.y as int, num, den) as i32,
            z: lerp(self.z as int, other.z as int, num, den) as i32,
        }
    }

    /// The vector `num / den` of the way from `self` to `other`.
    pub fn lerp(self, other: Vec3, num: i64, den: i64) -> (r: Vec3)
        requires
            0 <= num <= den,
            den > 0,
        ensures
            r == self.lerp_spec(other, num as int, den as int),
    {
        Vec3 {
            x: lerp_fixed(self.x, other.x, num, den),
            y: lerp_fixed(self.y, other.y, num, den),
            z: lerp_fixed(self.z, other.z, num, den),
        }
    }
}

impl Vec4 {
    pub open spec fn lerp_spec(self, other: Vec4, num: int, den: int) -> Vec4 {
        Vec4 {
            x: lerp(self.x as int, other.x as int, num, den) as i32,
            y: lerp(self.y as int, other.y as int, num, den) as i32,
            z: lerp(self.z as int, other.z as int, num, den) as i32,
            w: lerp(self.w as int, other.w as int, num, den) as i32,
        }
    }

    /// The vector `num / den` of the way from `self` to `other`.
    pub fn lerp(self, other: Vec4, num: i64, den: i64) -> (r: Vec4)
        requires
            0 <= num <= den,
            den > 0,
        ensures
            r == self.lerp_spec(other, num as int, den as int),
    {
        Vec4 {
            x: lerp_fixed(self.x, other.x, num, den),
            y: lerp_fixed(self.y, other.y, num, den),
            z: lerp_fixed(self.z, other.z, num, den),
            w: lerp_fixed(self.w, other.w, num, den),
        }
    }
}

impl Mat4 {
    /// The matrix that maps every vector to itself.
    pub open spec fn identity_spec() -> Mat4 {
        Mat4 {
            x_axis: Vec4 { x: 65536, y: 0, z: 0, w: 0 },
            y_axis: Vec4 { x: 0, y: 65536, z: 0, w: 0 },
            z_axis: Vec4 { x: 0, y: 0, z: 65536, w: 0 },
            w_axis: Vec4 { x: 0, y: 0, z: 0, w: 65536 },
        }
    }

    /// The identity matrix.
    pub fn identity() -> (m: Mat4)
        ensures
            m == Mat4::identity_spec(),
    {
        Mat4 {
            x_axis: Vec4 { x: 65536, y: 0, z: 0, w: 0 },
            y_axis: Vec4 { x: 0, y: 65536, z: 0, w: 0 },
            z_axis: Vec4 { x: 0, y: 0, z: 65536, w: 0 },
            w_axis: Vec4 { x: 0, y: 0, z: 0, w: 65536 },
        }
    }

    pub open spec fn mul_vec4_spec(self, v: Vec4) -> Vec4 {
        Vec4 {
            x: row_product(
                self.x_axis.x as int,
                self.y_axis.x as int,
                self.z_axis.x as int,
                self.w_axis.x as int,
                v,
            ) as i32,
            y: row_product(
                self.x_axis.y as int,
                self.y_axis.y as int,
                self.z_axis.y as int,
                self.w_axis.y as int,
                v,
            ) as i32,
            z: row_product(
                self.x_axis.z as int,
                self.y_axis.z as int,
                self.z_axis.z as int,
                self.w_axis.z as int,
                v,
            ) as i32,
            w: row_product(
                self.x_axis.w as int,
                self.y_axis.w as int,
                self.z_axis.w as int,
                self.w_axis.w as int,
                v,
            ) as i32,
        }
    }

    pub open spec fn transform_vector3_spec(self, v: Vec3) -> Vec3 {
        Vec3 {
            x: self.mul_vec4_spec(Vec4 { x: v.x, y: v.y, z: v.z, w: 0 }).x,
            y: self.mul_vec4_spec(Vec4 { x: v.x, y: v.y, z: v.z, w: 0 }).y,
            z: self.mul_vec4_spec(Vec4 { x: v.x, y: v.y, z: v.z, w: 0 }).z,
        }
    }

    /// Carries a direction through the matrix: the vector is turned and
    /// scaled, and not moved.
    pub fn transform_vector3(&self, v: Vec3) -> (r: Vec3)
        ensures
            r == self.transform_vector3_spec(v),
    {
        let moved: Vec4 = self.mul_vec4(Vec4 { x: v.x, y: v.y, z: v.z, w: 0 });
        Vec3 { x: moved.x, y: moved.y, z: moved.z }
    }

    /// The product of the matrix with a column vector.
    pub fn mul_vec4(&self, v: Vec4) -> (r: Vec4)
        ensures
            r == self.mul_vec4_spec(v),
    {
        Vec4 {
            x: row_product_exec(self.x_axis.x, self.y_axis.x, self.z_axis.x, self.w_axis.x, v),
            y: row_product_exec(self.x_axis.y, self.y_axis.y, self.z_axis.y, self.w_axis.y, v),
            z: row_product_exec(self.x_axis.z, self.y_axis.z, self.z_axis.z, self.w_axis.z, v),
            w: row_product_exec(self.x_axis.w, self.y_axis.w, self.z_axis.w, self.w_axis.w, v),
        }
    }
}

} // verus!
