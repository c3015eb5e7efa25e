//! The attributes of the vertices of a mesh as they lie in a buffer of bytes:
//! components of one of six types, the lowest byte first.
use crate::fixed::{
    clamp_int, fixed_of_float, float_exponent, float_fraction, float_significand, from_f32_bits,
    saturate, saturate_i128,
};
use crate::math::{Vec2, Vec3, Vec4};
use vstd::arithmetic::power2::{lemma2_to64, lemma_pow2_strictly_increases, lemma_pow2_unfold, pow2};
use vstd::prelude::*;

verus! {

/// The type of one component of an attribute.
#[derive(Clone, Copy, Debug, PartialEq, Eq, Structural)]
pub enum ComponentType {
    I8,
    U8,
    I16,
    U16,
    U32,
    F32,
}

/// The unsigned integer of two bytes that start at `at`.
pub open spec fn two_bytes(bytes: Seq<u8>, at: int) -> int {
    bytes[at] + 256 * bytes[at + 1]
}

/// The unsigned integer of four bytes that start at `at`.
pub open spec fn four_bytes(bytes: Seq<u8>, at: int) -> int {
    bytes[at] + 256 * bytes[at + 1] + 65536 * bytes[at + 2] + 16777216 * bytes[at + 3]
}

/// An unsigned integer below `modulus` read as a signed one in two's
/// complement.
pub open spec fn signed(value: int, modulus: int) -> int {
    if 2 * value >= modulus {
        value - modulus
    } else {
        value
    }
}

/// The whole part of a floating-point number, given by its bits, held to the
/// range of an index: a number that is negative or not a number gives zero.
pub open spec fn index_of_float(bits: int) -> int {
    if bits >= 2147483648 || (float_exponent(bits) == 255 && float_fraction(bits) != 0) {
        0
    } else if float_exponent(bits) >= 150 {
        65535
    } else if float_exponent(bits) == 0 {
        0
    } else {
        clamp_int(float_significand(bits) / pow2((150 - float_exponent(bits)) as nat) as int, 0, 65535)
    }
}

impl ComponentType {
    /// The number of bytes of one component.
    pub open spec fn size_spec(self) -> int {
        match self {
            ComponentType::I8 => 1,
            ComponentType::U8 => 1,
            ComponentType::I16 => 2,
            ComponentType::U16 => 2,
            ComponentType::U32 => 4,
            ComponentType::F32 => 4,
        }
    }

    /// The number of bytes of one component.
    pub fn size(self) -> (n: usize)
        ensures
            n == self.size_spec(),
    {
        match self {
            ComponentType::I8 => 1,
            ComponentType::U8 => 1,
            ComponentType::I16 => 2,
            ComponentType::U16 => 2,
            ComponentType::U32 => 4,
            ComponentType::F32 => 4,
        }
    }

    /// The component with the index `i` as a fixed-point number, held to the
    /// range of `i32`.
    pub open spec fn value_at(self, bytes: Seq<u8>, i: int) -> int {
        match self {
            ComponentType::I8 => saturate(signed(bytes[i] as int, 256) * 65536),
            ComponentType::U8 => saturate(bytes[i] * 65536),
            ComponentType::I16 => saturate(signed(two_bytes(bytes, 2 * i), 65536) * 65536),
            ComponentType::U16 => saturate(two_bytes(bytes, 2 * i) * 65536),
            ComponentType::U32 => saturate(four_bytes(bytes, 4 * i) * 65536),
            ComponentType::F32 => fixed_of_float(four_bytes(bytes, 4 * i)),
        }
    }

    /// The component with the index `i` as an index of a vertex, held to
    /// the range of `u16`.
    pub open spec fn index_at(self, bytes: Seq<u8>, i: int) -> int {
        match self {
            ComponentType::I8 => clamp_int(signed(bytes[i] as int, 256), 0, 65535),
            ComponentType::U8 => bytes[i] as int,
            ComponentType::I16 => clamp_int(signed(two_bytes(bytes, 2 * i), 65536), 0, 65535),
            ComponentType::U16 => two_bytes(bytes, 2 * i),
            ComponentType::U32 => clamp_int(four_bytes(bytes, 4 * i), 0, 65535),
            ComponentType::F32 => index_of_float(four_bytes(bytes, 4 * i)),
        }
    }

    /// The components of a buffer as fixed-point numbers.
    pub open spec fn values(self, bytes: Seq<u8>) -> Seq<i32> {
        Seq::new((bytes.len() as int / self.size_spec()) as nat, |i: int| self.value_at(bytes, i) as i32)
    }

    /// The components of a buffer as indices.
    pub open spec fn indices(self, bytes: Seq<u8>) -> Seq<u16> {
        Seq::new((bytes.len() as int / self.size_spec()) as nat, |i: int| self.index_at(bytes, i) as u16)
    }
}

fn two_bytes_exec(bytes: &[u8], at: usize) -> (r: u32)
    requires
        at + 1 < bytes@.len(),
    ensures
        r == two_bytes(bytes@, at as int),
        r <= 65535,
{
    bytes[at] as u32 + 256 * (bytes[at + 1] as u32)
}

fn four_bytes_exec(bytes: &[u8], at: usize) -> (r: u32)
    requires
        at + 3 < bytes@.len(),
    ensures
        r == four_bytes(bytes@, at as int),
{
    bytes[at] as u32 + 256 * (bytes[at + 1] as u32) + 65536 * (bytes[at + 2] as u32) + 16777216 * (
    bytes[at + 3] as u32)
}

fn whole_of_float(bits: u32) -> (r: u16)
    ensures
        r == index_of_float(bits as int),
{
    let exponent: u32 = (bits >> 23) & 0xFF;
    let fraction: u32 = bits & 0x7F_FFFF;
    assert(exponent == (bits / 8388608) % 256 && fraction == bits % 8388608) by (bit_vector)
        requires
            exponent == (bits >> 23) & 0xFF,
            fraction == bits & 0x7F_FFFF,
    ;
    if bits >= 0x8000_0000 || (exponent == 255 && fraction != 0) {
        0
    } else if exponent >= 150 {
        65535
    } else if exponent == 0 {
        0
    } else if exponent < 127 {
        proof {
            lemma2_to64();
            if exponent < 126 {
                lemma_pow2_strictly_increases(24, (150 - exponent) as nat);
            }
            vstd::arithmetic::div_mod::lemma_basic_div(
                fraction + 8388608,
                pow2((150 - exponent) as nat) as int,
            );
        }
        0
    } else {
        let shift: u32 = 150 - exponent;
        let significand: u32 = fraction + 0x80_0000;
        proof {
            vstd::bits::lemma_u32_shr_is_div(significand, shift);
        }
        let whole: u32 = significand >> shift;
        if whole > 65535 {
            65535
        } else {
            whole as u16
        }
    }
}

/// Decodes the components of a buffer to fixed-point numbers.  Bytes at the
/// end that do not make up a component are left out.
pub fn decode_components(bytes: &[u8], component: ComponentType) -> (out: Vec<i32>)
    ensures
        out@ == component.values(bytes@),
{
    let size: usize = component.size();
    let length: usize = bytes.len();
    let count: usize = length / size;
    let ghost target = component.values(bytes@);
    let mut out: Vec<i32> = Vec::new();
    let mut i: usize = 0;
    while i < count
        invariant
            size == component.size_spec(),
            length == bytes@.len(),
            count == length / size,
            target == component.values(bytes@),
            0 <= i <= count,
            out@ == target.take(i as int),
        decreases count - i,
    {
        let value: i32 = match component {
            ComponentType::I8 => {
                let b: i128 = bytes[i] as i128;
                saturate_i128(
                    (if 2 * b >= 256 {
                        b - 256
                    } else {
                        b
                    }) * 65536,
                )
            },
            ComponentType::U8 => saturate_i128((bytes[i] as i128) * 65536),
            ComponentType::I16 => {
                let b: i128 = two_bytes_exec(bytes, 2 * i) as i128;
                saturate_i128(
                    (if 2 * b >= 65536 {
                        b - 65536
                    } else {
                        b
                    }) * 65536,
                )
            },
            ComponentType::U16 => saturate_i128((two_bytes_exec(bytes, 2 * i) as i128) * 65536),
            ComponentType::U32 => saturate_i128((four_bytes_exec(bytes, 4 * i) as i128) * 65536),
            ComponentType::F32 => from_f32_bits(four_bytes_exec(bytes, 4 * i)),
        };
        out.push(value);
        proof {
            assert(target[i as int] == value);
            assert(target.take(i + 1) =~= target.take(i as int).push(target[i as int]));
        }
        i = i + 1;
    }
    proof {
        assert(target.take(target.len() as int) =~= target);
    }
    out
}

/// Decodes the components of a buffer to indices of vertices.
pub fn decode_indices(bytes: &[u8], component: ComponentType) -> (out: Vec<u16>)
    ensures
        out@ == component.indices(bytes@),
{
    let size: usize = component.size();
    let length: usize = bytes.len();
    let count: usize = length / size;
    let ghost target = component.indices(bytes@);
    let mut out: Vec<u16> = Vec::new();
    let mut i: usize = 0;
    while i < count
        invariant
            size == component.size_spec(),
            length == bytes@.len(),
            count == length / size,
            target == component.indices(bytes@),
            0 <= i <= count,
            out@ == target.take(i as int),
        decreases count - i,
    {
        let value: u16 = match component {
            ComponentType::I8 => {
                if bytes[i] >= 128 {
                    0
                } else {
                    bytes[i] as u16
                }
            },
            ComponentType::U8 => bytes[i] as u16,
            ComponentType::I16 => {
                let b: u32 = two_bytes_exec(bytes, 2 * i);
                if b >= 32768 {
                    0
                } else {
                    b as u16
                }
            },
            ComponentType::U16 => two_bytes_exec(bytes, 2 * i) as u16,
            ComponentType::U32 => {
                let b: u32 = four_bytes_exec(bytes, 4 * i);
                if b > 65535 {
                    65535
                } else {
                    b as u16
                }
            },
            ComponentType::F32 => whole_of_float(four_bytes_exec(bytes, 4 * i)),
        };
        out.push(value);
        proof {
            assert(target[i as int] == value);
            assert(target.take(i + 1) =~= target.take(i as int).push(target[i as int]));
        }
        i = i + 1;
    }
    proof {
        assert(target.take(target.len() as int) =~= target);
    }
    out
}

/// The first `count` vectors of two components that a list of values holds.
pub fn group2(values: &Vec<i32>, count: usize) -> (out: Vec<Vec2>)
    requires
        2 * count <= values@.len(),
    ensures
        out@.len() == count,
        forall|i: int|
            0 <= i < count ==> #[trigger] out@[i] == (Vec2 { x: values@[2 * i], y: values@[2 * i + 1] }),
{
    let length: usize = values.len();
    let mut out: Vec<Vec2> = Vec::new();
    let mut i: usize = 0;
    while i < count
        invariant
            length == values@.len(),
            2 * count <= length,
            0 <= i <= count,
            out@.len() == i,
            forall|j: int|
                0 <= j < i ==> #[trigger] out@[j] == (Vec2 { x: values@[2 * j], y: values@[2 * j + 1] }),
        decreases count - i,
    {
        out.push(Vec2 { x: values[2 * i], y: values[2 * i + 1] });
        i = i + 1;
    }
    out
}

/// The first `count` vectors of three components that a list of values holds.
pub fn group3(values: &Vec<i32>, count: usize) -> (out: Vec<Vec3>)
    requires
        3 * count <= values@.len(),
    ensures
        out@.len() == count,
        forall|i: int|
            0 <= i < count ==> #[trigger] out@[i] == (Vec3 {
                x: values@[3 * i],
                y: values@[3 * i + 1],
                z: values@[3 * i + 2],
            }),
{
    let length: usize = values.len();
    let mut out: Vec<Vec3> = Vec::new();
    let mut i: usize = 0;
    while i < count
        invariant
            length == values@.len(),
            3 * count <= length,
            0 <= i <= count,
            out@.len() == i,
            forall|j: int|
                0 <= j < i ==> #[trigger] out@[j] == (Vec3 {
                    x: values@[3 * j],
                    y: values@[3 * j + 1],
                    z: values@[3 * j + 2],
                }),
        decreases count - i,
    {
        out.push(Vec3 { x: values[3 * i], y: values[3 * i + 1], z: values[3 * i + 2] });
        i = i + 1;
    }
    out
}

/// The first `count` vectors of four components that a list of values holds.
pub fn group4(values: &Vec<i32>, count: usize) -> (out: Vec<Vec4>)
    requires
        4 * count <= values@.len(),
    ensures
        out@.len() == count,
        forall|i: int|
            0 <= i < count ==> #[trigger] out@[i] == (Vec4 {
                x: values@[4 * i],
                y: values@[4 * i + 1],
                z: values@[4 * i + 2],
                w: values@[4 * i + 3],
            }),
{
    let length: usize = values.len();
    let mut out: Vec<Vec4> = Vec::new();
    let mut i: usize = 0;
    while i < count
        invariant
            length == values@.len(),
            4 * count <= length,
            0 <= i <= count,
            out@.len() == i,
            forall|j: int|
                0 <= j < i ==> #[trigger] out@[j] == (Vec4 {
                    x: values@[4 * j],
                    y: values@[4 * j + 1],
                    z: values@[4 * j + 2],
                    w: values@[4 * j + 3],
                }),
        decreases count - i,
    {
        out.push(
            Vec4 {
                x: values[4 * i],
                y: values[4 * i + 1],
                z: values[4 * i + 2],
                w: values[4 * i + 3],
            },
        );
        i = i + 1;
    }
    out
}

} // verus!
