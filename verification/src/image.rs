//! Decoded images and the textures that are made of them.
use crate::colour::{colour_rgba, texel};
use crate::texture::Texture;
use vstd::prelude::*;

verus! {

/// How the bytes of a decoded image are laid out.
#[derive(Clone, Copy, Debug, PartialEq, Eq, Structural)]
pub enum PixelFormat {
    R8,
    R8G8,
    R8G8B8,
    R8G8B8A8,
    B8G8R8,
    B8G8R8A8,
    R16,
    R16G16,
    R16G16B16,
    R16G16B16A16,
}

/// A decoded image: its bytes by rows, their layout, and its size.
#[derive(Clone, Debug, PartialEq, Eq)]
pub struct ImageData {
    pub pixels: Vec<u8>,
    pub format: PixelFormat,
    pub width: u32,
    pub height: u32,
}

/// Where the channels of one pixel lie among its bytes: the number of bytes
/// from one pixel to the next, and for each channel the byte that holds it,
/// if any does.  Of a channel of 16 bits the second byte is taken, the
/// higher one.
#[derive(Clone, Copy, Debug, PartialEq, Eq, Structural)]
pub struct Layout {
    pub stride: usize,
    pub red: Option<usize>,
    pub green: Option<usize>,
    pub blue: Option<usize>,
    pub alpha: Option<usize>,
}

impl PixelFormat {
    pub open spec fn layout_spec(self) -> Layout {
        match self {
            PixelFormat::R8 => Layout { stride: 1, red: Some(0), green: None, blue: None, alpha: None },
            PixelFormat::R8G8 => Layout {
                stride: 2,
                red: Some(0),
                green: Some(1),
                blue: None,
                alpha: None,
            },
            PixelFormat::R8G8B8 => Layout {
                stride: 3,
                red: Some(0),
                green: Some(1),
                blue: Some(2),
                alpha: None,
            },
            PixelFormat::R8G8B8A8 => Layout {
                stride: 4,
                red: Some(0),
                green: Some(1),
                blue: Some(2),
                alpha: Some(3),
            },
            PixelFormat::B8G8R8 => Layout {
                stride: 3,
                red: Some(2),
                green: Some(1),
                blue: Some(0),
                alpha: None,
            },
            PixelFormat::B8G8R8A8 => Layout {
                stride: 4,
                red: Some(2),
                green: Some(1),
                blue: Some(0),
                alpha: Some(3),
            },
            PixelFormat::R16 => Layout { stride: 2, red: Some(1), green: None, blue: None, alpha: None },
            PixelFormat::R16G16 => Layout {
                stride: 4,
                red: Some(1),
                green: Some(3),
                blue: None,
                alpha: None,
            },
            PixelFormat::R16G16B16 => Layout {
                stride: 6,
                red: Some(1),
                green: Some(3),
                blue: Some(5),
                alpha: None,
            },
            PixelFormat::R16G16B16A16 => Layout {
                stride: 8,
                red: Some(1),
                green: Some(3),
                blue: Some(5),
                alpha: Some(7),
            },
        }
    }

    /// The layout of one pixel in this format.
    pub fn layout(self) -> (l: Layout)
        ensures
            l == self.layout_spec(),
            l.wf(),
    {
        match self {
            PixelFormat::R8 => Layout { stride: 1, red: Some(0), green: None, blue: None, alpha: None },
            PixelFormat::R8G8 => Layout {
                stride: 2,
                red: Some(0),
                green: Some(1),
                blue: None,
                alpha: None,
            },
            PixelFormat::R8G8B8 => Layout {
                stride: 3,
                red: Some(0),
                green: Some(1),
                blue: Some(2),
                alpha: None,
            },
            PixelFormat::R8G8B8A8 => Layout {
                stride: 4,
                red: Some(0),
                green: Some(1),
                blue: Some(2),
                alpha: Some(3),
            },
            PixelFormat::B8G8R8 => Layout {
                stride: 3,
                red: Some(2),
                green: Some(1),
                blue: Some(0),
                alpha: None,
            },
            PixelFormat::B8G8R8A8 => Layout {
                stride: 4,
                red: Some(2),
                green: Some(1),
                blue: Some(0),
                alpha: Some(3),
            },
            PixelFormat::R16 => Layout { stride: 2, red: Some(1), green: None, blue: None, alpha: None },
            PixelFormat::R16G16 => Layout {
                stride: 4,
                red: Some(1),
                green: Some(3),
                blue: None,
                alpha: None,
            },
            PixelFormat::R16G16B16 => Layout {
                stride: 6,
                red: Some(1),
                green: Some(3),
                blue: Some(5),
                alpha: None,
            },
            PixelFormat::R16G16B16A16 => Layout {
                stride: 8,
                red: Some(1),
                green: Some(3),
                blue: Some(5),
                alpha: Some(7),
            },
        }
    }
}

/// The value of a channel of the pixel whose bytes start at `at`: the byte at
/// the place of the channel, or `absent` where the layout has no such
/// channel.
pub open spec fn channel(bytes: Seq<u8>, at: int, place: Option<usize>, absent: int) -> int {
    match place {
        Some(k) => bytes[at + k] as int,
        None => absent,
    }
}

impl Layout {
    /// Every channel lies within the bytes of its pixel.
    pub open spec fn wf(self) -> bool {
        &&& 1 <= self.stride <= 8
        &&& self.red matches Some(k) ==> k < self.stride
        &&& self.green matches Some(k) ==> k < self.stride
        &&& self.blue matches Some(k) ==> k < self.stride
        &&& self.alpha matches Some(k) ==> k < self.stride
    }

    /// The texel that the pixel with the index `i` gives.  A colour channel
    /// that the layout does not have is zero; a pixel without an alpha
    /// channel is opaque.
    pub open spec fn texel_at(self, bytes: Seq<u8>, i: int) -> int {
        texel(
            channel(bytes, i * self.stride, self.alpha, 255),
            channel(bytes, i * self.stride, self.red, 0),
            channel(bytes, i * self.stride, self.green, 0),
            channel(bytes, i * self.stride, self.blue, 0),
        )
    }

    /// The texels that a sequence of bytes gives, pixel by pixel.
    pub open spec fn texels(self, bytes: Seq<u8>) -> Seq<u32> {
        Seq::new((bytes.len() / self.stride as nat) as nat, |i: int| self.texel_at(bytes, i) as u32)
    }
}

fn channel_exec(bytes: &Vec<u8>, at: usize, place: Option<usize>, absent: u8) -> (c: u8)
    requires
        place matches Some(k) ==> at + k < bytes@.len(),
    ensures
        c == channel(bytes@, at as int, place, absent as int),
{
    let length: usize = bytes.len();
    match place {
        Some(k) => bytes[at + k],
        None => absent,
    }
}

impl Texture {
    /// Makes a texture of one level from a decoded image.  The image holds
    /// whole pixels only.
    pub fn load_texture_from_gltf_image(image: &ImageData) -> (t: Texture)
        requires
            image.pixels@.len() % image.format.layout_spec().stride as nat == 0,
        ensures
            t.width == image.width,
            t.height == image.height,
            t.depth == 4,
            t.data@ == image.format.layout_spec().texels(image.pixels@),
            t.mipmap_offsets@ == seq![0usize],
    {
        let layout: Layout = image.format.layout();
        let length: usize = image.pixels.len();
        let count: usize = length / layout.stride;
        let ghost target = layout.texels(image.pixels@);
        let mut data: Vec<u32> = Vec::new();
        let mut id: usize = 0;
        while id < count
            invariant
                layout.wf(),
                length == image.pixels@.len(),
                count == length / layout.stride,
                length % layout.stride == 0,
                target == layout.texels(image.pixels@),
                0 <= id <= count,
                data@ == target.take(id as int),
            decreases count - id,
        {
            proof {
                vstd::arithmetic::div_mod::lemma_fundamental_div_mod(
                    length as int,
                    layout.stride as int,
                );
                assert(id * layout.stride + layout.stride <= length) by (nonlinear_arith)
                    requires
                        id < count,
                        count == length / layout.stride,
                        length % layout.stride == 0,
                        layout.stride >= 1,
                        length == layout.stride * (length / layout.stride) + length % layout.stride,
                {
                }
            }
            let at: usize = id * layout.stride;
            let t: u32 = colour_rgba(
                channel_exec(&image.pixels, at, layout.alpha, 255),
                channel_exec(&image.pixels, at, layout.red, 0),
                channel_exec(&image.pixels, at, layout.green, 0),
                channel_exec(&image.pixels, at, layout.blue, 0),
            );
            data.push(t);
            proof {
                assert(target[id as int] == t);
                assert(target.take(id + 1) =~= target.take(id as int).push(target[id as int]));
            }
            id = id + 1;
        }
        proof {
            assert(target.take(target.len() as int) =~= target);
        }
        let mut mipmap_offsets: Vec<usize> = Vec::new();
        mipmap_offsets.push(0);
        assert(mipmap_offsets@ =~= seq![0usize]);
        Texture {
            width: image.width as usize,
            height: image.height as usize,
            depth: 4,
            data,
            mipmap_offsets,
        }
    }
}

} // verus!
