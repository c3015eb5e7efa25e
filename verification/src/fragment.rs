//! What a triangle contributes to a pixel, and the frame that filling a
//! triangle leaves.
use crate::fixed::{floor_div, lemma_mul_bound, saturate, saturate_i128};
use crate::math::{Vec2, Vec3};
use crate::raster::{
    edge, interpolate, interpolate_depth, perspective_weights, pixel_centre, to_screen, Bounds,
    Corrected, ScreenPoint, Weights, DEPTH_ONE,
};
use crate::shading::{mip_level, select_mip_level, shade, shade_fragment};
use crate::structs::FragIn;
use crate::texture::{Material, Texture};
use vstd::prelude::*;

verus! {

/// What a triangle contributes to one pixel: a colour of the colour buffer
/// and a depth with 30 fractional bits.
#[derive(Clone, Copy, Debug, PartialEq, Eq, Structural)]
pub struct Fragment {
    pub colour: u32,
    pub depth: u32,
}

/// The colour buffer and the depth buffer as two sequences of equal length,
/// each by rows from the top left.
pub struct Frame {
    pub colour: Seq<u32>,
    pub depth: Seq<u32>,
}

/// The material behind an optional reference.
pub open spec fn owned(material: Option<&Material>) -> Option<Material> {
    match material {
        Some(m) => Some(*m),
        None => None,
    }
}

/// The position of a vertex on its texture, in texels with 8 fractional bits.
pub open spec fn to_texel(uv: Vec2, texture: &Texture) -> ScreenPoint {
    ScreenPoint {
        x: saturate((uv.x * texture.width) / 256) as i32,
        y: saturate((uv.y * texture.height) / 256) as i32,
    }
}

/// Twice the signed area that a triangle covers on a texture.
pub open spec fn texture_area(v0: FragIn, v1: FragIn, v2: FragIn, texture: &Texture) -> int {
    edge(to_texel(v0.uv, texture), to_texel(v1.uv, texture), to_texel(v2.uv, texture))
}

/// A vector attribute at a point with the given weights.
pub open spec fn mean3(c: Corrected, a0: Vec3, a1: Vec3, a2: Vec3) -> Vec3 {
    Vec3 {
        x: c.mean(a0.x as int, a1.x as int, a2.x as int) as i32,
        y: c.mean(a0.y as int, a1.y as int, a2.y as int) as i32,
        z: c.mean(a0.z as int, a1.z as int, a2.z as int) as i32,
    }
}

/// The texel that a material gives at a point of a triangle.
pub open spec fn texel_at(
    v0: FragIn,
    v1: FragIn,
    v2: FragIn,
    screen_area: int,
    c: Corrected,
    depth: int,
    material: Material,
) -> u32 {
    let level = mip_level(
        texture_area(v0, v1, v2, &material.texture),
        screen_area,
        depth,
        material.texture.levels() as int,
    );
    material.texture.sample(
        c.mean(v0.uv.x as int, v1.uv.x as int, v2.uv.x as int),
        c.mean(v0.uv.y as int, v1.uv.y as int, v2.uv.y as int),
        level as nat,
        material.sampler,
    )
}

/// Whether a triangle is filled at all: every vertex lies in front of the
/// eye, and the box of pixels around the triangle has both width and height.
pub open spec fn fillable(v0: FragIn, v1: FragIn, v2: FragIn, width: int, height: int) -> bool {
    &&& v0.position.w > 0
    &&& v1.position.w > 0
    &&& v2.position.w > 0
    &&& !Bounds::of(
        to_screen(v0.position, width, height),
        to_screen(v1.position, width, height),
        to_screen(v2.position, width, height),
        width,
        height,
    ).is_empty()
}

/// What a point with the given weights contributes, once it is known to lie
/// in the triangle.  There is nothing where the depth lies outside the unit
/// interval or the texel is transparent.
pub open spec fn fragment_of(
    v0: FragIn,
    v1: FragIn,
    v2: FragIn,
    screen_area: int,
    material: Option<Material>,
    b: Weights,
) -> Option<Fragment> {
    let depth = b.depth(v0.position, v1.position, v2.position);
    let c = b.corrected(v0.position.w as int, v1.position.w as int, v2.position.w as int);
    let sample = match material {
        None => None,
        Some(m) => Some(texel_at(v0, v1, v2, screen_area, c, depth, m)),
    };
    if depth < 0 || depth > DEPTH_ONE {
        None
    } else {
        match shade(mean3(c, v0.colour, v1.colour, v2.colour), mean3(c, v0.normal, v1.normal, v2.normal), sample) {
            None => None,
            Some(colour) => Some(Fragment { colour, depth: depth as u32 }),
        }
    }
}

/// What the triangle `v0`, `v1`, `v2` contributes to the pixel in column `x`
/// and row `y` of an image of the given size.  The positions are in
/// normalised device coordinates, with `w` as it left the vertex stage.
pub open spec fn fragment(
    v0: FragIn,
    v1: FragIn,
    v2: FragIn,
    width: int,
    height: int,
    material: Option<Material>,
    x: int,
    y: int,
) -> Option<Fragment> {
    let s0 = to_screen(v0.position, width, height);
    let s1 = to_screen(v1.position, width, height);
    let s2 = to_screen(v2.position, width, height);
    if !fillable(v0, v1, v2, width, height) || !Bounds::of(s0, s1, s2, width, height).contains(x, y) {
        None
    } else {
        match Weights::at(s0, s1, s2, pixel_centre(x, y)) {
            None => None,
            Some(b) => fragment_of(v0, v1, v2, edge(s0, s1, s2), material, b),
        }
    }
}

/// The depth test.  A fragment takes the pixel unless its depth is less than
/// the depth that the pixel holds.
pub open spec fn resolve(colour: u32, depth: u32, f: Option<Fragment>) -> Fragment {
    match f {
        Some(f) => if f.depth >= depth {
            f
        } else {
            Fragment { colour, depth }
        },
        None => Fragment { colour, depth },
    }
}

/// The frame after one triangle has been filled.
pub open spec fn fill_triangle(
    frame: Frame,
    v0: FragIn,
    v1: FragIn,
    v2: FragIn,
    width: int,
    height: int,
    material: Option<Material>,
) -> Frame {
    Frame {
        colour: Seq::new(
            frame.colour.len(),
            |i: int|
                resolve(
                    frame.colour[i],
                    frame.depth[i],
                    fragment(v0, v1, v2, width, height, material, i % width, i / width),
                ).colour,
        ),
        depth: Seq::new(
            frame.depth.len(),
            |i: int|
                resolve(
                    frame.colour[i],
                    frame.depth[i],
                    fragment(v0, v1, v2, width, height, material, i % width, i / width),
                ).depth,
        ),
    }
}

pub(crate) fn to_texel_exec(uv: Vec2, texture: &Texture) -> (p: ScreenPoint)
    ensures
        p == to_texel(uv, texture),
{
    proof {
        lemma_mul_bound(uv.x as int, texture.width as int, 0x8000_0000, 0xFFFF_FFFF_FFFF_FFFF);
        lemma_mul_bound(uv.y as int, texture.height as int, 0x8000_0000, 0xFFFF_FFFF_FFFF_FFFF);
    }
    let x: i128 = (uv.x as i128) * (texture.width as i128);
    let y: i128 = (uv.y as i128) * (texture.height as i128);
    ScreenPoint { x: saturate_i128(floor_div(x, 256)), y: saturate_i128(floor_div(y, 256)) }
}

fn mean3_exec(c: Corrected, a0: Vec3, a1: Vec3, a2: Vec3) -> (a: Vec3)
    requires
        c.wf(),
    ensures
        a == mean3(c, a0, a1, a2),
{
    Vec3 {
        x: interpolate(c, a0.x, a1.x, a2.x),
        y: interpolate(c, a0.y, a1.y, a2.y),
        z: interpolate(c, a0.z, a1.z, a2.z),
    }
}

pub(crate) fn fragment_of_exec(
    v0: &FragIn,
    v1: &FragIn,
    v2: &FragIn,
    screen_area: i128,
    texture_area: i128,
    material: Option<&Material>,
    b: Weights,
) -> (f: Option<Fragment>)
    requires
        b.wf(),
        v0.position.w > 0,
        v1.position.w > 0,
        v2.position.w > 0,
        material matches Some(m) ==> texture_area == crate::fragment::texture_area(
            *v0,
            *v1,
            *v2,
            &m.texture,
        ),
    ensures
        f == fragment_of(*v0, *v1, *v2, screen_area as int, owned(material), b),
{
    let depth: i128 = interpolate_depth(b, v0.position, v1.position, v2.position);
    if depth < 0 || depth > DEPTH_ONE as i128 {
        return None;
    }
    let c: Corrected = perspective_weights(b, v0.position.w, v1.position.w, v2.position.w);
    let sample: Option<u32> = match material {
        None => None,
        Some(m) => {
            let level: usize = select_mip_level(
                texture_area,
                screen_area,
                depth as u32,
                m.texture.mipmap_offsets.len(),
            );
            let u: i32 = interpolate(c, v0.uv.x, v1.uv.x, v2.uv.x);
            let v: i32 = interpolate(c, v0.uv.y, v1.uv.y, v2.uv.y);
            Some(m.texture.argb_at_uv(u, v, level, &m.sampler))
        },
    };
    let colour: Vec3 = mean3_exec(c, v0.colour, v1.colour, v2.colour);
    let normal: Vec3 = mean3_exec(c, v0.normal, v1.normal, v2.normal);
    match shade_fragment(colour, normal, sample) {
        None => None,
        Some(colour) => Some(Fragment { colour, depth: depth as u32 }),
    }
}

/// Where the fill of a triangle stands: the pixels before column `x` of row
/// `y` hold what the whole fill gives them, the others what they held before.
pub open spec fn filled_up_to(before: Frame, after: Frame, now: Frame, width: int, x: int, y: int) -> bool {
    &&& now.colour.len() == before.colour.len()
    &&& now.depth.len() == before.depth.len()
    &&& forall|i: int|
        0 <= i < before.colour.len() ==> if i / width < y || (i / width == y && i % width < x) {
            #[trigger] now.colour[i] == after.colour[i] && now.depth[i] == after.depth[i]
        } else {
            now.colour[i] == before.colour[i] && now.depth[i] == before.depth[i]
        }
}

/// The fill of a triangle leaves the pixels outside `bounds` as they were.
pub open spec fn kept_outside(before: Frame, after: Frame, bounds: Bounds, width: int) -> bool {
    forall|i: int|
        0 <= i < before.colour.len() && !bounds.contains(i % width, i / width) ==> #[trigger] after.colour[i]
            == before.colour[i] && after.depth[i] == before.depth[i]
}

/// The index of a pixel gives back its column and its row.
pub proof fn lemma_pixel_index(x: int, y: int, width: int, height: int)
    requires
        0 <= x < width,
        0 <= y < height,
    ensures
        0 <= x + y * width < width * height,
        (x + y * width) % width == x,
        (x + y * width) / width == y,
{
    assert(0 <= y * width && x + y * width < width * height) by (nonlinear_arith)
        requires
            0 <= x < width,
            0 <= y < height,
    ;
    vstd::arithmetic::div_mod::lemma_fundamental_div_mod_converse(x + y * width, width, y, x);
    assert(width * y == y * width) by (nonlinear_arith);
}

/// Of two triangles that both reach a pixel, the one with the greater depth
/// there is the one that shows, whichever is filled first: either order
/// leaves the pixel as the depth test leaves it for the nearer triangle
/// alone.
pub proof fn lemma_nearer_triangle_shows(
    frame: Frame,
    near0: FragIn,
    near1: FragIn,
    near2: FragIn,
    near_material: Option<Material>,
    far0: FragIn,
    far1: FragIn,
    far2: FragIn,
    far_material: Option<Material>,
    width: int,
    height: int,
    i: int,
)
    requires
        frame.colour.len() == frame.depth.len(),
        0 <= i < frame.colour.len(),
        fragment(near0, near1, near2, width, height, near_material, i % width, i / width) is Some,
        fragment(far0, far1, far2, width, height, far_material, i % width, i / width) is Some,
        fragment(near0, near1, near2, width, height, near_material, i % width, i / width)->0.depth
            > fragment(far0, far1, far2, width, height, far_material, i % width, i / width)->0.depth,
    ensures
        ({
            let shown = resolve(
                frame.colour[i],
                frame.depth[i],
                fragment(near0, near1, near2, width, height, near_material, i % width, i / width),
            );
            let near_first = fill_triangle(
                fill_triangle(frame, near0, near1, near2, width, height, near_material),
                far0,
                far1,
                far2,
                width,
                height,
                far_material,
            );
            let far_first = fill_triangle(
                fill_triangle(frame, far0, far1, far2, width, height, far_material),
                near0,
                near1,
                near2,
                width,
                height,
                near_material,
            );
            &&& near_first.colour[i] == shown.colour
            &&& near_first.depth[i] == shown.depth
            &&& far_first.colour[i] == shown.colour
            &&& far_first.depth[i] == shown.depth
        }),
{
}

/// Filling a triangle changes no pixel whose centre lies outside it: where a
/// pixel is other than before, the triangle has an area, runs
/// anticlockwise, and none of its three edge functions is negative at the
/// centre of the pixel.
pub proof fn lemma_only_inner_pixels_change(
    frame: Frame,
    v0: FragIn,
    v1: FragIn,
    v2: FragIn,
    width: int,
    height: int,
    material: Option<Material>,
    i: int,
)
    requires
        frame.colour.len() == frame.depth.len(),
        0 <= i < frame.colour.len(),
        fill_triangle(frame, v0, v1, v2, width, height, material).colour[i] != frame.colour[i]
            || fill_triangle(frame, v0, v1, v2, width, height, material).depth[i] != frame.depth[i],
    ensures
        ({
            let s0 = to_screen(v0.position, width, height);
            let s1 = to_screen(v1.position, width, height);
            let s2 = to_screen(v2.position, width, height);
            let centre = pixel_centre(i % width, i / width);
            &&& edge(s0, s1, s2) > 0
            &&& edge(s1, s2, centre) >= 0
            &&& edge(s2, s0, centre) >= 0
            &&& edge(s0, s1, centre) >= 0
        }),
{
}

} // verus!
