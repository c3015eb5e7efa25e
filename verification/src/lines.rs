//! Lines and the outlines of triangles.
use crate::colour::colour_rgb;
use crate::math::Vec2;
use crate::fragment::lemma_pixel_index;
use crate::rendering::Renderer;
use crate::structs::Vertex;
use vstd::prelude::*;

verus! {

/// The whole part of a fixed-point number, rounded towards zero.
pub open spec fn whole(a: int) -> int {
    if a >= 0 {
        a / 65536
    } else {
        -((-a) / 65536)
    }
}

/// The share `k * small / large`, rounded to the nearest integer, a half
/// rounded up.
pub open spec fn rounded_share(k: int, small: int, large: int) -> int {
    (2 * k * small + large) / (2 * large)
}

/// A line of pixels: where it starts, how many pixels it spans along each
/// axis, and the direction in which it runs along each.
pub struct Line {
    pub x: int,
    pub y: int,
    pub dx: int,
    pub dy: int,
    pub add_x: int,
    pub add_y: int,
}

impl Line {
    /// The line from one point of the image to another.  It starts at the
    /// pixel that holds the first point, and spans the whole part of the
    /// distance along each axis.
    pub open spec fn between(pos1: Vec2, pos2: Vec2) -> Line {
        Line {
            x: whole(pos1.x as int),
            y: whole(pos1.y as int),
            dx: if pos1.x > pos2.x {
                (pos1.x - pos2.x) / 65536
            } else {
                (pos2.x - pos1.x) / 65536
            },
            dy: if pos1.y > pos2.y {
                (pos1.y - pos2.y) / 65536
            } else {
                (pos2.y - pos1.y) / 65536
            },
            add_x: if pos1.x > pos2.x {
                -1
            } else {
                1
            },
            add_y: if pos1.y > pos2.y {
                -1
            } else {
                1
            },
        }
    }

    /// The number of pixels that the line draws.
    pub open spec fn count(self) -> int {
        if self.dx > self.dy {
            self.dx
        } else {
            self.dy
        }
    }

    /// The `k`-th pixel that the line draws, counted from zero.  A line that
    /// is steeper or flatter than the diagonal advances by one pixel along
    /// its longer axis and by the rounded share of that along the other; it
    /// does not draw the pixel it starts at.  A diagonal line starts with
    /// that pixel.
    pub open spec fn pixel(self, k: int) -> (int, int) {
        if self.dx < self.dy {
            (
                self.x + self.add_x * rounded_share(k + 1, self.dx, self.dy),
                self.y + self.add_y * (k + 1),
            )
        } else if self.dx > self.dy {
            (
                self.x + self.add_x * (k + 1),
                self.y + self.add_y * rounded_share(k + 1, self.dy, self.dx),
            )
        } else {
            (self.x + self.add_x * k, self.y + self.add_y * k)
        }
    }

    /// A steep line is green, a flat line is red, a diagonal line is blue.
    pub open spec fn colour(self) -> u32 {
        if self.dx < self.dy {
            0x00FF00
        } else if self.dx > self.dy {
            0xFF0000
        } else {
            0x0000FF
        }
    }
}

/// The buffer after one pixel has been set, if the pixel lies in the image.
pub open spec fn plot(buffer: Seq<u32>, width: int, height: int, at: (int, int), colour: u32) -> Seq<
    u32,
> {
    if 0 <= at.0 < width && 0 <= at.1 < height {
        buffer.update(at.0 + at.1 * width, colour)
    } else {
        buffer
    }
}

/// The buffer after the first `n` pixels of a line have been drawn.
pub open spec fn line_drawn(buffer: Seq<u32>, line: Line, width: int, height: int, n: nat) -> Seq<u32>
    decreases n,
{
    if n == 0 {
        buffer
    } else {
        plot(
            line_drawn(buffer, line, width, height, (n - 1) as nat),
            width,
            height,
            line.pixel(n - 1),
            line.colour(),
        )
    }
}

/// The buffer after a whole line has been drawn.
pub open spec fn with_line(buffer: Seq<u32>, pos1: Vec2, pos2: Vec2, width: int, height: int) -> Seq<
    u32,
> {
    line_drawn(
        buffer,
        Line::between(pos1, pos2),
        width,
        height,
        Line::between(pos1, pos2).count() as nat,
    )
}

/// How the rounded share grows by one step.  With `p` the decision value
/// after `k` steps, the share grows at the next step just when `p` is not
/// negative.
proof fn lemma_share_step(k: int, small: int, large: int, m: int, p: int)
    requires
        0 <= k,
        0 <= small < large,
        m == rounded_share(k, small, large),
        p == 2 * small * (k + 1) - large * (2 * m + 1),
    ensures
        2 * small - 2 * large <= p < 2 * small,
        0 <= m <= k,
        p >= 0 ==> rounded_share(k + 1, small, large) == m + 1,
        p < 0 ==> rounded_share(k + 1, small, large) == m,
{
    let n: int = 2 * k * small + large;
    let d: int = 2 * large;
    vstd::arithmetic::div_mod::lemma_fundamental_div_mod(n, d);
    let r: int = n % d;
    assert(p == r + 2 * small - 2 * large) by (nonlinear_arith)
        requires
            n == d * m + r,
            n == 2 * k * small + large,
            d == 2 * large,
            p == 2 * small * (k + 1) - large * (2 * m + 1),
    ;
    let next: int = 2 * (k + 1) * small + large;
    assert(next == n + 2 * small) by (nonlinear_arith)
        requires
            n == 2 * k * small + large,
            next == 2 * (k + 1) * small + large,
    ;
    if p >= 0 {
        assert(next == d * (m + 1) + (r + 2 * small - 2 * large)) by (nonlinear_arith)
            requires
                next == n + 2 * small,
                n == d * m + r,
                d == 2 * large,
        ;
        vstd::arithmetic::div_mod::lemma_fundamental_div_mod_converse(
            next,
            d,
            m + 1,
            r + 2 * small - 2 * large,
        );
    } else {
        assert(next == d * m + (r + 2 * small)) by (nonlinear_arith)
            requires
                next == n + 2 * small,
                n == d * m + r,
        ;
        vstd::arithmetic::div_mod::lemma_fundamental_div_mod_converse(next, d, m, r + 2 * small);
    }
    assert(0 <= m <= k) by (nonlinear_arith)
        requires
            n == d * m + r,
            0 <= r < d,
            n == 2 * k * small + large,
            d == 2 * large,
            0 <= small < large,
            0 <= k,
    ;
}

/// Before the first step nothing has been shared out.
proof fn lemma_share_start(small: int, large: int)
    requires
        0 <= small < large,
    ensures
        rounded_share(0, small, large) == 0,
        2 * small - large == 2 * small * (0 + 1) - large * (2 * 0 + 1),
{
    assert(2 * 0 * small + large == large) by (nonlinear_arith);
    vstd::arithmetic::div_mod::lemma_basic_div(large, 2 * large);
    assert(2 * small - large == 2 * small * (0 + 1) - large * (2 * 0 + 1)) by (nonlinear_arith);
}

fn plot_exec(buffer: &mut Vec<u32>, width: usize, height: usize, x: i32, y: i32, colour: u32)
    requires
        old(buffer)@.len() == width * height,
    ensures
        final(buffer)@ == plot(old(buffer)@, width as int, height as int, (x as int, y as int), colour),
        final(buffer)@.len() == width * height,
{
    let size: usize = buffer.len();
    if x >= 0 && (x as usize) < width && y >= 0 && (y as usize) < height {
        proof {
            lemma_pixel_index(x as int, y as int, width as int, height as int);
        }
        buffer.set(x as usize + (y as usize) * width, colour);
    }
}

fn span(a: i32, b: i32) -> (d: i32)
    ensures
        d == if a > b {
            (a - b) / 65536
        } else {
            (b - a) / 65536
        },
        0 <= d <= 65535,
{
    if a > b {
        ((a as i64 - b as i64) / 65536) as i32
    } else {
        ((b as i64 - a as i64) / 65536) as i32
    }
}

impl Renderer {
    /// Draws a line from one point of the image to another.  The pixels of
    /// the line that lie in the image take the colour of the line, all other
    /// pixels stay as they are.
    pub fn draw_line(pos1: Vec2, pos2: Vec2, buffer: &mut Vec<u32>, width: usize, height: usize)
        requires
            old(buffer)@.len() == width * height,
        ensures
            final(buffer)@ == with_line(old(buffer)@, pos1, pos2, width as int, height as int),
            final(buffer)@.len() == width * height,
    {
        let ghost line = Line::between(pos1, pos2);
        let ghost before = buffer@;
        let mut x: i32 = pos1.x / 65536;
        let mut y: i32 = pos1.y / 65536;
        let dx: i32 = span(pos1.x, pos2.x);
        let dy: i32 = span(pos1.y, pos2.y);
        let add_x: i32 = if pos1.x > pos2.x {
            -1
        } else {
            1
        };
        let add_y: i32 = if pos1.y > pos2.y {
            -1
        } else {
            1
        };
        assert(x == line.x && y == line.y);
        if dx < dy {
            let colour: u32 = colour_rgb(0, 255, 0);
            let mut p: i32 = 2 * dx - dy;
            let mut k: i32 = 0;
            let ghost mut m: int = 0;
            proof {
                lemma_share_start(dx as int, dy as int);
            }
            while k < dy
                invariant
                    line == Line::between(pos1, pos2),
                    line.dx == dx && line.dy == dy && line.add_x == add_x && line.add_y == add_y,
                    0 <= dx < dy <= 65535,
                    add_x == 1 || add_x == -1,
                    add_y == 1 || add_y == -1,
                    -32768 <= line.x <= 32767,
                    -32768 <= line.y <= 32767,
                    colour == line.colour(),
                    0 <= k <= dy,
                    m == rounded_share(k as int, dx as int, dy as int),
                    p == 2 * dx * (k + 1) - dy * (2 * m + 1),
                    x == line.x + add_x * m,
                    y == line.y + add_y * k,
                    buffer@.len() == width * height,
                    buffer@ == line_drawn(before, line, width as int, height as int, k as nat),
                decreases dy - k,
            {
                proof {
                    lemma_share_step(k as int, dx as int, dy as int, m, p as int);
                    if p >= 0 {
                        m = m + 1;
                    }
                    assert(2 * dx * (k + 2) == 2 * dx * (k + 1) + 2 * dx) by (nonlinear_arith);
                    assert(dy * (2 * (m + 1) + 1) == dy * (2 * m + 1) + 2 * dy) by (nonlinear_arith);
                    assert(dy * (2 * (m - 1) + 1) == dy * (2 * m + 1) - 2 * dy) by (nonlinear_arith);
                }
                y = y + add_y;
                if p < 0 {
                    p = p + 2 * dx;
                } else {
                    p = p + 2 * (dx - dy);
                    x = x + add_x;
                }
                plot_exec(buffer, width, height, x, y, colour);
                k = k + 1;
            }
        } else if dx > dy {
            let colour: u32 = colour_rgb(255, 0, 0);
            let mut p: i32 = 2 * dy - dx;
            let mut k: i32 = 0;
            let ghost mut m: int = 0;
            proof {
                lemma_share_start(dy as int, dx as int);
            }
            while k < dx
                invariant
                    line == Line::between(pos1, pos2),
                    line.dx == dx && line.dy == dy && line.add_x == add_x && line.add_y == add_y,
                    0 <= dy < dx <= 65535,
                    add_x == 1 || add_x == -1,
                    add_y == 1 || add_y == -1,
                    -32768 <= line.x <= 32767,
                    -32768 <= line.y <= 32767,
                    colour == line.colour(),
                    0 <= k <= dx,
                    m == rounded_share(k as int, dy as int, dx as int),
                    p == 2 * dy * (k + 1) - dx * (2 * m + 1),
                    x == line.x + add_x * k,
                    y == line.y + add_y * m,
                    buffer@.len() == width * height,
                    buffer@ == line_drawn(before, line, width as int, height as int, k as nat),
                decreases dx - k,
            {
                proof {
                    lemma_share_step(k as int, dy as int, dx as int, m, p as int);
                    if p >= 0 {
                        m = m + 1;
                    }
                    assert(2 * dy * (k + 2) == 2 * dy * (k + 1) + 2 * dy) by (nonlinear_arith);
                    assert(dx * (2 * (m + 1) + 1) == dx * (2 * m + 1) + 2 * dx) by (nonlinear_arith);
                    assert(dx * (2 * (m - 1) + 1) == dx * (2 * m + 1) - 2 * dx) by (nonlinear_arith);
                }
                x = x + add_x;
                if p < 0 {
                    p = p + 2 * dy;
                } else {
                    p = p + 2 * (dy - dx);
                    y = y + add_y;
                }
                plot_exec(buffer, width, height, x, y, colour);
                k = k + 1;
            }
        } else {
            let colour: u32 = colour_rgb(0, 0, 255);
            let mut k: i32 = 0;
            while k < dy
                invariant
                    line == Line::between(pos1, pos2),
                    line.dx == dx && line.dy == dy && line.add_x == add_x && line.add_y == add_y,
                    0 <= dx == dy <= 65535,
                    add_x == 1 || add_x == -1,
                    add_y == 1 || add_y == -1,
                    -32768 <= line.x <= 32767,
                    -32768 <= line.y <= 32767,
                    colour == line.colour(),
                    0 <= k <= dy,
                    x == line.x + add_x * k,
                    y == line.y + add_y * k,
                    buffer@.len() == width * height,
                    buffer@ == line_drawn(before, line, width as int, height as int, k as nat),
                decreases dy - k,
            {
                plot_exec(buffer, width, height, x, y, colour);
                y = y + add_y;
                x = x + add_x;
                k = k + 1;
            }
        }
    }

    /// Draws the outline of a triangle: the three lines from each vertex to
    /// the next, in the plane of `x` and `y`.
    pub fn draw_triangle_wireframe(
        v0: Vertex,
        v1: Vertex,
        v2: Vertex,
        colour_buffer: &mut Vec<u32>,
        width: usize,
        height: usize,
    )
        requires
            old(colour_buffer)@.len() == width * height,
        ensures
            final(colour_buffer)@ == with_line(
                with_line(
                    with_line(
                        old(colour_buffer)@,
                        (Vec2 { x: v0.position.x, y: v0.position.y }),
                        (Vec2 { x: v1.position.x, y: v1.position.y }),
                        width as int,
                        height as int,
                    ),
                    (Vec2 { x: v1.position.x, y: v1.position.y }),
                    (Vec2 { x: v2.position.x, y: v2.position.y }),
                    width as int,
                    height as int,
                ),
                (Vec2 { x: v2.position.x, y: v2.position.y }),
                (Vec2 { x: v0.position.x, y: v0.position.y }),
                width as int,
                height as int,
            ),
            final(colour_buffer)@.len() == width * height,
    {
        let first = Vec2 { x: v0.position.x, y: v0.position.y };
        let second = Vec2 { x: v1.position.x, y: v1.position.y };
        let third = Vec2 { x: v2.position.x, y: v2.position.y };
        Self::draw_line(first, second, colour_buffer, width, height);
        Self::draw_line(second, third, colour_buffer, width, height);
        Self::draw_line(third, first, colour_buffer, width, height);
    }
}

} // verus!
