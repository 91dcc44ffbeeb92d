//! Drawing into a caller-supplied row-major `u32` pixel buffer.

use vstd::prelude::*;

use crate::math_utils::vector::{lemma_vector_len, Vector2};
use crate::object::Face;
use crate::raster::{
    concat_upto, covered_by, dist, edge, every_pixel, lands, lemma_concat_prefix,
    lemma_line_step, lemma_paint_append, lemma_paint_len, lemma_paint_push, lemma_paint_stops,
    lemma_prefix_of_prefix, lemma_scan_prefix, lemma_strokes_stop, line_error, line_from,
    line_pixels, marker_pixels, marker_start, max3, min3, offset, paint, paint_strokes, scan,
    scan_column, steps_x, steps_y, toward, triangle_pixels,
};

verus! {

broadcast use lemma_vector_len;

/// Side length, in pixels, of the square marker drawn for a vertex.
pub const VERTEX_SIZE: usize = 13;

/// Color of vertex markers.
pub const VERTEX_COLOR: Color = Color::WHITE;

/// A packed `0x00RRGGBB` color: one of a small named palette, or any value.
/// Compare colors by `u32_color`.
#[allow(non_camel_case_types)]
#[derive(Clone, Copy, Debug)]
pub enum Color {
    BLACK,
    WHITE,
    RED,
    GREEN,
    BLUE,
    YELLOW,
    CYAN,
    MAGENTA,
    Rgb(u32),
}

impl Color {
    /// The packed value.
    pub open spec fn spec_u32(&self) -> u32 {
        match self {
            Color::BLACK => 0x0000_0000,
            Color::WHITE => 0x00ff_ffff,
            Color::RED => 0x00ff_0000,
            Color::GREEN => 0x0000_ff00,
            Color::BLUE => 0x0000_00ff,
            Color::YELLOW => 0x00ff_ff00,
            Color::CYAN => 0x0000_ffff,
            Color::MAGENTA => 0x00ff_00ff,
            Color::Rgb(v) => *v,
        }
    }

    pub fn from_rgb(r: u8, g: u8, b: u8) -> (c: Self)
        ensures
            c.spec_u32() == r as int * 0x1_0000 + g as int * 0x100 + b as int,
    {
        let v = ((r as u32) << 16u32) | ((g as u32) << 8u32) | (b as u32);
        assert(v == r as u32 * 0x1_0000u32 + g as u32 * 0x100u32 + b as u32) by (bit_vector)
            requires
                v == ((r as u32) << 16u32) | ((g as u32) << 8u32) | (b as u32),
        ;
        Color::Rgb(v)
    }

    pub fn u32_color(&self) -> (v: u32)
        ensures
            v == self.spec_u32(),
    {
        match self {
            Color::BLACK => 0x0000_0000,
            Color::WHITE => 0x00ff_ffff,
            Color::RED => 0x00ff_0000,
            Color::GREEN => 0x0000_ff00,
            Color::BLUE => 0x0000_00ff,
            Color::YELLOW => 0x00ff_ff00,
            Color::CYAN => 0x0000_ffff,
            Color::MAGENTA => 0x00ff_00ff,
            Color::Rgb(v) => *v,
        }
    }
}

/// Largest distance from the origin, on either axis, of a triangle vertex
/// that `Renderer::draw_triangles` accepts; it keeps the edge functions
/// within 128-bit arithmetic.
pub const MAX_TRIANGLE_COORD: i128 = 0x2000_0000_0000_0000;

/// Integer position of a vertex given in `isize` coordinates.
pub open spec fn point(p: (isize, isize)) -> (int, int) {
    (p.0 as int, p.1 as int)
}

/// Whether a vertex lies within the range that the triangle fill accepts.
pub open spec fn in_triangle_range(p: (isize, isize)) -> bool {
    -MAX_TRIANGLE_COORD <= p.0 <= MAX_TRIANGLE_COORD && -MAX_TRIANGLE_COORD <= p.1
        <= MAX_TRIANGLE_COORD
}

/// The edge function of the edge from `(ax, ay)` to `(bx, by)` at `(x, y)`.
fn edge_value(ax: i128, ay: i128, bx: i128, by: i128, x: i128, y: i128) -> (e: i128)
    requires
        -MAX_TRIANGLE_COORD <= ax <= MAX_TRIANGLE_COORD,
        -MAX_TRIANGLE_COORD <= ay <= MAX_TRIANGLE_COORD,
        -MAX_TRIANGLE_COORD <= bx <= MAX_TRIANGLE_COORD,
        -MAX_TRIANGLE_COORD <= by <= MAX_TRIANGLE_COORD,
        -MAX_TRIANGLE_COORD <= x <= MAX_TRIANGLE_COORD,
        -MAX_TRIANGLE_COORD <= y <= MAX_TRIANGLE_COORD,
    ensures
        e == edge((ax as int, ay as int), (bx as int, by as int), x as int, y as int),
{
    let m: i128 = 2 * MAX_TRIANGLE_COORD;
    let u = y - ay;
    let v = ax - bx;
    let s = x - ax;
    let t = ay - by;
    assert(-m * m <= u * v <= m * m) by (nonlinear_arith)
        requires
            -m <= u <= m,
            -m <= v <= m,
    ;
    assert(-m * m <= s * t <= m * m) by (nonlinear_arith)
        requires
            -m <= s <= m,
            -m <= t <= m,
    ;
    u * v - s * t
}

/// Color of wireframe edges.
pub const EDGE_COLOR: Color = Color::WHITE;

/// Pixel position of a screen-space vertex.
pub open spec fn screen_point(v: Vector2<usize>) -> (int, int) {
    (v@[0] as int, v@[1] as int)
}

/// A screen-space vertex read as signed coordinates, as lines are drawn.
pub open spec fn signed_point(v: Vector2<usize>) -> (int, int) {
    ((v@[0] as isize) as int, (v@[1] as isize) as int)
}

/// The markers of vertices `vs[0]`, ..., `vs[n - 1]`, one after the other.
pub open spec fn markers(vs: Seq<Vector2<usize>>, n: nat) -> Seq<(int, int)> {
    concat_upto(marker_parts(vs), n)
}

/// The marker of each vertex of `vs`.
pub open spec fn marker_parts(vs: Seq<Vector2<usize>>) -> spec_fn(int) -> Seq<(int, int)> {
    |k: int| marker_pixels(screen_point(vs[k]).0, screen_point(vs[k]).1)
}

/// Edge `k` of face `f`: the line from its vertex `k` to the next one.
pub open spec fn face_edge(vs: Seq<Vector2<usize>>, f: Face, k: int) -> Seq<(int, int)> {
    let p = signed_point(vs[f@[k] as int]);
    let q = signed_point(vs[f@[(k + 1) % 3] as int]);
    line_pixels(p.0, p.1, q.0, q.1)
}

/// The three edges of face `f`, in order.
pub open spec fn face_outline(vs: Seq<Vector2<usize>>, f: Face) -> Seq<(int, int)> {
    concat_upto(edge_parts(vs, f), 3)
}

/// Each edge of face `f`.
pub open spec fn edge_parts(vs: Seq<Vector2<usize>>, f: Face) -> spec_fn(int) -> Seq<(int, int)> {
    |k: int| face_edge(vs, f, k)
}

/// The outlines of faces `fs[0]`, ..., `fs[n - 1]`, one after the other.
pub open spec fn outlines(vs: Seq<Vector2<usize>>, fs: Seq<Face>, n: nat) -> Seq<(int, int)> {
    concat_upto(outline_parts(vs, fs), n)
}

/// The outline of each face of `fs`.
pub open spec fn outline_parts(vs: Seq<Vector2<usize>>, fs: Seq<Face>) -> spec_fn(int) -> Seq<
    (int, int),
> {
    |k: int| face_outline(vs, fs[k])
}

/// Color of the `k`-th face drawn in a frame: the palette is walked in turn.
pub open spec fn palette(k: int) -> Color {
    let i = k % 8;
    if i == 0 {
        Color::WHITE
    } else if i == 1 {
        Color::RED
    } else if i == 2 {
        Color::GREEN
    } else if i == 3 {
        Color::BLUE
    } else if i == 4 {
        Color::YELLOW
    } else if i == 5 {
        Color::CYAN
    } else {
        Color::MAGENTA
    }
}

/// Triangle of face `f`, at its vertices' pixel positions.
pub open spec fn face_triangle(vs: Seq<Vector2<usize>>, f: Face) -> Seq<(int, int)> {
    triangle_pixels(
        screen_point(vs[f@[0] as int]),
        screen_point(vs[f@[1] as int]),
        screen_point(vs[f@[2] as int]),
    )
}

/// The filled triangles of faces `fs[0]`, ..., `fs[n - 1]`, each in its
/// color, leaving out the faces that look away; the colors walk the palette
/// over the faces drawn.
pub open spec fn face_strokes(vs: Seq<Vector2<usize>>, fs: Seq<Face>, away: Seq<bool>, n: nat) -> Seq<
    (Seq<(int, int)>, u32),
>
    decreases n,
{
    if n == 0 {
        Seq::empty()
    } else {
        let before = face_strokes(vs, fs, away, (n - 1) as nat);
        if away[n - 1] {
            before
        } else {
            before.push((face_triangle(vs, fs[n - 1]), palette(before.len() as int).spec_u32()))
        }
    }
}

proof fn lemma_face_strokes_prefix(
    vs: Seq<Vector2<usize>>,
    fs: Seq<Face>,
    away: Seq<bool>,
    n1: nat,
    n2: nat,
)
    requires
        n1 <= n2,
    ensures
        face_strokes(vs, fs, away, n1).is_prefix_of(face_strokes(vs, fs, away, n2)),
    decreases n2,
{
    if n1 < n2 {
        lemma_face_strokes_prefix(vs, fs, away, n1, (n2 - 1) as nat);
    }
}

/// A mesh carried into pixel space: one pixel position per vertex, the
/// triangular faces as indices into them, and for each face whether it looks
/// away from the camera.
pub struct ScreenMesh {
    pub vertices: Vec<Vector2<usize>>,
    pub faces: Vec<Face>,
    pub facing_away: Vec<bool>,
}

impl ScreenMesh {
    /// Every face names existing vertices.
    pub open spec fn faces_valid(&self) -> bool {
        forall|i: int, k: int|
            0 <= i < self.faces@.len() && 0 <= k < 3 ==> (#[trigger] self.faces@[i]@[k])
                < self.vertices@.len()
    }

    /// Every face has its culling flag.
    pub open spec fn flags_complete(&self) -> bool {
        self.facing_away@.len() == self.faces@.len()
    }

    /// Every vertex's marker fits within `usize` coordinates.
    pub open spec fn markers_fit(&self) -> bool {
        forall|i: int|
            0 <= i < self.vertices@.len() ==> #[trigger] self.vertices@[i]@[0] + VERTEX_SIZE / 2
                <= usize::MAX && self.vertices@[i]@[1] + VERTEX_SIZE / 2 <= usize::MAX
    }

    /// Every vertex, read as `isize` coordinates, lies within the range that
    /// the triangle fill accepts.
    pub open spec fn triangles_fit(&self) -> bool {
        forall|i: int|
            0 <= i < self.vertices@.len() ==> {
                let v = #[trigger] self.vertices@[i];
                &&& v@[0] <= MAX_TRIANGLE_COORD && v@[0] <= isize::MAX
                &&& v@[1] <= MAX_TRIANGLE_COORD && v@[1] <= isize::MAX
            }
    }
}

fn face_color(index: usize) -> (c: Color)
    ensures
        c == palette(index as int),
{
    match index % 8 {
        0 => Color::WHITE,
        1 => Color::RED,
        2 => Color::GREEN,
        3 => Color::BLUE,
        4 => Color::YELLOW,
        5 => Color::CYAN,
        _ => Color::MAGENTA,
    }
}

/// Which primitives `Renderer::render` draws.
#[derive(Clone, Copy, Debug, PartialEq, Eq, Structural)]
pub enum RenderType {
    Vertex,
    Edge,
    Face,
}

#[derive(Debug, PartialEq)]
pub enum RendererError {
    /// A pixel whose index falls outside the buffer; carries its position.
    OutOfBounds(Vector2<usize>),
}

/// Whether `r` is what a drawing routine reports when its run of pixels
/// first left the buffer at `miss` (or never did).
pub open spec fn reports(r: Result<(), RendererError>, miss: Option<(int, int)>) -> bool {
    match r {
        Ok(_) => miss is None,
        Err(RendererError::OutOfBounds(v)) => miss is Some && v@ == seq![
            miss.unwrap().0 as usize,
            miss.unwrap().1 as usize,
        ],
    }
}

/// Draws into a buffer of known width and height.
#[derive(Debug)]
pub struct Renderer {
    buffer_width: usize,
    buffer_height: usize,
}

impl Renderer {
    pub closed spec fn width(&self) -> int {
        self.buffer_width as int
    }

    pub closed spec fn height(&self) -> int {
        self.buffer_height as int
    }

    pub fn new() -> (r: Self)
        ensures
            r.width() == 0,
            r.height() == 0,
    {
        Renderer { buffer_width: 0, buffer_height: 0 }
    }

    pub fn update_buffer_size(&mut self, width: usize, height: usize)
        ensures
            final(self).width() == width,
            final(self).height() == height,
    {
        self.buffer_width = width;
        self.buffer_height = height;
    }

    pub fn buffer_width(&self) -> (w: usize)
        ensures
            w == self.width(),
    {
        self.buffer_width
    }

    pub fn buffer_height(&self) -> (h: usize)
        ensures
            h == self.height(),
    {
        self.buffer_height
    }

    /// Writes `color` at `position`, whose index is `x + y * width`, or
    /// reports the position when that index is outside the buffer.
    pub fn draw_pixel(&self, buffer: &mut [u32], position: Vector2<usize>, color: Color) -> (r:
        Result<(), RendererError>)
        ensures
            ({
                let p = (position@[0] as int, position@[1] as int);
                if lands(old(buffer)@.len() as int, self.width(), p) {
                    &&& r is Ok
                    &&& final(buffer)@ == old(buffer)@.update(
                        offset(self.width(), p),
                        color.spec_u32(),
                    )
                } else {
                    &&& r == Err::<(), RendererError>(RendererError::OutOfBounds(position))
                    &&& final(buffer)@ == old(buffer)@
                }
            }),
    {
        let x = position.x();
        let y = position.y();
        let len = buffer.len();
        let index = match y.checked_mul(self.buffer_width) {
            Some(row) => row.checked_add(x),
            None => None,
        };
        if let Some(i) = index {
            if i < len {
                buffer[i] = color.u32_color();
                return Ok(());
            }
        }
        Err(RendererError::OutOfBounds(position))
    }

    /// Fills the square of side `VERTEX_SIZE` centered at `center` (cut off
    /// at the top and left edges), column by column, stopping at the first
    /// pixel outside the buffer.
    pub fn draw_vertex(&self, buffer: &mut [u32], center: Vector2<usize>) -> (r: Result<
        (),
        RendererError,
    >)
        requires
            center@[0] + VERTEX_SIZE / 2 <= usize::MAX,
            center@[1] + VERTEX_SIZE / 2 <= usize::MAX,
        ensures
            ({
                let (b, miss) = paint(
                    old(buffer)@,
                    self.width(),
                    marker_pixels(center@[0] as int, center@[1] as int),
                    VERTEX_COLOR.spec_u32(),
                );
                final(buffer)@ == b && reports(r, miss)
            }),
    {
        let half: usize = VERTEX_SIZE / 2;
        let start_x = center.x().saturating_sub(half);
        let start_y = center.y().saturating_sub(half);
        let ghost sx = marker_start(center@[0] as int);
        let ghost sy = marker_start(center@[1] as int);
        let ghost w = self.width();
        let ghost c = VERTEX_COLOR.spec_u32();
        let mut x: usize = 0;
        while x <= 2 * half
            invariant
                half == 6,
                start_x == sx,
                start_y == sy,
                sx == marker_start(center@[0] as int),
                sy == marker_start(center@[1] as int),
                sx + 2 * half <= usize::MAX,
                sy + 2 * half <= usize::MAX,
                x <= 2 * half + 1,
                w == self.width(),
                c == VERTEX_COLOR.spec_u32(),
                buffer@ == paint(old(buffer)@, w, scan(sx, sy, x as nat, 13, every_pixel()), c).0,
                paint(old(buffer)@, w, scan(sx, sy, x as nat, 13, every_pixel()), c).1 is None,
            decreases 2 * half + 1 - x,
        {
            let ghost done = scan(sx, sy, x as nat, 13, every_pixel());
            let mut y: usize = 0;
            while y <= 2 * half
                invariant
                    half == 6,
                    start_x == sx,
                    start_y == sy,
                    sx == marker_start(center@[0] as int),
                    sy == marker_start(center@[1] as int),
                    sx + 2 * half <= usize::MAX,
                    sy + 2 * half <= usize::MAX,
                    x <= 2 * half,
                    y <= 2 * half + 1,
                    w == self.width(),
                    c == VERTEX_COLOR.spec_u32(),
                    done == scan(sx, sy, x as nat, 13, every_pixel()),
                    buffer@ == paint(
                        old(buffer)@,
                        w,
                        done + scan_column(sx + x, sy, y as nat, every_pixel()),
                        c,
                    ).0,
                    paint(
                        old(buffer)@,
                        w,
                        done + scan_column(sx + x, sy, y as nat, every_pixel()),
                        c,
                    ).1 is None,
                decreases 2 * half + 1 - y,
            {
                let ghost before = done + scan_column(sx + x, sy, y as nat, every_pixel());
                let p = Vector2::new([start_x + x, start_y + y]);
                let res = self.draw_pixel(buffer, p, VERTEX_COLOR);
                proof {
                    lemma_paint_len(old(buffer)@, w, before, c);
                    lemma_paint_push(old(buffer)@, w, before, (sx + x, sy + y), c);
                    assert(done + scan_column(sx + x, sy, (y + 1) as nat, every_pixel())
                        =~= before.push((sx + x, sy + y)));
                }
                if res.is_err() {
                    proof {
                        lemma_scan_prefix(sx, sy, x as nat, 13, (y + 1) as nat, 13, every_pixel());
                        lemma_paint_stops(
                            old(buffer)@,
                            w,
                            before.push((sx + x, sy + y)),
                            marker_pixels(center@[0] as int, center@[1] as int),
                            c,
                        );
                    }
                    return res;
                }
                y += 1;
            }
            assert(scan(sx, sy, (x + 1) as nat, 13, every_pixel()) == done + scan_column(
                sx + x,
                sy,
                13,
                every_pixel(),
            ));
            x += 1;
        }
        Ok(())
    }

    /// Draws the Bresenham line from `(x0, y0)` to `(end_x, end_y)`, both
    /// ends included, stopping at the first pixel outside the buffer.
    pub fn bresenham_line(
        &self,
        color: Color,
        buffer: &mut [u32],
        x0: isize,
        y0: isize,
        end_x: isize,
        end_y: isize,
    ) -> (r: Result<(), RendererError>)
        ensures
            ({
                let (b, miss) = paint(
                    old(buffer)@,
                    self.width(),
                    line_pixels(x0 as int, y0 as int, end_x as int, end_y as int),
                    color.spec_u32(),
                );
                final(buffer)@ == b && reports(r, miss)
            }),
    {
        let ghost w = self.width();
        let ghost c = color.spec_u32();
        let ghost full = line_pixels(x0 as int, y0 as int, end_x as int, end_y as int);
        let mut curr_x = x0;
        let mut curr_y = y0;
        let dx: i128 = if x0 < end_x {
            end_x as i128 - x0 as i128
        } else {
            x0 as i128 - end_x as i128
        };
        let dy: i128 = if y0 < end_y {
            y0 as i128 - end_y as i128
        } else {
            end_y as i128 - y0 as i128
        };
        let mut error: i128 = dx + dy;
        let sx: isize = if x0 < end_x {
            1
        } else {
            -1
        };
        let sy: isize = if y0 < end_y {
            1
        } else {
            -1
        };
        let ghost mut i: int = 0;
        let ghost mut j: int = 0;
        let ghost mut done: Seq<(int, int)> = Seq::empty();
        loop
            invariant
                w == self.width(),
                c == color.spec_u32(),
                full == line_pixels(x0 as int, y0 as int, end_x as int, end_y as int),
                dx == dist(x0 as int, end_x as int),
                dy == -dist(y0 as int, end_y as int),
                sx == (if x0 < end_x { 1int } else { -1int }),
                sy == (if y0 < end_y { 1int } else { -1int }),
                0 <= i <= dx,
                0 <= j <= -dy,
                curr_x == toward(x0 as int, end_x as int, i),
                curr_y == toward(y0 as int, end_y as int, j),
                error == line_error(dx as int, -dy, i, j),
                -(dx - dy) <= 2 * (error - dx - dy) <= dx - dy,
                done + line_from(x0 as int, y0 as int, end_x as int, end_y as int, i, j) == full,
                buffer@ == paint(old(buffer)@, w, done, c).0,
                paint(old(buffer)@, w, done, c).1 is None,
            decreases (dx - i) + (-dy - j),
        {
            let ghost p = (curr_x as int, curr_y as int);
            let ghost rest = line_from(x0 as int, y0 as int, end_x as int, end_y as int, i, j);
            proof {
                lemma_paint_len(old(buffer)@, w, done, c);
                lemma_paint_push(old(buffer)@, w, done, p, c);
                assert(rest[0] == p);
            }
            let res = if curr_x < 0 || curr_y < 0 {
                Err(RendererError::OutOfBounds(Vector2::new([curr_x as usize, curr_y as usize])))
            } else {
                self.draw_pixel(buffer, Vector2::new([curr_x as usize, curr_y as usize]), color)
            };
            if res.is_err() {
                proof {
                    assert(done.push(p) + rest.skip(1) =~= full);
                    lemma_paint_stops(old(buffer)@, w, done.push(p), full, c);
                }
                return res;
            }
            if curr_x == end_x && curr_y == end_y {
                proof {
                    assert(done.push(p) =~= full);
                }
                return Ok(());
            }
            proof {
                lemma_line_step(dx as int, -dy, i, j);
            }
            let e2 = error * 2;
            let ghost ni = if steps_x(dx as int, -dy, i, j) { i + 1 } else { i };
            let ghost nj = if steps_y(dx as int, -dy, i, j) { j + 1 } else { j };
            proof {
                assert(rest == seq![p] + line_from(x0 as int, y0 as int, end_x as int, end_y as int, ni, nj));
                assert(done.push(p) + line_from(x0 as int, y0 as int, end_x as int, end_y as int, ni, nj) =~= done + rest);
                assert(line_error(dx as int, -dy, ni, nj) == error + (if ni == i + 1 { dy as int } else { 0 }) + (if nj == j + 1 { dx as int } else { 0 })) by (nonlinear_arith)
                    requires
                        error == line_error(dx as int, -dy, i, j),
                        ni == i || ni == i + 1,
                        nj == j || nj == j + 1,
                ;
            }
            if e2 >= dy {
                error += dy;
                curr_x += sx;
            }
            if e2 <= dx {
                error += dx;
                curr_y += sy;
            }
            proof {
                done = done.push(p);
                i = ni;
                j = nj;
            }
        }
    }

    /// Fills triangle `triangle_tuple`: every pixel of its bounding box
    /// (borders included) at which all three edge functions are
    /// non-negative, column by column, stopping at the first pixel outside
    /// the buffer.
    pub fn draw_triangles(
        &self,
        buffer: &mut [u32],
        triangle_tuple: Vec<(isize, isize)>,
        color: Color,
    ) -> (r: Result<(), RendererError>)
        requires
            triangle_tuple@.len() == 3,
            forall|k: int| 0 <= k < 3 ==> in_triangle_range(#[trigger] triangle_tuple@[k]),
        ensures
            ({
                let (b, miss) = paint(
                    old(buffer)@,
                    self.width(),
                    triangle_pixels(
                        point(triangle_tuple@[0]),
                        point(triangle_tuple@[1]),
                        point(triangle_tuple@[2]),
                    ),
                    color.spec_u32(),
                );
                final(buffer)@ == b && reports(r, miss)
            }),
    {
        let ghost w = self.width();
        let ghost c = color.spec_u32();
        let ghost pa = point(triangle_tuple@[0]);
        let ghost pb = point(triangle_tuple@[1]);
        let ghost pc = point(triangle_tuple@[2]);
        let ghost keep = covered_by(pa, pb, pc);
        let len = buffer.len();
        assert(in_triangle_range(triangle_tuple@[0]));
        assert(in_triangle_range(triangle_tuple@[1]));
        assert(in_triangle_range(triangle_tuple@[2]));
        let ax = triangle_tuple[0].0 as i128;
        let ay = triangle_tuple[0].1 as i128;
        let bx = triangle_tuple[1].0 as i128;
        let by = triangle_tuple[1].1 as i128;
        let cx = triangle_tuple[2].0 as i128;
        let cy = triangle_tuple[2].1 as i128;
        let mut min_x = ax;
        let mut max_x = ax;
        let mut min_y = ay;
        let mut max_y = ay;
        if bx < min_x {
            min_x = bx;
        }
        if bx > max_x {
            max_x = bx;
        }
        if cx < min_x {
            min_x = cx;
        }
        if cx > max_x {
            max_x = cx;
        }
        if by < min_y {
            min_y = by;
        }
        if by > max_y {
            max_y = by;
        }
        if cy < min_y {
            min_y = cy;
        }
        if cy > max_y {
            max_y = cy;
        }
        assert(min_x == min3(pa.0, pb.0, pc.0) && max_x == max3(pa.0, pb.0, pc.0));
        assert(min_y == min3(pa.1, pb.1, pc.1) && max_y == max3(pa.1, pb.1, pc.1));
        let box_w = max_x - min_x + 1;
        let box_h = max_y - min_y + 1;
        let ghost full = scan(min_x as int, min_y as int, box_w as nat, box_h as nat, keep);
        assert(full == triangle_pixels(pa, pb, pc));
        let mut ox: i128 = 0;
        while ox < box_w
            invariant
                w == self.width(),
                w >= 0,
                len == old(buffer)@.len(),
                c == color.spec_u32(),
                keep == covered_by(pa, pb, pc),
                triangle_tuple@.len() == 3,
                pa == point(triangle_tuple@[0]),
                pb == point(triangle_tuple@[1]),
                pc == point(triangle_tuple@[2]),
                pa == (ax as int, ay as int),
                pb == (bx as int, by as int),
                pc == (cx as int, cy as int),
                -MAX_TRIANGLE_COORD <= min_x <= ax <= max_x <= MAX_TRIANGLE_COORD,
                min_x <= bx <= max_x,
                min_x <= cx <= max_x,
                -MAX_TRIANGLE_COORD <= min_y <= ay <= max_y <= MAX_TRIANGLE_COORD,
                min_y <= by <= max_y,
                min_y <= cy <= max_y,
                box_w == max_x - min_x + 1,
                box_h == max_y - min_y + 1,
                full == scan(min_x as int, min_y as int, box_w as nat, box_h as nat, keep),
                full == triangle_pixels(pa, pb, pc),
                0 <= ox <= box_w,
                buffer@ == paint(
                    old(buffer)@,
                    w,
                    scan(min_x as int, min_y as int, ox as nat, box_h as nat, keep),
                    c,
                ).0,
                paint(
                    old(buffer)@,
                    w,
                    scan(min_x as int, min_y as int, ox as nat, box_h as nat, keep),
                    c,
                ).1 is None,
            decreases box_w - ox,
        {
            let ghost done = scan(min_x as int, min_y as int, ox as nat, box_h as nat, keep);
            let x = min_x + ox;
            let mut oy: i128 = 0;
            while oy < box_h
                invariant
                    w == self.width(),
                    w >= 0,
                    len == old(buffer)@.len(),
                    c == color.spec_u32(),
                    keep == covered_by(pa, pb, pc),
                    triangle_tuple@.len() == 3,
                    pa == point(triangle_tuple@[0]),
                    pb == point(triangle_tuple@[1]),
                    pc == point(triangle_tuple@[2]),
                triangle_tuple@.len() == 3,
                pa == point(triangle_tuple@[0]),
                pb == point(triangle_tuple@[1]),
                pc == point(triangle_tuple@[2]),
                    pa == (ax as int, ay as int),
                    pb == (bx as int, by as int),
                    pc == (cx as int, cy as int),
                    -MAX_TRIANGLE_COORD <= min_x <= ax <= max_x <= MAX_TRIANGLE_COORD,
                    min_x <= bx <= max_x,
                    min_x <= cx <= max_x,
                    -MAX_TRIANGLE_COORD <= min_y <= ay <= max_y <= MAX_TRIANGLE_COORD,
                    min_y <= by <= max_y,
                    min_y <= cy <= max_y,
                    box_w == max_x - min_x + 1,
                    box_h == max_y - min_y + 1,
                    full == scan(min_x as int, min_y as int, box_w as nat, box_h as nat, keep),
                    full == triangle_pixels(pa, pb, pc),
                full == triangle_pixels(pa, pb, pc),
                    0 <= ox < box_w,
                    x == min_x + ox,
                    0 <= oy <= box_h,
                    done == scan(min_x as int, min_y as int, ox as nat, box_h as nat, keep),
                    buffer@ == paint(
                        old(buffer)@,
                        w,
                        done + scan_column(x as int, min_y as int, oy as nat, keep),
                        c,
                    ).0,
                    paint(
                        old(buffer)@,
                        w,
                        done + scan_column(x as int, min_y as int, oy as nat, keep),
                        c,
                    ).1 is None,
                decreases box_h - oy,
            {
                let ghost before = done + scan_column(x as int, min_y as int, oy as nat, keep);
                let y = min_y + oy;
                let e_ab = edge_value(ax, ay, bx, by, x, y);
                let e_bc = edge_value(bx, by, cx, cy, x, y);
                let e_ca = edge_value(cx, cy, ax, ay, x, y);
                assert(keep(x as int, y as int) == (e_ab >= 0 && e_bc >= 0 && e_ca >= 0));
                if e_ab >= 0 && e_bc >= 0 && e_ca >= 0 {
                    let ghost p = (x as int, y as int);
                    proof {
                        lemma_paint_len(old(buffer)@, w, before, c);
                        lemma_paint_push(old(buffer)@, w, before, p, c);
                        assert(done + scan_column(x as int, min_y as int, (oy + 1) as nat, keep)
                            =~= before.push(p));
                    }
                    let res = if x < 0 || y < 0 || x > usize::MAX as i128 || y > usize::MAX as i128 {
                        Err(
                            RendererError::OutOfBounds(
                                Vector2::new(
                                    [#[verifier::truncate] (x as usize), #[verifier::truncate] (y as usize)],
                                ),
                            ),
                        )
                    } else {
                        let q = Vector2::new([x as usize, y as usize]);
                        self.draw_pixel(buffer, q, color)
                    };
                    if res.is_err() {
                        proof {
                            lemma_scan_prefix(
                                min_x as int,
                                min_y as int,
                                ox as nat,
                                box_w as nat,
                                (oy + 1) as nat,
                                box_h as nat,
                                keep,
                            );
                            lemma_paint_stops(old(buffer)@, w, before.push(p), full, c);
                        }
                        return res;
                    }
                } else {
                    assert(done + scan_column(x as int, min_y as int, (oy + 1) as nat, keep)
                        == before);
                }
                oy += 1;
            }
            assert(scan(min_x as int, min_y as int, (ox + 1) as nat, box_h as nat, keep) == done
                + scan_column(x as int, min_y as int, box_h as nat, keep));
            ox += 1;
        }
        Ok(())
    }

    /// The same position with each coordinate read as `isize`.
    pub fn usize_vector_to_isize(&self, v: Vector2<usize>) -> (r: Vector2<isize>)
        ensures
            r@ == seq![v@[0] as isize, v@[1] as isize],
    {
        Vector2::new([#[verifier::truncate] (v.x() as isize), #[verifier::truncate] (v.y() as isize)])
    }

    /// Draws a marker for every vertex, in order, stopping at the first pixel
    /// outside the buffer.
    pub fn vertex_render(&self, buffer: &mut [u32], mesh: &ScreenMesh) -> (r: Result<
        (),
        RendererError,
    >)
        requires
            mesh.markers_fit(),
        ensures
            ({
                let (b, miss) = paint(
                    old(buffer)@,
                    self.width(),
                    markers(mesh.vertices@, mesh.vertices@.len()),
                    VERTEX_COLOR.spec_u32(),
                );
                final(buffer)@ == b && reports(r, miss)
            }),
    {
        let ghost w = self.width();
        let ghost c = VERTEX_COLOR.spec_u32();
        let ghost vs = mesh.vertices@;
        let n = mesh.vertices.len();
        let mut i: usize = 0;
        while i < n
            invariant
                w == self.width(),
                c == VERTEX_COLOR.spec_u32(),
                vs == mesh.vertices@,
                n == vs.len(),
                mesh.markers_fit(),
                i <= n,
                buffer@ == paint(old(buffer)@, w, markers(vs, i as nat), c).0,
                paint(old(buffer)@, w, markers(vs, i as nat), c).1 is None,
            decreases n - i,
        {
            let v = mesh.vertices[i];
            let res = self.draw_vertex(buffer, v);
            proof {
                lemma_paint_append(
                    old(buffer)@,
                    w,
                    markers(vs, i as nat),
                    marker_pixels(screen_point(v).0, screen_point(v).1),
                    c,
                );
                assert(markers(vs, (i + 1) as nat) == markers(vs, i as nat) + marker_pixels(
                    screen_point(v).0,
                    screen_point(v).1,
                ));
            }
            if res.is_err() {
                proof {
                    lemma_concat_prefix(marker_parts(vs), (i + 1) as nat, n as nat);
                    lemma_paint_stops(
                        old(buffer)@,
                        w,
                        markers(vs, (i + 1) as nat),
                        markers(vs, n as nat),
                        c,
                    );
                }
                return res;
            }
            i += 1;
        }
        Ok(())
    }

    /// Draws the three edges of every face, face after face, stopping at the
    /// first pixel outside the buffer.
    pub fn edge_render(&self, buffer: &mut [u32], mesh: &ScreenMesh) -> (r: Result<
        (),
        RendererError,
    >)
        requires
            mesh.faces_valid(),
        ensures
            ({
                let (b, miss) = paint(
                    old(buffer)@,
                    self.width(),
                    outlines(mesh.vertices@, mesh.faces@, mesh.faces@.len()),
                    EDGE_COLOR.spec_u32(),
                );
                final(buffer)@ == b && reports(r, miss)
            }),
    {
        let ghost w = self.width();
        let ghost c = EDGE_COLOR.spec_u32();
        let ghost vs = mesh.vertices@;
        let ghost fs = mesh.faces@;
        let n = mesh.faces.len();
        let mut i: usize = 0;
        while i < n
            invariant
                w == self.width(),
                c == EDGE_COLOR.spec_u32(),
                vs == mesh.vertices@,
                fs == mesh.faces@,
                n == fs.len(),
                mesh.faces_valid(),
                i <= n,
                buffer@ == paint(old(buffer)@, w, outlines(vs, fs, i as nat), c).0,
                paint(old(buffer)@, w, outlines(vs, fs, i as nat), c).1 is None,
            decreases n - i,
        {
            let face = mesh.faces[i];
            let ghost done = outlines(vs, fs, i as nat);
            let mut k: usize = 0;
            while k < 3
                invariant
                    w == self.width(),
                    c == EDGE_COLOR.spec_u32(),
                    vs == mesh.vertices@,
                    fs == mesh.faces@,
                    n == fs.len(),
                    mesh.faces_valid(),
                    i < n,
                    face == fs[i as int],
                    k <= 3,
                    done == outlines(vs, fs, i as nat),
                    buffer@ == paint(
                        old(buffer)@,
                        w,
                        done + concat_upto(edge_parts(vs, face), k as nat),
                        c,
                    ).0,
                    paint(
                        old(buffer)@,
                        w,
                        done + concat_upto(edge_parts(vs, face), k as nat),
                        c,
                    ).1 is None,
                decreases 3 - k,
            {
                let ghost before = done + concat_upto(edge_parts(vs, face), k as nat);
                assert(face@[k as int] < vs.len() && face@[((k + 1) % 3) as int] < vs.len());
                let p = self.usize_vector_to_isize(mesh.vertices[face[k] as usize]);
                let q = self.usize_vector_to_isize(mesh.vertices[face[(k + 1) % 3] as usize]);
                let res = self.bresenham_line(EDGE_COLOR, buffer, p.x(), p.y(), q.x(), q.y());
                proof {
                    lemma_paint_append(old(buffer)@, w, before, face_edge(vs, face, k as int), c);
                    assert(done + concat_upto(edge_parts(vs, face), (k + 1) as nat) =~= before
                        + face_edge(vs, face, k as int));
                }
                if res.is_err() {
                    proof {
                        lemma_concat_prefix(edge_parts(vs, face), (k + 1) as nat, 3);
                        lemma_concat_prefix(outline_parts(vs, fs), (i + 1) as nat, n as nat);
                        assert(outlines(vs, fs, (i + 1) as nat) == done + face_outline(vs, face));
                        lemma_prefix_of_prefix(
                            done,
                            concat_upto(edge_parts(vs, face), (k + 1) as nat),
                            face_outline(vs, face),
                            outlines(vs, fs, n as nat),
                        );
                        lemma_paint_stops(
                            old(buffer)@,
                            w,
                            done + concat_upto(edge_parts(vs, face), (k + 1) as nat),
                            outlines(vs, fs, n as nat),
                            c,
                        );
                    }
                    return res;
                }
                k += 1;
            }
            assert(outlines(vs, fs, (i + 1) as nat) == done + face_outline(vs, face));
            i += 1;
        }
        Ok(())
    }

    /// Fills every face that does not look away, in order, each in the next
    /// color of the palette, stopping at the first pixel outside the buffer.
    pub fn face_render(&self, buffer: &mut [u32], mesh: &ScreenMesh) -> (r: Result<
        (),
        RendererError,
    >)
        requires
            mesh.faces_valid(),
            mesh.flags_complete(),
            mesh.triangles_fit(),
        ensures
            ({
                let (b, miss) = paint_strokes(
                    old(buffer)@,
                    self.width(),
                    face_strokes(mesh.vertices@, mesh.faces@, mesh.facing_away@, mesh.faces@.len()),
                );
                final(buffer)@ == b && reports(r, miss)
            }),
    {
        let ghost w = self.width();
        let ghost vs = mesh.vertices@;
        let ghost fs = mesh.faces@;
        let ghost away = mesh.facing_away@;
        let n = mesh.faces.len();
        let mut color_index: usize = 0;
        let mut i: usize = 0;
        while i < n
            invariant
                w == self.width(),
                vs == mesh.vertices@,
                fs == mesh.faces@,
                away == mesh.facing_away@,
                n == fs.len(),
                mesh.faces_valid(),
                mesh.flags_complete(),
                mesh.triangles_fit(),
                i <= n,
                color_index <= i,
                color_index == face_strokes(vs, fs, away, i as nat).len(),
                buffer@ == paint_strokes(old(buffer)@, w, face_strokes(vs, fs, away, i as nat)).0,
                paint_strokes(old(buffer)@, w, face_strokes(vs, fs, away, i as nat)).1 is None,
            decreases n - i,
        {
            if !mesh.facing_away[i] {
                let face = mesh.faces[i];
                assert(face@[0] < vs.len() && face@[1] < vs.len() && face@[2] < vs.len());
                let a = mesh.vertices[face[0] as usize];
                let b = mesh.vertices[face[1] as usize];
                let c = mesh.vertices[face[2] as usize];
                let triangle = vec![
                    (a.x() as isize, a.y() as isize),
                    (b.x() as isize, b.y() as isize),
                    (c.x() as isize, c.y() as isize),
                ];
                assert(in_triangle_range(triangle@[0]) && in_triangle_range(triangle@[1])
                    && in_triangle_range(triangle@[2]));
                assert(point(triangle@[0]) == screen_point(a) && point(triangle@[1])
                    == screen_point(b) && point(triangle@[2]) == screen_point(c));
                let color = face_color(color_index);
                let res = self.draw_triangles(buffer, triangle, color);
                let ghost before = face_strokes(vs, fs, away, i as nat);
                proof {
                    assert(face_strokes(vs, fs, away, (i + 1) as nat) == before.push(
                        (face_triangle(vs, face), color.spec_u32()),
                    ));
                    assert(before.push((face_triangle(vs, face), color.spec_u32())).drop_last()
                        =~= before);
                }
                if res.is_err() {
                    proof {
                        lemma_face_strokes_prefix(vs, fs, away, (i + 1) as nat, n as nat);
                        lemma_strokes_stop(
                            old(buffer)@,
                            w,
                            face_strokes(vs, fs, away, (i + 1) as nat),
                            face_strokes(vs, fs, away, n as nat),
                        );
                    }
                    return res;
                }
                color_index += 1;
            }
            i += 1;
        }
        Ok(())
    }

    /// Draws the mesh in the chosen mode: vertex markers, wireframe edges or
    /// filled faces.
    pub fn render(&self, buffer: &mut [u32], mesh: &ScreenMesh, render_type: RenderType) -> (r:
        Result<(), RendererError>)
        requires
            render_type == RenderType::Vertex ==> mesh.markers_fit(),
            render_type == RenderType::Edge ==> mesh.faces_valid(),
            render_type == RenderType::Face ==> mesh.faces_valid() && mesh.flags_complete()
                && mesh.triangles_fit(),
        ensures
            ({
                let (b, miss) = match render_type {
                    RenderType::Vertex => paint(
                        old(buffer)@,
                        self.width(),
                        markers(mesh.vertices@, mesh.vertices@.len()),
                        VERTEX_COLOR.spec_u32(),
                    ),
                    RenderType::Edge => paint(
                        old(buffer)@,
                        self.width(),
                        outlines(mesh.vertices@, mesh.faces@, mesh.faces@.len()),
                        EDGE_COLOR.spec_u32(),
                    ),
                    RenderType::Face => paint_strokes(
                        old(buffer)@,
                        self.width(),
                        face_strokes(
                            mesh.vertices@,
                            mesh.faces@,
                            mesh.facing_away@,
                            mesh.faces@.len(),
                        ),
                    ),
                };
                final(buffer)@ == b && reports(r, miss)
            }),
    {
        match render_type {
            RenderType::Vertex => self.vertex_render(buffer, mesh),
            RenderType::Edge => self.edge_render(buffer, mesh),
            RenderType::Face => self.face_render(buffer, mesh),
        }
    }
}

} // verus!
