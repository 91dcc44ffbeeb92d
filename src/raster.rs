//! What drawing means: the pixels each primitive covers, in drawing order,
//! and what writing a run of pixels into a row-major buffer leaves behind.

use vstd::prelude::*;

verus! {

/// Index of pixel `p` in a row-major buffer whose rows are `width` long.
pub open spec fn offset(width: int, p: (int, int)) -> int {
    p.0 + p.1 * width
}

/// Whether pixel `p` is a position (both coordinates fit in `usize`) whose
/// index is inside a buffer of `len` entries.
pub open spec fn lands(len: int, width: int, p: (int, int)) -> bool {
    0 <= p.0 <= usize::MAX && 0 <= p.1 <= usize::MAX && 0 <= offset(width, p) < len
}

/// Writing `color` at each pixel of `pixels` in turn, stopping at the first
/// pixel that does not land in the buffer. Gives the resulting buffer and
/// that pixel, if there is one.
pub open spec fn paint(buf: Seq<u32>, width: int, pixels: Seq<(int, int)>, color: u32) -> (Seq<
    u32,
>, Option<(int, int)>)
    decreases pixels.len(),
{
    if pixels.len() == 0 {
        (buf, None)
    } else {
        let (b, miss) = paint(buf, width, pixels.drop_last(), color);
        let p = pixels.last();
        if miss is Some {
            (b, miss)
        } else if lands(b.len() as int, width, p) {
            (b.update(offset(width, p), color), None)
        } else {
            (b, Some(p))
        }
    }
}

pub proof fn lemma_paint_len(buf: Seq<u32>, width: int, pixels: Seq<(int, int)>, color: u32)
    ensures
        paint(buf, width, pixels, color).0.len() == buf.len(),
    decreases pixels.len(),
{
    if pixels.len() > 0 {
        lemma_paint_len(buf, width, pixels.drop_last(), color);
    }
}

/// Painting one more pixel after a run that stayed inside the buffer.
pub proof fn lemma_paint_push(
    buf: Seq<u32>,
    width: int,
    pixels: Seq<(int, int)>,
    p: (int, int),
    color: u32,
)
    requires
        paint(buf, width, pixels, color).1 is None,
    ensures
        ({
            let b = paint(buf, width, pixels, color).0;
            paint(buf, width, pixels.push(p), color) == if lands(buf.len() as int, width, p) {
                (b.update(offset(width, p), color), None::<(int, int)>)
            } else {
                (b, Some(p))
            }
        }),
{
    lemma_paint_len(buf, width, pixels, color);
    assert(pixels.push(p).drop_last() =~= pixels);
}

/// Painting two runs one after the other is painting their concatenation.
pub proof fn lemma_paint_append(
    buf: Seq<u32>,
    width: int,
    a: Seq<(int, int)>,
    b: Seq<(int, int)>,
    color: u32,
)
    ensures
        paint(buf, width, a + b, color) == if paint(buf, width, a, color).1 is Some {
            paint(buf, width, a, color)
        } else {
            paint(paint(buf, width, a, color).0, width, b, color)
        },
    decreases b.len(),
{
    lemma_paint_len(buf, width, a, color);
    if b.len() == 0 {
        assert(a + b =~= a);
    } else {
        lemma_paint_append(buf, width, a, b.drop_last(), color);
        assert((a + b).drop_last() =~= a + b.drop_last());
        lemma_paint_len(buf, width, a + b.drop_last(), color);
        if paint(buf, width, a, color).1 is None {
            lemma_paint_len(paint(buf, width, a, color).0, width, b.drop_last(), color);
        }
    }
}

/// Once a run has left the buffer, whatever follows it is not drawn.
pub proof fn lemma_paint_stops(
    buf: Seq<u32>,
    width: int,
    a: Seq<(int, int)>,
    full: Seq<(int, int)>,
    color: u32,
)
    requires
        a.is_prefix_of(full),
        paint(buf, width, a, color).1 is Some,
    ensures
        paint(buf, width, full, color) == paint(buf, width, a, color),
{
    lemma_paint_append(buf, width, a, full.skip(a.len() as int), color);
    assert(a + full.skip(a.len() as int) =~= full);
}

/// The runs `parts(0)`, ..., `parts(n - 1)`, one after the other.
pub open spec fn concat_upto(parts: spec_fn(int) -> Seq<(int, int)>, n: nat) -> Seq<(int, int)>
    decreases n,
{
    if n == 0 {
        Seq::empty()
    } else {
        concat_upto(parts, (n - 1) as nat) + parts(n - 1)
    }
}

pub proof fn lemma_concat_prefix(parts: spec_fn(int) -> Seq<(int, int)>, n1: nat, n2: nat)
    requires
        n1 <= n2,
    ensures
        concat_upto(parts, n1).is_prefix_of(concat_upto(parts, n2)),
    decreases n2,
{
    if n1 < n2 {
        lemma_concat_prefix(parts, n1, (n2 - 1) as nat);
    }
}

/// If `b1` starts `b2` and `a + b2` starts `full`, then `a + b1` starts
/// `full` too.
pub proof fn lemma_prefix_of_prefix(
    a: Seq<(int, int)>,
    b1: Seq<(int, int)>,
    b2: Seq<(int, int)>,
    full: Seq<(int, int)>,
)
    requires
        b1.is_prefix_of(b2),
        (a + b2).is_prefix_of(full),
    ensures
        (a + b1).is_prefix_of(full),
{
    assert forall|k: int| 0 <= k < (a + b1).len() implies (a + b1)[k] == full[k] by {
        if k < a.len() {
            assert((a + b2)[k] == full[k]);
        } else {
            assert(b1[k - a.len()] == b2[k - a.len()]);
            assert((a + b2)[k] == full[k]);
        }
    }
    assert((a + b1) =~= full.subrange(0, (a + b1).len() as int));
}

/// Painting runs of pixels, each in its own color, one after the other,
/// stopping at the first pixel outside the buffer.
pub open spec fn paint_strokes(buf: Seq<u32>, width: int, strokes: Seq<(Seq<(int, int)>, u32)>) -> (
    Seq<u32>,
    Option<(int, int)>,
)
    decreases strokes.len(),
{
    if strokes.len() == 0 {
        (buf, None)
    } else {
        let (b, miss) = paint_strokes(buf, width, strokes.drop_last());
        if miss is Some {
            (b, miss)
        } else {
            paint(b, width, strokes.last().0, strokes.last().1)
        }
    }
}

/// Once a run of strokes has left the buffer, whatever follows it is not
/// drawn.
pub proof fn lemma_strokes_stop(
    buf: Seq<u32>,
    width: int,
    a: Seq<(Seq<(int, int)>, u32)>,
    full: Seq<(Seq<(int, int)>, u32)>,
)
    requires
        a.is_prefix_of(full),
        paint_strokes(buf, width, a).1 is Some,
    ensures
        paint_strokes(buf, width, full) == paint_strokes(buf, width, a),
    decreases full.len(),
{
    if full.len() == a.len() {
        assert(full =~= a);
    } else {
        assert(a.is_prefix_of(full.drop_last()));
        lemma_strokes_stop(buf, width, a, full.drop_last());
    }
}

/// Column `x` of a scan: the pixels `(x, y0)`, ..., `(x, y0 + h - 1)` that
/// `keep` accepts, from the top down.
pub open spec fn scan_column(x: int, y0: int, h: nat, keep: spec_fn(int, int) -> bool) -> Seq<
    (int, int),
>
    decreases h,
{
    if h == 0 {
        Seq::empty()
    } else {
        let rest = scan_column(x, y0, (h - 1) as nat, keep);
        let y = y0 + h - 1;
        if keep(x, y) {
            rest.push((x, y))
        } else {
            rest
        }
    }
}

/// The pixels of the `w` by `h` box whose top left corner is `(x0, y0)` that
/// `keep` accepts, column after column.
pub open spec fn scan(x0: int, y0: int, w: nat, h: nat, keep: spec_fn(int, int) -> bool) -> Seq<
    (int, int),
>
    decreases w,
{
    if w == 0 {
        Seq::empty()
    } else {
        scan(x0, y0, (w - 1) as nat, h, keep) + scan_column(x0 + w - 1, y0, h, keep)
    }
}

/// Accepts every pixel.
pub open spec fn every_pixel() -> spec_fn(int, int) -> bool {
    |x: int, y: int| true
}

proof fn lemma_scan_column_prefix(
    x: int,
    y0: int,
    h1: nat,
    h2: nat,
    keep: spec_fn(int, int) -> bool,
)
    requires
        h1 <= h2,
    ensures
        scan_column(x, y0, h1, keep).is_prefix_of(scan_column(x, y0, h2, keep)),
    decreases h2,
{
    if h1 < h2 {
        lemma_scan_column_prefix(x, y0, h1, (h2 - 1) as nat, keep);
    }
}

/// A scan of the first `w1` columns is the start of a scan of `w2 >= w1`
/// columns, and so is a scan of the first `w1` columns followed by part of
/// the next column.
pub proof fn lemma_scan_prefix(
    x0: int,
    y0: int,
    w1: nat,
    w2: nat,
    h1: nat,
    h: nat,
    keep: spec_fn(int, int) -> bool,
)
    requires
        w1 < w2,
        h1 <= h,
    ensures
        scan(x0, y0, w1, h, keep).is_prefix_of(scan(x0, y0, w2, h, keep)),
        (scan(x0, y0, w1, h, keep) + scan_column(x0 + w1, y0, h1, keep)).is_prefix_of(
            scan(x0, y0, w2, h, keep),
        ),
    decreases w2 - w1,
{
    let a = scan(x0, y0, w1, h, keep);
    lemma_scan_column_prefix(x0 + w1, y0, h1, h, keep);
    assert((a + scan_column(x0 + w1, y0, h1, keep)).is_prefix_of(scan(x0, y0, w1 + 1, h, keep)));
    if w1 + 1 < w2 {
        lemma_scan_prefix(x0, y0, w1 + 1, w2, h1, h, keep);
        assert(a.is_prefix_of(scan(x0, y0, w1 + 1, h, keep)));
    }
}

proof fn lemma_scan_column_contains(
    x: int,
    y0: int,
    h: nat,
    keep: spec_fn(int, int) -> bool,
    p: (int, int),
)
    ensures
        scan_column(x, y0, h, keep).contains(p) <==> (p.0 == x && y0 <= p.1 < y0 + h && keep(
            p.0,
            p.1,
        )),
    decreases h,
{
    if h > 0 {
        let rest = scan_column(x, y0, (h - 1) as nat, keep);
        lemma_scan_column_contains(x, y0, (h - 1) as nat, keep, p);
        let y = y0 + h - 1;
        if keep(x, y) {
            if p == (x, y) {
                assert(rest.push((x, y))[rest.len() as int] == p);
            }
            if rest.push((x, y)).contains(p) && p != (x, y) {
                let k = choose|k: int| 0 <= k < rest.len() + 1 && rest.push((x, y))[k] == p;
                assert(rest[k] == p);
            }
            if rest.contains(p) {
                let k = choose|k: int| 0 <= k < rest.len() && rest[k] == p;
                assert(rest.push((x, y))[k] == p);
            }
        }
    }
}

/// A pixel is in a scan exactly when it lies in the box and `keep` accepts it.
pub proof fn lemma_scan_contains(
    x0: int,
    y0: int,
    w: nat,
    h: nat,
    keep: spec_fn(int, int) -> bool,
    p: (int, int),
)
    ensures
        scan(x0, y0, w, h, keep).contains(p) <==> (x0 <= p.0 < x0 + w && y0 <= p.1 < y0 + h
            && keep(p.0, p.1)),
    decreases w,
{
    if w > 0 {
        let a = scan(x0, y0, (w - 1) as nat, h, keep);
        let b = scan_column(x0 + w - 1, y0, h, keep);
        lemma_scan_contains(x0, y0, (w - 1) as nat, h, keep, p);
        lemma_scan_column_contains(x0 + w - 1, y0, h, keep, p);
        if (a + b).contains(p) {
            let k = choose|k: int| 0 <= k < (a + b).len() && (a + b)[k] == p;
            if k < a.len() {
                assert(a[k] == p);
            } else {
                assert(b[k - a.len()] == p);
            }
        }
        if a.contains(p) {
            let k = choose|k: int| 0 <= k < a.len() && a[k] == p;
            assert((a + b)[k] == p);
        }
        if b.contains(p) {
            let k = choose|k: int| 0 <= k < b.len() && b[k] == p;
            assert((a + b)[a.len() + k] == p);
        }
    }
}

/// Half the side of a vertex marker: the marker reaches this far on each
/// side of its center.
pub open spec fn marker_reach() -> int {
    6
}

/// First row (or column) of a marker centered on row (or column) `c`; the
/// marker is cut off at zero.
pub open spec fn marker_start(c: int) -> int {
    if c >= marker_reach() {
        c - marker_reach()
    } else {
        0
    }
}

/// The pixels of the square marker drawn for a vertex at `(cx, cy)`, in
/// drawing order.
pub open spec fn marker_pixels(cx: int, cy: int) -> Seq<(int, int)> {
    scan(
        marker_start(cx),
        marker_start(cy),
        (2 * marker_reach() + 1) as nat,
        (2 * marker_reach() + 1) as nat,
        every_pixel(),
    )
}

/// A marker covers exactly the square of side 13 that starts at its corner.
pub proof fn lemma_marker_square(cx: int, cy: int, p: (int, int))
    ensures
        marker_pixels(cx, cy).contains(p) <==> (marker_start(cx) <= p.0 <= marker_start(cx) + 12
            && marker_start(cy) <= p.1 <= marker_start(cy) + 12),
{
    lemma_scan_contains(marker_start(cx), marker_start(cy), 13, 13, every_pixel(), p);
}

/// Distance between `a` and `b` on one axis.
pub open spec fn dist(a: int, b: int) -> int {
    if a < b {
        b - a
    } else {
        a - b
    }
}

/// `a` moved `k` steps toward `b`.
pub open spec fn toward(a: int, b: int, k: int) -> int {
    if a < b {
        a + k
    } else {
        a - k
    }
}

/// Bresenham's error term for a line spanning `dx` columns and `dy` rows,
/// after `i` steps along x and `j` steps along y.
pub open spec fn line_error(dx: int, dy: int, i: int, j: int) -> int {
    dx - dy + dx * j - dy * i
}

/// Whether the step after `(i, j)` advances along x.
pub open spec fn steps_x(dx: int, dy: int, i: int, j: int) -> bool {
    2 * line_error(dx, dy, i, j) >= -dy
}

/// Whether the step after `(i, j)` advances along y.
pub open spec fn steps_y(dx: int, dy: int, i: int, j: int) -> bool {
    2 * line_error(dx, dy, i, j) <= dx
}

/// Before the end, every step advances along at least one axis and never
/// past the end point.
pub proof fn lemma_line_step(dx: int, dy: int, i: int, j: int)
    requires
        0 <= i <= dx,
        0 <= j <= dy,
        !(i == dx && j == dy),
    ensures
        steps_x(dx, dy, i, j) || steps_y(dx, dy, i, j),
        steps_x(dx, dy, i, j) ==> i < dx,
        steps_y(dx, dy, i, j) ==> j < dy,
{
    if i == dx {
        assert(dx * j <= dx * (dy - 1)) by (nonlinear_arith)
            requires
                0 <= dx,
                j <= dy - 1,
        ;
        assert(dx * (dy - 1) == dx * dy - dx) by (nonlinear_arith);
        assert(dy * dx == dx * dy) by (nonlinear_arith);
    }
    if j == dy {
        assert(dy * i <= dy * (dx - 1)) by (nonlinear_arith)
            requires
                0 <= dy,
                i <= dx - 1,
        ;
        assert(dy * (dx - 1) == dy * dx - dy) by (nonlinear_arith);
        assert(dy * dx == dx * dy) by (nonlinear_arith);
    }
}

/// The pixels of the Bresenham line from `(x0, y0)` to `(x1, y1)`, from the
/// point `i` steps along x and `j` steps along y to the end.
pub open spec fn line_from(x0: int, y0: int, x1: int, y1: int, i: int, j: int) -> Seq<(int, int)>
    decreases (dist(x0, x1) - i) + (dist(y0, y1) - j),
    when 0 <= i <= dist(x0, x1) && 0 <= j <= dist(y0, y1)
    via line_from_decreases
{
    let dx = dist(x0, x1);
    let dy = dist(y0, y1);
    let p = (toward(x0, x1, i), toward(y0, y1, j));
    if i == dx && j == dy {
        seq![p]
    } else {
        let ni = if steps_x(dx, dy, i, j) {
            i + 1
        } else {
            i
        };
        let nj = if steps_y(dx, dy, i, j) {
            j + 1
        } else {
            j
        };
        seq![p] + line_from(x0, y0, x1, y1, ni, nj)
    }
}

#[via_fn]
proof fn line_from_decreases(x0: int, y0: int, x1: int, y1: int, i: int, j: int) {
    let dx = dist(x0, x1);
    let dy = dist(y0, y1);
    if 0 <= i <= dx && 0 <= j <= dy && !(i == dx && j == dy) {
        lemma_line_step(dx, dy, i, j);
    }
}

/// The pixels of the Bresenham line from `(x0, y0)` to `(x1, y1)`, both
/// ends included, in drawing order.
pub open spec fn line_pixels(x0: int, y0: int, x1: int, y1: int) -> Seq<(int, int)> {
    line_from(x0, y0, x1, y1, 0, 0)
}

/// The edge function of the edge from `a` to `b` at pixel `(x, y)`: its
/// sign tells on which side of the edge the pixel lies.
pub open spec fn edge(a: (int, int), b: (int, int), x: int, y: int) -> int {
    (y - a.1) * (a.0 - b.0) - (x - a.0) * (a.1 - b.1)
}

/// Whether all three edge functions of triangle `a b c` are non-negative at
/// `(x, y)`.
pub open spec fn covers(a: (int, int), b: (int, int), c: (int, int), x: int, y: int) -> bool {
    edge(a, b, x, y) >= 0 && edge(b, c, x, y) >= 0 && edge(c, a, x, y) >= 0
}

/// The pixels that triangle `a b c` covers.
pub open spec fn covered_by(a: (int, int), b: (int, int), c: (int, int)) -> spec_fn(int, int) -> bool {
    |x: int, y: int| covers(a, b, c, x, y)
}

pub open spec fn min3(a: int, b: int, c: int) -> int {
    if a <= b && a <= c {
        a
    } else if b <= c {
        b
    } else {
        c
    }
}

pub open spec fn max3(a: int, b: int, c: int) -> int {
    if a >= b && a >= c {
        a
    } else if b >= c {
        b
    } else {
        c
    }
}

/// The pixels filled for triangle `a b c`: those of its bounding box
/// (borders included) that it covers, column after column.
pub open spec fn triangle_pixels(a: (int, int), b: (int, int), c: (int, int)) -> Seq<(int, int)> {
    let x0 = min3(a.0, b.0, c.0);
    let y0 = min3(a.1, b.1, c.1);
    scan(
        x0,
        y0,
        (max3(a.0, b.0, c.0) - x0 + 1) as nat,
        (max3(a.1, b.1, c.1) - y0 + 1) as nat,
        covered_by(a, b, c),
    )
}

/// Twice the signed area of triangle `a b c`, positive when its vertices
/// wind the way whose inside the edge functions accept: the sum of its three
/// edge functions at any pixel.
pub open spec fn facing(a: (int, int), b: (int, int), c: (int, int)) -> int {
    (c.0 - a.0) * (b.1 - a.1) - (c.1 - a.1) * (b.0 - a.0)
}

/// The three edge functions of a triangle add up to the same value at every
/// pixel.
pub proof fn lemma_edge_sum(a: (int, int), b: (int, int), c: (int, int), x: int, y: int)
    ensures
        edge(a, b, x, y) + edge(b, c, x, y) + edge(c, a, x, y) == facing(a, b, c),
{
    lemma_edge_expand(a, b, x, y);
    lemma_edge_expand(b, c, x, y);
    lemma_edge_expand(c, a, x, y);
    assert(facing(a, b, c) == c.0 * b.1 - c.0 * a.1 - a.0 * b.1 - c.1 * b.0 + c.1 * a.0 + a.1
        * b.0) by (nonlinear_arith);
}

proof fn lemma_edge_expand(a: (int, int), b: (int, int), x: int, y: int)
    ensures
        edge(a, b, x, y) == y * a.0 - y * b.0 + a.1 * b.0 - x * a.1 + x * b.1 - a.0 * b.1,
{
    lemma_product_expand(y, a.1, a.0, b.0);
    lemma_product_expand(x, a.0, a.1, b.1);
}

proof fn lemma_product_expand(p: int, q: int, r: int, s: int)
    ensures
        (p - q) * (r - s) == p * r - p * s - q * r + q * s,
{
    assert((p - q) * (r - s) == p * r - p * s - q * r + q * s) by (nonlinear_arith);
}

/// A triangle whose vertices wind the wrong way faces away and covers no
/// pixel at all.
pub proof fn lemma_back_face_draws_nothing(a: (int, int), b: (int, int), c: (int, int))
    requires
        facing(a, b, c) < 0,
    ensures
        triangle_pixels(a, b, c) =~= Seq::<(int, int)>::empty(),
{
    let px = triangle_pixels(a, b, c);
    if px.len() > 0 {
        let p = px[0];
        assert(px.contains(p));
        let x0 = min3(a.0, b.0, c.0);
        let y0 = min3(a.1, b.1, c.1);
        lemma_scan_contains(
            x0,
            y0,
            (max3(a.0, b.0, c.0) - x0 + 1) as nat,
            (max3(a.1, b.1, c.1) - y0 + 1) as nat,
            covered_by(a, b, c),
            p,
        );
        lemma_edge_sum(a, b, c, p.0, p.1);
    }
}

/// Swapping two vertices turns a triangle around. One that does not face
/// away covers its first vertex, so it draws at least one pixel, and every
/// pixel it draws lies in its bounding box.
pub proof fn lemma_front_face_draws_in_box(a: (int, int), b: (int, int), c: (int, int))
    ensures
        facing(a, c, b) == -facing(a, b, c),
        facing(a, b, c) >= 0 ==> triangle_pixels(a, b, c).contains(a),
        forall|p: (int, int)|
            #[trigger] triangle_pixels(a, b, c).contains(p) ==> min3(a.0, b.0, c.0) <= p.0 <= max3(
                a.0,
                b.0,
                c.0,
            ) && min3(a.1, b.1, c.1) <= p.1 <= max3(a.1, b.1, c.1),
{
    assert(facing(a, c, b) == -facing(a, b, c)) by (nonlinear_arith);
    let x0 = min3(a.0, b.0, c.0);
    let y0 = min3(a.1, b.1, c.1);
    let w = (max3(a.0, b.0, c.0) - x0 + 1) as nat;
    let h = (max3(a.1, b.1, c.1) - y0 + 1) as nat;
    if facing(a, b, c) >= 0 {
        lemma_scan_contains(x0, y0, w, h, covered_by(a, b, c), a);
        assert(edge(a, b, a.0, a.1) == 0) by (nonlinear_arith);
        assert(edge(c, a, a.0, a.1) == 0) by (nonlinear_arith);
        lemma_edge_sum(a, b, c, a.0, a.1);
    }
    assert forall|p: (int, int)| #[trigger]
        triangle_pixels(a, b, c).contains(p) implies x0 <= p.0 <= max3(a.0, b.0, c.0) && y0
        <= p.1 <= max3(a.1, b.1, c.1) by {
        lemma_scan_contains(x0, y0, w, h, covered_by(a, b, c), p);
    }
}

proof fn lemma_line_from_ends(x0: int, y0: int, x1: int, y1: int, i: int, j: int)
    requires
        0 <= i <= dist(x0, x1),
        0 <= j <= dist(y0, y1),
    ensures
        line_from(x0, y0, x1, y1, i, j).len() >= 1,
        line_from(x0, y0, x1, y1, i, j)[0] == (toward(x0, x1, i), toward(y0, y1, j)),
        line_from(x0, y0, x1, y1, i, j).last() == (x1, y1),
    decreases (dist(x0, x1) - i) + (dist(y0, y1) - j),
{
    let dx = dist(x0, x1);
    let dy = dist(y0, y1);
    if !(i == dx && j == dy) {
        lemma_line_step(dx, dy, i, j);
        let ni = if steps_x(dx, dy, i, j) {
            i + 1
        } else {
            i
        };
        let nj = if steps_y(dx, dy, i, j) {
            j + 1
        } else {
            j
        };
        lemma_line_from_ends(x0, y0, x1, y1, ni, nj);
    }
}

/// A line starts at its first end point and finishes at its second.
pub proof fn lemma_line_ends(x0: int, y0: int, x1: int, y1: int)
    ensures
        line_pixels(x0, y0, x1, y1).len() >= 1,
        line_pixels(x0, y0, x1, y1)[0] == (x0, y0),
        line_pixels(x0, y0, x1, y1).last() == (x1, y1),
{
    lemma_line_from_ends(x0, y0, x1, y1, 0, 0);
}

proof fn lemma_line_from_connected(x0: int, y0: int, x1: int, y1: int, i: int, j: int)
    requires
        0 <= i <= dist(x0, x1),
        0 <= j <= dist(y0, y1),
    ensures
        forall|k: int|
            0 <= k < line_from(x0, y0, x1, y1, i, j).len() - 1 ==> {
                let p = #[trigger] line_from(x0, y0, x1, y1, i, j)[k];
                let q = line_from(x0, y0, x1, y1, i, j)[k + 1];
                &&& dist(p.0, q.0) <= 1
                &&& dist(p.1, q.1) <= 1
                &&& p != q
            },
    decreases (dist(x0, x1) - i) + (dist(y0, y1) - j),
{
    let dx = dist(x0, x1);
    let dy = dist(y0, y1);
    if !(i == dx && j == dy) {
        lemma_line_step(dx, dy, i, j);
        let ni = if steps_x(dx, dy, i, j) {
            i + 1
        } else {
            i
        };
        let nj = if steps_y(dx, dy, i, j) {
            j + 1
        } else {
            j
        };
        lemma_line_from_connected(x0, y0, x1, y1, ni, nj);
        lemma_line_from_ends(x0, y0, x1, y1, ni, nj);
        let s = line_from(x0, y0, x1, y1, i, j);
        let rest = line_from(x0, y0, x1, y1, ni, nj);
        assert forall|k: int| 0 <= k < s.len() - 1 implies {
            let p = #[trigger] s[k];
            let q = s[k + 1];
            &&& dist(p.0, q.0) <= 1
            &&& dist(p.1, q.1) <= 1
            &&& p != q
        } by {
            if k > 0 {
                assert(s[k] == rest[k - 1]);
                assert(s[k + 1] == rest[k]);
            }
        }
    }
}

/// Each pixel of a line touches the next one, sides or corners, and no
/// pixel repeats the one before it.
pub proof fn lemma_line_connected(x0: int, y0: int, x1: int, y1: int)
    ensures
        forall|k: int|
            0 <= k < line_pixels(x0, y0, x1, y1).len() - 1 ==> {
                let p = #[trigger] line_pixels(x0, y0, x1, y1)[k];
                let q = line_pixels(x0, y0, x1, y1)[k + 1];
                &&& dist(p.0, q.0) <= 1
                &&& dist(p.1, q.1) <= 1
                &&& p != q
            },
{
    lemma_line_from_connected(x0, y0, x1, y1, 0, 0);
}

/// A line between a point and itself is that one pixel.
pub proof fn lemma_line_single_point(x: int, y: int)
    ensures
        line_pixels(x, y, x, y) == seq![(x, y)],
{
}

proof fn lemma_line_from_level(x0: int, x1: int, y: int, i: int)
    requires
        0 <= i <= dist(x0, x1),
    ensures
        line_from(x0, y, x1, y, i, 0) =~= Seq::new(
            (dist(x0, x1) - i + 1) as nat,
            |k: int| (toward(x0, x1, i + k), y),
        ),
    decreases dist(x0, x1) - i,
{
    let dx = dist(x0, x1);
    if i < dx {
        lemma_line_from_level(x0, x1, y, i + 1);
        assert(line_error(dx, 0, i, 0) == dx) by (nonlinear_arith);
    }
}

/// A level line is the run of pixels from one end point to the other, one
/// per column.
pub proof fn lemma_line_level(x0: int, x1: int, y: int)
    ensures
        line_pixels(x0, y, x1, y) =~= Seq::new(
            (dist(x0, x1) + 1) as nat,
            |k: int| (toward(x0, x1, k), y),
        ),
{
    lemma_line_from_level(x0, x1, y, 0);
}

} // verus!
