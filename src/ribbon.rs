use vstd::prelude::*;
use crate::point::{dist_sq, distance_sq, dx, dy, StrokePoint, Vec2, UNITS_PER_PX};
use crate::sqrt::{floor_sqrt, is_floor_sqrt, isqrt, lemma_floor_sqrt_exists};

verus! {

/// Width of a segment at full pressure and unit brush scale, in pixels.
pub const BASE_WIDTH_PX: u64 = 12;

/// Largest brush scale, in tenths.
pub const MAX_BRUSH_SCALE: u32 = 50;

/// Divisor that turns a pressure sum (thousandths) times a brush scale (tenths)
/// into an average pressure times a scale factor.
pub const WIDTH_DIVISOR: u64 = 20000;

/// One filled triangle.
#[derive(Clone, Copy, Debug, PartialEq, Eq)]
pub struct Triangle {
    pub a: Vec2,
    pub b: Vec2,
    pub c: Vec2,
}

/// The four corners of the quadrilateral that covers one segment.
#[derive(Clone, Copy, Debug, PartialEq, Eq)]
pub struct Quad {
    pub p0: Vec2,
    pub p1: Vec2,
    pub p2: Vec2,
    pub p3: Vec2,
}

/// A fillable shape: triangles painted in one 24-bit RGB color.
#[derive(Debug)]
pub struct Shape {
    pub triangles: Vec<Triangle>,
    pub color: u32,
}

/// Width of the segment from `a` to `b`, in sub-pixel units: the average
/// pressure times the base width times the brush scale, never below one pixel.
pub open spec fn width_of(a: StrokePoint, b: StrokePoint, scale: int) -> int {
    let w = (a.pressure + b.pressure) * (BASE_WIDTH_PX * UNITS_PER_PX) * scale / (
    WIDTH_DIVISOR as int);
    if w < UNITS_PER_PX {
        UNITS_PER_PX as int
    } else {
        w
    }
}

/// Half the segment width: the distance of each side of the ribbon from its center line.
pub open spec fn half_width(a: StrokePoint, b: StrokePoint, scale: int) -> int {
    width_of(a, b, scale) / 2
}

/// Length of the segment from `a` to `b`, rounded down, and never below one pixel.
pub open spec fn seg_len(a: StrokePoint, b: StrokePoint) -> int {
    let r = floor_sqrt(dist_sq(a, b));
    if r < UNITS_PER_PX {
        UNITS_PER_PX as int
    } else {
        r
    }
}

/// Division that rounds toward zero.
pub open spec fn trunc_div(v: int, d: int) -> int {
    if v >= 0 {
        v / d
    } else {
        -((-v) / d)
    }
}

/// The segment's normal, scaled by the segment length: `(-dy, dx)` times the half width.
pub open spec fn scaled_normal(a: StrokePoint, b: StrokePoint, scale: int) -> (int, int) {
    (-(dy(a, b) * half_width(a, b, scale)), dx(a, b) * half_width(a, b, scale))
}

/// Horizontal part of the normal of half-width length, rounded toward zero.
pub open spec fn normal_x(a: StrokePoint, b: StrokePoint, scale: int) -> int {
    trunc_div(scaled_normal(a, b, scale).0, seg_len(a, b))
}

/// Vertical part of the normal of half-width length, rounded toward zero.
pub open spec fn normal_y(a: StrokePoint, b: StrokePoint, scale: int) -> int {
    trunc_div(scaled_normal(a, b, scale).1, seg_len(a, b))
}

/// `p0 = a - n`, `p1 = a + n`, `p2 = b + n`, `p3 = b - n` for the normal `n` of the segment.
pub open spec fn corners_ok(
    p0: Vec2,
    p1: Vec2,
    p2: Vec2,
    p3: Vec2,
    a: StrokePoint,
    b: StrokePoint,
    scale: int,
) -> bool {
    let nx = normal_x(a, b, scale);
    let ny = normal_y(a, b, scale);
    &&& p0.x == a.x - nx && p0.y == a.y - ny
    &&& p1.x == a.x + nx && p1.y == a.y + ny
    &&& p2.x == b.x + nx && p2.y == b.y + ny
    &&& p3.x == b.x - nx && p3.y == b.y - ny
}

/// `q` is the quadrilateral of the segment from `a` to `b`.
pub open spec fn quad_ok(q: Quad, a: StrokePoint, b: StrokePoint, scale: int) -> bool {
    corners_ok(q.p0, q.p1, q.p2, q.p3, a, b, scale)
}

/// `t0` and `t1` are the triangles `p0,p1,p2` and `p0,p2,p3` of the segment's quadrilateral.
pub open spec fn segment_ok(
    t0: Triangle,
    t1: Triangle,
    a: StrokePoint,
    b: StrokePoint,
    scale: int,
) -> bool {
    &&& t1.a == t0.a
    &&& t1.b == t0.c
    &&& corners_ok(t0.a, t0.b, t0.c, t1.c, a, b, scale)
}

/// Triangles `2i` and `2i + 1` cover the segment from point `i` to point `i + 1`.
pub open spec fn segment_at(
    tris: Seq<Triangle>,
    pts: Seq<StrokePoint>,
    scale: int,
    i: int,
) -> bool {
    segment_ok(tris[2 * i], tris[2 * i + 1], pts[i], pts[i + 1], scale)
}

/// `tris` is the ribbon of `pts`: two triangles per consecutive pair, in order.
pub open spec fn ribbon_ok(tris: Seq<Triangle>, pts: Seq<StrokePoint>, scale: int) -> bool {
    &&& pts.len() >= 1
    &&& tris.len() == 2 * (pts.len() - 1)
    &&& forall|i: int| 0 <= i < pts.len() - 1 ==> #[trigger] segment_at(tris, pts, scale, i)
}

/// `g` is the geometry of a stroke with points `pts`: none below two points,
/// else one shape in `color` that holds the ribbon of `pts`.
pub open spec fn geometry_ok(
    g: Option<Shape>,
    pts: Seq<StrokePoint>,
    color: u32,
    scale: int,
) -> bool {
    if pts.len() < 2 {
        g is None
    } else {
        &&& g is Some
        &&& g.unwrap().color == color
        &&& ribbon_ok(g.unwrap().triangles@, pts, scale)
    }
}

/// Width of the segment from `a` to `b`, in sub-pixel units.
pub fn segment_width(a: StrokePoint, b: StrokePoint, brush_scale: u32) -> (r: u64)
    requires
        brush_scale <= MAX_BRUSH_SCALE,
    ensures
        r == width_of(a, b, brush_scale as int),
        r >= UNITS_PER_PX,
        r <= 1_006_617,
{
    let p: u64 = a.pressure as u64 + b.pressure as u64;
    let s: u64 = brush_scale as u64;
    assert(p * 3072 * s <= 131070 * 3072 * 50) by (nonlinear_arith)
        requires
            p <= 131070,
            s <= 50,
    ;
    let w: u64 = p * (BASE_WIDTH_PX * UNITS_PER_PX) * s / WIDTH_DIVISOR;
    if w < UNITS_PER_PX {
        UNITS_PER_PX
    } else {
        w
    }
}

/// `d * h / len`, rounded toward zero, for an offset `d` of at most 2^32 in size.
fn scaled_offset(d: i64, h: u64, len: u64) -> (r: i64)
    requires
        -0x1_0000_0000 <= d <= 0x1_0000_0000,
        h <= 1_000_000,
        len >= 1,
    ensures
        r == trunc_div(d * h, len as int),
        -0x10_0000_0000_0000 <= r <= 0x10_0000_0000_0000,
{
    let ad: u64 = if d >= 0 { d as u64 } else { (-d) as u64 };
    assert(ad * h <= 0x1_0000_0000 * 1_000_000) by (nonlinear_arith)
        requires
            ad <= 0x1_0000_0000,
            h <= 1_000_000,
    ;
    let m: u64 = ad * h / len;
    assert(m <= ad * h) by (nonlinear_arith)
        requires
            len >= 1,
            m == (ad * h) / (len as int),
            ad * h >= 0,
    ;
    if d >= 0 {
        assert(d * h >= 0) by (nonlinear_arith)
            requires d >= 0, h >= 0;
        m as i64
    } else {
        assert(d * h == -(ad * h)) by (nonlinear_arith)
            requires ad == -d;
        if ad * h == 0 {
            assert(d * h == 0);
            0
        } else {
            -(m as i64)
        }
    }
}

/// The quadrilateral that covers the segment from `a` to `b`: the segment offset
/// on each side by half the segment width, perpendicular to the direction of travel.
pub fn segment_quad(a: StrokePoint, b: StrokePoint, brush_scale: u32) -> (q: Quad)
    requires
        brush_scale <= MAX_BRUSH_SCALE,
    ensures
        quad_ok(q, a, b, brush_scale as int),
{
    let w: u64 = segment_width(a, b, brush_scale);
    let h: u64 = w / 2;
    let d2: u128 = distance_sq(a, b);
    let raw: u64 = isqrt(d2);
    let len: u64 = if raw < UNITS_PER_PX { UNITS_PER_PX } else { raw };
    let dx: i64 = b.x as i64 - a.x as i64;
    let dy: i64 = b.y as i64 - a.y as i64;
    let m_dy: i64 = scaled_offset(dy, h, len);
    let ny: i64 = scaled_offset(dx, h, len);
    assert(-(dy * h) == (-dy) * h) by (nonlinear_arith);
    let nx: i64 = -m_dy;
    assert(nx == normal_x(a, b, brush_scale as int));
    let ax: i64 = a.x as i64;
    let ay: i64 = a.y as i64;
    let bx: i64 = b.x as i64;
    let by: i64 = b.y as i64;
    Quad {
        p0: Vec2 { x: ax - nx, y: ay - ny },
        p1: Vec2 { x: ax + nx, y: ay + ny },
        p2: Vec2 { x: bx + nx, y: by + ny },
        p3: Vec2 { x: bx - nx, y: by - ny },
    }
}

/// Appending the segment `last(pts) -> p` to a ribbon of `pts` gives the ribbon
/// of `pts` followed by `p`.
pub proof fn lemma_ribbon_extend(
    tris: Seq<Triangle>,
    pts: Seq<StrokePoint>,
    t0: Triangle,
    t1: Triangle,
    p: StrokePoint,
    scale: int,
)
    requires
        ribbon_ok(tris, pts, scale),
        segment_ok(t0, t1, pts.last(), p, scale),
    ensures
        ribbon_ok(tris.push(t0).push(t1), pts.push(p), scale),
{
    let t2 = tris.push(t0).push(t1);
    let p2 = pts.push(p);
    assert forall|i: int| 0 <= i < p2.len() - 1 implies #[trigger] segment_at(t2, p2, scale, i) by {
        if i < pts.len() - 1 {
            assert(segment_at(tris, pts, scale, i));
        }
    }
}

/// Adds to `shape` the two triangles of the segment from `a` to `b`.
pub fn append_segment(shape: &mut Shape, a: StrokePoint, b: StrokePoint, brush_scale: u32)
    requires
        brush_scale <= MAX_BRUSH_SCALE,
    ensures
        final(shape).color == old(shape).color,
        final(shape).triangles@.len() == old(shape).triangles@.len() + 2,
        final(shape).triangles@.subrange(0, old(shape).triangles@.len() as int)
            == old(shape).triangles@,
        segment_ok(
            final(shape).triangles@[old(shape).triangles@.len() as int],
            final(shape).triangles@[old(shape).triangles@.len() as int + 1],
            a,
            b,
            brush_scale as int,
        ),
{
    let q = segment_quad(a, b, brush_scale);
    shape.triangles.push(Triangle { a: q.p0, b: q.p1, c: q.p2 });
    shape.triangles.push(Triangle { a: q.p0, b: q.p2, c: q.p3 });
    assert(shape.triangles@.subrange(0, old(shape).triangles@.len() as int)
        =~= old(shape).triangles@);
}

/// The renderable shape of a stroke: none below two points, else two triangles
/// for each consecutive pair of points, in `color`.
pub fn build_geometry(points: &Vec<StrokePoint>, color: u32, brush_scale: u32) -> (r: Option<
    Shape,
>)
    requires
        brush_scale <= MAX_BRUSH_SCALE,
    ensures
        geometry_ok(r, points@, color, brush_scale as int),
        r is None <==> points@.len() < 2,
        r is Some ==> r.unwrap().triangles@.len() == 2 * (points@.len() - 1),
{
    let n = points.len();
    if n < 2 {
        return None;
    }
    let mut shape = Shape { triangles: Vec::new(), color };
    let mut i: usize = 1;
    while i < n
        invariant
            1 <= i <= n,
            n == points@.len(),
            brush_scale <= MAX_BRUSH_SCALE,
            shape.color == color,
            ribbon_ok(shape.triangles@, points@.subrange(0, i as int), brush_scale as int),
        decreases n - i,
    {
        let ghost before = shape.triangles@;
        append_segment(&mut shape, points[i - 1], points[i], brush_scale);
        proof {
            let pre = points@.subrange(0, i as int);
            lemma_ribbon_extend(
                before,
                pre,
                shape.triangles@[before.len() as int],
                shape.triangles@[before.len() as int + 1],
                points@[i as int],
                brush_scale as int,
            );
            assert(before.push(shape.triangles@[before.len() as int]).push(
                shape.triangles@[before.len() as int + 1],
            ) =~= shape.triangles@);
            assert(pre.push(points@[i as int]) =~= points@.subrange(0, i + 1));
        }
        i = i + 1;
    }
    assert(points@.subrange(0, n as int) =~= points@);
    Some(shape)
}

/// Every segment is at least one pixel wide, whatever the pressures, including zero.
pub proof fn lemma_width_at_least_one_px(a: StrokePoint, b: StrokePoint, scale: int)
    ensures
        width_of(a, b, scale) >= UNITS_PER_PX,
        half_width(a, b, scale) >= UNITS_PER_PX / 2,
{
}

/// The segment normal is perpendicular to the direction of travel, and has the
/// half width as its length: before rounding it is `(-dy, dx) * h / len`, whose
/// numerator has length `h * sqrt(dx^2 + dy^2)`, and `len` is that square root
/// rounded down for segments of at least one pixel. Each stored component is the
/// exact one rounded toward zero. On segments whose length is a whole number of
/// units the length is exactly `h`; below one pixel the length floor shortens it.
pub proof fn lemma_normal_perpendicular(a: StrokePoint, b: StrokePoint, scale: int)
    ensures
        ({
            let (mx, my) = scaled_normal(a, b, scale);
            let h = half_width(a, b, scale);
            &&& mx * dx(a, b) + my * dy(a, b) == 0
            &&& mx * mx + my * my == h * h * dist_sq(a, b)
            &&& normal_x(a, b, scale) == trunc_div(mx, seg_len(a, b))
            &&& normal_y(a, b, scale) == trunc_div(my, seg_len(a, b))
            &&& dist_sq(a, b) >= UNITS_PER_PX * UNITS_PER_PX ==> is_floor_sqrt(
                seg_len(a, b),
                dist_sq(a, b),
            )
            &&& dist_sq(a, b) == seg_len(a, b) * seg_len(a, b) ==> mx * mx + my * my == (h
                * seg_len(a, b)) * (h * seg_len(a, b))
        }),
{
    let (mx, my) = scaled_normal(a, b, scale);
    let h = half_width(a, b, scale);
    let x = dx(a, b);
    let y = dy(a, b);
    assert(mx * x + my * y == 0) by (nonlinear_arith)
        requires
            mx == -(y * h),
            my == x * h,
    ;
    assert(mx * mx + my * my == h * h * (x * x + y * y)) by (nonlinear_arith)
        requires
            mx == -(y * h),
            my == x * h,
    ;
    let d2 = dist_sq(a, b);
    assert(d2 >= 0) by (nonlinear_arith)
        requires d2 == x * x + y * y;
    assert(exists|r: int| is_floor_sqrt(r, d2)) by {
        lemma_floor_sqrt_exists(d2);
    }
    let r = floor_sqrt(d2);
    if d2 >= UNITS_PER_PX * UNITS_PER_PX {
        if r < UNITS_PER_PX {
            assert((r + 1) * (r + 1) <= 256 * 256) by (nonlinear_arith)
                requires 0 <= r + 1 <= 256;
        }
    }
    let l = seg_len(a, b);
    if d2 == l * l {
        assert(h * h * (l * l) == (h * l) * (h * l)) by (nonlinear_arith);
    }
}

/// Geometry is a function of the points, the color and the brush scale: two
/// builds from the same finished stroke hold the same triangles.
pub proof fn lemma_geometry_deterministic(
    g1: Option<Shape>,
    g2: Option<Shape>,
    pts: Seq<StrokePoint>,
    color: u32,
    scale: int,
)
    requires
        geometry_ok(g1, pts, color, scale),
        geometry_ok(g2, pts, color, scale),
    ensures
        g1 is Some <==> g2 is Some,
        g1 is Some ==> g1.unwrap().triangles@ == g2.unwrap().triangles@ && g1.unwrap().color
            == g2.unwrap().color,
{
    if pts.len() >= 2 {
        let t1 = g1.unwrap().triangles@;
        let t2 = g2.unwrap().triangles@;
        assert forall|j: int| 0 <= j < t1.len() implies t1[j] == t2[j] by {
            let i = j / 2;
            assert(segment_at(t1, pts, scale, i));
            assert(segment_at(t2, pts, scale, i));
        }
        assert(t1 =~= t2);
    }
}

} // verus!
