//! Baking geometry in fixed point. Positions are in 1/16384 of a block (1/1024 of a pixel);
//! explicit texture coordinates use the same unit for one texture width.
use vstd::prelude::*;

use crate::direction::{unit_of, Direction};
use crate::model::{Element, ElementFace, ElementRotation, Point, Uvs};

verus! {

/// One block in position units.
pub const BLOCK: i64 = 16384;

/// Element coordinates must lie in `[-16, 32]` pixels.
pub const MIN_COORD: i32 = -16384;

pub const MAX_COORD: i32 = 32768;

/// A corner of a baked face.
#[derive(Clone, Copy, Debug, PartialEq, Eq, Structural)]
pub struct Vertex {
    pub position: Point,
    pub tex_index: u32,
    /// `u << 16 | v`, each scaled to `[0, 65535]`.
    pub tex_coords: u32,
}

/// A baked face.
#[derive(Clone, Copy, Debug)]
pub struct Quad {
    pub direction: Direction,
    pub vertices: [Vertex; 4],
    pub shade: bool,
    pub tint_index: i32,
}

/// Whether a coordinate lies in the allowed range.
pub open spec fn coord_ok(c: i32) -> bool {
    MIN_COORD <= c <= MAX_COORD
}

/// Whether a point lies in the allowed range.
pub open spec fn point_ok(p: Point) -> bool {
    coord_ok(p.x) && coord_ok(p.y) && coord_ok(p.z)
}

/// Integer division rounding toward zero.
pub open spec fn tdiv(n: int, d: int) -> int {
    if n >= 0 {
        n / d
    } else {
        -((-n) / d)
    }
}

/// Rotates `(a, b)` by `k` quarter turns: `(a, b)` goes to `(-b, a)` for each turn.
pub open spec fn quarter(a: int, b: int, k: int) -> (int, int) {
    if k % 4 == 1 {
        (-b, a)
    } else if k % 4 == 2 {
        (-a, -b)
    } else if k % 4 == 3 {
        (b, -a)
    } else {
        (a, b)
    }
}

/// `(x, y, z)` turned by `ky` quarter turns about the y axis, then `kx` about the x axis.
pub open spec fn turn(x: int, y: int, z: int, kx: int, ky: int) -> (int, int, int) {
    // About y, x' = x cos + z sin and z' = z cos - x sin: (z, x) turns as (a, b).
    let (z1, x1) = quarter(z, x, ky);
    // About x, y' = y cos - z sin and z' = z cos + y sin: (y, z) turns as (a, b).
    let (y2, z2) = quarter(y, z1, kx);
    (x1, y2, z2)
}

/// A point turned about the center of the block.
pub open spec fn turn_point(p: (int, int, int), kx: int, ky: int) -> (int, int, int) {
    let c = BLOCK / 2;
    let t = turn(p.0 - c, p.1 - c, p.2 - c, kx, ky);
    (t.0 + c, t.1 + c, t.2 + c)
}

/// The direction whose unit vector is `v`.
pub open spec fn direction_of(v: (int, int, int)) -> Direction {
    if v == (0int, -1int, 0int) {
        Direction::Down
    } else if v == (0int, 1int, 0int) {
        Direction::Up
    } else if v == (0int, 0int, -1int) {
        Direction::North
    } else if v == (0int, 0int, 1int) {
        Direction::South
    } else if v == (-1int, 0int, 0int) {
        Direction::West
    } else {
        Direction::East
    }
}

/// A direction turned by the model rotation.
pub open spec fn turn_direction(d: Direction, kx: int, ky: int) -> Direction {
    let u = unit_of(d);
    direction_of(turn(u.0 as int, u.1 as int, u.2 as int, kx, ky))
}

/// Turns `(a, b)` by `k` quarter turns.
fn quarter_exec(a: i64, b: i64, k: u8) -> (r: (i64, i64))
    requires
        -0x1000_0000 <= a <= 0x1000_0000,
        -0x1000_0000 <= b <= 0x1000_0000,
    ensures
        (r.0 as int, r.1 as int) == quarter(a as int, b as int, k as int),
{
    if k % 4 == 1 {
        (-b, a)
    } else if k % 4 == 2 {
        (-a, -b)
    } else if k % 4 == 3 {
        (b, -a)
    } else {
        (a, b)
    }
}

/// Turns a direction by the model rotation.
pub fn turn_direction_exec(d: Direction, kx: u8, ky: u8) -> (r: Direction)
    ensures
        r == turn_direction(d, kx as int, ky as int),
{
    let (x, y, z) = d.to_unit_vec();
    let (z1, x1) = quarter_exec(z as i64, x as i64, ky);
    let (y2, z2) = quarter_exec(y as i64, z1, kx);
    if x1 == 0 && y2 == -1 && z2 == 0 {
        Direction::Down
    } else if x1 == 0 && y2 == 1 && z2 == 0 {
        Direction::Up
    } else if x1 == 0 && y2 == 0 && z2 == -1 {
        Direction::North
    } else if x1 == 0 && y2 == 0 && z2 == 1 {
        Direction::South
    } else if x1 == -1 && y2 == 0 && z2 == 0 {
        Direction::West
    } else {
        Direction::East
    }
}

/// Cosine and sine of an element angle (in tenths of a degree), scaled by 65536, and the factor
/// that rescales the rotated faces across the block.
pub open spec fn trig(angle: i32) -> (int, int, int) {
    if angle == 450 {
        (46341, 46341, 92682)
    } else if angle == 225 {
        (60547, 25080, 70936)
    } else if angle == -225 {
        (60547, -25080, 70936)
    } else if angle == -450 {
        (46341, -46341, 92682)
    } else {
        (65536, 0, 65536)
    }
}

/// Whether an element rotation is one the format allows.
pub open spec fn rotation_ok(r: ElementRotation) -> bool {
    &&& r.axis <= 2
    &&& (r.angle == -450 || r.angle == -225 || r.angle == 0 || r.angle == 225 || r.angle == 450)
    &&& point_ok(r.origin)
}

/// Rotates `(a, b)` by the angle whose cosine and sine are `c` and `s`, then rescales.
pub open spec fn spin(a: int, b: int, c: int, s: int, k: int, rescale: bool) -> (int, int) {
    let a1 = tdiv(a * c - b * s, 65536);
    let b1 = tdiv(a * s + b * c, 65536);
    if rescale {
        (tdiv(a1 * k, 65536), tdiv(b1 * k, 65536))
    } else {
        (a1, b1)
    }
}

/// A point rotated by an element rotation about its origin.
pub open spec fn rotate_element_point(p: (int, int, int), r: ElementRotation) -> (int, int, int) {
    let (c, s, k) = trig(r.angle);
    let o = (r.origin.x as int, r.origin.y as int, r.origin.z as int);
    let d = (p.0 - o.0, p.1 - o.1, p.2 - o.2);
    if r.axis == 0 {
        let (y, z) = spin(d.1, d.2, c, s, k, r.rescale);
        (d.0 + o.0, y + o.1, z + o.2)
    } else if r.axis == 1 {
        // About y, x' = x cos + z sin and z' = z cos - x sin: (z, x) spins as (a, b).
        let (z, x) = spin(d.2, d.0, c, s, k, r.rescale);
        (x + o.0, d.1 + o.1, z + o.2)
    } else {
        let (x, y) = spin(d.0, d.1, c, s, k, r.rescale);
        (x + o.0, y + o.1, d.2 + o.2)
    }
}

/// Divides rounding toward zero.
fn tdiv_exec(n: i64, d: i64) -> (r: i64)
    requires
        d > 0,
        n > i64::MIN,
    ensures
        r as int == tdiv(n as int, d as int),
{
    if n >= 0 {
        n / d
    } else {
        -((-n) / d)
    }
}

/// Rotates `(a, b)` and rescales, as `spin` states.
fn spin_exec(a: i64, b: i64, c: i64, s: i64, k: i64, rescale: bool) -> (r: (i64, i64))
    requires
        -0x10_0000 <= a <= 0x10_0000,
        -0x10_0000 <= b <= 0x10_0000,
        -65536 <= c <= 65536,
        -65536 <= s <= 65536,
        0 <= k <= 0x2_0000,
    ensures
        (r.0 as int, r.1 as int) == spin(a as int, b as int, c as int, s as int, k as int, rescale),
        -0x40_0000 <= r.0 <= 0x40_0000,
        -0x40_0000 <= r.1 <= 0x40_0000,
{
    assert(-0x10_0000_0000 <= a * c <= 0x10_0000_0000) by (nonlinear_arith)
        requires -0x10_0000 <= a <= 0x10_0000, -65536 <= c <= 65536;
    assert(-0x10_0000_0000 <= b * s <= 0x10_0000_0000) by (nonlinear_arith)
        requires -0x10_0000 <= b <= 0x10_0000, -65536 <= s <= 65536;
    assert(-0x10_0000_0000 <= a * s <= 0x10_0000_0000) by (nonlinear_arith)
        requires -0x10_0000 <= a <= 0x10_0000, -65536 <= s <= 65536;
    assert(-0x10_0000_0000 <= b * c <= 0x10_0000_0000) by (nonlinear_arith)
        requires -0x10_0000 <= b <= 0x10_0000, -65536 <= c <= 65536;
    let a1 = tdiv_exec(a * c - b * s, 65536);
    let b1 = tdiv_exec(a * s + b * c, 65536);
    assert(-0x20_0000 <= a1 <= 0x20_0000);
    assert(-0x20_0000 <= b1 <= 0x20_0000);
    if rescale {
        assert(-0x40_0000_0000 <= a1 * k <= 0x40_0000_0000) by (nonlinear_arith)
            requires -0x20_0000 <= a1 <= 0x20_0000, 0 <= k <= 0x2_0000;
        assert(-0x40_0000_0000 <= b1 * k <= 0x40_0000_0000) by (nonlinear_arith)
            requires -0x20_0000 <= b1 <= 0x20_0000, 0 <= k <= 0x2_0000;
        (tdiv_exec(a1 * k, 65536), tdiv_exec(b1 * k, 65536))
    } else {
        (a1, b1)
    }
}

/// Rotates a point by an element rotation.
pub fn rotate_element_point_exec(p: (i64, i64, i64), r: &ElementRotation) -> (q: (i64, i64, i64))
    requires
        rotation_ok(*r),
        -0x8_0000 <= p.0 <= 0x8_0000,
        -0x8_0000 <= p.1 <= 0x8_0000,
        -0x8_0000 <= p.2 <= 0x8_0000,
    ensures
        (q.0 as int, q.1 as int, q.2 as int) == rotate_element_point(
            (p.0 as int, p.1 as int, p.2 as int),
            *r,
        ),
        -0x80_0000 <= q.0 <= 0x80_0000,
        -0x80_0000 <= q.1 <= 0x80_0000,
        -0x80_0000 <= q.2 <= 0x80_0000,
{
    let (c, s, k): (i64, i64, i64) = if r.angle == 450 {
        (46341, 46341, 92682)
    } else if r.angle == 225 {
        (60547, 25080, 70936)
    } else if r.angle == -225 {
        (60547, -25080, 70936)
    } else if r.angle == -450 {
        (46341, -46341, 92682)
    } else {
        (65536, 0, 65536)
    };
    let o = (r.origin.x as i64, r.origin.y as i64, r.origin.z as i64);
    let d = (p.0 - o.0, p.1 - o.1, p.2 - o.2);
    if r.axis == 0 {
        let (y, z) = spin_exec(d.1, d.2, c, s, k, r.rescale);
        (d.0 + o.0, y + o.1, z + o.2)
    } else if r.axis == 1 {
        let (z, x) = spin_exec(d.2, d.0, c, s, k, r.rescale);
        (x + o.0, d.1 + o.1, z + o.2)
    } else {
        let (x, y) = spin_exec(d.0, d.1, c, s, k, r.rescale);
        (x + o.0, y + o.1, d.2 + o.2)
    }
}

/// Turns a point about the center of the block.
pub fn turn_point_exec(p: (i64, i64, i64), kx: u8, ky: u8) -> (q: (i64, i64, i64))
    requires
        -0x80_0000 <= p.0 <= 0x80_0000,
        -0x80_0000 <= p.1 <= 0x80_0000,
        -0x80_0000 <= p.2 <= 0x80_0000,
    ensures
        (q.0 as int, q.1 as int, q.2 as int) == turn_point((p.0 as int, p.1 as int, p.2 as int), kx as int, ky as int),
        -0x100_0000 <= q.0 <= 0x100_0000,
        -0x100_0000 <= q.1 <= 0x100_0000,
        -0x100_0000 <= q.2 <= 0x100_0000,
{
    let c: i64 = 8192;
    let (z1, x1) = quarter_exec(p.2 - c, p.0 - c, ky);
    let (y2, z2) = quarter_exec(p.1 - c, z1, kx);
    (x1 + c, y2 + c, z2 + c)
}

/// The texture coordinate of `w` (in 1/16384 of a texture), scaled to `[0, 65535]` by
/// truncation; values outside saturate.
pub open spec fn tex_coord(w: int) -> u32 {
    let t = tdiv(w * 65535, 16384);
    if t < 0 {
        0
    } else if t > u32::MAX {
        u32::MAX
    } else {
        t as u32
    }
}

/// The packed texture coordinates `u << 16 | v`; high bits of `u` are shifted out.
pub open spec fn pack_tex_coords(u: int, v: int) -> u32 {
    (tex_coord(u) << 16u32) | tex_coord(v)
}

/// Computes the packed texture coordinates of `(u, v)`.
pub fn pack_tex_coords_exec(u: i64, v: i64) -> (r: u32)
    requires
        -0x1000_0000 <= u <= 0x1000_0000,
        -0x1000_0000 <= v <= 0x1000_0000,
    ensures
        r == pack_tex_coords(u as int, v as int),
{
    let tu = tex_coord_exec(u);
    let tv = tex_coord_exec(v);
    (tu << 16u32) | tv
}

fn tex_coord_exec(w: i64) -> (r: u32)
    requires
        -0x1000_0000 <= w <= 0x1000_0000,
    ensures
        r == tex_coord(w as int),
{
    assert(-0x10_0000_0000_0000 <= w * 65535 <= 0x10_0000_0000_0000) by (nonlinear_arith)
        requires -0x1000_0000 <= w <= 0x1000_0000;
    let t = tdiv_exec(w * 65535, 16384);
    if t < 0 {
        0
    } else if t > u32::MAX as i64 {
        u32::MAX
    } else {
        t as u32
    }
}


/// The corners of face `d` of the cuboid from `f` to `t`, in drawing order.
pub open spec fn corners(d: Direction, f: Point, t: Point) -> Seq<(int, int, int)> {
    let (fx, fy, fz) = (f.x as int, f.y as int, f.z as int);
    let (tx, ty, tz) = (t.x as int, t.y as int, t.z as int);
    match d {
        Direction::Down => seq![(fx, fy, tz), (fx, fy, fz), (tx, fy, fz), (tx, fy, tz)],
        Direction::Up => seq![(fx, ty, fz), (fx, ty, tz), (tx, ty, tz), (tx, ty, fz)],
        Direction::North => seq![(tx, ty, fz), (tx, fy, fz), (fx, fy, fz), (fx, ty, fz)],
        Direction::South => seq![(fx, ty, tz), (fx, fy, tz), (tx, fy, tz), (tx, ty, tz)],
        Direction::West => seq![(fx, ty, fz), (fx, fy, fz), (fx, fy, tz), (fx, ty, tz)],
        Direction::East => seq![(tx, ty, tz), (tx, fy, tz), (tx, fy, fz), (tx, ty, fz)],
    }
}

/// Where a corner of an element ends up: rotated with the element, then turned with the model.
#[verifier::opaque]
pub open spec fn place(e: Element, p: (int, int, int), kx: int, ky: int) -> (int, int, int) {
    let p1 = match e.rotation {
        Some(r) => rotate_element_point(p, r),
        None => p,
    };
    turn_point(p1, kx, ky)
}

/// Texture coordinates projected from the positions of the first and third corners, for a
/// face that ends up facing `d`.
pub open spec fn projected_uvs(d: Direction, p0: (int, int, int), p2: (int, int, int)) -> (
    int,
    int,
    int,
    int,
) {
    match d {
        Direction::Down => (p0.0, BLOCK - p0.2, p2.0, BLOCK - p2.2),
        Direction::Up => (p0.0, p0.2, p2.0, p2.2),
        Direction::North => (BLOCK - p0.0, p0.1, BLOCK - p2.0, p2.1),
        Direction::South => (p0.0, p0.1, p2.0, p2.1),
        Direction::West => (p0.2, p0.1, p2.2, p2.1),
        Direction::East => (BLOCK - p0.2, p0.1, BLOCK - p2.2, p2.1),
    }
}

/// The quad baked from face `d` of element `e` under the model rotation `(kx, ky)`, using the
/// texture with index `tex`.
pub open spec fn quad_of(e: Element, d: Direction, face: ElementFace, kx: int, ky: int, tex: u32) -> Quad {
    let cs = corners(d, e.from, e.to);
    let ps = Seq::new(4, |i: int| place(e, cs[i], kx, ky));
    let dir = turn_direction(d, kx, ky);
    let uv = match face.uvs {
        Some(u) => (u.u0 as int, u.v0 as int, u.u1 as int, u.v1 as int),
        None => projected_uvs(dir, ps[0], ps[2]),
    };
    let vertex = |i: int, u: int, v: int|
        Vertex {
            position: Point { x: ps[i].0 as i32, y: ps[i].1 as i32, z: ps[i].2 as i32 },
            tex_index: tex,
            tex_coords: pack_tex_coords(u, v),
        };
    Quad {
        direction: dir,
        vertices: [
            vertex(0, uv.0, uv.1),
            vertex(1, uv.0, uv.3),
            vertex(2, uv.2, uv.3),
            vertex(3, uv.2, uv.1),
        ],
        shade: e.shade,
        tint_index: face.tint_index,
    }
}

/// Whether an element's points and rotation lie in the allowed ranges.
pub open spec fn element_ok(e: Element) -> bool {
    &&& point_ok(e.from)
    &&& point_ok(e.to)
    &&& match e.rotation {
        Some(r) => rotation_ok(r),
        None => true,
    }
    &&& forall|k: int| 0 <= k < e.faces@.len() ==> match (#[trigger] e.faces@[k]).1.uvs {
        Some(u) => coord_ok(u.u0) && coord_ok(u.v0) && coord_ok(u.u1) && coord_ok(u.v1),
        None => true,
    }
}

/// Checks that an element's points, texture areas and rotation lie in the allowed ranges.
pub fn check_element(e: &Element) -> (r: bool)
    ensures
        r == element_ok(*e),
{
    let pt = |p: Point| -> (r: bool)
        ensures
            r == point_ok(p),
        {
            MIN_COORD <= p.x && p.x <= MAX_COORD && MIN_COORD <= p.y && p.y <= MAX_COORD && MIN_COORD
                <= p.z && p.z <= MAX_COORD
        };
    if !pt(e.from) || !pt(e.to) {
        return false;
    }
    match &e.rotation {
        Some(r) => {
            let angle_ok = r.angle == -450 || r.angle == -225 || r.angle == 0 || r.angle == 225
                || r.angle == 450;
            if !(r.axis <= 2 && angle_ok && pt(r.origin)) {
                return false;
            }
        },
        None => {},
    }
    let mut k: usize = 0;
    while k < e.faces.len()
        invariant
            k <= e.faces@.len(),
            forall|j: int| 0 <= j < k ==> match (#[trigger] e.faces@[j]).1.uvs {
                Some(u) => coord_ok(u.u0) && coord_ok(u.v0) && coord_ok(u.u1) && coord_ok(u.v1),
                None => true,
            },
        decreases e.faces@.len() - k,
    {
        match &e.faces[k].1.uvs {
            Some(u) => {
                if !(MIN_COORD <= u.u0 && u.u0 <= MAX_COORD && MIN_COORD <= u.v0 && u.v0 <= MAX_COORD
                    && MIN_COORD <= u.u1 && u.u1 <= MAX_COORD && MIN_COORD <= u.v1 && u.v1
                    <= MAX_COORD) {
                    return false;
                }
            },
            None => {},
        }
        k = k + 1;
    }
    true
}

/// Places a corner of an element.
fn place_exec(e: &Element, q: (i64, i64, i64), kx: u8, ky: u8) -> (r: (i64, i64, i64))
    requires
        element_ok(*e),
        MIN_COORD <= q.0 <= MAX_COORD,
        MIN_COORD <= q.1 <= MAX_COORD,
        MIN_COORD <= q.2 <= MAX_COORD,
    ensures
        (r.0 as int, r.1 as int, r.2 as int) == place(*e, (q.0 as int, q.1 as int, q.2 as int), kx as int, ky as int),
        -0x100_0000 <= r.0 <= 0x100_0000,
        -0x100_0000 <= r.1 <= 0x100_0000,
        -0x100_0000 <= r.2 <= 0x100_0000,
{
    reveal(place);
    let q1 = match &e.rotation {
        Some(r) => rotate_element_point_exec(q, r),
        None => q,
    };
    turn_point_exec(q1, kx, ky)
}

/// The corners of face `d` of the cuboid from `f` to `t`.
fn corners_exec(d: Direction, f: Point, t: Point) -> (r: [(i64, i64, i64); 4])
    ensures
        forall|i: int| 0 <= i < 4 ==> corners(d, f, t)[i] == (r@[i].0 as int, r@[i].1 as int, r@[i].2 as int),
{
    let (fx, fy, fz) = (f.x as i64, f.y as i64, f.z as i64);
    let (tx, ty, tz) = (t.x as i64, t.y as i64, t.z as i64);
    let r = match d {
        Direction::Down => [(fx, fy, tz), (fx, fy, fz), (tx, fy, fz), (tx, fy, tz)],
        Direction::Up => [(fx, ty, fz), (fx, ty, tz), (tx, ty, tz), (tx, ty, fz)],
        Direction::North => [(tx, ty, fz), (tx, fy, fz), (fx, fy, fz), (fx, ty, fz)],
        Direction::South => [(fx, ty, tz), (fx, fy, tz), (tx, fy, tz), (tx, ty, tz)],
        Direction::West => [(fx, ty, fz), (fx, fy, fz), (fx, fy, tz), (fx, ty, tz)],
        Direction::East => [(tx, ty, tz), (tx, fy, tz), (tx, fy, fz), (tx, ty, fz)],
    };
    r
}

/// The texture area of a face that ends up facing `dir`, with its first and third corners at
/// `p0` and `p2`.
fn face_uvs(face: &ElementFace, dir: Direction, p0: (i64, i64, i64), p2: (i64, i64, i64)) -> (r: (i64, i64, i64, i64))
    requires
        face.uvs matches Some(u) ==> coord_ok(u.u0) && coord_ok(u.v0) && coord_ok(u.u1) && coord_ok(u.v1),
        -0x100_0000 <= p0.0 <= 0x100_0000,
        -0x100_0000 <= p0.1 <= 0x100_0000,
        -0x100_0000 <= p0.2 <= 0x100_0000,
        -0x100_0000 <= p2.0 <= 0x100_0000,
        -0x100_0000 <= p2.1 <= 0x100_0000,
        -0x100_0000 <= p2.2 <= 0x100_0000,
    ensures
        (r.0 as int, r.1 as int, r.2 as int, r.3 as int) == match face.uvs {
            Some(u) => (u.u0 as int, u.v0 as int, u.u1 as int, u.v1 as int),
            None => projected_uvs(dir, (p0.0 as int, p0.1 as int, p0.2 as int), (p2.0 as int, p2.1 as int, p2.2 as int)),
        },
        -0x200_0000 <= r.0 <= 0x200_0000,
        -0x200_0000 <= r.1 <= 0x200_0000,
        -0x200_0000 <= r.2 <= 0x200_0000,
        -0x200_0000 <= r.3 <= 0x200_0000,
{
    let b = 16384i64;
    match &face.uvs {
        Some(u) => (u.u0 as i64, u.v0 as i64, u.u1 as i64, u.v1 as i64),
        None => match dir {
            Direction::Down => (p0.0, b - p0.2, p2.0, b - p2.2),
            Direction::Up => (p0.0, p0.2, p2.0, p2.2),
            Direction::North => (b - p0.0, p0.1, b - p2.0, p2.1),
            Direction::South => (p0.0, p0.1, p2.0, p2.1),
            Direction::West => (p0.2, p0.1, p2.2, p2.1),
            Direction::East => (b - p0.2, p0.1, b - p2.2, p2.1),
        },
    }
}

/// Bakes face `d` of element `e` into a quad.
pub fn make_quad(e: &Element, d: Direction, face: &ElementFace, kx: u8, ky: u8, tex: u32) -> (r: Quad)
    requires
        element_ok(*e),
        face.uvs matches Some(u) ==> coord_ok(u.u0) && coord_ok(u.v0) && coord_ok(u.u1) && coord_ok(u.v1),
    ensures
        r == quad_of(*e, d, *face, kx as int, ky as int, tex),
{
    let cs = corners_exec(d, e.from, e.to);
    let ghost sc = corners(d, e.from, e.to);
    let p0 = place_exec(e, cs[0], kx, ky);
    let p1 = place_exec(e, cs[1], kx, ky);
    let p2 = place_exec(e, cs[2], kx, ky);
    let p3 = place_exec(e, cs[3], kx, ky);
    let dir = turn_direction_exec(d, kx, ky);
    let (u0, v0, u1, v1) = face_uvs(face, dir, p0, p2);
    let v = |p: (i64, i64, i64), u: i64, w: i64| -> (r: Vertex)
        requires
            -0x100_0000 <= p.0 <= 0x100_0000,
            -0x100_0000 <= p.1 <= 0x100_0000,
            -0x100_0000 <= p.2 <= 0x100_0000,
            -0x1000_0000 <= u <= 0x1000_0000,
            -0x1000_0000 <= w <= 0x1000_0000,
        ensures
            r == (Vertex {
                position: Point { x: p.0 as i32, y: p.1 as i32, z: p.2 as i32 },
                tex_index: tex,
                tex_coords: pack_tex_coords(u as int, w as int),
            }),
        {
            Vertex {
                position: Point { x: p.0 as i32, y: p.1 as i32, z: p.2 as i32 },
                tex_index: tex,
                tex_coords: pack_tex_coords_exec(u, w),
            }
        };
    let q = Quad {
        direction: dir,
        vertices: [v(p0, u0, v0), v(p1, u0, v1), v(p2, u1, v1), v(p3, u1, v0)],
        shade: e.shade,
        tint_index: face.tint_index,
    };
    proof {
        let ps = Seq::new(4, |i: int| place(*e, sc[i], kx as int, ky as int));
        assert(ps[0] == (p0.0 as int, p0.1 as int, p0.2 as int));
        assert(ps[2] == (p2.0 as int, p2.1 as int, p2.2 as int));
    }
    q
}

} // verus!
