//! Points, rotations and the placement transform, over exact fixed-point
//! coordinates.

use vstd::prelude::*;
use vstd::arithmetic::div_mod::{
    lemma_fundamental_div_mod,
    lemma_div_multiples_vanish,
    lemma_fundamental_div_mod_converse,
    lemma_mod_bound,
    lemma_mod_pos_bound,
};

verus! {

/// Number of fixed-point units in one local length unit.
pub const SCALE: i64 = 100_000_000;

/// Largest `|x| + |y|` of a vector that a rotation accepts.
pub const ROTATE_LIMIT: i64 = 0x4000_0000_0000_0000;

/// Largest coordinate of a placement's anchor.
pub const ANCHOR_LIMIT: i64 = 0x4000_0000_0000_0000;

/// A point or displacement, in units of `1 / SCALE`.
#[derive(Clone, Copy, Debug, PartialEq, Eq, Structural)]
pub struct Point {
    pub x: i64,
    pub y: i64,
}

impl View for Point {
    type V = (int, int);

    open spec fn view(&self) -> (int, int) {
        (self.x as int, self.y as int)
    }
}

pub open spec fn abs(v: int) -> int {
    if v < 0 { -v } else { v }
}

impl Point {
    pub fn new(x: i64, y: i64) -> (r: Point)
        ensures
            r.x == x,
            r.y == y,
    {
        Point { x, y }
    }
}

/// `a / d` rounded towards negative infinity.
fn floor_div(a: i128, d: i128) -> (q: i128)
    requires
        d > 0,
        a > i128::MIN,
    ensures
        q == a / d,
{
    if a >= 0 {
        let q = a / d;
        q
    } else {
        let n: i128 = -a;
        let t: i128 = (n - 1) / d;
        let q: i128 = -t - 1;
        proof {
            let r = a - q * d;
            lemma_fundamental_div_mod((n - 1) as int, d as int);
            lemma_mod_pos_bound((n - 1) as int, d as int);
            assert(0 <= (n - 1) - t * d < d);
            assert(r == d - 1 - ((n - 1) - t * d)) by (nonlinear_arith)
                requires
                    r == a - q * d,
                    q == -t - 1,
                    n == -a,
            ;
            lemma_fundamental_div_mod_converse(a as int, d as int, q as int, r);
        }
        q
    }
}

/// `a / d` stays within `[-m, m]` when `a` stays within `[-d * m, d * m]`.
proof fn lemma_floor_div_bounds(a: int, d: int, m: int)
    requires
        d > 0,
        m >= 0,
        -(d * m) <= a <= d * m,
    ensures
        -m <= a / d <= m,
{
    lemma_fundamental_div_mod(a, d);
    lemma_mod_bound(a, d);
    let q = a / d;
    let r = a % d;
    assert(-m <= q <= m) by (nonlinear_arith)
        requires
            a == d * q + r,
            0 <= r < d,
            -(d * m) <= a <= d * m,
            d > 0,
    ;
}

/// `|c * v| <= SCALE * |v|` for a coefficient `c` within `[-SCALE, SCALE]`.
proof fn lemma_scaled_product_bound(c: int, v: int)
    requires
        -SCALE <= c <= SCALE,
    ensures
        abs(c * v) <= SCALE * abs(v),
{
    assert(abs(c * v) <= SCALE * abs(v)) by (nonlinear_arith)
        requires
            -SCALE <= c <= SCALE,
    ;
}

/// A rotation given by its cosine and sine, each scaled by `SCALE`.
///
/// A rotation by the angle `t` is `(round(SCALE * cos t), round(SCALE * sin t))`;
/// the rounding leaves `cos * cos + sin * sin` close to, but not always equal to,
/// `SCALE * SCALE` (see `defect`).
#[derive(Clone, Copy, Debug, PartialEq, Eq, Structural)]
pub struct Rotation {
    pub cos: i64,
    pub sin: i64,
}

impl Rotation {
    /// Both coefficients lie within `[-SCALE, SCALE]`.
    pub open spec fn wf(&self) -> bool {
        -SCALE <= self.cos <= SCALE && -SCALE <= self.sin <= SCALE
    }

    /// How far the coefficients are from an exact unit vector.
    pub open spec fn defect(&self) -> int {
        self.cos * self.cos + self.sin * self.sin - SCALE * SCALE
    }

    pub open spec fn is_identity(&self) -> bool {
        self.cos == SCALE && self.sin == 0
    }

    pub open spec fn inverse_spec(&self) -> Rotation {
        Rotation { cos: self.cos, sin: (-self.sin) as i64 }
    }

    /// The rotation with the given scaled cosine and sine, if both lie within
    /// `[-SCALE, SCALE]`.
    pub fn new(cos: i64, sin: i64) -> (r: Option<Rotation>)
        ensures
            r is Some <==> (-SCALE <= cos <= SCALE && -SCALE <= sin <= SCALE),
            r matches Some(rot) ==> rot.cos == cos && rot.sin == sin && rot.wf(),
    {
        if -SCALE <= cos && cos <= SCALE && -SCALE <= sin && sin <= SCALE {
            Some(Rotation { cos, sin })
        } else {
            None
        }
    }

    /// The rotation by the angle zero.
    pub fn identity() -> (r: Rotation)
        ensures
            r.is_identity(),
            r.wf(),
            r.defect() == 0,
    {
        Rotation { cos: SCALE, sin: 0 }
    }

    /// The rotation by the opposite angle.
    pub fn inverse(&self) -> (r: Rotation)
        requires
            self.wf(),
        ensures
            r == self.inverse_spec(),
            r.wf(),
            r.defect() == self.defect(),
    {
        let r = Rotation { cos: self.cos, sin: -self.sin };
        assert(r.sin * r.sin == self.sin * self.sin) by (nonlinear_arith)
            requires r.sin == -self.sin;
        r
    }
}

/// The rotation of `v` by `r`, each coordinate rounded down to a whole unit.
pub open spec fn rotate_spec(v: (int, int), r: Rotation) -> (int, int) {
    (
        (r.cos * v.0 - r.sin * v.1) / (SCALE as int),
        (r.sin * v.0 + r.cos * v.1) / (SCALE as int),
    )
}

/// The reflection of `v` across the vertical axis when `flip` holds.
pub open spec fn mirror_spec(v: (int, int), flip: bool) -> (int, int) {
    if flip {
        (-v.0, v.1)
    } else {
        v
    }
}

/// Rotates `v` by `r`.
pub fn rotate(v: Point, r: Rotation) -> (w: Point)
    requires
        r.wf(),
        abs(v.x as int) + abs(v.y as int) <= ROTATE_LIMIT,
    ensures
        w@ == rotate_spec(v@, r),
        abs(w.x as int) <= abs(v.x as int) + abs(v.y as int),
        abs(w.y as int) <= abs(v.x as int) + abs(v.y as int),
{
    let c = r.cos as i128;
    let s = r.sin as i128;
    let x = v.x as i128;
    let y = v.y as i128;
    let ghost m = abs(v.x as int) + abs(v.y as int);
    proof {
        lemma_scaled_product_bound(c as int, x as int);
        lemma_scaled_product_bound(s as int, y as int);
        lemma_scaled_product_bound(s as int, x as int);
        lemma_scaled_product_bound(c as int, y as int);
        assert(SCALE * abs(x as int) + SCALE * abs(y as int) == SCALE * m) by (nonlinear_arith)
            requires m == abs(x as int) + abs(y as int);
        assert(SCALE * m <= SCALE * ROTATE_LIMIT) by (nonlinear_arith)
            requires m <= ROTATE_LIMIT;
    }
    let a = c * x - s * y;
    let b = s * x + c * y;
    let qa = floor_div(a, SCALE as i128);
    let qb = floor_div(b, SCALE as i128);
    proof {
        lemma_floor_div_bounds(a as int, SCALE as int, m);
        lemma_floor_div_bounds(b as int, SCALE as int, m);
    }
    Point { x: qa as i64, y: qb as i64 }
}

/// Placing an offset never makes a coordinate larger than `|x| + |y|`.
pub proof fn lemma_place_bound(v: (int, int), p: Placement)
    requires
        p.rotation.wf(),
    ensures
        abs(place_spec(v, p).0) <= abs(v.0) + abs(v.1),
        abs(place_spec(v, p).1) <= abs(v.0) + abs(v.1),
{
    let c = p.rotation.cos as int;
    let n = p.rotation.sin as int;
    let m = abs(v.0) + abs(v.1);
    lemma_scaled_product_bound(c, v.0);
    lemma_scaled_product_bound(n, v.1);
    lemma_scaled_product_bound(n, v.0);
    lemma_scaled_product_bound(c, v.1);
    assert(SCALE * abs(v.0) + SCALE * abs(v.1) == SCALE * m) by (nonlinear_arith)
        requires m == abs(v.0) + abs(v.1);
    lemma_floor_div_bounds(c * v.0 - n * v.1, SCALE as int, m);
    lemma_floor_div_bounds(n * v.0 + c * v.1, SCALE as int, m);
}

/// Reflects `v` across the vertical axis when `flip` holds.
pub fn mirror(v: Point, flip: bool) -> (w: Point)
    requires
        v.x > i64::MIN,
    ensures
        w@ == mirror_spec(v@, flip),
{
    if flip {
        Point { x: -v.x, y: v.y }
    } else {
        v
    }
}

/// Where and how the canonical polygon is put on a canvas: its local origin
/// goes to `anchor`, each local offset is rotated by `rotation` and then, when
/// `mirror` holds, reflected across the vertical axis through the anchor.
#[derive(Clone, Copy, Debug, PartialEq, Eq, Structural)]
pub struct Placement {
    pub anchor: Point,
    pub rotation: Rotation,
    pub mirror: bool,
}

/// The canvas-space offset from the anchor of the local offset `v`.
pub open spec fn place_spec(v: (int, int), p: Placement) -> (int, int) {
    mirror_spec(rotate_spec(v, p.rotation), p.mirror)
}

impl Placement {
    pub open spec fn wf(&self) -> bool {
        &&& self.rotation.wf()
        &&& abs(self.anchor.x as int) <= ANCHOR_LIMIT
        &&& abs(self.anchor.y as int) <= ANCHOR_LIMIT
    }

    /// The placement at the centre of a `width` by `height` canvas:
    /// the anchor is `(width / 2, height / 2)`, exactly.
    pub fn centered(width: u32, height: u32, rotation: Rotation, mirror: bool) -> (p: Placement)
        ensures
            2 * p.anchor.x == width * SCALE,
            2 * p.anchor.y == height * SCALE,
            p.rotation == rotation,
            p.mirror == mirror,
            rotation.wf() ==> p.wf(),
    {
        let x = (width as i64) * SCALE / 2;
        let y = (height as i64) * SCALE / 2;
        Placement { anchor: Point { x, y }, rotation, mirror }
    }

    /// The canvas-space offset from the anchor of the local offset `v`.
    pub fn apply(&self, v: Point) -> (w: Point)
        requires
            self.wf(),
            abs(v.x as int) + abs(v.y as int) <= ROTATE_LIMIT,
        ensures
            w@ == place_spec(v@, *self),
            abs(w.x as int) <= abs(v.x as int) + abs(v.y as int),
            abs(w.y as int) <= abs(v.x as int) + abs(v.y as int),
    {
        let r = rotate(v, self.rotation);
        mirror(r, self.mirror)
    }
}

/// With the angle zero and no mirroring, every offset is placed unchanged.
pub proof fn identity_placement_keeps_offsets(v: (int, int), p: Placement)
    requires
        p.rotation.is_identity(),
        !p.mirror,
    ensures
        place_spec(v, p) == v,
{
    let s = SCALE as int;
    assert(s * v.0 - 0 * v.1 == s * v.0 && 0 * v.0 + s * v.1 == s * v.1);
    lemma_div_multiples_vanish(v.0, s);
    lemma_div_multiples_vanish(v.1, s);
}

/// Rotating by an angle and then by the opposite angle gives back each
/// coordinate to within three units, plus a share of the coordinate as large
/// as the rotation's defect: `SCALE^2 * |error| <= |defect * coordinate| + 3 * SCALE^2`.
pub proof fn rotation_round_trip(v: (int, int), r: Rotation)
    requires
        r.wf(),
    ensures
        ({
            let w = rotate_spec(rotate_spec(v, r), r.inverse_spec());
            let ss = SCALE * SCALE;
            &&& abs(ss * (w.0 - v.0)) <= abs(r.defect() * v.0) + 3 * ss
            &&& abs(ss * (w.1 - v.1)) <= abs(r.defect() * v.1) + 3 * ss
            &&& r.defect() == 0 ==> abs(w.0 - v.0) <= 3 && abs(w.1 - v.1) <= 3
        }),
{
    let s = SCALE as int;
    let c = r.cos as int;
    let n = r.sin as int;
    let x = v.0;
    let y = v.1;
    let d = r.defect();
    let a = c * x - n * y;
    let b = n * x + c * y;
    let x1 = a / s;
    let y1 = b / s;
    lemma_fundamental_div_mod(a, s);
    lemma_fundamental_div_mod(b, s);
    lemma_mod_bound(a, s);
    lemma_mod_bound(b, s);
    let r1 = a % s;
    let r2 = b % s;
    let inv = r.inverse_spec();
    assert(inv.cos == c && inv.sin == -n);
    let a2 = c * x1 - (-n) * y1;
    let b2 = (-n) * x1 + c * y1;
    lemma_fundamental_div_mod(a2, s);
    lemma_fundamental_div_mod(b2, s);
    lemma_mod_bound(a2, s);
    lemma_mod_bound(b2, s);
    let x2 = a2 / s;
    let y2 = b2 / s;
    let r3 = a2 % s;
    let r4 = b2 % s;
    assert(rotate_spec(rotate_spec(v, r), inv) == (x2, y2));
    assert(d == c * c + n * n - s * s);
    assert(a2 == c * x1 + n * y1 && b2 == c * y1 - n * x1) by (nonlinear_arith)
        requires
            a2 == c * x1 - (-n) * y1,
            b2 == (-n) * x1 + c * y1,
    ;
    assert(s * a2 == c * (s * x1) + n * (s * y1)) by (nonlinear_arith)
        requires a2 == c * x1 + n * y1;
    assert(s * b2 == c * (s * y1) - n * (s * x1)) by (nonlinear_arith)
        requires b2 == c * y1 - n * x1;
    assert(c * (s * x1) == c * a - c * r1) by (nonlinear_arith)
        requires s * x1 == a - r1;
    assert(n * (s * y1) == n * b - n * r2) by (nonlinear_arith)
        requires s * y1 == b - r2;
    assert(c * (s * y1) == c * b - c * r2) by (nonlinear_arith)
        requires s * y1 == b - r2;
    assert(n * (s * x1) == n * a - n * r1) by (nonlinear_arith)
        requires s * x1 == a - r1;
    assert(c * a + n * b == (c * c + n * n) * x) by (nonlinear_arith)
        requires
            a == c * x - n * y,
            b == n * x + c * y,
    ;
    assert(c * b - n * a == (c * c + n * n) * y) by (nonlinear_arith)
        requires
            a == c * x - n * y,
            b == n * x + c * y,
    ;
    assert(s * s * x2 == s * a2 - s * r3) by (nonlinear_arith)
        requires a2 == s * x2 + r3;
    assert(s * s * y2 == s * b2 - s * r4) by (nonlinear_arith)
        requires b2 == s * y2 + r4;
    assert(d * x == (c * c + n * n) * x - s * s * x) by (nonlinear_arith)
        requires d == c * c + n * n - s * s;
    assert(d * y == (c * c + n * n) * y - s * s * y) by (nonlinear_arith)
        requires d == c * c + n * n - s * s;
    assert(s * s * (x2 - x) == s * s * x2 - s * s * x) by (nonlinear_arith);
    assert(s * s * (y2 - y) == s * s * y2 - s * s * y) by (nonlinear_arith);
    assert(s * s * (x2 - x) == d * x - c * r1 - n * r2 - s * r3);
    assert(s * s * (y2 - y) == d * y + n * r1 - c * r2 - s * r4);
    assert(abs(c * r1) <= s * s && abs(n * r2) <= s * s && abs(n * r1) <= s * s
        && abs(c * r2) <= s * s) by (nonlinear_arith)
        requires
            -s <= c <= s,
            -s <= n <= s,
            0 <= r1 < s,
            0 <= r2 < s,
    ;
    assert(0 <= s * r3 < s * s && 0 <= s * r4 < s * s) by (nonlinear_arith)
        requires
            0 <= r3 < s,
            0 <= r4 < s,
            s > 0,
    ;
    if d == 0 {
        assert(d * x == 0 && d * y == 0);
        assert(abs(x2 - x) <= 3 && abs(y2 - y) <= 3) by (nonlinear_arith)
            requires
                abs(s * s * (x2 - x)) <= 3 * (s * s),
                abs(s * s * (y2 - y)) <= 3 * (s * s),
                s > 0,
        ;
    }
}

/// Mirroring twice gives back the offset it started from.
pub proof fn mirror_involution(v: (int, int), flip: bool)
    ensures
        mirror_spec(mirror_spec(v, flip), flip) == v,
{
}

} // verus!
