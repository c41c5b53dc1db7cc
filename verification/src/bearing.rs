//! Clockwise bearings, represented exactly.
//!
//! The clockwise bearing of a point `(x, y)` is the angle in `(0, 2*pi]`
//! measured clockwise from the positive x axis to the ray through the point
//! (the reverse of the usual mathematical convention, with the boundary value
//! `2*pi` on the positive x axis itself, the origin included). The angle is an
//! irrational number in general, but comparing two bearings needs no radians:
//! the four axis-delimited classes below order first, and inside a class the
//! sign of the cross product decides. That order is what this module defines
//! and what the clockwise sort uses.

use vstd::prelude::*;
use crate::pbc::{in_coord_range, valid_extent, min_image};

verus! {

/// A planar point, or any 2-D vector of axis values, in exact fixed-point
/// coordinates.
#[derive(Clone, Copy, PartialEq, Eq, Structural, Debug)]
pub struct Point {
    pub x: i64,
    pub y: i64,
}

/// The 2-D cross product `p.x * q.y - q.x * p.y`: positive when `q` lies
/// counter-clockwise of `p`, zero when they are collinear.
pub open spec fn cross(p: Point, q: Point) -> int {
    p.x * q.y - q.x * p.y
}

/// The dot product of two vectors.
pub open spec fn dot(p: Point, q: Point) -> int {
    p.x * q.x + p.y * q.y
}

/// The angular class of a point, in ascending clockwise bearing:
/// class 0 is the open lower half-plane (bearing in `(0, pi)`),
/// class 1 the negative x axis (bearing exactly `pi`),
/// class 2 the open upper half-plane (bearing in `(pi, 2*pi)`),
/// class 3 the positive x axis and the origin (boundary bearing `2*pi`).
pub open spec fn bearing_class(p: Point) -> int {
    if p.y < 0 {
        0
    } else if p.y == 0 && p.x < 0 {
        1
    } else if p.y > 0 {
        2
    } else {
        3
    }
}

/// The clockwise bearing of `p` is strictly smaller than that of `q`:
/// a smaller angular class, or the same class with `q` farther round
/// clockwise (the cross product negative). Points of classes 1 and 3 lie on
/// the x axis, where the cross product vanishes, so inside those classes no
/// point precedes another.
pub open spec fn bearing_lt(p: Point, q: Point) -> bool {
    bearing_class(p) < bearing_class(q) || (bearing_class(p) == bearing_class(q) && cross(p, q)
        < 0)
}

/// The clockwise bearing of `p` is at most that of `q`.
pub open spec fn bearing_le(p: Point, q: Point) -> bool {
    !bearing_lt(q, p)
}

/// Two points have exactly the same clockwise bearing: the same class, and
/// collinear within it.
pub open spec fn bearing_eqv(p: Point, q: Point) -> bool {
    bearing_class(p) == bearing_class(q) && cross(p, q) == 0
}

/// Cramer's decomposition of three planar vectors: the identity that makes
/// the angular order transitive.
proof fn lemma_cramer(p: Point, q: Point, r: Point)
    by (nonlinear_arith)
    ensures
        (q.x * p.y - p.x * q.y) * r.y - (r.x * p.y - p.x * r.y) * q.y + (r.x * q.y - q.x * r.y)
            * p.y == 0,
{
}

/// The product of a non-negative and a non-positive factor is non-positive.
proof fn lemma_prod_sign(a: int, b: int)
    by (nonlinear_arith)
    requires
        a >= 0,
        b <= 0,
    ensures
        a * b <= 0,
{
}

/// The product of two negative factors is positive.
proof fn lemma_prod_neg_neg(a: int, b: int)
    by (nonlinear_arith)
    requires
        a < 0,
        b < 0,
    ensures
        a * b > 0,
{
}

/// The product of two non-negative factors is non-negative.
proof fn lemma_prod_nonneg(a: int, b: int)
    by (nonlinear_arith)
    requires
        a >= 0,
        b >= 0,
    ensures
        a * b >= 0,
{
}

/// The product of a negative and a positive factor is negative.
proof fn lemma_prod_neg_pos(a: int, b: int)
    by (nonlinear_arith)
    requires
        a < 0,
        b > 0,
    ensures
        a * b < 0,
{
}

/// No two points strictly precede each other.
pub proof fn lemma_bearing_lt_asymmetric(p: Point, q: Point)
    ensures
        !(bearing_lt(p, q) && bearing_lt(q, p)),
{
}

/// A strict comparison splits every third point to one side or the other:
/// when `r` precedes `p`, any `q` either follows `r` or precedes `p`. This is
/// the connectedness that transitivity of the non-strict order rests on.
pub proof fn lemma_bearing_lt_split(p: Point, q: Point, r: Point)
    requires
        bearing_lt(r, p),
    ensures
        bearing_lt(r, q) || bearing_lt(q, p),
{
    if bearing_class(q) > bearing_class(r) {
        // r precedes q by class alone.
    } else if bearing_class(q) < bearing_class(r) {
        // the class of q is below that of r, hence below that of p.
    } else if bearing_class(r) < bearing_class(p) {
        // q shares the class of r, which is below that of p.
    } else {
        // all three share one class, and cross(r, p) < 0.
        let a = cross(q, p);
        let b = cross(r, p);
        let c = cross(r, q);
        if a >= 0 && c >= 0 {
            // Impossible: the Cramer identity forces a strict sign imbalance.
            assert(cross(q, p) == q.x * p.y - p.x * q.y);
            assert(cross(r, p) == r.x * p.y - p.x * r.y);
            assert(cross(r, q) == r.x * q.y - q.x * r.y);
            lemma_cramer(p, q, r);
            assert(a * r.y - b * q.y + c * p.y == 0);
            if p.y < 0 {
                // class 0: all y components are negative.
                lemma_prod_sign(a, r.y as int);
                lemma_prod_neg_neg(b, q.y as int);
                lemma_prod_sign(c, p.y as int);
                assert(false);
            } else if p.y > 0 {
                // class 2: all y components are positive.
                lemma_prod_nonneg(a, r.y as int);
                lemma_prod_neg_pos(b, q.y as int);
                lemma_prod_nonneg(c, p.y as int);
                assert(false);
            } else {
                // classes 1 and 3 lie on the x axis, where cross(r, p) == 0.
                assert(b == 0);
                assert(false);
            }
        }
    }
}

/// The non-strict clockwise order is total: any two points compare. With
/// transitivity below, the comparison the clockwise sort keys on is a total
/// preorder, exact where floating-point angle keys would tie unpredictably.
pub proof fn lemma_bearing_le_total(p: Point, q: Point)
    ensures
        bearing_le(p, q) || bearing_le(q, p),
{
    lemma_bearing_lt_asymmetric(p, q);
}

/// Two points, each at most the other in clockwise order, share one bearing.
pub proof fn lemma_bearing_le_antisymmetric(p: Point, q: Point)
    requires
        bearing_le(p, q),
        bearing_le(q, p),
    ensures
        bearing_eqv(p, q),
{
}

/// The non-strict clockwise order is transitive.
pub proof fn lemma_bearing_le_trans(p: Point, q: Point, r: Point)
    requires
        bearing_le(p, q),
        bearing_le(q, r),
    ensures
        bearing_le(p, r),
{
    if bearing_lt(r, p) {
        lemma_bearing_lt_split(p, q, r);
    }
}

/// The angular class of a point, as executable code.
fn bearing_class_exec(p: Point) -> (r: u8)
    ensures
        r as int == bearing_class(p),
{
    if p.y < 0 {
        0
    } else if p.y == 0 && p.x < 0 {
        1
    } else if p.y > 0 {
        2
    } else {
        3
    }
}

/// The product of two values in `i64` range stays well within `i128` range.
proof fn lemma_i64_prod_in_i128(a: int, b: int)
    by (nonlinear_arith)
    requires
        -0x8000_0000_0000_0000 <= a <= 0x7fff_ffff_ffff_ffff,
        -0x8000_0000_0000_0000 <= b <= 0x7fff_ffff_ffff_ffff,
    ensures
        -0x4000_0000_0000_0000_0000_0000_0000_0000 <= a * b
            <= 0x4000_0000_0000_0000_0000_0000_0000_0000,
{
}

/// Whether `p` strictly precedes `q` in clockwise bearing. The two cross
/// products are compared rather than subtracted, so no intermediate value
/// can overflow, whatever the coordinates.
pub fn bearing_precedes(p: Point, q: Point) -> (r: bool)
    ensures
        r == bearing_lt(p, q),
{
    let cp = bearing_class_exec(p);
    let cq = bearing_class_exec(q);
    if cp != cq {
        cp < cq
    } else {
        proof {
            lemma_i64_prod_in_i128(p.x as int, q.y as int);
            lemma_i64_prod_in_i128(q.x as int, p.y as int);
        }
        let a: i128 = (p.x as i128) * (q.y as i128);
        let b: i128 = (q.x as i128) * (p.y as i128);
        a < b
    }
}

/// An exactly represented clockwise bearing: the direction whose angle it is.
/// Two bearings compare by the clockwise order of their directions; the
/// direction's length carries no angular information.
#[derive(Clone, Copy, PartialEq, Eq, Structural, Debug)]
pub struct Bearing {
    pub dir: Point,
}

impl Bearing {
    /// This bearing is strictly smaller than `other`.
    pub fn lt(&self, other: &Bearing) -> (r: bool)
        ensures
            r == bearing_lt(self.dir, other.dir),
    {
        bearing_precedes(self.dir, other.dir)
    }

    /// This bearing is at most `other`.
    pub fn le(&self, other: &Bearing) -> (r: bool)
        ensures
            r == bearing_le(self.dir, other.dir),
    {
        !bearing_precedes(other.dir, self.dir)
    }

    /// This bearing and `other` are the same angle.
    pub fn same_angle(&self, other: &Bearing) -> (r: bool)
        ensures
            r == bearing_eqv(self.dir, other.dir),
    {
        proof {
            lemma_bearing_lt_asymmetric(self.dir, other.dir);
        }
        !bearing_precedes(self.dir, other.dir) && !bearing_precedes(other.dir, self.dir)
    }
}

/// The clockwise bearing of a point relative to the origin: the direction is
/// the point itself. The origin maps to the boundary bearing `2*pi`
/// (class 3), which callers must tolerate.
pub fn get_clockwise_angle_point(point: &Point) -> (b: Bearing)
    ensures
        b.dir == *point,
{
    Bearing { dir: *point }
}

/// The clockwise angle from `vector1` round to `vector2`, as an exact
/// bearing. Rotating the frame so that `vector1` points along the positive
/// x axis carries `vector2` to a vector proportional to
/// `(dot(v1, v2), cross(v1, v2))`, and a positive factor leaves an angle
/// unchanged; so that pair is the angle's direction. Two zero-magnitude
/// inputs yield the zero direction, the degenerate boundary bearing, which
/// propagates rather than failing.
pub fn get_clockwise_angle_between_vectors(vector1: &Point, vector2: &Point) -> (b: Bearing)
    requires
        -0x4000_0000 <= vector1.x <= 0x4000_0000,
        -0x4000_0000 <= vector1.y <= 0x4000_0000,
        -0x4000_0000 <= vector2.x <= 0x4000_0000,
        -0x4000_0000 <= vector2.y <= 0x4000_0000,
    ensures
        b.dir.x == dot(*vector1, *vector2),
        b.dir.y == cross(*vector1, *vector2),
{
    proof {
        lemma_small_prod_bound(vector1.x as int, vector2.x as int);
        lemma_small_prod_bound(vector1.y as int, vector2.y as int);
        lemma_small_prod_bound(vector1.x as int, vector2.y as int);
        lemma_small_prod_bound(vector2.x as int, vector1.y as int);
    }
    let d: i64 = vector1.x * vector2.x + vector1.y * vector2.y;
    let c: i64 = vector1.x * vector2.y - vector2.x * vector1.y;
    Bearing { dir: Point { x: d, y: c } }
}

/// The product of two values within `2^30` of zero is within `2^60` of zero.
proof fn lemma_small_prod_bound(a: int, b: int)
    by (nonlinear_arith)
    requires
        -0x4000_0000 <= a <= 0x4000_0000,
        -0x4000_0000 <= b <= 0x4000_0000,
    ensures
        -0x1000_0000_0000_0000 <= a * b <= 0x1000_0000_0000_0000,
{
}

/// The clockwise bearing of the minimum-image displacement from `coord1` to
/// `coord2` in a periodic box with per-axis lengths `dimensions`.
pub fn get_clockwise_angle(coord1: &Point, coord2: &Point, dimensions: &Point) -> (b: Bearing)
    requires
        in_coord_range(coord1.x as int),
        in_coord_range(coord1.y as int),
        in_coord_range(coord2.x as int),
        in_coord_range(coord2.y as int),
        valid_extent(dimensions.x as int),
        valid_extent(dimensions.y as int),
    ensures
        b.dir.x as int == min_image(coord1.x as int, coord2.x as int, dimensions.x as int),
        b.dir.y as int == min_image(coord1.y as int, coord2.y as int, dimensions.y as int),
{
    let dx = crate::pbc::min_image_axis(coord1.x, coord2.x, dimensions.x);
    let dy = crate::pbc::min_image_axis(coord1.y, coord2.y, dimensions.y);
    Bearing { dir: Point { x: dx, y: dy } }
}

} // verus!
