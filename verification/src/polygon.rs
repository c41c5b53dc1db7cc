//! Polygon area by the shoelace formula over a clockwise-sorted vertex set.

use vstd::prelude::*;
use vstd::math::abs;
use crate::bearing::{Point, cross};
use crate::sort::{
    sort_by_bearing, sorted_by_bearing, distinct_bearings, sort_coordinates_clockwise,
    lemma_sort_by_bearing_props, lemma_sort_of_sorted, lemma_sorted_unique,
};

verus! {

/// Vertices handed to the area function must fit in 32 bits, so that the
/// exact shoelace sum fits the accumulator.
pub open spec fn in_vertex_range(p: Point) -> bool {
    -0x7fff_ffff <= p.x <= 0x7fff_ffff && -0x7fff_ffff <= p.y <= 0x7fff_ffff
}

/// The sum of the shoelace terms `cross(s[i], s[i+1])` for `a <= i < b`.
pub open spec fn sum_cross_range(s: Seq<Point>, a: int, b: int) -> int
    decreases b - a,
{
    if b <= a {
        0
    } else {
        sum_cross_range(s, a, b - 1) + cross(s[b - 1], s[b])
    }
}

/// Twice the signed area of the polygon whose vertices are `s`, read as a
/// closed cycle: the shoelace terms over consecutive pairs, plus the
/// wrap-around term. Empty input sums to zero.
pub open spec fn shoelace_sum(s: Seq<Point>) -> int {
    if s.len() == 0 {
        0
    } else {
        sum_cross_range(s, 0, s.len() - 1) + cross(s[s.len() - 1], s[0])
    }
}

/// The sequence rotated left by `k` places: the cycle read from another
/// starting vertex.
pub open spec fn rotated_left(s: Seq<Point>, k: int) -> Seq<Point> {
    s.skip(k) + s.take(k)
}

/// A range of shoelace terms splits at any midpoint.
proof fn lemma_sum_cross_split(s: Seq<Point>, a: int, b: int, c: int)
    requires
        a <= b <= c,
    ensures
        sum_cross_range(s, a, c) == sum_cross_range(s, a, b) + sum_cross_range(s, b, c),
    decreases c - b,
{
    if b < c {
        lemma_sum_cross_split(s, a, b, c - 1);
    }
}

/// Shoelace terms over a window of one sequence equal those over the shifted
/// window of another, when the two agree there.
proof fn lemma_sum_cross_shifted(s: Seq<Point>, t: Seq<Point>, d: int, a: int, b: int)
    requires
        a <= b,
        forall|i: int| a <= i <= b ==> #[trigger] t[i] == s[i + d],
    ensures
        sum_cross_range(t, a, b) == sum_cross_range(s, a + d, b + d),
    decreases b - a,
{
    if a < b {
        lemma_sum_cross_shifted(s, t, d, a, b - 1);
    }
}

/// The shoelace sum does not change when the cycle is read from the next
/// vertex on.
proof fn lemma_shoelace_rotate_once(s: Seq<Point>)
    requires
        s.len() >= 1,
    ensures
        shoelace_sum(rotated_left(s, 1)) == shoelace_sum(s),
{
    let n = s.len() as int;
    let t = rotated_left(s, 1);
    if n == 1 {
        assert(t =~= s);
    } else {
        assert(forall|i: int| 0 <= i <= n - 2 ==> #[trigger] t[i] == s[i + 1]);
        assert(t[n - 1] == s[0]);
        lemma_sum_cross_shifted(s, t, 1, 0, n - 2);
        assert(sum_cross_range(t, 0, n - 1) == sum_cross_range(t, 0, n - 2) + cross(
            t[n - 2],
            t[n - 1],
        ));
        lemma_sum_cross_split(s, 0, 1, n - 1);
        assert(sum_cross_range(s, 0, 0) == 0);
        assert(sum_cross_range(s, 0, 1) == cross(s[0], s[1]));
    }
}

/// Reading the cycle `k` vertices on is one step and then `k - 1` more.
proof fn lemma_rotated_compose(s: Seq<Point>, k: int)
    requires
        1 <= k <= s.len(),
    ensures
        rotated_left(s, k) == rotated_left(rotated_left(s, 1), k - 1),
{
    let n = s.len() as int;
    let r1 = rotated_left(s, 1);
    assert forall|i: int| 0 <= i < n implies rotated_left(s, k)[i] == rotated_left(r1, k - 1)[i] by {
        if i < n - k {
            assert(rotated_left(s, k)[i] == s[i + k]);
            assert(rotated_left(r1, k - 1)[i] == r1[i + k - 1]);
        } else if i == n - k {
            assert(rotated_left(s, k)[i] == s[0]);
            assert(rotated_left(r1, k - 1)[i] == r1[n - 1]);
        } else {
            assert(rotated_left(s, k)[i] == s[i - (n - k)]);
            assert(rotated_left(r1, k - 1)[i] == r1[i - (n - k) - 1]);
        }
    }
    assert(rotated_left(s, k) =~= rotated_left(r1, k - 1));
}

/// Law: the shoelace sum, and with it the polygon area, is invariant to the
/// starting rotation of the vertex cycle: reading the same cyclic sequence
/// from any vertex gives the same sum and the same absolute value.
pub proof fn lemma_shoelace_rotation_invariant(s: Seq<Point>, k: int)
    requires
        0 <= k <= s.len(),
    ensures
        shoelace_sum(rotated_left(s, k)) == shoelace_sum(s),
        abs(shoelace_sum(rotated_left(s, k))) == abs(shoelace_sum(s)),
    decreases k,
{
    if k == 0 {
        assert(rotated_left(s, 0) =~= s);
    } else {
        lemma_shoelace_rotate_once(s);
        lemma_rotated_compose(s, k);
        lemma_shoelace_rotation_invariant(rotated_left(s, 1), k - 1);
    }
}

/// A rotation is a permutation of the cycle.
proof fn lemma_rotated_multiset(s: Seq<Point>, k: int)
    requires
        0 <= k <= s.len(),
    ensures
        rotated_left(s, k).to_multiset() == s.to_multiset(),
{
    vstd::seq_lib::lemma_multiset_commutative(s.skip(k), s.take(k));
    vstd::seq_lib::lemma_multiset_commutative(s.take(k), s.skip(k));
    assert(s =~= s.take(k) + s.skip(k));
}

/// Law: the area function is invariant to the starting rotation of an
/// already-sorted clockwise vertex sequence without bearing ties: the
/// clockwise sort puts every cyclic shift back to the same cycle, so the
/// area comes out the same.
pub proof fn lemma_sorted_rotation_same_area(s: Seq<Point>, k: int)
    requires
        0 <= k <= s.len(),
        sorted_by_bearing(s),
        distinct_bearings(s),
    ensures
        sort_by_bearing(rotated_left(s, k)) == sort_by_bearing(s),
        abs(shoelace_sum(sort_by_bearing(rotated_left(s, k)))) == abs(
            shoelace_sum(sort_by_bearing(s)),
        ),
{
    lemma_sort_by_bearing_props(rotated_left(s, k));
    lemma_rotated_multiset(s, k);
    lemma_sort_of_sorted(s);
    lemma_sorted_unique(s, sort_by_bearing(rotated_left(s, k)));
}

/// The product of two values within 32-bit range is within `2^62` of zero.
proof fn lemma_vertex_prod_bound(a: int, b: int)
    by (nonlinear_arith)
    requires
        -0x7fff_ffff <= a <= 0x7fff_ffff,
        -0x7fff_ffff <= b <= 0x7fff_ffff,
    ensures
        -0x4000_0000_0000_0000 <= a * b <= 0x4000_0000_0000_0000,
{
}

/// Twice the area of the polygon formed by the given vertices, an exact
/// integer (the area itself may be a half-integer). The vertex set is first
/// sorted in place into clockwise order round the origin — a documented side
/// effect on the caller's data — and the shoelace sum is taken over the
/// sorted cycle; the result is its absolute value. An empty set has area
/// zero and is not sorted; one or two vertices give zero through the
/// arithmetic, with no special guard.
pub fn calculate_polygon_area(vertices: &mut Vec<Point>) -> (doubled_area: u128)
    requires
        forall|i: int| 0 <= i < old(vertices)@.len() ==> in_vertex_range(#[trigger] old(vertices)@[i]),
        old(vertices)@.len() <= 0xffff_ffff,
    ensures
        final(vertices)@ == sort_by_bearing(old(vertices)@),
        doubled_area == abs(shoelace_sum(sort_by_bearing(old(vertices)@))),
        old(vertices)@.len() == 0 ==> doubled_area == 0 && final(vertices)@ == old(vertices)@,
{
    let ghost orig = vertices@;
    if vertices.is_empty() {
        return 0;
    }
    sort_coordinates_clockwise(vertices);
    proof {
        lemma_sort_by_bearing_props(orig);
        assert forall|k: int| 0 <= k < vertices@.len() implies in_vertex_range(
            #[trigger] vertices@[k],
        ) by {
            assert(orig.contains(vertices@[k]));
            let m = choose|m: int| 0 <= m < orig.len() && orig[m] == vertices@[k];
        }
    }
    let n = vertices.len();
    let mut area: i128 = 0;
    let mut i: usize = 0;
    while i < n - 1
        invariant
            vertices@ == sort_by_bearing(orig),
            1 <= n <= 0xffff_ffff,
            n == vertices@.len(),
            i <= n - 1,
            forall|k: int| 0 <= k < vertices@.len() ==> in_vertex_range(#[trigger] vertices@[k]),
            area == sum_cross_range(vertices@, 0, i as int),
            -0x8000_0000_0000_0000 * (i as int) <= area <= 0x8000_0000_0000_0000 * (i as int),
        decreases n - 1 - i,
    {
        proof {
            lemma_vertex_prod_bound(vertices@[i as int].x as int, vertices@[i + 1].y as int);
            lemma_vertex_prod_bound(vertices@[i + 1].x as int, vertices@[i as int].y as int);
        }
        let term: i128 = (vertices[i].x as i128) * (vertices[i + 1].y as i128) - (vertices[i
            + 1].x as i128) * (vertices[i].y as i128);
        area = area + term;
        i += 1;
    }
    proof {
        lemma_vertex_prod_bound(vertices@[n - 1].x as int, vertices@[0].y as int);
        lemma_vertex_prod_bound(vertices@[0].x as int, vertices@[n - 1].y as int);
    }
    let wrap: i128 = (vertices[n - 1].x as i128) * (vertices[0].y as i128) - (vertices[0].x
        as i128) * (vertices[n - 1].y as i128);
    let total: i128 = area + wrap;
    assert(total == shoelace_sum(vertices@));
    if total < 0 {
        (-total) as u128
    } else {
        total as u128
    }
}

} // verus!
