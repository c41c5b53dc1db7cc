//! Sorting a point set into ascending clockwise bearing round the origin.
//!
//! The order keys off the absolute coordinates, not the set's centroid: a
//! caller whose points are not centred on the origin must recentre first or
//! accept origin-relative order. The sort is stable, so points with equal
//! bearings (collinear with the origin) keep their relative order, and the
//! result is pinned exactly by the spec-level `sort_by_bearing`.

use vstd::prelude::*;
use crate::bearing::{
    Point, bearing_lt, bearing_le, bearing_eqv, bearing_precedes, lemma_bearing_lt_asymmetric,
    lemma_bearing_lt_split, lemma_bearing_le_trans, lemma_bearing_le_antisymmetric,
};

verus! {

/// No two points of the sequence share a clockwise bearing.
pub open spec fn distinct_bearings(s: Seq<Point>) -> bool {
    forall|i: int, j: int| 0 <= i < j < s.len() ==> !bearing_eqv(#[trigger] s[i], #[trigger] s[j])
}

/// `x` placed into the sorted sequence `s`, after every element whose bearing
/// is at most that of `x`.
pub open spec fn insert_by_bearing(x: Point, s: Seq<Point>) -> Seq<Point>
    decreases s.len(),
{
    if s.len() == 0 {
        seq![x]
    } else if bearing_le(s[0], x) {
        seq![s[0]] + insert_by_bearing(x, s.drop_first())
    } else {
        seq![x] + s
    }
}

/// The stable sort of a point sequence by ascending clockwise bearing:
/// each element in turn inserted, after its equals, into the sorted prefix.
pub open spec fn sort_by_bearing(s: Seq<Point>) -> Seq<Point>
    decreases s.len(),
{
    if s.len() == 0 {
        Seq::empty()
    } else {
        insert_by_bearing(s.last(), sort_by_bearing(s.drop_last()))
    }
}

/// The sequence is in ascending clockwise-bearing order.
pub open spec fn sorted_by_bearing(s: Seq<Point>) -> bool {
    forall|i: int, j: int| 0 <= i < j < s.len() ==> bearing_le(s[i], s[j])
}

/// Where an insertion lands: the index of the first element whose bearing
/// strictly exceeds that of the inserted point.
proof fn lemma_insert_position(x: Point, s: Seq<Point>) -> (j: int)
    ensures
        0 <= j <= s.len(),
        insert_by_bearing(x, s) == s.insert(j, x),
        forall|k: int| 0 <= k < j ==> bearing_le(#[trigger] s[k], x),
        j < s.len() ==> bearing_lt(x, s[j]),
    decreases s.len(),
{
    if s.len() == 0 {
        assert(insert_by_bearing(x, s) =~= s.insert(0, x));
        0
    } else if bearing_le(s[0], x) {
        let j0 = lemma_insert_position(x, s.drop_first());
        assert(insert_by_bearing(x, s) == seq![s[0]] + s.drop_first().insert(j0, x));
        assert(seq![s[0]] + s.drop_first().insert(j0, x) =~= s.insert(j0 + 1, x));
        assert forall|k: int| 0 <= k < j0 + 1 implies bearing_le(#[trigger] s[k], x) by {
            if k >= 1 {
                assert(s.drop_first()[k - 1] == s[k]);
                assert(bearing_le(s.drop_first()[k - 1], x));
            }
        }
        j0 + 1
    } else {
        lemma_bearing_lt_asymmetric(x, s[0]);
        assert(bearing_lt(x, s[0]));
        assert(insert_by_bearing(x, s) =~= s.insert(0, x));
        0
    }
}

/// A strict predecessor of an element is a strict predecessor of everything
/// at or after it in a sorted sequence.
proof fn lemma_lt_le_trans(x: Point, p: Point, q: Point)
    requires
        bearing_lt(x, p),
        bearing_le(p, q),
    ensures
        bearing_lt(x, q),
{
    lemma_bearing_lt_split(p, q, x);
}

/// Inserting into a sorted sequence keeps it sorted.
proof fn lemma_insert_sorted(x: Point, s: Seq<Point>)
    requires
        sorted_by_bearing(s),
    ensures
        sorted_by_bearing(insert_by_bearing(x, s)),
        insert_by_bearing(x, s).len() == s.len() + 1,
{
    let j = lemma_insert_position(x, s);
    let t = insert_by_bearing(x, s);
    assert(t == s.insert(j, x));
    assert forall|a: int, b: int| 0 <= a < b < t.len() implies bearing_le(t[a], t[b]) by {
        if a < j && b == j {
            // t[a] == s[a] with bearing at most x.
        } else if a == j && b > j {
            // x strictly precedes s[j], which is at most s[b - 1].
            lemma_bearing_lt_asymmetric(x, s[b - 1]);
            if b - 1 > j {
                lemma_lt_le_trans(x, s[j], s[b - 1]);
            }
        } else if a < j && b > j {
            // both come from s, at indices a and b - 1.
        } else {
            // both come from s on the same side of the insertion.
        }
    }
}

/// Every element of an insertion is the inserted point or an element of the
/// original sequence.
proof fn lemma_insert_elements(x: Point, s: Seq<Point>)
    ensures
        forall|k: int|
            0 <= k < insert_by_bearing(x, s).len() ==> (insert_by_bearing(x, s)[k] == x
                || s.contains(#[trigger] insert_by_bearing(x, s)[k])),
{
    let j = lemma_insert_position(x, s);
    let t = insert_by_bearing(x, s);
    assert forall|k: int| 0 <= k < t.len() implies (t[k] == x || s.contains(t[k])) by {
        if k < j {
            assert(t[k] == s[k]);
        } else if k > j {
            assert(t[k] == s[k - 1]);
        }
    }
}

/// Insertion adds the one point to the sequence's multiset.
proof fn lemma_insert_multiset(x: Point, s: Seq<Point>)
    ensures
        insert_by_bearing(x, s).to_multiset() == s.to_multiset().insert(x),
    decreases s.len(),
{
    broadcast use vstd::seq_lib::group_to_multiset_ensures;

    if s.len() == 0 {
        assert(seq![x] =~= Seq::<Point>::empty().push(x));
        assert(insert_by_bearing(x, s).to_multiset() =~= s.to_multiset().insert(x));
    } else if bearing_le(s[0], x) {
        let rest = s.drop_first();
        lemma_insert_multiset(x, rest);
        vstd::seq_lib::lemma_multiset_commutative(seq![s[0]], insert_by_bearing(x, rest));
        vstd::seq_lib::lemma_multiset_commutative(seq![s[0]], rest);
        assert(s =~= seq![s[0]] + rest);
        assert(insert_by_bearing(x, s).to_multiset() =~= s.to_multiset().insert(x));
    } else {
        vstd::seq_lib::lemma_multiset_commutative(seq![x], s);
        assert(seq![x] =~= Seq::<Point>::empty().push(x));
        assert(insert_by_bearing(x, s).to_multiset() =~= s.to_multiset().insert(x));
    }
}

/// The sort keeps the multiset of points (it is a permutation), keeps
/// sortedness, and invents no points: every element of the result is an
/// element of the input.
pub proof fn lemma_sort_by_bearing_props(s: Seq<Point>)
    ensures
        sort_by_bearing(s).len() == s.len(),
        sorted_by_bearing(sort_by_bearing(s)),
        sort_by_bearing(s).to_multiset() == s.to_multiset(),
        forall|k: int|
            0 <= k < s.len() ==> s.contains(#[trigger] sort_by_bearing(s)[k]),
    decreases s.len(),
{
    broadcast use vstd::seq_lib::group_to_multiset_ensures;

    if s.len() > 0 {
        let prefix = s.drop_last();
        lemma_sort_by_bearing_props(prefix);
        lemma_insert_sorted(s.last(), sort_by_bearing(prefix));
        lemma_insert_elements(s.last(), sort_by_bearing(prefix));
        lemma_insert_multiset(s.last(), sort_by_bearing(prefix));
        assert(s =~= prefix.push(s.last()));
        assert(sort_by_bearing(s).to_multiset() =~= s.to_multiset());
        assert forall|k: int| 0 <= k < s.len() implies s.contains(
            #[trigger] sort_by_bearing(s)[k],
        ) by {
            let e = sort_by_bearing(s)[k];
            if e == s.last() {
                assert(s[s.len() - 1] == e);
            } else {
                assert(sort_by_bearing(prefix).contains(e));
                let m = choose|m: int|
                    0 <= m < sort_by_bearing(prefix).len() && sort_by_bearing(prefix)[m] == e;
                assert(prefix.contains(e));
                let n = choose|n: int| 0 <= n < prefix.len() && prefix[n] == e;
                assert(s[n] == e);
            }
        }
    }
}

/// Inserting a point that no element strictly exceeds appends it.
proof fn lemma_insert_at_end(x: Point, s: Seq<Point>)
    requires
        forall|k: int| 0 <= k < s.len() ==> bearing_le(#[trigger] s[k], x),
    ensures
        insert_by_bearing(x, s) == s + seq![x],
    decreases s.len(),
{
    if s.len() == 0 {
        assert(insert_by_bearing(x, s) =~= s + seq![x]);
    } else {
        assert(forall|k: int|
            0 <= k < s.drop_first().len() ==> bearing_le(#[trigger] s.drop_first()[k], x));
        lemma_insert_at_end(x, s.drop_first());
        assert(insert_by_bearing(x, s) =~= s + seq![x]);
    }
}

/// Sorting an already sorted sequence leaves it unchanged.
pub proof fn lemma_sort_of_sorted(s: Seq<Point>)
    requires
        sorted_by_bearing(s),
    ensures
        sort_by_bearing(s) == s,
    decreases s.len(),
{
    if s.len() > 0 {
        let prefix = s.drop_last();
        assert(forall|i: int, j: int|
            0 <= i < j < prefix.len() ==> bearing_le(#[trigger] prefix[i], #[trigger] prefix[j]));
        lemma_sort_of_sorted(prefix);
        assert(forall|k: int| 0 <= k < prefix.len() ==> bearing_le(#[trigger] prefix[k], s.last()));
        lemma_insert_at_end(s.last(), prefix);
        assert(sort_by_bearing(s) =~= s);
    }
}

/// A sorted arrangement of given points is unique when no two of them share
/// a bearing: two sorted sequences with the same multiset are equal.
pub proof fn lemma_sorted_unique(a: Seq<Point>, b: Seq<Point>)
    requires
        sorted_by_bearing(a),
        sorted_by_bearing(b),
        distinct_bearings(a),
        a.to_multiset() == b.to_multiset(),
    ensures
        a == b,
    decreases a.len(),
{
    broadcast use vstd::seq_lib::group_to_multiset_ensures;

    a.to_multiset_ensures();
    b.to_multiset_ensures();
    assert(a.len() == b.len());
    if a.len() == 0 {
        assert(a =~= b);
    } else {
        // the head of each sequence occurs in the other.
        assert(a.contains(a[0]));
        assert(b.to_multiset().count(a[0]) > 0);
        assert(b.contains(a[0]));
        let k = choose|k: int| 0 <= k < b.len() && b[k] == a[0];
        assert(b.contains(b[0]));
        assert(a.to_multiset().count(b[0]) > 0);
        assert(a.contains(b[0]));
        let m = choose|m: int| 0 <= m < a.len() && a[m] == b[0];
        // each head is at most the other, so they share a bearing; a bearing
        // occurs once in a, so the heads are the same point.
        assert(bearing_le(b[0], a[0]));
        assert(bearing_le(a[0], b[0]));
        lemma_bearing_le_antisymmetric(a[0], b[0]);
        if m > 0 {
            assert(!bearing_eqv(a[0], a[m]));
            assert(false);
        }
        assert(a[0] == b[0]);
        // drop the shared head and recurse.
        let a1 = a.drop_first();
        let b1 = b.drop_first();
        assert(a.remove(0) =~= a1);
        assert(b.remove(0) =~= b1);
        assert(a1.to_multiset() == a.to_multiset().remove(a[0]));
        assert(b1.to_multiset() == b.to_multiset().remove(b[0]));
        lemma_sorted_unique(a1, b1);
        assert forall|i: int| 0 <= i < a.len() implies a[i] == b[i] by {
            if i > 0 {
                assert(a[i] == a1[i - 1]);
                assert(b[i] == b1[i - 1]);
            }
        }
        assert(a =~= b);
    }
}

/// Law: sorting is idempotent; a second sort changes nothing.
pub proof fn lemma_sort_idempotent(s: Seq<Point>)
    ensures
        sort_by_bearing(sort_by_bearing(s)) == sort_by_bearing(s),
{
    lemma_sort_by_bearing_props(s);
    lemma_sort_of_sorted(sort_by_bearing(s));
}

/// The insertion point found by the scan is the one the spec insertion uses.
proof fn lemma_insert_at(x: Point, s: Seq<Point>, j: int)
    requires
        sorted_by_bearing(s),
        0 <= j <= s.len(),
        j > 0 ==> bearing_le(s[j - 1], x),
        forall|k: int| j <= k < s.len() ==> bearing_lt(x, #[trigger] s[k]),
    ensures
        insert_by_bearing(x, s) == s.insert(j, x),
{
    let j0 = lemma_insert_position(x, s);
    if j0 < j {
        // then s[j0] is among the elements at most x, yet x precedes it.
        assert(bearing_le(s[j0], x)) by {
            if j0 < j - 1 {
                lemma_bearing_le_trans(s[j0], s[j - 1], x);
            }
        }
        assert(false);
    }
    if j0 > j {
        // then s[j] is at most x by the position lemma, yet x precedes it.
        assert(bearing_le(s[j], x));
        assert(false);
    }
}

/// Sorts the point set in place into ascending clockwise bearing relative to
/// the origin. Stable: equal bearings keep their input order.
pub fn sort_coordinates_clockwise(coords: &mut Vec<Point>)
    ensures
        final(coords)@ == sort_by_bearing(old(coords)@),
{
    let ghost orig = coords@;
    let mut result: Vec<Point> = Vec::new();
    let mut i: usize = 0;
    while i < coords.len()
        invariant
            coords@ == orig,
            i <= orig.len(),
            result@ == sort_by_bearing(orig.take(i as int)),
        decreases orig.len() - i,
    {
        let x = coords[i];
        proof {
            lemma_sort_by_bearing_props(orig.take(i as int));
        }
        let mut j: usize = result.len();
        while j > 0 && bearing_precedes(x, result[j - 1])
            invariant
                j <= result@.len(),
                forall|k: int| j <= k < result@.len() ==> bearing_lt(x, #[trigger] result@[k]),
            decreases j,
        {
            j -= 1;
        }
        proof {
            if j > 0 {
                lemma_bearing_lt_asymmetric(x, result@[j - 1]);
            }
            lemma_insert_at(x, result@, j as int);
            assert(orig.take(i + 1 as int).drop_last() =~= orig.take(i as int));
            assert(orig.take(i + 1 as int).last() == x);
        }
        result.insert(j, x);
        i += 1;
    }
    proof {
        assert(orig.take(orig.len() as int) =~= orig);
    }
    *coords = result;
}

} // verus!
