//! Minimum-image displacement under periodic boundary conditions.

use vstd::prelude::*;
use vstd::math::abs;

verus! {

/// Coordinates handed to the displacement functions must stay in this range,
/// so that differences and the minimum-image adjustment fit in an `i64`.
pub open spec fn in_coord_range(v: int) -> bool {
    -0x2000_0000_0000_0000 <= v <= 0x2000_0000_0000_0000
}

/// A periodic box length: positive, and small enough that adding or
/// subtracting it from a coordinate difference fits in an `i64`.
pub open spec fn valid_extent(d: int) -> bool {
    0 < d <= 0x2000_0000_0000_0000
}

/// The minimum-image displacement along one axis: the difference `v2 - v1`,
/// shifted by one box length when it lies outside `(-dim/2, dim/2]`.
/// The half-length comparisons are written with a factor of two so that an
/// odd `dim` needs no rounding.
pub open spec fn min_image(v1: int, v2: int, dim: int) -> int {
    let d = v2 - v1;
    if 2 * d > dim {
        d - dim
    } else if 2 * d < -dim {
        d + dim
    } else {
        d
    }
}

/// The lengths of the two coordinate vectors and of the dimension vector
/// disagree; the displacement is not defined on such inputs.
#[derive(Clone, Copy, PartialEq, Eq, Structural, Debug)]
pub struct SizeMismatchError {
    pub len1: usize,
    pub len2: usize,
    pub dimensions_len: usize,
}

/// One axis of the minimum-image displacement.
pub(crate) fn min_image_axis(v1: i64, v2: i64, dim: i64) -> (r: i64)
    requires
        in_coord_range(v1 as int),
        in_coord_range(v2 as int),
        valid_extent(dim as int),
    ensures
        r == min_image(v1 as int, v2 as int, dim as int),
{
    let d: i64 = v2 - v1;
    let dd: i128 = 2 * (d as i128);
    if dd > dim as i128 {
        d - dim
    } else if dd < -(dim as i128) {
        d + dim
    } else {
        d
    }
}

/// The minimum-image difference of two coordinate vectors, axis by axis.
///
/// Fails, rather than truncating or padding, when the three lengths do not
/// all agree; the error reports the offending lengths.
pub fn pbc_vector(vector1: &Vec<i64>, vector2: &Vec<i64>, dimensions: &Vec<i64>) -> (result: Result<
    Vec<i64>,
    SizeMismatchError,
>)
    requires
        forall|i: int| 0 <= i < vector1@.len() ==> in_coord_range(#[trigger] vector1@[i] as int),
        forall|i: int| 0 <= i < vector2@.len() ==> in_coord_range(#[trigger] vector2@[i] as int),
        forall|i: int| 0 <= i < dimensions@.len() ==> valid_extent(#[trigger] dimensions@[i] as int),
    ensures
        match result {
            Ok(r) => {
                &&& vector1@.len() == vector2@.len()
                &&& vector1@.len() == dimensions@.len()
                &&& r@.len() == vector1@.len()
                &&& forall|i: int|
                    0 <= i < r@.len() ==> #[trigger] r@[i] as int == min_image(
                        vector1@[i] as int,
                        vector2@[i] as int,
                        dimensions@[i] as int,
                    )
            },
            Err(e) => {
                &&& !(vector1@.len() == vector2@.len() && vector1@.len() == dimensions@.len())
                &&& e.len1 == vector1@.len()
                &&& e.len2 == vector2@.len()
                &&& e.dimensions_len == dimensions@.len()
            },
        },
{
    if vector1.len() != vector2.len() || vector1.len() != dimensions.len() {
        return Err(SizeMismatchError {
            len1: vector1.len(),
            len2: vector2.len(),
            dimensions_len: dimensions.len(),
        });
    }
    let mut difference: Vec<i64> = Vec::new();
    let mut i: usize = 0;
    while i < vector1.len()
        invariant
            i <= vector1@.len(),
            vector1@.len() == vector2@.len(),
            vector1@.len() == dimensions@.len(),
            forall|k: int| 0 <= k < vector1@.len() ==> in_coord_range(#[trigger] vector1@[k] as int),
            forall|k: int| 0 <= k < vector2@.len() ==> in_coord_range(#[trigger] vector2@[k] as int),
            forall|k: int|
                0 <= k < dimensions@.len() ==> valid_extent(#[trigger] dimensions@[k] as int),
            difference@.len() == i,
            forall|k: int|
                0 <= k < i ==> #[trigger] difference@[k] as int == min_image(
                    vector1@[k] as int,
                    vector2@[k] as int,
                    dimensions@[k] as int,
                ),
        decreases vector1@.len() - i,
    {
        difference.push(min_image_axis(vector1[i], vector2[i], dimensions[i]));
        i += 1;
    }
    Ok(difference)
}

/// Law: each component of the minimum-image displacement has magnitude at
/// most half the box length on its axis (stated exactly, as `2|r| <= dim`),
/// whenever the raw difference is within one and a half box lengths. A raw
/// difference farther out than that is shifted by a single box length only,
/// which cannot bring it within half a box.
pub proof fn lemma_min_image_within_half(v1: int, v2: int, dim: int)
    requires
        dim > 0,
        2 * abs(v2 - v1) <= 3 * dim,
    ensures
        2 * abs(min_image(v1, v2, dim)) <= dim,
{
}

/// Law: the displacement from any coordinate to itself is zero on every axis.
pub proof fn lemma_min_image_self_zero(v: int, dim: int)
    requires
        dim > 0,
    ensures
        min_image(v, v, dim) == 0,
{
}

} // verus!
