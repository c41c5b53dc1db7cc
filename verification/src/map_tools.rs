//! Keyed numeric mappings with exact rational values: normalisation to unit
//! sum, and a textual rendering of a nested mapping.

use vstd::prelude::*;

verus! {

/// No key occurs twice.
pub open spec fn keys_unique(entries: Seq<(i32, i64)>) -> bool {
    forall|i: int, j: int|
        0 <= i < j < entries.len() ==> (#[trigger] entries[i]).0 != (#[trigger] entries[j]).0
}

/// A mapping from integer keys to exact rational values with one shared
/// denominator: the entry `(k, n)` holds the value `n / den` under key `k`.
/// A caller with fractional data picks the denominator as its fixed-point
/// scale; integer data uses a denominator of one.
#[derive(Debug)]
pub struct NumericMap {
    pub entries: Vec<(i32, i64)>,
    pub den: i64,
}

/// The sum of the entries' numerators.
pub open spec fn sum_nums(entries: Seq<(i32, i64)>) -> int
    decreases entries.len(),
{
    if entries.len() == 0 {
        0
    } else {
        sum_nums(entries.drop_last()) + entries.last().1
    }
}

impl NumericMap {
    /// The denominator is positive and the keys are distinct.
    pub open spec fn wf(self) -> bool {
        self.den > 0 && keys_unique(self.entries@)
    }
}

/// Negating every numerator negates the sum.
proof fn lemma_sum_negated(a: Seq<(i32, i64)>, b: Seq<(i32, i64)>)
    requires
        a.len() == b.len(),
        forall|k: int|
            0 <= k < a.len() ==> (#[trigger] b[k]).0 == a[k].0 && b[k].1 as int == -(a[k].1 as int),
    ensures
        sum_nums(b) == -sum_nums(a),
    decreases a.len(),
{
    if a.len() > 0 {
        assert(forall|k: int|
            0 <= k < a.drop_last().len() ==> (#[trigger] b.drop_last()[k]).0 == a.drop_last()[k].0
                && b.drop_last()[k].1 as int == -(a.drop_last()[k].1 as int));
        lemma_sum_negated(a.drop_last(), b.drop_last());
    }
}

/// Normalises the mapping in place so that its values sum to exactly one:
/// every value is divided by the sum of all values. Since the values share
/// the denominator, that division is exact: the numerators' sum (made
/// positive, negating the entries when it is negative) becomes the new
/// denominator. Keys, their order and the value ratios are untouched. A
/// zero sum would put no denominator in range, so the caller must rule it
/// out, as with the empty mapping.
pub fn normalise_map(map: &mut NumericMap)
    requires
        old(map).wf(),
        old(map).entries@.len() <= 0xffff_ffff,
        sum_nums(old(map).entries@) != 0,
        -0x7fff_ffff_ffff_ffff <= sum_nums(old(map).entries@) <= 0x7fff_ffff_ffff_ffff,
        forall|i: int|
            0 <= i < old(map).entries@.len() ==> (#[trigger] old(map).entries@[i]).1
                >= -0x7fff_ffff_ffff_ffff,
    ensures
        final(map).wf(),
        final(map).entries@.len() == old(map).entries@.len(),
        forall|i: int|
            0 <= i < final(map).entries@.len() ==> (#[trigger] final(map).entries@[i]).0 == old(
                map,
            ).entries@[i].0,
        // each value is exactly the old value divided by the old sum of values:
        // new_num / new_den == old_num / sum, cross-multiplied.
        forall|i: int|
            0 <= i < final(map).entries@.len() ==> (#[trigger] final(map).entries@[i]).1 as int
                * sum_nums(old(map).entries@) == old(map).entries@[i].1 as int * (
            final(map).den as int),
        // the normalised values sum to exactly one: sum == den as a rational.
        sum_nums(final(map).entries@) == final(map).den,
{
    let ghost orig = map.entries@;
    let n = map.entries.len();
    let mut acc: i128 = 0;
    let mut i: usize = 0;
    while i < n
        invariant
            map.entries@ == orig,
            n == orig.len() <= 0xffff_ffff,
            i <= n,
            acc == sum_nums(orig.take(i as int)),
            -0x8000_0000_0000_0000 * (i as int) <= acc <= 0x8000_0000_0000_0000 * (i as int),
        decreases n - i,
    {
        proof {
            assert(orig.take(i + 1 as int).drop_last() =~= orig.take(i as int));
            assert(orig.take(i + 1 as int).last() == orig[i as int]);
        }
        acc = acc + (map.entries[i].1 as i128);
        i += 1;
    }
    proof {
        assert(orig.take(n as int) =~= orig);
    }
    if acc > 0 {
        map.den = acc as i64;
    } else {
        let mut negated: Vec<(i32, i64)> = Vec::new();
        let mut k: usize = 0;
        while k < n
            invariant
                map.entries@ == orig,
                n == orig.len(),
                forall|j: int|
                    0 <= j < orig.len() ==> (#[trigger] orig[j]).1 >= -0x7fff_ffff_ffff_ffff,
                k <= n,
                negated@.len() == k,
                forall|j: int|
                    0 <= j < k ==> (#[trigger] negated@[j]).0 == orig[j].0 && negated@[j].1 as int
                        == -(orig[j].1 as int),
            decreases n - k,
        {
            let key = map.entries[k].0;
            let num = map.entries[k].1;
            negated.push((key, -num));
            k += 1;
        }
        proof {
            lemma_sum_negated(orig, negated@);
        }
        map.entries = negated;
        map.den = (-acc) as i64;
        proof {
            let s = sum_nums(orig);
            assert forall|i2: int| 0 <= i2 < map.entries@.len() implies (
            #[trigger] map.entries@[i2]).1 as int * s == orig[i2].1 as int * (map.den as int) by {
                let a = orig[i2].1 as int;
                assert((-a) * s == a * (-s)) by (nonlinear_arith);
            }
        }
    }
}

/// The decimal digits of a non-negative number, most significant first.
pub open spec fn dec_digits(n: nat) -> Seq<u8>
    decreases n,
{
    if n < 10 {
        seq![(48 + n) as u8]
    } else {
        dec_digits(n / 10) + seq![(48 + n % 10) as u8]
    }
}

/// The decimal rendering of an integer: a minus sign for a negative number,
/// then its magnitude's digits.
pub open spec fn dec_bytes(n: int) -> Seq<u8> {
    if n < 0 {
        seq![45u8] + dec_digits((-n) as nat)
    } else {
        dec_digits(n as nat)
    }
}

/// Appends the decimal digits of `n`.
fn push_dec_u64(out: &mut Vec<u8>, n: u64)
    ensures
        final(out)@ == old(out)@ + dec_digits(n as nat),
    decreases n,
{
    let ghost pre = out@;
    if n < 10 {
        out.push(48 + (n as u8));
        proof {
            assert(out@ =~= pre + dec_digits(n as nat));
        }
    } else {
        push_dec_u64(out, n / 10);
        out.push(48 + ((n % 10) as u8));
        proof {
            assert(out@ =~= pre + dec_digits(n as nat));
        }
    }
}

/// Appends the decimal rendering of `v`.
fn push_dec_i64(out: &mut Vec<u8>, v: i64)
    ensures
        final(out)@ == old(out)@ + dec_bytes(v as int),
    decreases v,
{
    let ghost pre = out@;
    if v < 0 {
        out.push(45);
        let m: u64 = (-(v as i128)) as u64;
        push_dec_u64(out, m);
        proof {
            assert(out@ =~= pre + dec_bytes(v as int));
        }
    } else {
        push_dec_u64(out, v as u64);
    }
}

/// One value, rendered as its exact fraction `num/den`.
pub open spec fn render_value(num: int, den: int) -> Seq<u8> {
    dec_bytes(num) + seq![47u8] + dec_bytes(den)
}

/// The inner entries of one line, each as `key: value, ` in entry order.
pub open spec fn render_inner_entries(entries: Seq<(i32, i64)>, den: int) -> Seq<u8>
    decreases entries.len(),
{
    if entries.len() == 0 {
        Seq::empty()
    } else {
        render_inner_entries(entries.drop_last(), den) + dec_bytes(entries.last().0 as int)
            + seq![58u8, 32u8] + render_value(entries.last().1 as int, den) + seq![44u8, 32u8]
    }
}

/// One outer entry: `key: {` then its inner entries, then `}` and a newline.
pub open spec fn render_line(key: int, m: NumericMap) -> Seq<u8> {
    dec_bytes(key) + seq![58u8, 32u8, 123u8] + render_inner_entries(m.entries@, m.den as int)
        + seq![125u8, 10u8]
}

/// The whole nested mapping, one line per outer entry, in entry order.
pub open spec fn render_nested(maps: Seq<(i32, NumericMap)>) -> Seq<u8>
    decreases maps.len(),
{
    if maps.len() == 0 {
        Seq::empty()
    } else {
        render_nested(maps.drop_last()) + render_line(maps.last().0 as int, maps.last().1)
    }
}

/// Renders a nested mapping for display, one line per outer key in the form
/// `key: {innerKey: num/den, innerKey: num/den, }`, as exact bytes; writing
/// them to a stream is the caller's affair. The data is not touched.
pub fn show_nested_map(map: &Vec<(i32, NumericMap)>) -> (out: Vec<u8>)
    ensures
        out@ == render_nested(map@),
{
    let mut out: Vec<u8> = Vec::new();
    let mut i: usize = 0;
    while i < map.len()
        invariant
            i <= map@.len(),
            out@ == render_nested(map@.take(i as int)),
        decreases map@.len() - i,
    {
        let ghost line_start = out@;
        let key = map[i].0;
        push_dec_i64(&mut out, key as i64);
        out.push(58);
        out.push(32);
        out.push(123);
        let ghost open_brace = out@;
        proof {
            assert(open_brace =~= line_start + dec_bytes(key as int) + seq![58u8, 32u8, 123u8]);
        }
        let den = map[i].1.den;
        let m = map[i].1.entries.len();
        let mut j: usize = 0;
        while j < m
            invariant
                i < map@.len(),
                m == map@[i as int].1.entries@.len(),
                j <= m,
                den == map@[i as int].1.den,
                key == map@[i as int].0,
                open_brace == line_start + dec_bytes(key as int) + seq![58u8, 32u8, 123u8],
                out@ == open_brace + render_inner_entries(
                    map@[i as int].1.entries@.take(j as int),
                    den as int,
                ),
            decreases m - j,
        {
            let ghost inner = map@[i as int].1.entries@;
            let ikey = map[i].1.entries[j].0;
            let num = map[i].1.entries[j].1;
            push_dec_i64(&mut out, ikey as i64);
            out.push(58);
            out.push(32);
            push_dec_i64(&mut out, num);
            out.push(47);
            push_dec_i64(&mut out, den);
            out.push(44);
            out.push(32);
            proof {
                assert(inner.take(j + 1 as int).drop_last() =~= inner.take(j as int));
                assert(inner.take(j + 1 as int).last() == inner[j as int]);
                assert(out@ =~= open_brace + render_inner_entries(
                    inner.take(j + 1 as int),
                    den as int,
                ));
            }
            j += 1;
        }
        out.push(125);
        out.push(10);
        proof {
            let ghost inner = map@[i as int].1.entries@;
            assert(inner.take(m as int) =~= inner);
            assert(map@.take(i + 1 as int).drop_last() =~= map@.take(i as int));
            assert(map@.take(i + 1 as int).last() == map@[i as int]);
            assert(out@ =~= render_nested(map@.take(i + 1 as int)));
        }
        i += 1;
    }
    proof {
        assert(map@.take(map@.len() as int) =~= map@);
    }
    out
}

} // verus!
