use vstd::prelude::*;

use std::collections::HashMap;

use crate::index_error::IndexError;
use crate::text::{digits_value, hex, is_numeral, lemma_hex_reads_back, push_hex};

verus! {

/// The resolution field of an H3 index, as a 64-bit mask.
pub const H3_RES_MASK: u64 = 0x00f0_0000_0000_0000;

/// The resolution that the index `h` records: bits 52 to 55.
pub open spec fn spec_resolution(h: u64) -> u8 {
    ((h >> 52u64) & 15u64) as u8
}

/// The mask of the digits of resolutions `p + 1` to `r` of an index; the
/// digit of resolution `i` occupies the three bits from `3 * (15 - i)`.
pub open spec fn digit_run(p: u64, r: u64) -> u64 {
    (((1u64 << (3 * (r - p)) as u64) - 1) as u64) << (3 * (15 - r)) as u64
}

/// What the H3 library's `h3ToParent` returns for `h` and `parent_res`:
/// no index (0) for a resolution finer than that of `h`, `h` itself for
/// the same resolution, and otherwise `h` with its resolution field set to
/// `parent_res` and its digits of resolutions `parent_res + 1` to the
/// resolution of `h` set to 7, the unused digit.
pub open spec fn spec_parent(h: u64, parent_res: u8) -> u64 {
    let r = spec_resolution(h);
    if parent_res > r {
        0
    } else if parent_res == r {
        h
    } else {
        (h & !H3_RES_MASK) | ((parent_res as u64) << 52u64) | digit_run(
            parent_res as u64,
            r as u64,
        )
    }
}

/// `a` is the parent of `b` at the resolution of `a`, as `Index::is_parent_of`
/// decides it.
pub open spec fn spec_is_parent(a: u64, b: u64) -> bool {
    a == spec_parent(b, spec_resolution(a))
}

/// A resolution field holds at most 15.
pub proof fn lemma_resolution_bound(h: u64)
    ensures
        spec_resolution(h) <= 15,
{
    assert(((h >> 52u64) & 15u64) as u8 <= 15) by (bit_vector);
}

/// The parent of `h` at any resolution up to that of `h` has that
/// resolution.
pub proof fn lemma_parent_resolution(h: u64, p: u8)
    requires
        p <= spec_resolution(h),
    ensures
        spec_resolution(spec_parent(h, p)) == p,
{
    let r = spec_resolution(h);
    lemma_resolution_bound(h);
    if p < r {
        let pp = p as u64;
        let rr = r as u64;
        let x = spec_parent(h, p);
        assert(((x >> 52u64) & 15u64) as u8 == p) by (bit_vector)
            requires
                x == (h & !0x00f0_0000_0000_0000u64) | (pp << 52u64) | (((((1u64 << (3 * (rr
                    - pp)) as u64) - 1) as u64) << (3 * (15 - rr)) as u64)),
                pp < rr,
                rr <= 15,
                pp == p as u64,
        ;
    }
}

/// Taking the parent at resolution `p` and then at a coarser resolution `q`
/// gives the parent at `q` directly.
pub proof fn lemma_parent_of_parent(h: u64, p: u8, q: u8)
    requires
        q <= p <= spec_resolution(h),
    ensures
        spec_parent(spec_parent(h, p), q) == spec_parent(h, q),
{
    lemma_parent_resolution(h, p);
    lemma_resolution_bound(h);
    let r = spec_resolution(h);
    if q < p && p < r {
        let qq = q as u64;
        let pp = p as u64;
        let rr = r as u64;
        let x = spec_parent(h, p);
        assert((x & !0x00f0_0000_0000_0000u64) | (qq << 52u64) | (((((1u64 << (3 * (pp
            - qq)) as u64) - 1) as u64) << (3 * (15 - pp)) as u64)) == (h
            & !0x00f0_0000_0000_0000u64) | (qq << 52u64) | (((((1u64 << (3 * (rr - qq)) as u64)
            - 1) as u64) << (3 * (15 - rr)) as u64))) by (bit_vector)
            requires
                x == (h & !0x00f0_0000_0000_0000u64) | (pp << 52u64) | (((((1u64 << (3 * (rr
                    - pp)) as u64) - 1) as u64) << (3 * (15 - rr)) as u64)),
                qq < pp,
                pp < rr,
                rr <= 15,
        ;
    }
}

/// Every index is its own parent at its own resolution.
pub proof fn lemma_is_parent_reflexive(a: u64)
    ensures
        spec_is_parent(a, a),
{
}

/// The parent of `b` at a resolution no finer than that of `b` is a parent
/// of `b`.
pub proof fn lemma_parent_is_parent(b: u64, p: u8)
    requires
        p <= spec_resolution(b),
    ensures
        spec_is_parent(spec_parent(b, p), b),
{
    lemma_parent_resolution(b, p);
}

/// A parent is never finer than its child.
pub proof fn lemma_is_parent_coarser(a: u64, b: u64)
    requires
        spec_is_parent(a, b),
    ensures
        spec_resolution(a) <= spec_resolution(b),
{
    if spec_resolution(a) > spec_resolution(b) {
        assert(a == 0);
        assert(((0u64 >> 52u64) & 15u64) as u8 == 0) by (bit_vector);
    }
}

/// The parent relation is transitive: a parent of a parent of `c` is a
/// parent of `c`.
pub proof fn lemma_is_parent_transitive(a: u64, b: u64, c: u64)
    requires
        spec_is_parent(a, b),
        spec_is_parent(b, c),
    ensures
        spec_is_parent(a, c),
{
    lemma_is_parent_coarser(a, b);
    lemma_is_parent_coarser(b, c);
    lemma_parent_of_parent(c, spec_resolution(b), spec_resolution(a));
}

/// The pairs of distance and index that the first `n` slots of the
/// buffers filled by a ring query yield: slots holding no index (0), and
/// slots whose distance is below `k_min` (compared as `i32`), are dropped.
pub open spec fn associated_prefix(
    indexes: Seq<u64>,
    distances: Seq<i32>,
    k_min: u32,
    n: nat,
) -> Seq<(u32, u64)>
    decreases n,
{
    if n == 0 {
        Seq::empty()
    } else {
        let prev = associated_prefix(indexes, distances, k_min, (n - 1) as nat);
        let i = n - 1;
        if indexes[i] != 0 && distances[i] >= k_min as i32 {
            prev.push((distances[i] as u32, indexes[i]))
        } else {
            prev
        }
    }
}

proof fn lemma_associated_bound_at(
    indexes: Seq<u64>,
    distances: Seq<i32>,
    k_min: u32,
    n: nat,
    j: int,
)
    requires
        k_min <= i32::MAX,
        0 <= j < associated_prefix(indexes, distances, k_min, n).len(),
    ensures
        associated_prefix(indexes, distances, k_min, n)[j].1 != 0,
        associated_prefix(indexes, distances, k_min, n)[j].0 >= k_min,
    decreases n,
{
    let prev = associated_prefix(indexes, distances, k_min, (n - 1) as nat);
    let cur = associated_prefix(indexes, distances, k_min, n);
    let i = n - 1;
    let d = distances[i];
    if indexes[i] != 0 && d >= k_min as i32 {
        if j < prev.len() {
            lemma_associated_bound_at(indexes, distances, k_min, (n - 1) as nat, j);
        } else {
            assert(k_min as i32 == k_min);
            assert(d as u32 == d);
        }
    } else {
        lemma_associated_bound_at(indexes, distances, k_min, (n - 1) as nat, j);
    }
}

/// Every pair that a ring query's buffers yield holds an index (nonzero)
/// and, for a `k_min` that fits in an `i32`, a distance of at least `k_min`.
pub proof fn lemma_associated_bounds(indexes: Seq<u64>, distances: Seq<i32>, k_min: u32)
    requires
        k_min <= i32::MAX,
    ensures
        forall|j: int|
            0 <= j < associated(indexes, distances, k_min).len() ==> {
                &&& #[trigger] associated(indexes, distances, k_min)[j].1 != 0
                &&& associated(indexes, distances, k_min)[j].0 >= k_min
            },
{
    assert forall|j: int| 0 <= j < associated(indexes, distances, k_min).len() implies {
        &&& #[trigger] associated(indexes, distances, k_min)[j].1 != 0
        &&& associated(indexes, distances, k_min)[j].0 >= k_min
    } by {
        lemma_associated_bound_at(indexes, distances, k_min, indexes.len(), j);
    }
}

/// The pairs of distance and index that a ring query's buffers yield.
pub open spec fn associated(indexes: Seq<u64>, distances: Seq<i32>, k_min: u32) -> Seq<(u32, u64)> {
    associated_prefix(indexes, distances, k_min, indexes.len())
}

/// The indexes of `v`, in order, as values.
pub open spec fn index_values(v: Seq<Index>) -> Seq<u64> {
    v.map_values(|i: Index| i@)
}

/// The number of cells within `k` steps of a cell, at most: what the H3
/// library's `maxKringSize` returns, `3k(k + 1) + 1`.
pub fn max_k_ring_size(k: u32) -> (n: usize)
    requires
        3 * k * (k + 1) + 1 <= i32::MAX,
    ensures
        n == 3 * k * (k + 1) + 1,
{
    let kk = k as u64;
    assert(kk * (kk + 1) <= i32::MAX && 3 * (kk * (kk + 1)) + 1 == 3 * kk * (kk + 1) + 1)
        by (nonlinear_arith)
        requires 3 * kk * (kk + 1) + 1 <= i32::MAX;
    let n = 3 * (kk * (kk + 1)) + 1;
    n as usize
}

/// The size of the buffer that a hollow ring of `k` steps is written to:
/// `6k` slots, and one for the ring of `k = 0`, which is the cell itself.
pub fn hex_ring_size(k: u32) -> (n: usize)
    requires
        6 * k <= usize::MAX,
    ensures
        n == if k > 0 { 6 * k } else { 1 },
{
    if k > 0 {
        6 * k as usize
    } else {
        1
    }
}

/// Drops the slots of `h3indexes` that hold no index (0), keeping the order
/// of the others.
pub fn remove_zero_indexes(h3indexes: &mut Vec<u64>)
    ensures
        final(h3indexes)@ == old(h3indexes)@.filter(|h: u64| h != 0),
{
    let ghost src = h3indexes@;
    let mut kept: Vec<u64> = Vec::new();
    let mut i: usize = 0;
    while i < h3indexes.len()
        invariant
            h3indexes@ == src,
            0 <= i <= src.len(),
            kept@ == src.take(i as int).filter(|h: u64| h != 0),
        decreases src.len() - i,
    {
        proof {
            reveal_with_fuel(Seq::<_>::filter, 1);
            assert(src.take(i + 1).drop_last() =~= src.take(i as int));
        }
        let h = h3indexes[i];
        if h != 0 {
            kept.push(h);
        }
        i = i + 1;
    }
    assert(src.take(src.len() as int) =~= src);
    *h3indexes = kept;
}

/// The cells of the given 64-bit indexes, in order.
pub fn h3indexes_to_indexes(h3indexes: Vec<u64>) -> (v: Vec<Index>)
    ensures
        index_values(v@) == h3indexes@,
{
    let mut v: Vec<Index> = Vec::new();
    let mut i: usize = 0;
    while i < h3indexes.len()
        invariant
            0 <= i <= h3indexes.len(),
            v@.len() == i,
            forall|j: int| 0 <= j < i ==> #[trigger] v@[j]@ == h3indexes@[j],
        decreases h3indexes.len() - i,
    {
        v.push(Index(h3indexes[i]));
        i = i + 1;
    }
    assert(index_values(v@) =~= h3indexes@);
    v
}

/// The cells that a hollow-ring query returned: its nonzero slots when the
/// query succeeded (`res == 0`), and `PentagonalDistortion` otherwise.
pub fn hex_ring_result(res: i32, h3indexes: Vec<u64>) -> (ret: Result<Vec<Index>, IndexError>)
    ensures
        res == 0 ==> ret is Ok && index_values(ret->Ok_0@) == h3indexes@.filter(|h: u64| h != 0),
        res != 0 ==> ret == Err::<Vec<Index>, IndexError>(IndexError::PentagonalDistortion),
{
    if res == 0 {
        let mut h3indexes = h3indexes;
        remove_zero_indexes(&mut h3indexes);
        Ok(h3indexes_to_indexes(h3indexes))
    } else {
        Err(IndexError::PentagonalDistortion)
    }
}

/// The predicate "has resolution `r`" on 64-bit indexes.
pub open spec fn res_is(r: u8) -> spec_fn(u64) -> bool {
    |h: u64| spec_resolution(h) == r
}

/// The indexes of `vals` that have resolution `r`, in order.
pub open spec fn with_resolution(vals: Seq<u64>, r: u8) -> Seq<u64> {
    vals.filter(res_is(r))
}

/// Groups cells by their resolution: each resolution that occurs among
/// `indexes` maps to the cells of that resolution, in their order in
/// `indexes`, and no other resolution is a key.
pub fn group_indexes_by_resolution(indexes: Vec<Index>) -> (m: HashMap<u8, Vec<Index>>)
    ensures
        forall|r: u8|
            #![trigger m@.contains_key(r)]
            m@.contains_key(r) <==> with_resolution(index_values(indexes@), r).len() > 0,
        forall|r: u8|
            #![trigger m@[r]]
            m@.contains_key(r) ==> index_values(m@[r]@) == with_resolution(
                index_values(indexes@),
                r,
            ),
{
    broadcast use vstd::std_specs::hash::group_hash_axioms;

    let ghost vals = index_values(indexes@);
    let mut m: HashMap<u8, Vec<Index>> = HashMap::new();
    let mut i: usize = 0;
    while i < indexes.len()
        invariant
            0 <= i <= indexes.len(),
            vals == index_values(indexes@),
            forall|r: u8|
                #![trigger m@.contains_key(r)]
                m@.contains_key(r) <==> with_resolution(vals.take(i as int), r).len() > 0,
            forall|r: u8|
                #![trigger m@[r]]
                m@.contains_key(r) ==> index_values(m@[r]@) == with_resolution(
                    vals.take(i as int),
                    r,
                ),
        decreases indexes.len() - i,
    {
        let h = indexes[i].0;
        let idx = Index(h);
        let r = idx.resolution();
        let ghost old_m = m@;
        let mut bucket = match m.remove(&r) {
            Some(b) => b,
            None => Vec::new(),
        };
        proof {
            if !old_m.contains_key(r) {
                assert(with_resolution(vals.take(i as int), r).len() == 0);
                assert(index_values(bucket@) =~= with_resolution(vals.take(i as int), r));
            }
        }
        bucket.push(idx);
        m.insert(r, bucket);
        proof {
            assert(vals.take(i + 1) =~= vals.take(i as int).push(h));
            assert forall|r2: u8| #![trigger m@.contains_key(r2)]
                m@.contains_key(r2) <==> with_resolution(vals.take(i + 1), r2).len() > 0 by {
                vals.take(i as int).lemma_filter_push(h, res_is(r2));
            }
            assert forall|r2: u8| #![trigger m@[r2]]
                m@.contains_key(r2) implies index_values(m@[r2]@) == with_resolution(
                    vals.take(i + 1),
                    r2,
                ) by {
                vals.take(i as int).lemma_filter_push(h, res_is(r2));
                if r2 == r {
                    assert(index_values(m@[r2]@) =~= with_resolution(vals.take(i as int), r).push(
                        h,
                    ));
                }
            }
        }
        i = i + 1;
    }
    assert(vals.take(indexes.len() as int) =~= vals);
    m
}

/// The digit of resolution `i` (1 to 15) of the index `h`: the three bits
/// from `3 * (15 - i)`.
pub open spec fn index_digit(h: u64, i: u64) -> u64 {
    (h >> (3 * (15 - i)) as u64) & 7u64
}

/// The base cell of the index `h`: bits 45 to 51.
pub open spec fn base_cell(h: u64) -> u64 {
    (h >> 45u64) & 127u64
}

/// The mode and reserved bits of the index `h`: bits 56 to 63.
pub open spec fn header_bits(h: u64) -> u64 {
    h >> 56u64
}

/// What the parent of `h` at a coarser resolution `p` is, field by field:
/// the same header and base cell, resolution `p`, the same digits up to
/// resolution `p`, the unused digit 7 from resolution `p + 1` to the
/// resolution of `h`, and the digits of `h` beyond that.
pub proof fn lemma_parent_fields(h: u64, p: u8, i: u64)
    requires
        p < spec_resolution(h),
        1 <= i <= 15,
    ensures
        header_bits(spec_parent(h, p)) == header_bits(h),
        base_cell(spec_parent(h, p)) == base_cell(h),
        spec_resolution(spec_parent(h, p)) == p,
        i <= p ==> index_digit(spec_parent(h, p), i) == index_digit(h, i),
        p < i <= spec_resolution(h) ==> index_digit(spec_parent(h, p), i) == 7,
        spec_resolution(h) < i ==> index_digit(spec_parent(h, p), i) == index_digit(h, i),
{
    lemma_parent_resolution(h, p);
    lemma_resolution_bound(h);
    let pp = p as u64;
    let rr = spec_resolution(h) as u64;
    let x = spec_parent(h, p);
    assert(header_bits(x) == header_bits(h) && base_cell(x) == base_cell(h) && (i <= pp
        ==> index_digit(x, i) == index_digit(h, i)) && (pp < i <= rr ==> index_digit(x, i) == 7)
        && (rr < i ==> index_digit(x, i) == index_digit(h, i))) by (bit_vector)
        requires
            x == (h & !0x00f0_0000_0000_0000u64) | (pp << 52u64) | (((((1u64 << (3 * (rr
                - pp)) as u64) - 1) as u64) << (3 * (15 - rr)) as u64)),
            pp < rr,
            rr <= 15,
            1 <= i <= 15,
    ;
}

/// The parent of a cell at its own resolution is the cell itself, and a
/// cell has no parent (0) at a finer resolution.
pub proof fn lemma_parent_own_and_finer(h: u64, p: u8)
    ensures
        spec_parent(h, spec_resolution(h)) == h,
        p > spec_resolution(h) ==> spec_parent(h, p) == 0,
{
}

/// `is_parent_of` decides exactly whether the cell equals the other cell's
/// parent (as `get_parent` computes it) at the cell's own resolution; in
/// particular two cells of the same resolution are never both parents of
/// one cell.
pub proof fn lemma_is_parent_unique(a1: u64, a2: u64, b: u64)
    ensures
        spec_is_parent(a1, b) <==> a1 == spec_parent(b, spec_resolution(a1)),
        spec_is_parent(a1, b) && spec_is_parent(a2, b) && spec_resolution(a1) == spec_resolution(
            a2,
        ) ==> a1 == a2,
{
}

/// A cell of the H3 grid, held as its 64-bit index.
#[derive(PartialOrd, PartialEq, Eq, Structural, Clone, Debug)]
pub struct Index(u64);

impl View for Index {
    type V = u64;

    closed spec fn view(&self) -> u64 {
        self.0
    }
}

impl From<u64> for Index {
    fn from(h3index: u64) -> (idx: Self)
        ensures
            idx@ == h3index,
    {
        Index(h3index)
    }
}

impl vstd::std_specs::convert::FromSpecImpl<u64> for Index {
    open spec fn obeys_from_spec() -> bool {
        true
    }

    closed spec fn from_spec(v: u64) -> Index {
        Index(v)
    }
}

impl Index {
    pub fn new(h3index: u64) -> (idx: Self)
        ensures
            idx@ == h3index,
    {
        Index(h3index)
    }

    pub fn h3index(&self) -> (h: u64)
        ensures
            h == self@,
    {
        self.0
    }

    /// The resolution of the cell, 0 (coarsest) to 15 (finest).
    pub fn resolution(&self) -> (r: u8)
        ensures
            r == spec_resolution(self@),
            r <= 15,
    {
        let h = self.0;
        let r = (h >> 52u64) & 15u64;
        assert(r <= 15) by (bit_vector)
            requires r == (h >> 52u64) & 15u64;
        r as u8
    }

    /// The parent of the cell at `parent_resolution`, computed as the H3
    /// library's `h3ToParent` does: 0 when `parent_resolution` is finer
    /// than the cell's own resolution.
    pub fn get_parent(&self, parent_resolution: u8) -> (parent: Index)
        ensures
            parent@ == spec_parent(self@, parent_resolution),
    {
        let r = self.resolution();
        if parent_resolution > r {
            Index(0)
        } else if parent_resolution == r {
            Index(self.0)
        } else {
            let h = self.0;
            let p = parent_resolution as u64;
            let rr = r as u64;
            let width: u64 = 3 * (rr - p);
            let low: u64 = 3 * (15 - rr);
            let ones = 1u64 << width;
            assert(ones >= 1) by (bit_vector)
                requires ones == 1u64 << width, width < 64;
            let run = (ones - 1) << low;
            Index((h & !H3_RES_MASK) | (p << 52u64) | run)
        }
    }

    /// The cell is the parent of `other` at its own resolution.
    pub fn is_parent_of(&self, other: &Index) -> (ret: bool)
        ensures
            ret == spec_is_parent(self@, other@),
    {
        *self == other.get_parent(self.resolution())
    }

    /// `other` is the parent of the cell at the resolution of `other`.
    pub fn is_child_of(&self, other: &Index) -> (ret: bool)
        ensures
            ret == spec_is_parent(other@, self@),
    {
        other.is_parent_of(self)
    }

    /// Pairs each index of a ring query's output with its distance, keeping
    /// the slots that hold an index (nonzero) at a distance of at least
    /// `k_min`, in the order of the buffers.
    pub fn associate_index_distances(
        &self,
        h3_indexes_out: Vec<u64>,
        distances_out: Vec<i32>,
        k_min: u32,
    ) -> (v: Vec<(u32, Index)>)
        requires
            forall|i: int|
                0 <= i < h3_indexes_out.len() && h3_indexes_out[i] != 0 ==> i
                    < distances_out.len(),
        ensures
            v@.len() == associated(h3_indexes_out@, distances_out@, k_min).len(),
            forall|j: int|
                0 <= j < v@.len() ==> v@[j].0 == associated(
                    h3_indexes_out@,
                    distances_out@,
                    k_min,
                )[j].0 && v@[j].1@ == associated(h3_indexes_out@, distances_out@, k_min)[j].1,
    {
        let mut v: Vec<(u32, Index)> = Vec::new();
        let k_min_i = k_min as i32;
        let mut i: usize = 0;
        while i < h3_indexes_out.len()
            invariant
                0 <= i <= h3_indexes_out.len(),
                k_min_i == k_min as i32,
                forall|l: int|
                    0 <= l < h3_indexes_out.len() && h3_indexes_out[l] != 0 ==> l
                        < distances_out.len(),
                v@.len() == associated_prefix(
                    h3_indexes_out@,
                    distances_out@,
                    k_min,
                    i as nat,
                ).len(),
                forall|j: int|
                    0 <= j < v@.len() ==> v@[j].0 == associated_prefix(
                        h3_indexes_out@,
                        distances_out@,
                        k_min,
                        i as nat,
                    )[j].0 && v@[j].1@ == associated_prefix(
                        h3_indexes_out@,
                        distances_out@,
                        k_min,
                        i as nat,
                    )[j].1,
            decreases h3_indexes_out.len() - i,
        {
            let h = h3_indexes_out[i];
            if h != 0 && distances_out[i] >= k_min_i {
                v.push((distances_out[i] as u32, Index(h)));
            }
            i = i + 1;
        }
        v
    }

    /// The outcome of a ring query with distances: the associated pairs
    /// when the query succeeded (`res == 0`), and `PentagonalDistortion`
    /// otherwise.
    pub fn hex_range_distances_result(
        &self,
        res: i32,
        h3_indexes_out: Vec<u64>,
        distances_out: Vec<i32>,
        k_min: u32,
    ) -> (ret: Result<Vec<(u32, Index)>, IndexError>)
        requires
            res == 0 ==> forall|i: int|
                0 <= i < h3_indexes_out.len() && h3_indexes_out[i] != 0 ==> i
                    < distances_out.len(),
        ensures
            res == 0 ==> ret is Ok && ret->Ok_0@.len() == associated(
                h3_indexes_out@,
                distances_out@,
                k_min,
            ).len() && forall|j: int|
                0 <= j < ret->Ok_0@.len() ==> ret->Ok_0@[j].0 == associated(
                    h3_indexes_out@,
                    distances_out@,
                    k_min,
                )[j].0 && ret->Ok_0@[j].1@ == associated(
                    h3_indexes_out@,
                    distances_out@,
                    k_min,
                )[j].1,
            res != 0 ==> ret == Err::<Vec<(u32, Index)>, IndexError>(
                IndexError::PentagonalDistortion,
            ),
    {
        if res == 0 {
            Ok(self.associate_index_distances(h3_indexes_out, distances_out, k_min))
        } else {
            Err(IndexError::PentagonalDistortion)
        }
    }

    /// The index in lower-case hexadecimal, without leading zeros.
    pub fn to_string(&self) -> (s: String)
        ensures
            s@ == hex(self@ as nat),
            is_numeral(s@, 16),
            digits_value(s@, 16) == self@,
    {
        proof {
            lemma_hex_reads_back(self@ as nat);
        }
        let mut s = String::new();
        push_hex(&mut s, self.0);
        s
    }
}

} // verus!
