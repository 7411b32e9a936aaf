//! One transient noise-shaped light blob: per-cell intensities computed once
//! at creation from raw noise samples, a birth-relative age, a fixed lifetime,
//! and a triangular fade-in/fade-out envelope. Also holds the serpentine
//! mapping from grid coordinates to the physical strip index, and the blend
//! step that sums many blobs into one clamped brightness field.
//!
//! Intensities and envelope weights are fixed-point milli-units (1000 = 1.0).

use vstd::prelude::*;
use vstd::arithmetic::div_mod::{
    lemma_div_is_ordered, lemma_div_multiples_vanish, lemma_fundamental_div_mod, lemma_mod_bound,
};
use vstd::arithmetic::mul::lemma_mul_inequality;

verus! {

/// Physical strip index of grid cell `(x, y)` on a matrix wired as a
/// continuous zig-zag: even columns run down, odd columns run up.
pub open spec fn serpentine_spec(x: int, y: int, rows: int) -> int {
    if x % 2 == 0 {
        x * rows + y
    } else {
        x * rows + (rows - y) - 1
    }
}

/// Grid cell `(column, row)` that the serpentine mapping sends to strip
/// index `k`; the inverse of `serpentine_spec`.
pub open spec fn cell_of_index_spec(k: int, rows: int) -> (int, int) {
    let x = k / rows;
    let r = k % rows;
    if x % 2 == 0 {
        (x, r)
    } else {
        (x, rows - r - 1)
    }
}

/// Thresholded blob intensity of one cell: the raw noise sample minus the
/// cutoff, zero when that is not positive, otherwise lifted by the
/// pattern-wide shift and clamped to at most one (all in milli-units).
pub open spec fn intensity_spec(sample: int, cutoff: int, shift: int) -> int {
    let v = sample - cutoff;
    if v <= 0 {
        0
    } else if v + shift >= 1000 {
        1000
    } else {
        v + shift
    }
}

/// Intensity of strip index `k` for a blob built from `samples` (indexed by
/// `column * rows + row`) with the given cutoff and shift.
pub open spec fn data_at_spec(samples: Seq<i32>, k: int, rows: int, cutoff: int, shift: int) -> int {
    let xy = cell_of_index_spec(k, rows);
    intensity_spec(samples[xy.0 * rows + xy.1] as int, cutoff, shift)
}

/// Triangular time envelope in milli-units: rises linearly from 0 at birth to
/// 1000 at half the lifetime, falls linearly back to 0 at the lifetime, and
/// stays 0 past it.
pub open spec fn coef_spec(age: int, lifetime: int) -> int
    recommends
        1 <= lifetime,
{
    if 2 * age <= lifetime {
        2000 * age / lifetime
    } else if age <= lifetime {
        2000 - 2000 * age / lifetime
    } else {
        0
    }
}

/// Clamp an aggregate brightness into the unit range `[0, 1000]`.
pub open spec fn clamp_unit_spec(v: int) -> int {
    if v < 0 {
        0
    } else if v > 1000 {
        1000
    } else {
        v
    }
}

/// Sum of the envelope-weighted contributions of every pattern in `pats` at
/// strip index `i`.
pub open spec fn agg_spec(pats: Seq<Pattern>, i: int) -> int
    decreases pats.len(),
{
    if pats.len() == 0 {
        0
    } else {
        agg_spec(pats.drop_last(), i) + pats.last().impact_spec(i)
    }
}

/// One transient noise blob: per-cell intensities fixed at creation, an age
/// in ticks, and a fixed positive lifetime.
pub struct Pattern {
    /// Per-cell intensity in milli-units, indexed by physical strip index.
    pub data: Vec<u32>,
    /// Total ticks the pattern stays active.
    pub lifetime: usize,
    /// Ticks elapsed since creation.
    pub t: usize,
}

impl Pattern {
    /// Structural invariant: the lifetime is positive (so the envelope's
    /// divisions are defined) and every stored intensity is at most one.
    pub open spec fn wf(self) -> bool {
        &&& 1 <= self.lifetime < usize::MAX
        &&& forall|i: int| 0 <= i < self.data@.len() ==> self.data@[i] <= 1000
    }

    /// Envelope-weighted contribution of this pattern at strip index `i`.
    pub open spec fn impact_spec(self, i: int) -> int {
        if 0 <= i < self.data@.len() {
            self.data@[i] * coef_spec(self.t as int, self.lifetime as int) / 1000
        } else {
            0
        }
    }

    /// Serpentine strip index of grid cell `(x, y)`.
    pub fn index(x: usize, y: usize, rows: usize) -> (r: usize)
        requires
            y < rows,
            x * rows + rows <= usize::MAX,
        ensures
            r == serpentine_spec(x as int, y as int, rows as int),
            x * rows <= r < x * rows + rows,
    {
        if x % 2 == 0 {
            x * rows + y
        } else {
            x * rows + (rows - y) - 1
        }
    }

    /// Thresholded intensity of one cell, in milli-units.
    pub fn intensity(sample: i32, cutoff: u32, shift: u32) -> (r: u32)
        requires
            cutoff <= 1000,
            shift <= 1000,
        ensures
            r == intensity_spec(sample as int, cutoff as int, shift as int),
            r <= 1000,
    {
        let v: i64 = sample as i64 - cutoff as i64;
        if v <= 0 {
            0
        } else {
            let w: i64 = v + shift as i64;
            if w >= 1000 {
                1000
            } else {
                w as u32
            }
        }
    }

    /// Build a fresh blob: for each grid cell, threshold the matching raw
    /// noise sample and store the result at the cell's serpentine strip
    /// index. `samples` is indexed by `column * rows + row`. The age starts
    /// at zero.
    pub fn new(
        samples: &Vec<i32>,
        cutoff: u32,
        shift: u32,
        lifetime: usize,
        columns: usize,
        rows: usize,
    ) -> (r: Self)
        requires
            1 <= columns,
            1 <= rows,
            samples@.len() == columns * rows,
            cutoff <= 1000,
            shift <= 1000,
            1 <= lifetime < usize::MAX,
        ensures
            r.wf(),
            r.t == 0,
            r.lifetime == lifetime,
            r.data@.len() == samples@.len(),
            forall|x: int, y: int|
                0 <= x < columns && 0 <= y < rows ==> r.data@[serpentine_spec(x, y, rows as int)]
                    == intensity_spec(samples@[x * (rows as int) + y] as int, cutoff as int, shift as int),
            forall|k: int|
                0 <= k < r.data@.len() ==> r.data@[k] == data_at_spec(
                    samples@,
                    k,
                    rows as int,
                    cutoff as int,
                    shift as int,
                ),
    {
        let data = Self::fill(samples, cutoff, shift, columns, rows);
        proof {
            assert forall|k: int| 0 <= k < data@.len() implies data@[k] == data_at_spec(
                samples@,
                k,
                rows as int,
                cutoff as int,
                shift as int,
            ) by {
                lemma_cell_of_index(k, columns as int, rows as int);
            }
        }
        Self { data, lifetime, t: 0 }
    }

    /// Threshold every raw noise sample and place it at its cell's
    /// serpentine strip index.
    fn fill(samples: &Vec<i32>, cutoff: u32, shift: u32, columns: usize, rows: usize) -> (data:
        Vec<u32>)
        requires
            1 <= columns,
            1 <= rows,
            samples@.len() == columns * rows,
            cutoff <= 1000,
            shift <= 1000,
        ensures
            data@.len() == samples@.len(),
            forall|j: int| 0 <= j < data@.len() ==> data@[j] <= 1000,
            forall|x: int, y: int|
                0 <= x < columns && 0 <= y < rows ==> data@[serpentine_spec(x, y, rows as int)]
                    == intensity_spec(samples@[x * (rows as int) + y] as int, cutoff as int, shift as int),
    {
        let n = samples.len();
        let mut data: Vec<u32> = Vec::new();
        let mut i: usize = 0;
        while i < n
            invariant
                i <= n,
                data@.len() == i,
                forall|j: int| 0 <= j < i ==> data@[j] == 0,
            decreases n - i,
        {
            data.push(0);
            i = i + 1;
        }
        let mut x: usize = 0;
        while x < columns
            invariant
                x <= columns,
                data@.len() == n,
                n == columns * rows,
                1 <= rows,
                cutoff <= 1000,
                shift <= 1000,
                samples@.len() == n,
                forall|j: int| 0 <= j < n ==> data@[j] <= 1000,
                forall|px: int, py: int|
                    0 <= px < x && 0 <= py < rows ==> data@[serpentine_spec(px, py, rows as int)]
                        == intensity_spec(
                        samples@[px * (rows as int) + py] as int,
                        cutoff as int,
                        shift as int,
                    ),
            decreases columns - x,
        {
            proof {
                lemma_mul_inequality(x as int + 1, columns as int, rows as int);
                assert((x as int + 1) * (rows as int) == (x as int) * (rows as int) + (rows as int))
                    by (nonlinear_arith);
            }
            let mut y: usize = 0;
            while y < rows
                invariant
                    y <= rows,
                    x < columns,
                    data@.len() == n,
                    n == columns * rows,
                    1 <= rows,
                    cutoff <= 1000,
                    shift <= 1000,
                    samples@.len() == n,
                    (x + 1) * rows <= n,
                    x * rows + rows <= n,
                    forall|j: int| 0 <= j < n ==> data@[j] <= 1000,
                    forall|px: int, py: int|
                        0 <= px < x && 0 <= py < rows ==> data@[serpentine_spec(px, py, rows as int)]
                            == intensity_spec(
                            samples@[px * (rows as int) + py] as int,
                            cutoff as int,
                            shift as int,
                        ),
                    forall|py: int|
                        0 <= py < y ==> data@[serpentine_spec(x as int, py, rows as int)]
                            == intensity_spec(
                            samples@[(x as int) * (rows as int) + py] as int,
                            cutoff as int,
                            shift as int,
                        ),
                decreases rows - y,
            {
                let idx = Self::index(x, y, rows);
                let value = Self::intensity(samples[x * rows + y], cutoff, shift);
                let ghost prev = data@;
                data[idx] = value;
                proof {
                    assert forall|px: int, py: int|
                        0 <= px < x && 0 <= py < rows implies data@[serpentine_spec(
                        px,
                        py,
                        rows as int,
                    )] == intensity_spec(
                        samples@[px * (rows as int) + py] as int,
                        cutoff as int,
                        shift as int,
                    ) by {
                        lemma_serpentine_distinct(px, py, x as int, y as int, rows as int);
                        lemma_serpentine_in_range(px, py, rows as int);
                        lemma_mul_inequality(px + 1, columns as int, rows as int);
                        assert((px + 1) * (rows as int) == px * (rows as int) + (rows as int))
                            by (nonlinear_arith);
                    }
                    assert forall|py: int|
                        0 <= py < y implies data@[serpentine_spec(x as int, py, rows as int)]
                        == intensity_spec(
                        samples@[(x as int) * (rows as int) + py] as int,
                        cutoff as int,
                        shift as int,
                    ) by {
                        lemma_serpentine_distinct(x as int, py, x as int, y as int, rows as int);
                        lemma_serpentine_in_range(x as int, py, rows as int);
                    }
                }
                y = y + 1;
            }
            x = x + 1;
        }
        data
    }

    /// Borrow the per-cell intensities.
    pub fn data(&self) -> (r: &Vec<u32>)
        ensures
            r == &self.data,
    {
        &self.data
    }

    /// Current envelope weight, in milli-units.
    pub fn coef(&self) -> (r: u32)
        requires
            self.wf(),
        ensures
            r == coef_spec(self.t as int, self.lifetime as int),
            r <= 1000,
    {
        let t = self.t as u128;
        let lt = self.lifetime as u128;
        proof {
            lemma_coef_bounds(self.t as int, self.lifetime as int);
        }
        if 2 * t <= lt {
            let q = 2000 * t / lt;
            q as u32
        } else if t <= lt {
            let q = 2000 * t / lt;
            proof {
                lemma_div_is_ordered(1000 * (lt as int), 2000 * (t as int), lt as int);
                lemma_div_is_ordered(2000 * (t as int), 2000 * (lt as int), lt as int);
                lemma_div_multiples_vanish(1000, lt as int);
                lemma_div_multiples_vanish(2000, lt as int);
            }
            (2000 - q as u32) as u32
        } else {
            0
        }
    }

    /// Envelope-weighted contribution of this pattern at strip index `index`.
    pub fn impact(&self, index: usize) -> (r: u32)
        requires
            self.wf(),
            index < self.data@.len(),
        ensures
            r == self.impact_spec(index as int),
            r <= 1000,
    {
        let c = self.coef();
        let d = self.data[index];
        proof {
            assert(d * c <= 1000 * 1000) by (nonlinear_arith)
                requires
                    d <= 1000,
                    c <= 1000,
            ;
            lemma_div_is_ordered((d * c) as int, (1000 * 1000) as int, 1000);
        }
        ((d as u64 * c as u64) / 1000) as u32
    }

    /// Advance the age by one tick; nothing else changes.
    pub fn tick(&mut self)
        requires
            old(self).t < usize::MAX,
        ensures
            final(self).t == old(self).t + 1,
            final(self).data == old(self).data,
            final(self).lifetime == old(self).lifetime,
    {
        self.t = self.t + 1;
    }

    /// Blend: per-cell sum of every pattern's envelope-weighted contribution,
    /// clamped once into the unit range.
    pub fn sum(patterns: &Vec<Pattern>, n: usize) -> (r: Vec<u32>)
        requires
            forall|j: int|
                0 <= j < patterns@.len() ==> (#[trigger] patterns@[j]).wf() && patterns@[j].data@.len()
                    == n,
            patterns@.len() <= 1000000,
        ensures
            r@.len() == n,
            forall|i: int| 0 <= i < n ==> r@[i] == clamp_unit_spec(agg_spec(patterns@, i)),
            forall|i: int| 0 <= i < n ==> r@[i] <= 1000,
    {
        let mut sums: Vec<u64> = Vec::new();
        let mut i: usize = 0;
        while i < n
            invariant
                i <= n,
                sums@.len() == i,
                forall|k: int| 0 <= k < i ==> sums@[k] == 0,
            decreases n - i,
        {
            sums.push(0);
            i = i + 1;
        }
        proof {
            assert(patterns@.take(0) =~= Seq::<Pattern>::empty());
        }
        let mut j: usize = 0;
        while j < patterns.len()
            invariant
                j <= patterns@.len(),
                patterns@.len() <= 1000000,
                sums@.len() == n,
                forall|jj: int|
                    0 <= jj < patterns@.len() ==> (#[trigger] patterns@[jj]).wf()
                        && patterns@[jj].data@.len() == n,
                forall|k: int|
                    0 <= k < n ==> sums@[k] == agg_spec(patterns@.take(j as int), k) && sums@[k]
                        <= j * 1000,
            decreases patterns@.len() - j,
        {
            let p = &patterns[j];
            let mut k: usize = 0;
            proof {
                assert(patterns@.take(j as int + 1).drop_last() =~= patterns@.take(j as int));
            }
            while k < n
                invariant
                    k <= n,
                    j < patterns@.len(),
                    patterns@.len() <= 1000000,
                    sums@.len() == n,
                    p == &patterns@[j as int],
                    p.wf(),
                    p.data@.len() == n,
                    patterns@.take(j as int + 1).drop_last() =~= patterns@.take(j as int),
                    forall|kk: int|
                        0 <= kk < k ==> sums@[kk] == agg_spec(patterns@.take(j as int + 1), kk)
                            && sums@[kk] <= (j + 1) * 1000,
                    forall|kk: int|
                        k <= kk < n ==> sums@[kk] == agg_spec(patterns@.take(j as int), kk)
                            && sums@[kk] <= j * 1000,
                decreases n - k,
            {
                let add_value = p.impact(k);
                let cur = sums[k];
                sums[k] = cur + add_value as u64;
                k = k + 1;
            }
            j = j + 1;
        }
        proof {
            assert(patterns@.take(patterns@.len() as int) =~= patterns@);
        }
        let mut r: Vec<u32> = Vec::new();
        let mut i2: usize = 0;
        while i2 < n
            invariant
                i2 <= n,
                r@.len() == i2,
                sums@.len() == n,
                forall|k: int| 0 <= k < n ==> sums@[k] == agg_spec(patterns@, k),
                forall|k: int| 0 <= k < i2 ==> r@[k] == clamp_unit_spec(agg_spec(patterns@, k)),
                forall|k: int| 0 <= k < i2 ==> r@[k] <= 1000,
            decreases n - i2,
        {
            let v = sums[i2];
            if v > 1000 {
                r.push(1000);
            } else {
                r.push(v as u32);
            }
            i2 = i2 + 1;
        }
        r
    }
}

/// The serpentine index of a cell lies inside its own column's slice of the
/// strip: column `x` owns indices `[x * rows, x * rows + rows)`.
pub proof fn lemma_serpentine_in_range(x: int, y: int, rows: int)
    requires
        0 <= x,
        0 <= y < rows,
    ensures
        x * rows <= serpentine_spec(x, y, rows) < x * rows + rows,
{
}

/// The serpentine mapping never sends two distinct cells to the same strip
/// index: one half of its being a bijection.
pub proof fn lemma_serpentine_injective(x1: int, y1: int, x2: int, y2: int, rows: int)
    requires
        0 <= x1,
        0 <= x2,
        0 <= y1 < rows,
        0 <= y2 < rows,
        serpentine_spec(x1, y1, rows) == serpentine_spec(x2, y2, rows),
    ensures
        x1 == x2,
        y1 == y2,
{
    lemma_serpentine_in_range(x1, y1, rows);
    lemma_serpentine_in_range(x2, y2, rows);
    if x1 < x2 {
        lemma_mul_inequality(x1 + 1, x2, rows);
        assert((x1 + 1) * rows == x1 * rows + rows) by (nonlinear_arith);
        assert(false);
    }
    if x2 < x1 {
        lemma_mul_inequality(x2 + 1, x1, rows);
        assert((x2 + 1) * rows == x2 * rows + rows) by (nonlinear_arith);
        assert(false);
    }
}

/// Distinct cells always get distinct strip indices: the contrapositive
/// of injectivity, in the shape the fill loop's frame reasoning needs.
pub proof fn lemma_serpentine_distinct(x1: int, y1: int, x2: int, y2: int, rows: int)
    requires
        0 <= x1,
        0 <= x2,
        0 <= y1 < rows,
        0 <= y2 < rows,
        !(x1 == x2 && y1 == y2),
    ensures
        serpentine_spec(x1, y1, rows) != serpentine_spec(x2, y2, rows),
{
    if serpentine_spec(x1, y1, rows) == serpentine_spec(x2, y2, rows) {
        lemma_serpentine_injective(x1, y1, x2, y2, rows);
    }
}

/// Every strip index below `columns * rows` is hit by exactly the cell
/// `cell_of_index_spec` names: the other half of the bijection, and the
/// proof that `cell_of_index_spec` inverts the mapping.
pub proof fn lemma_cell_of_index(k: int, columns: int, rows: int)
    requires
        1 <= rows,
        0 <= k < columns * rows,
    ensures
        0 <= cell_of_index_spec(k, rows).0 < columns,
        0 <= cell_of_index_spec(k, rows).1 < rows,
        serpentine_spec(cell_of_index_spec(k, rows).0, cell_of_index_spec(k, rows).1, rows) == k,
{
    lemma_fundamental_div_mod(k, rows);
    lemma_mod_bound(k, rows);
    let x = k / rows;
    lemma_div_is_ordered(0, k, rows);
    assert(rows * x == x * rows) by (nonlinear_arith);
    if x >= columns {
        lemma_mul_inequality(columns, x, rows);
        assert(false);
    }
}

/// Within one column the serpentine indices are strictly ordered: rising with
/// the row on even columns, falling on odd columns.
pub proof fn lemma_serpentine_column_order(x: int, y1: int, y2: int, rows: int)
    requires
        0 <= x,
        0 <= y1 < y2 < rows,
    ensures
        x % 2 == 0 ==> serpentine_spec(x, y1, rows) < serpentine_spec(x, y2, rows),
        x % 2 != 0 ==> serpentine_spec(x, y1, rows) > serpentine_spec(x, y2, rows),
{
}

/// The envelope stays within the unit range for every age of an active or
/// expired pattern.
pub proof fn lemma_coef_bounds(age: int, lifetime: int)
    requires
        1 <= lifetime,
        0 <= age,
    ensures
        0 <= coef_spec(age, lifetime) <= 1000,
{
    if 2 * age <= lifetime {
        lemma_div_is_ordered(0, 2000 * age, lifetime);
        lemma_div_is_ordered(2000 * age, 1000 * lifetime, lifetime);
        lemma_div_multiples_vanish(1000, lifetime);
        assert(lifetime * 1000 == 1000 * lifetime);
    } else if age <= lifetime {
        lemma_div_is_ordered(1000 * lifetime, 2000 * age, lifetime);
        lemma_div_is_ordered(2000 * age, 2000 * lifetime, lifetime);
        lemma_div_multiples_vanish(1000, lifetime);
        lemma_div_multiples_vanish(2000, lifetime);
        assert(lifetime * 1000 == 1000 * lifetime);
        assert(lifetime * 2000 == 2000 * lifetime);
    }
}

/// The envelope is 0 at birth.
pub proof fn lemma_coef_at_birth(lifetime: int)
    requires
        1 <= lifetime,
    ensures
        coef_spec(0, lifetime) == 0,
{
    lemma_div_is_ordered(0, 0, lifetime);
}

/// The envelope reaches exactly 1 at half of an even lifetime.
pub proof fn lemma_coef_peak(lifetime: int)
    requires
        1 <= lifetime,
        lifetime % 2 == 0,
    ensures
        coef_spec(lifetime / 2, lifetime) == 1000,
{
    lemma_fundamental_div_mod(lifetime, 2);
    assert(2000 * (lifetime / 2) == 1000 * lifetime);
    lemma_div_multiples_vanish(1000, lifetime);
    assert(lifetime * 1000 == 1000 * lifetime);
}

/// The envelope returns to exactly 0 at the end of the lifetime.
pub proof fn lemma_coef_at_end(lifetime: int)
    requires
        1 <= lifetime,
    ensures
        coef_spec(lifetime, lifetime) == 0,
{
    lemma_div_multiples_vanish(2000, lifetime);
    assert(lifetime * 2000 == 2000 * lifetime);
}

/// The envelope rises monotonically over the first half of the lifetime.
pub proof fn lemma_coef_monotone_rise(age1: int, age2: int, lifetime: int)
    requires
        1 <= lifetime,
        0 <= age1 <= age2,
        2 * age2 <= lifetime,
    ensures
        coef_spec(age1, lifetime) <= coef_spec(age2, lifetime),
{
    lemma_div_is_ordered(2000 * age1, 2000 * age2, lifetime);
}

/// The envelope falls monotonically over the second half of the lifetime.
pub proof fn lemma_coef_monotone_fall(age1: int, age2: int, lifetime: int)
    requires
        1 <= lifetime,
        lifetime <= 2 * age1,
        age1 <= age2 <= lifetime,
    ensures
        coef_spec(age2, lifetime) <= coef_spec(age1, lifetime),
{
    lemma_coef_bounds(age1, lifetime);
    lemma_coef_bounds(age2, lifetime);
    if 2 * age1 <= lifetime {
        lemma_div_is_ordered(1000 * lifetime, 2000 * age1, lifetime);
        lemma_div_is_ordered(2000 * age1, 1000 * lifetime, lifetime);
        lemma_div_multiples_vanish(1000, lifetime);
        assert(lifetime * 1000 == 1000 * lifetime);
    }
    if 2 * age2 <= lifetime {
        assert(age1 == age2);
    } else if 2 * age1 <= lifetime {
        lemma_div_is_ordered(1000 * lifetime, 2000 * age2, lifetime);
        lemma_div_multiples_vanish(1000, lifetime);
        assert(lifetime * 1000 == 1000 * lifetime);
    } else {
        lemma_div_is_ordered(2000 * age1, 2000 * age2, lifetime);
    }
}

} // verus!
