//! Standard unit sizes and the greedy partition of an amount into them.

use vstd::prelude::*;

verus! {

/// A material that is supplied in standard unit sizes.
#[derive(Clone, Copy, Debug, PartialEq, Eq, Structural)]
pub enum Material {
    Metal,
    Ceramic,
}

/// Number of standard unit sizes of each material.
pub const UNIT_COUNT: usize = 7;

/// The unit sizes of a material, largest first.
pub open spec fn size_table(m: Material) -> Seq<int> {
    match m {
        Material::Metal => seq![1000, 800, 600, 400, 200, 100, 50],
        Material::Ceramic => seq![800, 640, 480, 320, 160, 80, 40],
    }
}

/// The `i`-th unit size of `m`, counting from the largest.
pub fn unit_size(m: Material, i: usize) -> (r: u32)
    requires
        i < UNIT_COUNT,
    ensures
        r as int == size_table(m)[i as int],
{
    match m {
        Material::Metal => {
            if i == 0 { 1000 } else if i == 1 { 800 } else if i == 2 { 600 } else if i == 3 { 400 }
            else if i == 4 { 200 } else if i == 5 { 100 } else { 50 }
        },
        Material::Ceramic => {
            if i == 0 { 800 } else if i == 1 { 640 } else if i == 2 { 480 } else if i == 3 { 320 }
            else if i == 4 { 160 } else if i == 5 { 80 } else { 40 }
        },
    }
}

/// Sizes that are positive and strictly decreasing.
pub open spec fn descending(sizes: Seq<int>) -> bool {
    &&& sizes.len() > 0
    &&& forall|i: int| 0 <= i < sizes.len() ==> sizes[i] > 0
    &&& forall|i: int, j: int| 0 <= i < j < sizes.len() ==> sizes[i] > sizes[j]
}

/// What is left of `r` once the sizes before index `i` have taken all they can.
pub open spec fn left_before(sizes: Seq<int>, r: int, i: nat) -> int
    decreases i,
{
    if i == 0 {
        r
    } else {
        left_before(sizes, r, (i - 1) as nat) % sizes[i - 1]
    }
}

/// Whether a positive scrap smaller than every size is left after the greedy pass.
pub open spec fn has_scrap(sizes: Seq<int>, r: int) -> bool {
    left_before(sizes, r, sizes.len()) > 0
}

/// Units of `sizes[i]` that the greedy partition of `r` uses: as many as fit in
/// what the larger sizes left, plus one unit of the smallest size for a scrap.
/// Nothing at all for `r <= 0`.
pub open spec fn greedy_count(sizes: Seq<int>, r: int, i: int) -> int {
    if r <= 0 {
        0
    } else {
        left_before(sizes, r, i as nat) / sizes[i] + if i == sizes.len() - 1 && has_scrap(sizes, r) {
            1int
        } else {
            0int
        }
    }
}

/// The unit counts, one per size, of the greedy partition of `r`.
pub open spec fn greedy_counts(sizes: Seq<int>, r: int) -> Seq<int> {
    Seq::new(sizes.len(), |i: int| greedy_count(sizes, r, i))
}

/// Pointwise sum of two count sequences of equal length.
pub open spec fn add_counts(a: Seq<int>, b: Seq<int>) -> Seq<int> {
    Seq::new(a.len(), |i: int| a[i] + b[i])
}

/// Counts of the greedy partitions of every amount of `rs`, merged.
pub open spec fn manifest_of(sizes: Seq<int>, rs: Seq<int>) -> Seq<int>
    decreases rs.len(),
{
    if rs.len() == 0 {
        Seq::new(sizes.len(), |i: int| 0int)
    } else {
        add_counts(manifest_of(sizes, rs.drop_last()), greedy_counts(sizes, rs.last()))
    }
}

/// Both unit size tables are descending, and every size in them is a
/// multiple of the smallest one.
pub proof fn lemma_size_table(m: Material)
    ensures
        descending(size_table(m)),
        size_table(m).len() == UNIT_COUNT,
        forall|i: int| 0 <= i < UNIT_COUNT ==> #[trigger] size_table(m)[i] % size_table(m)[UNIT_COUNT - 1] == 0,
{
    assert forall|i: int| 0 <= i < UNIT_COUNT implies #[trigger] size_table(m)[i] % size_table(m)[UNIT_COUNT - 1] == 0 by {
        match m {
            Material::Metal => {
                assert(1000int % 50 == 0 && 800int % 50 == 0 && 600int % 50 == 0 && 400int % 50 == 0);
                assert(200int % 50 == 0 && 100int % 50 == 0 && 50int % 50 == 0);
            },
            Material::Ceramic => {
                assert(800int % 40 == 0 && 640int % 40 == 0 && 480int % 40 == 0 && 320int % 40 == 0);
                assert(160int % 40 == 0 && 80int % 40 == 0 && 40int % 40 == 0);
            },
        }
    }
}

/// What is left before each size is never negative, never more than the
/// amount, and less than the size just used.
pub proof fn lemma_left_before_bounds(sizes: Seq<int>, r: int, i: nat)
    requires
        descending(sizes),
        r > 0,
        i <= sizes.len(),
    ensures
        0 <= left_before(sizes, r, i) <= r,
        i > 0 ==> left_before(sizes, r, i) < sizes[i - 1],
    decreases i,
{
    if i > 0 {
        let p = (i - 1) as nat;
        lemma_left_before_bounds(sizes, r, p);
        let x = left_before(sizes, r, p);
        vstd::arithmetic::div_mod::lemma_mod_pos_bound(x, sizes[i - 1]);
        vstd::arithmetic::div_mod::lemma_mod_decreases(x as nat, sizes[i - 1] as nat);
    }
}

/// A greedy count is never negative and never more than the amount plus one.
pub proof fn lemma_greedy_count_bounds(sizes: Seq<int>, r: int, i: int)
    requires
        descending(sizes),
        0 <= i < sizes.len(),
    ensures
        0 <= greedy_count(sizes, r, i),
        r > 0 ==> greedy_count(sizes, r, i) <= r + 1,
        r <= 0 ==> greedy_count(sizes, r, i) == 0,
{
    if r > 0 {
        lemma_left_before_bounds(sizes, r, i as nat);
        let x = left_before(sizes, r, i as nat);
        vstd::arithmetic::div_mod::lemma_div_pos_is_pos(x, sizes[i]);
        vstd::arithmetic::div_mod::lemma_div_is_ordered_by_denominator(x, 1, sizes[i]);
    }
}

/// The accumulated unit counts of one material.
pub struct Manifest {
    material: Material,
    counts: Vec<u128>,
}

impl Manifest {
    /// The material whose units are counted.
    pub closed spec fn material(&self) -> Material {
        self.material
    }

    /// The count of each unit size, in the order of `size_table`.
    pub closed spec fn counts(&self) -> Seq<int> {
        self.counts@.map_values(|c: u128| c as int)
    }

    /// One count per unit size.
    pub closed spec fn wf(&self) -> bool {
        self.counts@.len() == UNIT_COUNT
    }

    /// An empty manifest of `m`.
    pub fn new(m: Material) -> (r: Manifest)
        ensures
            r.wf(),
            r.material() == m,
            r.counts() == manifest_of(size_table(m), seq![]),
    {
        let counts: Vec<u128> = vec![0, 0, 0, 0, 0, 0, 0];
        let r = Manifest { material: m, counts };
        assert(r.counts() =~= manifest_of(size_table(m), seq![]));
        r
    }

    /// The material whose units are counted.
    pub fn material_of(&self) -> (r: Material)
        ensures
            r == self.material(),
    {
        self.material
    }

    /// The count of the `i`-th unit size.
    pub fn count(&self, i: usize) -> (r: u128)
        requires
            self.wf(),
            i < UNIT_COUNT,
        ensures
            r as int == self.counts()[i as int],
    {
        self.counts[i]
    }

    /// Partitions `r` greedily into unit sizes, largest first, and adds the
    /// units to the manifest. A positive scrap smaller than the smallest size
    /// takes one unit of the smallest size; `r <= 0` adds nothing.
    pub fn add_remaining(&mut self, r: i32)
        requires
            old(self).wf(),
            forall|i: int| 0 <= i < UNIT_COUNT ==>
                old(self).counts()[i] + greedy_counts(size_table(old(self).material()), r as int)[i]
                    <= u128::MAX,
        ensures
            final(self).wf(),
            final(self).material() == old(self).material(),
            final(self).counts() == add_counts(
                old(self).counts(),
                greedy_counts(size_table(old(self).material()), r as int),
            ),
            r <= 0 ==> final(self).counts() == old(self).counts(),
    {
        let m = self.material;
        let ghost sizes = size_table(m);
        let ghost start = self.counts();
        let mut remaining: i32 = r;
        let mut i: usize = 0;
        while i < UNIT_COUNT
            invariant
                self.wf(),
                self.material == m,
                sizes == size_table(m),
                i <= UNIT_COUNT,
                r > 0 ==> remaining == left_before(sizes, r as int, i as nat),
                r > 0 ==> 0 <= remaining <= r,
                r <= 0 ==> remaining == r,
                start.len() == UNIT_COUNT,
                forall|j: int| 0 <= j < UNIT_COUNT ==>
                    start[j] + greedy_counts(sizes, r as int)[j] <= u128::MAX,
                forall|j: int| 0 <= j < i ==> self.counts()[j] == start[j] + if r > 0 {
                    left_before(sizes, r as int, j as nat) / sizes[j]
                } else {
                    0
                },
                forall|j: int| i <= j < UNIT_COUNT ==> self.counts()[j] == start[j],
            decreases UNIT_COUNT - i,
        {
            let s = unit_size(m, i);
            proof {
                lemma_size_table(m);
                if r > 0 {
                    lemma_left_before_bounds(sizes, r as int, (i + 1) as nat);
                    assert(left_before(sizes, r as int, (i + 1) as nat) == remaining as int % s as int);
                    if remaining == 0 {
                        vstd::arithmetic::div_mod::lemma_small_mod(0, s as nat);
                        vstd::arithmetic::div_mod::lemma_basic_div(0, s as int);
                        assert(left_before(sizes, r as int, i as nat) / sizes[i as int] == 0);
                    }
                }
            }
            if remaining > 0 {
                let left = remaining as u32;
                let k = left / s;
                let ghost prev = self.counts();
                proof {
                    assert(k == left_before(sizes, r as int, i as nat) / sizes[i as int]);
                    assert(greedy_counts(sizes, r as int)[i as int] >= k);
                    assert(prev[i as int] == self.counts@[i as int] as int);
                    assert(prev[i as int] == start[i as int]);
                    assert(start[i as int] + greedy_counts(sizes, r as int)[i as int] <= u128::MAX);
                }
                let c = self.counts[i] + k as u128;
                self.counts.set(i, c);
                proof {
                    assert(self.counts() =~= prev.update(i as int, c as int));
                }
                remaining = (left % s) as i32;
            }
            i = i + 1;
        }
        let ghost before = self.counts();
        proof {
            assert(greedy_counts(sizes, r as int)[UNIT_COUNT - 1] == greedy_count(sizes, r as int, UNIT_COUNT - 1));
            lemma_size_table(m);
            assert(before[UNIT_COUNT - 1] == self.counts@[UNIT_COUNT - 1] as int);
            if r > 0 {
                assert(has_scrap(sizes, r as int) == (remaining > 0));
            }
        }
        if remaining > 0 {
            let c = self.counts[UNIT_COUNT - 1] + 1;
            self.counts.set(UNIT_COUNT - 1, c);
            proof {
                assert(self.counts() =~= before.update(UNIT_COUNT - 1, c as int));
            }
        }
        proof {
            assert(self.counts() =~= add_counts(start, greedy_counts(sizes, r as int)));
            if r <= 0 {
                crate::laws::lemma_non_positive_adds_nothing(sizes, r as int, start);
            }
        }
    }
}

} // verus!
