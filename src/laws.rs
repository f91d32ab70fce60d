//! Properties of the greedy partition and of merging partitions.

use vstd::prelude::*;
use crate::manifest::{
    add_counts, descending, greedy_count, greedy_counts, left_before, lemma_left_before_bounds,
    lemma_size_table, manifest_of, size_table, Material, UNIT_COUNT,
};

verus! {

/// Sum of `sizes[i] * counts[i]` over the first `n` sizes.
pub open spec fn weighted_sum(sizes: Seq<int>, counts: Seq<int>, n: nat) -> int
    decreases n,
{
    if n == 0 {
        0
    } else {
        weighted_sum(sizes, counts, (n - 1) as nat) + sizes[n - 1] * counts[n - 1]
    }
}

/// The amount that a sequence of unit counts stands for.
pub open spec fn units_total(sizes: Seq<int>, counts: Seq<int>) -> int {
    weighted_sum(sizes, counts, sizes.len())
}

/// `r` rounded up to the next multiple of `unit`.
pub open spec fn round_up(r: int, unit: int) -> int {
    if r % unit == 0 {
        r
    } else {
        r - r % unit + unit
    }
}

/// Every size is a multiple of the smallest one.
pub open spec fn multiples_of_smallest(sizes: Seq<int>) -> bool {
    forall|i: int| 0 <= i < sizes.len() ==> #[trigger] sizes[i] % sizes.last() == 0
}

/// The sizes before `n` take exactly `r` minus what they leave, and what they
/// take is a multiple of the smallest size.
proof fn lemma_taken(sizes: Seq<int>, r: int, n: nat) -> (t: int)
    requires
        descending(sizes),
        multiples_of_smallest(sizes),
        r > 0,
        n < sizes.len(),
    ensures
        weighted_sum(sizes, greedy_counts(sizes, r), n) + left_before(sizes, r, n) == r,
        r - left_before(sizes, r, n) == sizes.last() * t,
    decreases n,
{
    if n == 0 {
        0
    } else {
        let p = (n - 1) as nat;
        let t0 = lemma_taken(sizes, r, p);
        let x = left_before(sizes, r, p);
        let s = sizes[p as int];
        let q = x / s;
        vstd::arithmetic::div_mod::lemma_fundamental_div_mod(x, s);
        assert(greedy_counts(sizes, r)[p as int] == q);
        assert(s * q == q * s) by (nonlinear_arith);
        let a = s / sizes.last();
        vstd::arithmetic::div_mod::lemma_fundamental_div_mod(s, sizes.last());
        assert(s * q == sizes.last() * (a * q)) by (nonlinear_arith)
            requires
                s == sizes.last() * a,
        ;
        assert(sizes.last() * t0 + sizes.last() * (a * q) == sizes.last() * (t0 + a * q))
            by (nonlinear_arith);
        t0 + a * q
    }
}

/// For a non-negative amount `r` and descending sizes
/// that are all multiples of the smallest, the units of the greedy partition
/// add up to `r` rounded up to a multiple of the smallest size.
pub proof fn lemma_partition_total(sizes: Seq<int>, r: int)
    requires
        descending(sizes),
        multiples_of_smallest(sizes),
        r >= 0,
    ensures
        units_total(sizes, greedy_counts(sizes, r)) == round_up(r, sizes.last()),
{
    let g = greedy_counts(sizes, r);
    let last = sizes.len() - 1;
    let unit = sizes.last();
    if r == 0 {
        assert forall|n: nat| n <= sizes.len() implies weighted_sum(sizes, g, n) == 0 by {
            lemma_zero_sum(sizes, g, n);
        }
        vstd::arithmetic::div_mod::lemma_small_mod(0, unit as nat);
    } else {
        let t = lemma_taken(sizes, r, last as nat);
        let x = left_before(sizes, r, last as nat);
        let rest = left_before(sizes, r, sizes.len());
        lemma_left_before_bounds(sizes, r, sizes.len());
        vstd::arithmetic::div_mod::lemma_fundamental_div_mod(x, unit);
        let q = x / unit;
        assert(rest == x % unit);
        let e: int = if rest > 0 { 1 } else { 0 };
        assert(g[last] == q + e);
        assert(unit * (q + e) == unit * q + unit * e) by (nonlinear_arith);
        assert(units_total(sizes, g) == r - rest + unit * e);
        assert(r - rest == unit * (t + q)) by (nonlinear_arith)
            requires
                r - x == unit * t,
                x == unit * q + rest,
        ;
        vstd::arithmetic::div_mod::lemma_fundamental_div_mod_converse(r, unit, t + q, rest);
    }
}

proof fn lemma_zero_sum(sizes: Seq<int>, g: Seq<int>, n: nat)
    requires
        n <= sizes.len(),
        n <= g.len(),
        forall|i: int| 0 <= i < n ==> g[i] == 0,
    ensures
        weighted_sum(sizes, g, n) == 0,
    decreases n,
{
    if n > 0 {
        lemma_zero_sum(sizes, g, (n - 1) as nat);
    }
}

/// The units of the greedy partition of a non-negative amount over either
/// unit size table add up to the amount rounded up to the smallest size.
pub proof fn lemma_table_partition_total(m: Material, r: int)
    requires
        r >= 0,
    ensures
        units_total(size_table(m), greedy_counts(size_table(m), r))
            == round_up(r, size_table(m)[UNIT_COUNT - 1]),
{
    lemma_size_table(m);
    lemma_partition_total(size_table(m), r);
}

/// A non-positive amount adds no unit of any size.
pub proof fn lemma_non_positive_adds_nothing(sizes: Seq<int>, r: int, counts: Seq<int>)
    requires
        r <= 0,
        counts.len() == sizes.len(),
    ensures
        greedy_counts(sizes, r) == Seq::new(sizes.len(), |i: int| 0int),
        add_counts(counts, greedy_counts(sizes, r)) == counts,
{
    assert(greedy_counts(sizes, r) =~= Seq::new(sizes.len(), |i: int| 0int));
    assert(add_counts(counts, greedy_counts(sizes, r)) =~= counts);
}

/// Nothing is left of a zero amount before any size.
proof fn lemma_left_before_zero(sizes: Seq<int>, i: nat)
    requires
        descending(sizes),
        i <= sizes.len(),
    ensures
        left_before(sizes, 0, i) == 0,
    decreases i,
{
    if i > 0 {
        lemma_left_before_zero(sizes, (i - 1) as nat);
        vstd::arithmetic::div_mod::lemma_small_mod(0, sizes[i - 1] as nat);
    }
}

/// Every size but the smallest gets as many units as fit in what the larger
/// sizes left, and what it leaves is less than one unit of it, so no smaller
/// size is used while a larger one still fits. (A negative amount is left
/// out: it gets no units at all.)
pub proof fn lemma_largest_first(sizes: Seq<int>, r: int, i: int)
    requires
        descending(sizes),
        r >= 0,
        0 <= i < sizes.len() - 1,
    ensures
        greedy_count(sizes, r, i) == left_before(sizes, r, i as nat) / sizes[i],
        left_before(sizes, r, (i + 1) as nat)
            == left_before(sizes, r, i as nat) - sizes[i] * greedy_count(sizes, r, i),
        0 <= left_before(sizes, r, (i + 1) as nat) < sizes[i],
    decreases i,
{
    if r == 0 {
        lemma_left_before_zero(sizes, (i + 1) as nat);
        lemma_left_before_zero(sizes, i as nat);
        vstd::arithmetic::div_mod::lemma_basic_div(0, sizes[i]);
    } else {
        lemma_left_before_bounds(sizes, r, (i + 1) as nat);
        vstd::arithmetic::div_mod::lemma_fundamental_div_mod(left_before(sizes, r, i as nat), sizes[i]);
    }
}

/// A merged manifest has one count per size.
pub proof fn lemma_manifest_len(sizes: Seq<int>, rs: Seq<int>)
    ensures
        manifest_of(sizes, rs).len() == sizes.len(),
    decreases rs.len(),
{
    if rs.len() > 0 {
        lemma_manifest_len(sizes, rs.drop_last());
    }
}

/// Merging the partitions of `rs` followed by `qs` gives, for each
/// size, the count from `rs` plus the count from `qs`.
pub proof fn lemma_manifest_additive(sizes: Seq<int>, rs: Seq<int>, qs: Seq<int>)
    ensures
        manifest_of(sizes, rs + qs) == add_counts(manifest_of(sizes, rs), manifest_of(sizes, qs)),
    decreases qs.len(),
{
    lemma_manifest_len(sizes, rs);
    lemma_manifest_len(sizes, qs);
    lemma_manifest_len(sizes, rs + qs);
    if qs.len() == 0 {
        assert(rs + qs =~= rs);
        assert(add_counts(manifest_of(sizes, rs), manifest_of(sizes, qs)) =~= manifest_of(sizes, rs));
    } else {
        let qd = qs.drop_last();
        assert((rs + qs).drop_last() =~= rs + qd);
        assert((rs + qs).last() == qs.last());
        lemma_manifest_additive(sizes, rs, qd);
        lemma_manifest_len(sizes, qd);
        assert(manifest_of(sizes, rs + qs) =~= add_counts(manifest_of(sizes, rs), manifest_of(sizes, qs)));
    }
}

/// Merging `rs` then `qs` gives the same counts as
/// merging `qs` then `rs`.
pub proof fn lemma_manifest_order_free(sizes: Seq<int>, rs: Seq<int>, qs: Seq<int>)
    ensures
        manifest_of(sizes, rs + qs) == manifest_of(sizes, qs + rs),
{
    lemma_manifest_additive(sizes, rs, qs);
    lemma_manifest_additive(sizes, qs, rs);
    lemma_manifest_len(sizes, rs);
    lemma_manifest_len(sizes, qs);
    assert(add_counts(manifest_of(sizes, rs), manifest_of(sizes, qs))
        =~= add_counts(manifest_of(sizes, qs), manifest_of(sizes, rs)));
}

} // verus!
