//! Road segment records and their fold into the report's totals.

use vstd::prelude::*;
use crate::manifest::{
    add_counts, descending, greedy_counts, lemma_greedy_count_bounds, lemma_size_table,
    manifest_of, size_table, Manifest, Material, UNIT_COUNT,
};

verus! {

/// One road segment: its name and the current and target amounts of each material.
#[derive(Debug)]
pub struct Road {
    pub name: String,
    pub crystal_current: i16,
    pub crystal_total: i16,
    pub metal_current: i16,
    pub metal_total: i16,
    pub ceramic_current: i16,
    pub ceramic_total: i16,
}

/// Crystal still needed by one segment; negative when the target is exceeded.
pub open spec fn crystal_needed(r: Road) -> int {
    r.crystal_total - r.crystal_current
}

/// Metal still needed by one segment.
pub open spec fn metal_needed(r: Road) -> int {
    r.metal_total - r.metal_current
}

/// Ceramic still needed by one segment.
pub open spec fn ceramic_needed(r: Road) -> int {
    r.ceramic_total - r.ceramic_current
}

/// Sum of the crystal still needed over all segments, negative parts included.
pub open spec fn crystal_sum(roads: Seq<Road>) -> int
    decreases roads.len(),
{
    if roads.len() == 0 {
        0
    } else {
        crystal_sum(roads.drop_last()) + crystal_needed(roads.last())
    }
}

/// The metal amounts handed to the partition, one per segment, in order.
pub open spec fn metal_amounts(roads: Seq<Road>) -> Seq<int> {
    roads.map_values(|r: Road| metal_needed(r))
}

/// The ceramic amounts handed to the partition, one per segment, in order.
pub open spec fn ceramic_amounts(roads: Seq<Road>) -> Seq<int> {
    roads.map_values(|r: Road| ceramic_needed(r))
}

/// The segment names, in order.
pub open spec fn road_names(roads: Seq<Road>) -> Seq<Seq<char>> {
    roads.map_values(|r: Road| r.name@)
}

/// Everything the report is made from.
pub struct Summary {
    pub names: Vec<String>,
    pub crystal_total: i128,
    pub metal: Manifest,
    pub ceramic: Manifest,
}

impl Summary {
    /// The segment names of the summary, as text.
    pub open spec fn name_views(&self) -> Seq<Seq<char>> {
        self.names@.map_values(|s: String| s@)
    }

    /// The summary that `accumulate` gives for `roads`.
    pub open spec fn summarizes(&self, roads: Seq<Road>) -> bool {
        &&& self.name_views() == road_names(roads)
        &&& self.crystal_total == crystal_sum(roads)
        &&& self.metal.wf()
        &&& self.metal.material() == Material::Metal
        &&& self.metal.counts() == manifest_of(size_table(Material::Metal), metal_amounts(roads))
        &&& self.ceramic.wf()
        &&& self.ceramic.material() == Material::Ceramic
        &&& self.ceramic.counts() == manifest_of(size_table(Material::Ceramic), ceramic_amounts(roads))
    }
}

/// Bound on the merged counts of amounts that each fit in 16 bits.
proof fn lemma_manifest_bound(sizes: Seq<int>, rs: Seq<int>)
    requires
        descending(sizes),
        forall|k: int| 0 <= k < rs.len() ==> rs[k] <= 65535,
    ensures
        manifest_of(sizes, rs).len() == sizes.len(),
        forall|j: int| 0 <= j < sizes.len() ==>
            0 <= #[trigger] manifest_of(sizes, rs)[j] <= rs.len() * 65536,
    decreases rs.len(),
{
    if rs.len() > 0 {
        let d = rs.drop_last();
        lemma_manifest_bound(sizes, d);
        assert forall|j: int| 0 <= j < sizes.len() implies
            0 <= #[trigger] manifest_of(sizes, rs)[j] <= rs.len() * 65536 by {
            lemma_greedy_count_bounds(sizes, rs.last(), j);
        }
    }
}

/// Folds the segments, in order, into the name list, the crystal total and
/// the metal and ceramic manifests.
pub fn accumulate(roads: &Vec<Road>) -> (s: Summary)
    ensures
        s.summarizes(roads@),
{
    let mut names: Vec<String> = Vec::new();
    let mut crystal: i128 = 0;
    let mut metal = Manifest::new(Material::Metal);
    let mut ceramic = Manifest::new(Material::Ceramic);
    let ghost ms = size_table(Material::Metal);
    let ghost cs = size_table(Material::Ceramic);
    proof {
        lemma_size_table(Material::Metal);
        lemma_size_table(Material::Ceramic);
        assert(roads@.take(0) =~= Seq::<Road>::empty());
        assert(metal_amounts(roads@.take(0)) =~= seq![]);
        assert(ceramic_amounts(roads@.take(0)) =~= seq![]);
    }
    let mut i: usize = 0;
    while i < roads.len()
        invariant
            i <= roads@.len(),
            descending(ms),
            descending(cs),
            ms == size_table(Material::Metal),
            cs == size_table(Material::Ceramic),
            names@.map_values(|s: String| s@) == road_names(roads@.take(i as int)),
            crystal == crystal_sum(roads@.take(i as int)),
            -(i * 65535) <= crystal <= i * 65535,
            metal.wf(),
            metal.material() == Material::Metal,
            metal.counts() == manifest_of(ms, metal_amounts(roads@.take(i as int))),
            ceramic.wf(),
            ceramic.material() == Material::Ceramic,
            ceramic.counts() == manifest_of(cs, ceramic_amounts(roads@.take(i as int))),
        decreases roads@.len() - i,
    {
        let road = &roads[i];
        let ghost pre = roads@.take(i as int);
        let ghost post = roads@.take(i as int + 1);
        proof {
            assert(post.drop_last() =~= pre);
            assert(post.last() == *road);
            assert(metal_amounts(post) =~= metal_amounts(pre).push(metal_needed(*road)));
            assert(ceramic_amounts(post) =~= ceramic_amounts(pre).push(ceramic_needed(*road)));
            assert(metal_amounts(post).drop_last() =~= metal_amounts(pre));
            assert(ceramic_amounts(post).drop_last() =~= ceramic_amounts(pre));
            lemma_manifest_bound(ms, metal_amounts(post));
            lemma_manifest_bound(cs, ceramic_amounts(post));
            assert(i + 1 <= usize::MAX);
            assert((i + 1) * 65536 <= 0x1_0000_0000_0000_0000_0000int) by (nonlinear_arith)
                requires
                    i + 1 <= 0x1_0000_0000_0000_0000int,
            ;
            assert(metal_amounts(post).last() == metal_needed(*road));
            assert(ceramic_amounts(post).last() == ceramic_needed(*road));
            assert forall|j: int| 0 <= j < UNIT_COUNT implies metal.counts()[j]
                + greedy_counts(ms, metal_needed(*road))[j] <= u128::MAX by {
                assert(manifest_of(ms, metal_amounts(post))[j]
                    == metal.counts()[j] + greedy_counts(ms, metal_needed(*road))[j]);
            }
            assert forall|j: int| 0 <= j < UNIT_COUNT implies ceramic.counts()[j]
                + greedy_counts(cs, ceramic_needed(*road))[j] <= u128::MAX by {
                assert(manifest_of(cs, ceramic_amounts(post))[j]
                    == ceramic.counts()[j] + greedy_counts(cs, ceramic_needed(*road))[j]);
            }
        }
        let ghost old_names = names@;
        let name = road.name.clone();
        names.push(name);
        crystal = crystal + (road.crystal_total as i128 - road.crystal_current as i128);
        metal.add_remaining(road.metal_total as i32 - road.metal_current as i32);
        ceramic.add_remaining(road.ceramic_total as i32 - road.ceramic_current as i32);
        i = i + 1;
        proof {
            assert(road_names(post) =~= road_names(pre).push(road.name@));
            assert(names@ == old_names.push(name));
            assert(names@.map_values(|s: String| s@)
                =~= old_names.map_values(|s: String| s@).push(name@));
            assert(names@.map_values(|s: String| s@) =~= road_names(post));
            assert(i * 65535 == (i - 1) * 65535 + 65535) by (nonlinear_arith);
        }
    }
    proof {
        assert(roads@.take(i as int) =~= roads@);
    }
    Summary { names, crystal_total: crystal, metal, ceramic }
}

} // verus!
