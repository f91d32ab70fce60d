//! The text of the consumption report.

use vstd::prelude::*;
use crate::manifest::{lemma_size_table, size_table, Manifest, Material, UNIT_COUNT};
use crate::summary::{
    accumulate, ceramic_amounts, crystal_sum, metal_amounts, road_names, Road, Summary,
};
use crate::manifest::manifest_of;

verus! {

/// The character of a decimal digit.
pub open spec fn digit_char(d: int) -> char {
    if d == 0 { '0' } else if d == 1 { '1' } else if d == 2 { '2' } else if d == 3 { '3' }
    else if d == 4 { '4' } else if d == 5 { '5' } else if d == 6 { '6' } else if d == 7 { '7' }
    else if d == 8 { '8' } else { '9' }
}

/// The decimal digits of `n`, without leading zeros.
pub open spec fn decimal(n: nat) -> Seq<char>
    decreases n,
{
    if n < 10 {
        seq![digit_char(n as int)]
    } else {
        decimal(n / 10) + seq![digit_char((n % 10) as int)]
    }
}

/// The decimal text of `n`, with a leading `-` when it is negative.
pub open spec fn signed_decimal(n: int) -> Seq<char> {
    if n < 0 {
        seq!['-'] + decimal((-n) as nat)
    } else {
        decimal(n as nat)
    }
}

/// A one-character string holding the digit `d`.
fn digit_str(d: u128) -> (r: &'static str)
    requires
        d < 10,
    ensures
        r@ == seq![digit_char(d as int)],
{
    proof {
        reveal_strlit("0");
        reveal_strlit("1");
        reveal_strlit("2");
        reveal_strlit("3");
        reveal_strlit("4");
        reveal_strlit("5");
        reveal_strlit("6");
        reveal_strlit("7");
        reveal_strlit("8");
        reveal_strlit("9");
    }
    let r = if d == 0 { "0" } else if d == 1 { "1" } else if d == 2 { "2" } else if d == 3 { "3" }
    else if d == 4 { "4" } else if d == 5 { "5" } else if d == 6 { "6" } else if d == 7 { "7" }
    else if d == 8 { "8" } else { "9" };
    assert(r@ =~= seq![digit_char(d as int)]);
    r
}

/// The decimal text of `n`.
pub fn decimal_string(n: u128) -> (r: String)
    ensures
        r@ == decimal(n as nat),
    decreases n,
{
    if n < 10 {
        String::from_str(digit_str(n))
    } else {
        let mut r = decimal_string(n / 10);
        r.append(digit_str(n % 10));
        r
    }
}

/// The decimal text of `n`, with a leading `-` when it is negative.
pub fn signed_decimal_string(n: i128) -> (r: String)
    ensures
        r@ == signed_decimal(n as int),
{
    if n < 0 {
        let magnitude: u128 = (-(n + 1)) as u128 + 1;
        let digits = decimal_string(magnitude);
        proof {
            reveal_strlit("-");
        }
        let mut r = String::from_str("-");
        r.append(digits.as_str());
        assert(r@ =~= signed_decimal(n as int));
        r
    } else {
        decimal_string(n as u128)
    }
}

/// The words after the count on a manifest line of `m`.
pub open spec fn unit_label(m: Material) -> Seq<char> {
    match m {
        Material::Metal => " x Metals ("@,
        Material::Ceramic => " x Ceramics ("@,
    }
}

/// The line `<count> x Metals (<size>)`, or its ceramic form.
pub open spec fn manifest_line(m: Material, size: int, count: int) -> Seq<char> {
    decimal(count as nat) + unit_label(m) + decimal(size as nat) + ")"@
}

/// The (size, count) pairs of the first `n` sizes whose count is not zero,
/// in the order of the size table.
pub open spec fn manifest_entries(m: Material, counts: Seq<int>, n: nat) -> Seq<(int, int)>
    decreases n,
{
    if n == 0 {
        seq![]
    } else {
        let before = manifest_entries(m, counts, (n - 1) as nat);
        if counts[n - 1] > 0 {
            before.push((size_table(m)[n - 1], counts[n - 1]))
        } else {
            before
        }
    }
}

/// The report lines of a manifest: one per size with a non-zero count.
pub open spec fn manifest_lines(m: Material, counts: Seq<int>) -> Seq<Seq<char>> {
    manifest_entries(m, counts, UNIT_COUNT as nat).map_values(
        |e: (int, int)| manifest_line(m, e.0, e.1),
    )
}

/// The whole report, line by line.
pub open spec fn report_lines(
    names: Seq<Seq<char>>,
    crystal: int,
    metal: (Material, Seq<int>),
    ceramic: (Material, Seq<int>),
) -> Seq<Seq<char>> {
    seq!["!!! Road Construction Report !!!"@, "--------------------------------"@, "Road Segments:"@]
        + names
        + seq!["-----"@, "Crystal Total: "@ + signed_decimal(crystal), "-----"@, "Metal Manifest:"@]
        + manifest_lines(metal.0, metal.1)
        + seq!["-----"@, "Ceramic Manifest:"@]
        + manifest_lines(ceramic.0, ceramic.1)
}

/// The text of each line in a list of lines.
pub open spec fn texts(lines: Seq<String>) -> Seq<Seq<char>> {
    lines.map_values(|s: String| s@)
}

/// The words after the count on a manifest line of `m`.
fn unit_label_str(m: Material) -> (r: &'static str)
    ensures
        r@ == unit_label(m),
{
    match m {
        Material::Metal => " x Metals (",
        Material::Ceramic => " x Ceramics (",
    }
}

/// The line for `count` units of `size` of material `m`.
pub fn manifest_line_string(m: Material, size: u32, count: u128) -> (r: String)
    ensures
        r@ == manifest_line(m, size as int, count as int),
{
    let mut r = decimal_string(count);
    r.append(unit_label_str(m));
    let s = decimal_string(size as u128);
    r.append(s.as_str());
    r.append(")");
    r
}

/// Appends the lines of a manifest to `out`.
pub fn push_manifest_lines(out: &mut Vec<String>, manifest: &Manifest)
    requires
        manifest.wf(),
    ensures
        texts(final(out)@) == texts(old(out)@)
            + manifest_lines(manifest.material(), manifest.counts()),
{
    let m = manifest.material_of();
    let ghost start = texts(out@);
    let ghost counts = manifest.counts();
    let mut i: usize = 0;
    while i < UNIT_COUNT
        invariant
            manifest.wf(),
            m == manifest.material(),
            counts == manifest.counts(),
            i <= UNIT_COUNT,
            texts(out@) == start + manifest_entries(m, counts, i as nat).map_values(
                |e: (int, int)| manifest_line(m, e.0, e.1),
            ),
        decreases UNIT_COUNT - i,
    {
        let c = manifest.count(i);
        let ghost before = out@;
        let ghost entries = manifest_entries(m, counts, i as nat);
        if c > 0 {
            let line = manifest_line_string(m, crate::manifest::unit_size(m, i), c);
            out.push(line);
            proof {
                assert(texts(out@) =~= texts(before).push(line@));
                assert(manifest_entries(m, counts, (i + 1) as nat) == entries.push(
                    (size_table(m)[i as int], counts[i as int]),
                ));
                assert(manifest_entries(m, counts, (i + 1) as nat).map_values(
                    |e: (int, int)| manifest_line(m, e.0, e.1),
                ) =~= entries.map_values(|e: (int, int)| manifest_line(m, e.0, e.1)).push(line@));
            }
        }
        i = i + 1;
    }
}

/// Appends copies of `names` to `out`.
fn push_names(out: &mut Vec<String>, names: &Vec<String>)
    ensures
        texts(final(out)@) == texts(old(out)@) + texts(names@),
{
    let ghost start = texts(out@);
    let mut i: usize = 0;
    while i < names.len()
        invariant
            i <= names@.len(),
            texts(out@) == start + texts(names@.take(i as int)),
        decreases names@.len() - i,
    {
        let ghost before = out@;
        let name = names[i].clone();
        out.push(name);
        proof {
            assert(names@.take(i as int + 1) =~= names@.take(i as int).push(names@[i as int]));
            assert(texts(names@.take(i as int + 1)) =~= texts(names@.take(i as int)).push(name@));
            assert(texts(out@) =~= texts(before).push(name@));
        }
        i = i + 1;
    }
    proof {
        assert(names@.take(i as int) =~= names@);
    }
}

/// Appends a line holding `text` to `out`.
fn push_line(out: &mut Vec<String>, text: &str)
    ensures
        texts(final(out)@) == texts(old(out)@).push(text@),
{
    let ghost before = out@;
    out.push(String::from_str(text));
    proof {
        assert(texts(out@) =~= texts(before).push(text@));
    }
}

/// Renders the report: a title, the segment names in input order, the
/// crystal total, then each manifest's non-zero counts in the order of its
/// size table.
pub fn render_report(s: &Summary) -> (r: Vec<String>)
    requires
        s.metal.wf(),
        s.ceramic.wf(),
    ensures
        texts(r@) == report_lines(
            s.name_views(),
            s.crystal_total as int,
            (s.metal.material(), s.metal.counts()),
            (s.ceramic.material(), s.ceramic.counts()),
        ),
{
    let mut out: Vec<String> = Vec::new();
    push_line(&mut out, "!!! Road Construction Report !!!");
    push_line(&mut out, "--------------------------------");
    push_line(&mut out, "Road Segments:");
    push_names(&mut out, &s.names);
    push_line(&mut out, "-----");
    let mut total = String::from_str("Crystal Total: ");
    let digits = signed_decimal_string(s.crystal_total);
    total.append(digits.as_str());
    let ghost total_text = total@;
    let ghost before_total = texts(out@);
    out.push(total);
    proof {
        assert(texts(out@) =~= before_total.push(total_text));
    }
    push_line(&mut out, "-----");
    push_line(&mut out, "Metal Manifest:");
    push_manifest_lines(&mut out, &s.metal);
    push_line(&mut out, "-----");
    push_line(&mut out, "Ceramic Manifest:");
    push_manifest_lines(&mut out, &s.ceramic);
    proof {
        assert(texts(out@) =~= report_lines(
            s.name_views(),
            s.crystal_total as int,
            (s.metal.material(), s.metal.counts()),
            (s.ceramic.material(), s.ceramic.counts()),
        ));
    }
    out
}

/// The report of a sequence of road segments.
pub open spec fn roads_report(roads: Seq<Road>) -> Seq<Seq<char>> {
    report_lines(
        road_names(roads),
        crystal_sum(roads),
        (Material::Metal, manifest_of(size_table(Material::Metal), metal_amounts(roads))),
        (Material::Ceramic, manifest_of(size_table(Material::Ceramic), ceramic_amounts(roads))),
    )
}

/// Folds the road segments and renders their report.
pub fn report_of_roads(roads: &Vec<Road>) -> (r: Vec<String>)
    ensures
        texts(r@) == roads_report(roads@),
{
    let s = accumulate(roads);
    render_report(&s)
}

/// Every entry of the first `n` sizes has a size of the table at an index
/// below `n`, and the entries' sizes strictly decrease.
proof fn lemma_entries_descending(m: Material, counts: Seq<int>, n: nat)
    requires
        n <= UNIT_COUNT,
        counts.len() == UNIT_COUNT,
    ensures
        forall|a: int| 0 <= a < manifest_entries(m, counts, n).len() ==>
            (exists|k: int| 0 <= k < n && #[trigger] manifest_entries(m, counts, n)[a].0 == size_table(m)[k]),
        forall|a: int, b: int| 0 <= a < b < manifest_entries(m, counts, n).len() ==>
            manifest_entries(m, counts, n)[a].0 > manifest_entries(m, counts, n)[b].0,
    decreases n,
{
    lemma_size_table(m);
    if n > 0 {
        let p = (n - 1) as nat;
        lemma_entries_descending(m, counts, p);
        let before = manifest_entries(m, counts, p);
        let now = manifest_entries(m, counts, n);
        assert forall|a: int| 0 <= a < now.len() implies
            (exists|k: int| 0 <= k < n && #[trigger] now[a].0 == size_table(m)[k]) by {
            if a < before.len() {
                assert(now[a] == before[a]);
            } else {
                assert(now[a].0 == size_table(m)[p as int]);
            }
        }
        assert forall|a: int, b: int| 0 <= a < b < now.len() implies now[a].0 > now[b].0 by {
            if b < before.len() {
                assert(now[a] == before[a] && now[b] == before[b]);
            } else {
                assert(now[a] == before[a]);
                let k = choose|k: int| 0 <= k < p && before[a].0 == size_table(m)[k];
                assert(now[b].0 == size_table(m)[p as int]);
            }
        }
    }
}

/// The manifest lines of a material come in strictly
/// descending size order, whatever the counts are and however they were
/// accumulated.
pub proof fn lemma_manifest_lines_descending(m: Material, counts: Seq<int>)
    requires
        counts.len() == UNIT_COUNT,
    ensures
        manifest_lines(m, counts).len() == manifest_entries(m, counts, UNIT_COUNT as nat).len(),
        forall|a: int| 0 <= a < manifest_lines(m, counts).len() ==>
            manifest_lines(m, counts)[a] == manifest_line(
                m,
                manifest_entries(m, counts, UNIT_COUNT as nat)[a].0,
                manifest_entries(m, counts, UNIT_COUNT as nat)[a].1,
            ),
        forall|a: int, b: int| 0 <= a < b < manifest_lines(m, counts).len() ==>
            manifest_entries(m, counts, UNIT_COUNT as nat)[a].0
                > manifest_entries(m, counts, UNIT_COUNT as nat)[b].0,
{
    lemma_entries_descending(m, counts, UNIT_COUNT as nat);
}

} // verus!
