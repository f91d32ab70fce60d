use road_report::manifest::{Manifest, Material, UNIT_COUNT};
use road_report::report::{
    decimal_string, manifest_line_string, push_manifest_lines, render_report, report_of_roads,
    signed_decimal_string,
};
use road_report::summary::{accumulate, Road};

fn road(name: &str, v: [i16; 6]) -> Road {
    Road {
        name: name.to_string(),
        crystal_current: v[0],
        crystal_total: v[1],
        metal_current: v[2],
        metal_total: v[3],
        ceramic_current: v[4],
        ceramic_total: v[5],
    }
}

#[test]
fn decimal_text() {
    assert_eq!(decimal_string(0), "0");
    assert_eq!(decimal_string(7), "7");
    assert_eq!(decimal_string(1050), "1050");
    assert_eq!(decimal_string(u128::MAX), u128::MAX.to_string());
    assert_eq!(signed_decimal_string(-42), "-42");
    assert_eq!(signed_decimal_string(0), "0");
    assert_eq!(signed_decimal_string(i128::MIN), i128::MIN.to_string());
}

#[test]
fn manifest_line_text() {
    assert_eq!(manifest_line_string(Material::Metal, 800, 1), "1 x Metals (800)");
    assert_eq!(manifest_line_string(Material::Ceramic, 40, 12), "12 x Ceramics (40)");
}

#[test]
fn metal_section_of_950() {
    let mut m = Manifest::new(Material::Metal);
    m.add_remaining(950);
    let mut out = Vec::new();
    push_manifest_lines(&mut out, &m);
    assert_eq!(out, vec!["1 x Metals (800)", "1 x Metals (100)", "1 x Metals (50)"]);
}

#[test]
fn manifest_lines_descend_whatever_the_accumulation_order() {
    let mut m = Manifest::new(Material::Ceramic);
    m.add_remaining(40);
    m.add_remaining(800);
    m.add_remaining(160);
    m.add_remaining(40);
    let mut out = Vec::new();
    push_manifest_lines(&mut out, &m);
    assert_eq!(out, vec!["1 x Ceramics (800)", "1 x Ceramics (160)", "2 x Ceramics (40)"]);
}

#[test]
fn crystal_total_sums_negative_contributions() {
    let roads = vec![
        road("A", [10, 110, 0, 0, 0, 0]),
        road("B", [300, 50, 0, 0, 0, 0]),
        road("C", [-5, 5, 0, 0, 0, 0]),
    ];
    let s = accumulate(&roads);
    assert_eq!(s.crystal_total, 100 - 250 + 10);
}

#[test]
fn names_keep_order_and_duplicates() {
    let roads = vec![road("North", [0; 6]), road("East", [0; 6]), road("North", [0; 6])];
    let s = accumulate(&roads);
    assert_eq!(s.names, vec!["North", "East", "North"]);
}

#[test]
fn accumulate_merges_both_materials() {
    let roads = vec![road("A", [0, 0, 0, 950, 0, 30]), road("B", [0, 0, 100, 50, 0, 800])];
    let s = accumulate(&roads);
    let metal: Vec<u128> = (0..UNIT_COUNT).map(|i| s.metal.count(i)).collect();
    let ceramic: Vec<u128> = (0..UNIT_COUNT).map(|i| s.ceramic.count(i)).collect();
    assert_eq!(metal, vec![0, 1, 0, 0, 0, 1, 1]);
    assert_eq!(ceramic, vec![1, 0, 0, 0, 0, 0, 1]);
}

#[test]
fn full_report_of_one_segment() {
    let roads = vec![road("SegA", [0, 0, 0, 950, 0, 0])];
    let lines = report_of_roads(&roads);
    let expected = vec![
        "!!! Road Construction Report !!!",
        "--------------------------------",
        "Road Segments:",
        "SegA",
        "-----",
        "Crystal Total: 0",
        "-----",
        "Metal Manifest:",
        "1 x Metals (800)",
        "1 x Metals (100)",
        "1 x Metals (50)",
        "-----",
        "Ceramic Manifest:",
    ];
    assert_eq!(lines, expected);
}

#[test]
fn report_of_no_segments() {
    let s = accumulate(&Vec::new());
    let lines = render_report(&s);
    assert_eq!(
        lines,
        vec![
            "!!! Road Construction Report !!!",
            "--------------------------------",
            "Road Segments:",
            "-----",
            "Crystal Total: 0",
            "-----",
            "Metal Manifest:",
            "-----",
            "Ceramic Manifest:",
        ]
    );
}
