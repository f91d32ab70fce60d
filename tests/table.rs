use road_report::number::parse_i16_field;
use road_report::table::{find_column, find_columns, parse_roads, parse_table, ParseError};

const HEADER: &str =
    "name,crystal_current,crystal_total,metal_current,metal_total,ceramic_current,ceramic_total\n";

fn strings(v: &[&str]) -> Vec<String> {
    v.iter().map(|s| s.to_string()).collect()
}

#[test]
fn reads_rows_in_order() {
    let text = format!("{}SegA,0,0,0,950,0,0\nSegB,1,2,3,4,5,6\n", HEADER);
    let roads = parse_roads(text.as_bytes()).unwrap();
    assert_eq!(roads.len(), 2);
    assert_eq!(roads[0].name, "SegA");
    assert_eq!(roads[0].metal_total, 950);
    assert_eq!(roads[1].name, "SegB");
    assert_eq!(
        [
            roads[1].crystal_current,
            roads[1].crystal_total,
            roads[1].metal_current,
            roads[1].metal_total,
            roads[1].ceramic_current,
            roads[1].ceramic_total
        ],
        [1, 2, 3, 4, 5, 6]
    );
}

#[test]
fn header_only_gives_no_records() {
    assert_eq!(parse_roads(HEADER.as_bytes()).unwrap().len(), 0);
    assert_eq!(parse_roads(b"").unwrap().len(), 0);
}

#[test]
fn one_bad_row_fails_the_whole_read() {
    let text = format!("{}A,0,0,0,950,0,0\nB,0,x,0,0,0,0\nC,0,0,0,0,0,0\n", HEADER);
    assert_eq!(parse_roads(text.as_bytes()).unwrap_err(), ParseError::Row(1));
}

#[test]
fn number_out_of_range_is_a_bad_row() {
    let text = format!("{}A,0,40000,0,0,0,0\n", HEADER);
    assert_eq!(parse_roads(text.as_bytes()).unwrap_err(), ParseError::Row(0));
}

#[test]
fn missing_field_in_header() {
    let text = "name,crystal_current,crystal_total,metal_current,metal_total,ceramic_current\nA,0,0,0,0,0\n";
    assert_eq!(parse_roads(text.as_bytes()).unwrap_err(), ParseError::Header);
}

#[test]
fn unequal_row_length_is_malformed_text() {
    let text = format!("{}A,0,0\n", HEADER);
    assert_eq!(parse_roads(text.as_bytes()).unwrap_err(), ParseError::Csv);
}

#[test]
fn columns_are_found_by_name() {
    let text = "ceramic_total,name,extra,crystal_current,crystal_total,metal_current,metal_total,ceramic_current\n\
                9,Seg,ignored,1,2,3,4,5\n";
    let roads = parse_roads(text.as_bytes()).unwrap();
    assert_eq!(roads[0].name, "Seg");
    assert_eq!(roads[0].ceramic_total, 9);
    assert_eq!(roads[0].ceramic_current, 5);
}

#[test]
fn quoted_name_with_comma() {
    let text = format!("{}\"Main, north\",0,10,0,0,0,0\n", HEADER);
    let roads = parse_roads(text.as_bytes()).unwrap();
    assert_eq!(roads[0].name, "Main, north");
    assert_eq!(roads[0].crystal_total, 10);
}

#[test]
fn header_lookup() {
    let h = strings(&["a", "b", "a"]);
    assert_eq!(find_column(&h, "b"), Some(1));
    assert_eq!(find_column(&h, "a"), None);
    assert_eq!(find_column(&h, "c"), None);
    let full = strings(&[
        "ceramic_total", "name", "crystal_current", "crystal_total", "metal_current",
        "metal_total", "ceramic_current",
    ]);
    assert_eq!(find_columns(&full), Some(vec![1, 2, 3, 4, 5, 6, 0]));
}

#[test]
fn duplicate_field_in_header() {
    let h = strings(&[
        "name", "crystal_current", "crystal_total", "metal_current", "metal_total",
        "ceramic_current", "ceramic_total", "name",
    ]);
    let rows = vec![strings(&["A", "0", "0", "0", "0", "0", "0", "B"])];
    assert_eq!(parse_table(&h, &rows).unwrap_err(), ParseError::Header);
    assert_eq!(parse_table(&h, &Vec::new()).unwrap().len(), 0);
}

#[test]
fn short_row_is_a_bad_row() {
    let h = strings(&[
        "name", "crystal_current", "crystal_total", "metal_current", "metal_total",
        "ceramic_current", "ceramic_total",
    ]);
    let rows = vec![strings(&["A", "0", "0", "0", "0", "0", "0"]), strings(&["B", "0"])];
    assert_eq!(parse_table(&h, &rows).unwrap_err(), ParseError::Row(1));
}

#[test]
fn integer_fields() {
    assert_eq!(parse_i16_field("950"), Some(950));
    assert_eq!(parse_i16_field("-12"), Some(-12));
    assert_eq!(parse_i16_field("+7"), Some(7));
    assert_eq!(parse_i16_field("0x7F"), Some(127));
    assert_eq!(parse_i16_field("0x-10"), Some(-16));
    assert_eq!(parse_i16_field("32767"), Some(32767));
    assert_eq!(parse_i16_field("-32768"), Some(-32768));
    assert_eq!(parse_i16_field("32768"), None);
    assert_eq!(parse_i16_field("000000000000000000012"), Some(12));
    assert_eq!(parse_i16_field(""), None);
    assert_eq!(parse_i16_field("-"), None);
    assert_eq!(parse_i16_field("0x"), None);
    assert_eq!(parse_i16_field(" 5"), None);
    assert_eq!(parse_i16_field("1.5"), None);
    assert_eq!(parse_i16_field("ff"), None);
}
