use road_report::manifest::{unit_size, Manifest, Material, UNIT_COUNT};

fn counts(m: &Manifest) -> Vec<u128> {
    (0..UNIT_COUNT).map(|i| m.count(i)).collect()
}

#[test]
fn metal_950_is_800_100_50() {
    let mut m = Manifest::new(Material::Metal);
    m.add_remaining(950);
    assert_eq!(counts(&m), vec![0, 1, 0, 0, 0, 1, 1]);
}

#[test]
fn ceramic_scrap_rounds_up_to_smallest_unit() {
    let mut m = Manifest::new(Material::Ceramic);
    m.add_remaining(30);
    assert_eq!(counts(&m), vec![0, 0, 0, 0, 0, 0, 1]);
}

#[test]
fn exact_multiple_of_smallest_gets_no_extra_unit() {
    let mut m = Manifest::new(Material::Metal);
    m.add_remaining(1050);
    assert_eq!(counts(&m), vec![1, 0, 0, 0, 0, 0, 1]);
}

#[test]
fn scrap_after_larger_sizes_adds_one_smallest_unit() {
    let mut m = Manifest::new(Material::Metal);
    m.add_remaining(1075);
    assert_eq!(counts(&m), vec![1, 0, 0, 0, 0, 0, 2]);
    let total: u128 = (0..UNIT_COUNT).map(|i| unit_size(Material::Metal, i) as u128 * m.count(i)).sum();
    assert_eq!(total, 1100);
}

#[test]
fn non_positive_remainder_adds_nothing() {
    let mut m = Manifest::new(Material::Ceramic);
    m.add_remaining(0);
    m.add_remaining(-500);
    assert_eq!(counts(&m), vec![0; 7]);
}

#[test]
fn largest_size_is_used_repeatedly() {
    let mut m = Manifest::new(Material::Ceramic);
    m.add_remaining(2500);
    // 3 x 800 leaves 100: 80 leaves 20, which takes one 40.
    assert_eq!(counts(&m), vec![3, 0, 0, 0, 0, 1, 1]);
}

#[test]
fn largest_amount_of_sixteen_bits() {
    let mut m = Manifest::new(Material::Metal);
    m.add_remaining(65535);
    // 65 x 1000 leaves 535: 400, 100, then 35 is scrap.
    assert_eq!(counts(&m), vec![65, 0, 0, 1, 0, 1, 1]);
}

#[test]
fn merging_is_additive_and_order_free() {
    let mut a = Manifest::new(Material::Metal);
    a.add_remaining(950);
    a.add_remaining(30);
    a.add_remaining(1200);
    let mut b = Manifest::new(Material::Metal);
    b.add_remaining(1200);
    b.add_remaining(950);
    b.add_remaining(30);
    assert_eq!(counts(&a), counts(&b));
    assert_eq!(counts(&a), vec![1, 1, 0, 0, 1, 1, 2]);
}

#[test]
fn unit_tables_are_fixed() {
    let metal: Vec<u32> = (0..UNIT_COUNT).map(|i| unit_size(Material::Metal, i)).collect();
    let ceramic: Vec<u32> = (0..UNIT_COUNT).map(|i| unit_size(Material::Ceramic, i)).collect();
    assert_eq!(metal, vec![1000, 800, 600, 400, 200, 100, 50]);
    assert_eq!(ceramic, vec![800, 640, 480, 320, 160, 80, 40]);
    assert_eq!(Manifest::new(Material::Ceramic).material_of(), Material::Ceramic);
}
