use osm_pbf_benchmark::bbox::BBox;
use osm_pbf_benchmark::elements::{calc_nodes_bbox, decimicro};
use osm_pbf_benchmark::text::push_decimal;

#[test]
fn decimicro_divides_by_100() {
    assert_eq!(decimicro(52119923500), 521199235);
    assert_eq!(decimicro(11625644699), 116256446);
}

#[test]
fn decimicro_rounds_toward_zero() {
    assert_eq!(decimicro(-150), -1);
    assert_eq!(decimicro(-99), 0);
    assert_eq!(decimicro(199), 1);
}

#[test]
fn decimicro_truncates_to_32_bits() {
    // 2^32 * 100 nanodegrees is 2^32 decimicrodegrees, which wraps to 0.
    assert_eq!(decimicro(429496729600), 0);
    assert_eq!(decimicro(214748364800), i32::MIN);
}

#[test]
fn calc_nodes_bbox_counts_every_element() {
    let elems = vec![Some((100, 200)), None, Some((-300, 50)), None];
    let mut n: usize = 3;
    let b = calc_nodes_bbox(&elems, &mut n);
    assert_eq!(b, BBox { min_lat: -3, max_lat: 1, min_lon: 0, max_lon: 2 });
    assert_eq!(n, 7);
}

#[test]
fn calc_nodes_bbox_without_nodes_is_void() {
    let elems = vec![None, None];
    let mut n: usize = usize::MAX;
    let b = calc_nodes_bbox(&elems, &mut n);
    assert_eq!(b, BBox::void());
    assert_eq!(n, 1);
}

#[test]
fn push_decimal_writes_like_display() {
    for x in [0, 7, -7, 10, 1234567890, -1000, i32::MIN, i32::MAX] {
        let mut s = String::from("x=");
        push_decimal(&mut s, x);
        assert_eq!(s, format!("x={}", x));
    }
}
