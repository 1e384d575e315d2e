use utiles::decimal::{decimal_string, push_decimal};
use utiles::tile::Tile;

#[test]
fn decimal_text() {
    assert_eq!(decimal_string(0), "0");
    assert_eq!(decimal_string(7), "7");
    assert_eq!(decimal_string(10), "10");
    assert_eq!(decimal_string(243), "243");
    assert_eq!(decimal_string(u64::MAX), "18446744073709551615");
    let mut s = String::from("z=");
    push_decimal(&mut s, 1900);
    assert_eq!(s, "z=1900");
}

#[test]
fn tile_paths() {
    let t = Tile::new(3423, 1763, 12);
    assert_eq!(t.fmt_zxy(), "12/3423/1763");
    assert_eq!(t.fmt_zxy_ext("pbf"), "12/3423/1763.pbf");
    assert_eq!(Tile::new(0, 0, 0).fmt_zxy(), "0/0/0");
    assert_eq!(t.to_string(), "x3423y1763z12");
}
