use utiles::tiles_range::{tiles_range_zoom, TilesRange, TilesRanges};

#[test]
fn range_row_by_row() {
    let mut r = TilesRange::new(1, 2, 5, 6, 3);
    assert_eq!(r.size_hint(), (4, Some(4)));
    assert_eq!(r.next(), Some((1, 5, 3)));
    assert_eq!(r.next(), Some((2, 5, 3)));
    assert_eq!(r.next(), Some((1, 6, 3)));
    assert_eq!(r.next(), Some((2, 6, 3)));
    assert_eq!(r.next(), None);
    assert_eq!(r.next(), None);
    assert_eq!(r.minx, 1);
    assert_eq!(r.maxy, 6);
}

#[test]
fn range_collects_all() {
    let mut r = TilesRange::new(0, 2, 0, 1, 7);
    let all = r.collect_tiles();
    assert_eq!(
        all,
        vec![(0, 0, 7), (1, 0, 7), (2, 0, 7), (0, 1, 7), (1, 1, 7), (2, 1, 7)]
    );
    assert_eq!(r.next(), None);
    let mut single = TilesRange::new(4, 4, 9, 9, 4);
    assert_eq!(single.collect_tiles(), vec![(4, 9, 4)]);
}

#[test]
fn ranges_take_turns() {
    let a = TilesRange::new(0, 1, 0, 0, 1);
    let b = TilesRange::new(5, 5, 5, 6, 3);
    let mut rs = TilesRanges::new(vec![a, b]);
    assert_eq!(rs.next(), Some((0, 0, 1)));
    assert_eq!(rs.next(), Some((5, 5, 3)));
    assert_eq!(rs.next(), Some((1, 0, 1)));
    assert_eq!(rs.next(), Some((5, 6, 3)));
    // the first cursor is done: it is dropped and the call gives None
    assert_eq!(rs.next(), None);
    assert_eq!(rs.next(), None);
    assert_eq!(rs.next(), None);
    let mut empty = TilesRanges::new(vec![]);
    assert_eq!(empty.next(), None);
}

#[test]
fn range_column_by_column() {
    assert_eq!(
        tiles_range_zoom(0, 1, 3, 5, 4),
        vec![(0, 3, 4), (0, 4, 4), (0, 5, 4), (1, 3, 4), (1, 4, 4), (1, 5, 4)]
    );
    assert_eq!(tiles_range_zoom(2, 1, 0, 0, 4), vec![]);
    assert_eq!(tiles_range_zoom(0, 0, 1, 0, 4), vec![]);
    assert_eq!(
        tiles_range_zoom(u32::MAX, u32::MAX, u32::MAX - 1, u32::MAX, 32),
        vec![(u32::MAX, u32::MAX - 1, 32), (u32::MAX, u32::MAX, 32)]
    );
}
