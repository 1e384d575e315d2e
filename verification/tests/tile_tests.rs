use utiles::children::children;
use utiles::simplify::{merge, simplify, try_simplify};
use utiles::tile::{
    bounding_tile_from_corners, flipy, get_bbox_zoom, minmax, neighbors, parent, siblings, valid,
    Tile, XYZ,
};
use utiles::zoom::{as_zooms, ZoomOrZooms};

#[test]
fn zoom_or_zooms() {
    let z = as_zooms(1.into());
    assert_eq!(z, vec![1]);
    let z = as_zooms(vec![1, 2, 3].into());
    assert_eq!(z, vec![1, 2, 3]);
}

#[test]
fn tile_is_valid() {
    let tile = Tile::new(0, 0, 0);
    assert!(tile.valid());
    let tile = Tile::new(1, 0, 0);
    assert!(!tile.valid());
    let tile = Tile::new(0, 1, 0);
    assert!(!tile.valid());
    let tile = Tile::new(0, 0, 1);
    assert!(tile.valid());
    let tile = Tile::new(1, 1, 1);
    assert!(tile.valid());

    // invalid tile
    let tile = Tile::new(1, 1, 0);
    assert!(!tile.valid());
    let _tile = Tile::new(1, 234, 1);
    assert!(!_tile.valid());
}

#[test]
fn test_macro() {
    let tile = Tile::new(0, 0, 0);
    assert_eq!(tile, Tile::new(0, 0, 0));
}

#[test]
fn test_simplify() {
    let children = Tile::new(243, 166, 9).children(Some(12));
    assert_eq!(children.len(), 64);
    let mut children = children.into_iter().collect::<Vec<Tile>>();
    children.truncate(61);
    children.push(children[0]);
    let simplified = simplify(children);
    let targets = vec![
        Tile::new(487, 332, 10),
        Tile::new(486, 332, 10),
        Tile::new(487, 333, 10),
        Tile::new(973, 667, 11),
        Tile::new(973, 666, 11),
        Tile::new(972, 666, 11),
        Tile::new(1944, 1334, 12),
    ];
    for target in targets {
        assert!(simplified.contains(&target));
    }
}

#[test]
fn test_simplify_removal() {
    let tiles = vec![
        Tile::new(1298, 3129, 13),
        Tile::new(649, 1564, 12),
        Tile::new(650, 1564, 12),
    ];
    let simplified = simplify(tiles);
    assert!(!simplified.contains(&Tile::new(1298, 3129, 13)));
    assert!(simplified.contains(&Tile::new(650, 1564, 12)));
    assert!(simplified.contains(&Tile::new(649, 1564, 12)));
}

#[test]
fn simplify_merges_four_siblings_up_to_the_root_of_the_group() {
    let kids = Tile::new(1, 2, 3).children(Some(5));
    assert_eq!(kids.len(), 16);
    let simplified = simplify(kids);
    assert_eq!(simplified, vec![Tile::new(1, 2, 3)]);
}

#[test]
fn simplify_keeps_incomplete_groups() {
    let tiles = vec![Tile::new(0, 0, 2), Tile::new(1, 0, 2), Tile::new(0, 1, 2)];
    let mut simplified = simplify(tiles.clone());
    simplified.sort();
    let mut expected = tiles;
    expected.sort();
    assert_eq!(simplified, expected);
}

#[test]
fn merge_reports_whether_it_changed() {
    let kids = Tile::new(5, 6, 4).children(None);
    let (merged, changed) = merge(&kids);
    assert!(changed);
    assert_eq!(merged, vec![Tile::new(5, 6, 4)]);
    let (again, changed) = merge(&merged);
    assert!(!changed);
    assert_eq!(again, merged);
}

#[test]
fn minmax_of_zooms() {
    assert_eq!(minmax(0), (0, 0));
    assert_eq!(minmax(1), (0, 1));
    assert_eq!(minmax(12), (0, 4095));
    assert_eq!(minmax(31), (0, 2147483647));
}

#[test]
fn valid_checks_both_axes() {
    assert!(valid(3, 3, 2));
    assert!(!valid(4, 3, 2));
    assert!(!valid(3, 4, 2));
}

#[test]
fn flipy_counts_rows_from_the_bottom() {
    assert_eq!(flipy(0, 0), 0);
    assert_eq!(flipy(0, 3), 7);
    assert_eq!(flipy(5, 3), 2);
    assert_eq!(flipy(flipy(1763, 12), 12), 1763);
}

#[test]
fn tile_accessors() {
    let t = Tile::new(3, 4, 5);
    assert_eq!(t.x(), 3);
    assert_eq!(t.y(), 4);
    assert_eq!(t.z(), 5);
    assert_eq!(t.zoom(), 5);
    assert_eq!(Tile::from(XYZ(3, 4, 5)), t);
    assert_eq!(<(u32, u32, u8)>::from(t), (3, 4, 5));
    let triple: (u32, u32, u8) = t.into();
    assert_eq!(triple, (3, 4, 5));
}

#[test]
fn parent_climbs_levels() {
    assert_eq!(parent(486, 332, 10, None), Tile::new(243, 166, 9));
    assert_eq!(parent(486, 332, 10, Some(0)), Tile::new(243, 166, 9));
    assert_eq!(parent(486, 332, 10, Some(1)), Tile::new(121, 83, 8));
    assert_eq!(Tile::new(486, 332, 10).parent(Some(9)), Tile::new(0, 0, 0));
}

#[test]
fn children_of_a_tile() {
    assert_eq!(
        children(0, 0, 0, None),
        vec![Tile::new(0, 0, 1), Tile::new(1, 0, 1), Tile::new(1, 1, 1), Tile::new(0, 1, 1)]
    );
    assert_eq!(children(1, 2, 3, Some(3)), vec![Tile::new(1, 2, 3)]);
    assert_eq!(children(1, 2, 3, Some(1)), vec![Tile::new(1, 2, 3)]);
    let grand = children(1, 1, 1, Some(3));
    assert_eq!(grand.len(), 16);
    for c in &grand {
        assert_eq!(c.z, 3);
        assert_eq!(c.parent(Some(1)), Tile::new(1, 1, 1));
    }
}

#[test]
fn siblings_by_position() {
    assert_eq!(
        siblings(2, 4, 5),
        vec![Tile::new(3, 4, 5), Tile::new(2, 5, 5), Tile::new(3, 5, 5)]
    );
    assert_eq!(
        siblings(3, 4, 5),
        vec![Tile::new(2, 4, 5), Tile::new(3, 5, 5), Tile::new(2, 5, 5)]
    );
    assert_eq!(
        siblings(2, 5, 5),
        vec![Tile::new(3, 5, 5), Tile::new(2, 4, 5), Tile::new(3, 4, 5)]
    );
    assert_eq!(
        Tile::new(3, 5, 5).siblings(),
        vec![Tile::new(2, 5, 5), Tile::new(3, 4, 5), Tile::new(2, 4, 5)]
    );
    for s in siblings(3, 5, 5) {
        assert_eq!(s.parent(None), Tile::new(1, 2, 4));
    }
}

#[test]
fn neighbors_of_tiles() {
    assert_eq!(neighbors(0, 0, 0), vec![]);
    assert_eq!(
        neighbors(3, 3, 3),
        vec![
            Tile::new(4, 3, 3),
            Tile::new(3, 4, 3),
            Tile::new(4, 4, 3),
            Tile::new(2, 3, 3),
            Tile::new(3, 2, 3),
            Tile::new(2, 2, 3),
            Tile::new(4, 2, 3),
            Tile::new(2, 4, 3),
        ]
    );
    assert_eq!(
        neighbors(0, 0, 2),
        vec![Tile::new(1, 0, 2), Tile::new(0, 1, 2), Tile::new(1, 1, 2)]
    );
    assert_eq!(
        neighbors(0, 2, 2),
        vec![
            Tile::new(1, 2, 2),
            Tile::new(0, 3, 2),
            Tile::new(1, 3, 2),
            Tile::new(0, 1, 2),
            Tile::new(1, 1, 2),
        ]
    );
    // the far edge is taken at 2^z, one past the last column
    assert_eq!(
        neighbors(4, 0, 2),
        vec![Tile::new(3, 0, 2), Tile::new(4, 1, 2), Tile::new(3, 1, 2)]
    );
    assert_eq!(Tile::new(3, 3, 3).neighbors().len(), 8);
}

#[test]
fn moving_by_one() {
    let t = Tile::new(5, 5, 4);
    assert_eq!(t.up(), Tile::new(6, 5, 4));
    assert_eq!(t.down(), Tile::new(4, 5, 4));
    assert_eq!(t.left(), Tile::new(5, 4, 4));
    assert_eq!(t.right(), Tile::new(5, 6, 4));
    assert_eq!(t.up_left(), Tile::new(6, 4, 4));
    assert_eq!(t.up_right(), Tile::new(6, 6, 4));
    assert_eq!(t.down_left(), Tile::new(4, 4, 4));
    assert_eq!(t.down_right(), Tile::new(4, 6, 4));
}

#[test]
fn bbox_zoom_from_corner_tiles() {
    assert_eq!(get_bbox_zoom((0, 0, 0x8000_0000, 0)), 0);
    assert_eq!(get_bbox_zoom((0, 0, 0x4000_0000, 0)), 1);
    assert_eq!(get_bbox_zoom((5, 5, 5, 5)), 28);
    let tmin = Tile::new(0x1234_0000, 0x5678_0000, 32);
    let tmax = Tile::new(0x1234_ffff, 0x5678_ffff, 32);
    assert_eq!(bounding_tile_from_corners(tmin, tmax), Tile::new(0x1234, 0x5678, 16));
    let whole = bounding_tile_from_corners(Tile::new(0, 0, 32), Tile::new(u32::MAX, u32::MAX, 32));
    assert_eq!(whole, Tile::new(0, 0, 0));
}

#[test]
fn tiles_sort_by_zoom_then_row_then_column() {
    let mut v = vec![Tile::new(0, 1, 2), Tile::new(5, 0, 2), Tile::new(9, 9, 1), Tile::new(1, 1, 2)];
    v.sort();
    assert_eq!(
        v,
        vec![Tile::new(9, 9, 1), Tile::new(5, 0, 2), Tile::new(0, 1, 2), Tile::new(1, 1, 2)]
    );
    assert!(Tile::new(9, 9, 1) < Tile::new(0, 0, 2));
    assert!(Tile::new(0, 0, 2) < Tile::new(1, 0, 2));
    assert_eq!(
        Tile::new(1, 0, 2).partial_cmp(&Tile::new(1, 0, 2)),
        Some(std::cmp::Ordering::Equal)
    );
    assert_eq!(Tile::new(3, 4, 5).cmp(&Tile::new(4, 3, 5)), std::cmp::Ordering::Greater);
}

#[test]
fn zoom_or_zooms_from_values() {
    assert!(matches!(ZoomOrZooms::from(4u8), ZoomOrZooms::Zoom(4)));
    assert!(matches!(ZoomOrZooms::from(vec![1u8, 2]), ZoomOrZooms::Zooms(_)));
}

#[test]
fn simplify_stops_at_zoom_zero() {
    assert_eq!(try_simplify(vec![Tile::new(0, 0, 0)]), None);
    let kids = Tile::new(0, 0, 0).children(None);
    assert_eq!(try_simplify(kids), None);
    assert_eq!(try_simplify(vec![Tile::new(0, 0, 1)]), Some(vec![Tile::new(0, 0, 1)]));
    assert_eq!(try_simplify(vec![]), Some(vec![]));
}

#[test]
fn simplify_drops_covered_tiles() {
    let tiles = vec![Tile::new(2, 3, 4), Tile::new(4, 6, 5), Tile::new(9, 13, 6), Tile::new(0, 0, 6)];
    let mut simplified = simplify(tiles);
    simplified.sort();
    assert_eq!(simplified, vec![Tile::new(2, 3, 4), Tile::new(0, 0, 6)]);
}

#[test]
fn siblings_with_tile_are_parent_children() {
    for t in [Tile::new(0, 0, 1), Tile::new(5, 2, 3), Tile::new(6, 7, 3), Tile::new(3423, 1763, 12)] {
        let sibs = t.siblings();
        assert!(!sibs.contains(&t));
        let mut with_tile: Vec<Tile> = sibs.clone();
        with_tile.push(t);
        with_tile.sort();
        let mut kids = t.parent(None).children(None);
        kids.sort();
        assert_eq!(with_tile, kids);
    }
}
