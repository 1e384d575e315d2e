use utiles::pmtiles::{
    calculate_h_o, checked_xyz2id, id2xyz, id2zxy, parent_id, xyz2id, zxy2id,
};
use utiles::tile::Tile;

#[test]
fn test_zxy_to_id() {
    assert_eq!(0, zxy2id(0, 0, 0));
    assert_eq!(1, zxy2id(1, 0, 0));
    assert_eq!(2, zxy2id(1, 0, 1));
    assert_eq!(3, zxy2id(1, 1, 1));
    assert_eq!(4, zxy2id(1, 1, 0));
    assert_eq!(5, zxy2id(2, 0, 0));
}

#[test]
fn test_id_to_zxy() {
    let (z, x, y) = id2zxy(0);
    assert_eq!(0, z);
    assert_eq!(0, x);
    assert_eq!(0, y);
    let (z, x, y) = id2zxy(1);
    assert_eq!(1, z);
    assert_eq!(0, x);
    assert_eq!(0, y);
    let (z, x, y) = id2zxy(19078479);
    assert_eq!(12, z);
    assert_eq!(3423, x);
    assert_eq!(1763, y);
}

#[test]
fn test_many_tile_ids() {
    for z in 0..10 {
        for x in 0..(1 << z) {
            for y in 0..(1 << z) {
                let id = zxy2id(z, x, y);
                let (rz, rx, ry) = id2zxy(id);
                assert_eq!(z, rz);
                assert_eq!(x, rx);
                assert_eq!(y, ry);
            }
        }
    }
}

#[test]
fn test_extremes() {
    for tz in 0..32 {
        let dim = (1 << tz) - 1;
        let (z, x, y) = id2zxy(zxy2id(tz, 0, 0));
        assert_eq!(tz, z);
        assert_eq!(0, x);
        assert_eq!(0, y);
        let (z, x, y) = id2zxy(zxy2id(z, dim, 0));
        assert_eq!(tz, z);
        assert_eq!(dim, x);
        assert_eq!(0, y);
        let (z, x, y) = id2zxy(zxy2id(z, 0, dim));
        assert_eq!(tz, z);
        assert_eq!(0, x);
        assert_eq!(dim, y);
        let (z, x, y) = id2zxy(zxy2id(z, dim, dim));
        assert_eq!(tz, z);
        assert_eq!(dim, x);
        assert_eq!(dim, y);
    }
}

#[test]
fn test_parent() {
    assert_eq!(zxy2id(0, 0, 0), parent_id(zxy2id(1, 0, 0)));

    assert_eq!(zxy2id(1, 0, 0), parent_id(zxy2id(2, 0, 0)));
    assert_eq!(zxy2id(1, 0, 0), parent_id(zxy2id(2, 0, 1)));
    assert_eq!(zxy2id(1, 0, 0), parent_id(zxy2id(2, 1, 0)));
    assert_eq!(zxy2id(1, 0, 0), parent_id(zxy2id(2, 1, 1)));

    assert_eq!(zxy2id(1, 0, 1), parent_id(zxy2id(2, 0, 2)));
    assert_eq!(zxy2id(1, 0, 1), parent_id(zxy2id(2, 0, 3)));
    assert_eq!(zxy2id(1, 0, 1), parent_id(zxy2id(2, 1, 2)));
    assert_eq!(zxy2id(1, 0, 1), parent_id(zxy2id(2, 1, 3)));

    assert_eq!(zxy2id(1, 1, 0), parent_id(zxy2id(2, 2, 0)));
    assert_eq!(zxy2id(1, 1, 0), parent_id(zxy2id(2, 2, 1)));
    assert_eq!(zxy2id(1, 1, 0), parent_id(zxy2id(2, 3, 0)));
    assert_eq!(zxy2id(1, 1, 0), parent_id(zxy2id(2, 3, 1)));

    assert_eq!(zxy2id(1, 1, 1), parent_id(zxy2id(2, 2, 2)));
    assert_eq!(zxy2id(1, 1, 1), parent_id(zxy2id(2, 2, 3)));
    assert_eq!(zxy2id(1, 1, 1), parent_id(zxy2id(2, 3, 2)));
    assert_eq!(zxy2id(1, 1, 1), parent_id(zxy2id(2, 3, 3)));
}

#[test]
fn id_block_offsets() {
    assert_eq!(calculate_h_o(0), (0, 0));
    assert_eq!(calculate_h_o(1), (0, 1));
    assert_eq!(calculate_h_o(4), (3, 1));
    assert_eq!(calculate_h_o(5), (0, 2));
    assert_eq!(calculate_h_o(21), (0, 3));
    assert_eq!(calculate_h_o(19078479), (19078479 - 5592405, 12));
}

#[test]
fn ids_of_tiles() {
    assert_eq!(xyz2id(3423, 1763, 12), 19078479);
    assert_eq!(id2xyz(19078479), (3423, 1763, 12));
    assert_eq!(Tile::new(3423, 1763, 12).pmtileid(), 19078479);
    assert_eq!(Tile::from_pmtileid(19078479), Tile::new(3423, 1763, 12));
    assert_eq!(Tile::new(1, 1, 1).parent_id(), 0);
    assert_eq!(Tile::new(3, 2, 2).parent_id(), zxy2id(1, 1, 1));
    assert_eq!(Tile::new(3423, 1763, 12).checked_pmtileid(), Some(19078479));
    assert_eq!(Tile::new(3, 2, 2).checked_parent_id(), Some(zxy2id(1, 1, 1)));
}

#[test]
fn ids_that_do_not_fit() {
    assert_eq!(checked_xyz2id(0, 0, 33), None);
    assert_eq!(checked_xyz2id(0, 0, 31), Some(zxy2id(31, 0, 0)));
    assert_eq!(Tile::new(0, 0, 40).checked_pmtileid(), None);
    assert_eq!(Tile::new(0, 0, 40).checked_parent_id(), None);
}

#[test]
fn parent_id_matches_parent_tile() {
    for z in 1..8u8 {
        for x in 0..(1u32 << z) {
            for y in 0..(1u32 << z) {
                let t = Tile::new(x, y, z);
                let p = t.parent(None);
                assert_eq!(t.parent_id(), p.pmtileid());
            }
        }
    }
}

#[test]
fn zoom_table() {
    // (zoom, tiles at the zoom, tiles up to and including the zoom, last column)
    let rows: [(u8, u64, u64, u32); 6] = [
        (0, 1, 1, 0),
        (1, 4, 5, 1),
        (2, 16, 21, 3),
        (11, 4_194_304, 5_592_405, 2_047),
        (20, 1_099_511_627_776, 1_466_015_503_701, 1_048_575),
        (30, 1_152_921_504_606_846_976, 1_537_228_672_809_129_301, 1_073_741_823),
    ];
    for (z, ntiles, total, last) in rows {
        let first = zxy2id(z, 0, 0);
        let next = zxy2id(z + 1, 0, 0);
        assert_eq!(next - first, ntiles);
        assert_eq!(next, total);
        assert_eq!(utiles::tile::minmax(u32::from(z)), (0, last));
        assert_eq!(calculate_h_o(first), (0, z));
    }
}

#[test]
fn grid_tiles_always_have_ids() {
    assert_eq!(utiles::pmtiles::checked_xyz2id(0, 0, 1), Some(1));
    assert!(utiles::pmtiles::checked_xyz2id(0, 0, 1).is_some());
    let corner = (1u32 << 31) - 1;
    let id = utiles::pmtiles::checked_xyz2id(corner, corner, 31).unwrap();
    assert_eq!(utiles::pmtiles::id2xyz(id), (corner, corner, 31));
    assert!(Tile::new(1, 1, 1).checked_parent_id().is_some());
    assert_eq!(Tile::new(1, 1, 1).checked_pmtileid(), Some(Tile::new(1, 1, 1).pmtileid()));
}

#[test]
fn ids_name_grid_tiles() {
    for i in [0u64, 1, 4, 5, 20, 21, 19078479, 0x5555_5555_5555_5554] {
        let (z, x, y) = id2zxy(i);
        assert!(z < 32);
        assert!(u64::from(x) < (1u64 << z) && u64::from(y) < (1u64 << z));
        assert_eq!(zxy2id(z, x, y), i);
        let t = Tile::from_pmtileid(i);
        assert!(t.valid());
        assert_eq!(t.pmtileid(), i);
    }
    assert_eq!(Tile::from_pmtileid(19078479), Tile::new(3423, 1763, 12));
}

#[test]
fn parent_ids_match_parent_tiles_across_zooms() {
    for z in 1u8..32 {
        let side = 1u64 << z;
        for (x, y) in [(0u64, 0u64), (side - 1, side - 1), (side / 3, side - 1), (side - 1, side / 2), (side / 2, side / 5)] {
            let t = Tile::new(x as u32, y as u32, z);
            let p = Tile::new((x / 2) as u32, (y / 2) as u32, z - 1);
            assert_eq!(parent_id(t.pmtileid()), p.pmtileid(), "tile {:?}", t);
            assert_eq!(t.parent_id(), p.pmtileid());
        }
    }
}
