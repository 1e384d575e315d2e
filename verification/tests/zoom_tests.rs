use utiles::zoom::{
    as_zooms, zoom_or_zooms_to_zset, zset2zvec, zvec2zset, ZoomOrZooms, ZoomRange, ZoomsOrInt,
    ZoomsSet,
};

#[test]
fn zset2zvec_none() {
    let zset: u32 = 0b00000000_00000000_00000000_00000000;
    let zvec: Vec<u8> = vec![];
    assert_eq!(zset2zvec(zset), zvec);
}

#[test]
fn zset2zvec_0_1_2() {
    let zset: u32 = 0b11100000_00000000_00000000_00000000;
    let zvec: Vec<u8> = vec![0, 1, 2];
    assert_eq!(zset2zvec(zset), zvec);
}

#[test]
fn zset2zvec_all() {
    let zset: u32 = 0b11111111_11111111_11111111_11111111;
    let zvec: Vec<u8> = vec![
        0, 1, 2, 3, 4, 5, 6, 7, 8, 9, 10, 11, 12, 13, 14, 15, 16, 17, 18, 19, 20, 21, 22, 23, 24,
        25, 26, 27, 28, 29, 30, 31,
    ];
    assert_eq!(zset2zvec(zset), zvec);
}

#[test]
fn zvec2zset_none() {
    let zset: u32 = 0b00000000_00000000_00000000_00000000;
    let zvec: Vec<u8> = vec![];
    assert_eq!(zvec2zset(zvec), zset);
}

#[test]
fn zvec2zset_0_1_2() {
    let zset: u32 = 0b11100000_00000000_00000000_00000000;
    let zvec: Vec<u8> = vec![0, 1, 2];
    assert_eq!(zvec2zset(zvec), zset);
}

#[test]
fn zvec2zset_all() {
    let zset: u32 = 0b11111111_11111111_11111111_11111111;
    let zvec: Vec<u8> = vec![
        0, 1, 2, 3, 4, 5, 6, 7, 8, 9, 10, 11, 12, 13, 14, 15, 16, 17, 18, 19, 20, 21, 22, 23, 24,
        25, 26, 27, 28, 29, 30, 31,
    ];
    assert_eq!(zvec2zset(zvec), zset);
}

#[test]
fn zvec2zset_0_1_2_3_4_5_6_7() {
    let zset: u32 = 0b11111111_00000000_00000000_00000000;
    let zvec: Vec<u8> = vec![0, 1, 2, 3, 4, 5, 6, 7];
    let zset_from_zvec = zvec2zset(zvec);
    assert_eq!(zset_from_zvec, zset);
}

#[test]
fn zoom_set_round_trip() {
    for zset in [0u32, 1, 0x8000_0001, 0xdead_beef, u32::MAX, 0x0f0f_0f0f] {
        assert_eq!(zvec2zset(zset2zvec(zset)), zset);
    }
    // repeats and order do not matter to the set
    assert_eq!(zvec2zset(vec![7, 3, 7, 0]), zvec2zset(vec![0, 3, 7]));
    assert_eq!(zset2zvec(zvec2zset(vec![7, 3, 7, 0])), vec![0, 3, 7]);
}

#[test]
fn zoom_or_zooms_as_a_set() {
    assert_eq!(zoom_or_zooms_to_zset(ZoomOrZooms::Zoom(0)), 0x8000_0000);
    assert_eq!(zoom_or_zooms_to_zset(ZoomOrZooms::Zoom(31)), 1);
    assert_eq!(zoom_or_zooms_to_zset(ZoomOrZooms::Zooms(vec![0, 1, 2])), 0xe000_0000);
    assert_eq!(as_zooms(ZoomOrZooms::Zoom(5)), vec![5]);
    assert_eq!(ZoomsSet(7).0, 7);
}

#[test]
fn zoom_ranges() {
    assert_eq!(ZoomRange::default(), ZoomRange { minz: 0, maxz: 32 });
    assert_eq!(ZoomRange::new(2, 9), ZoomRange { minz: 2, maxz: 9 });
    assert_eq!(ZoomRange::from_max(9), ZoomRange { minz: 0, maxz: 9 });
    assert_eq!(ZoomRange::from_min(2), ZoomRange { minz: 2, maxz: 32 });
}

#[test]
fn zooms_or_int_become_zoom_or_zooms() {
    assert_eq!(as_zooms(ZoomOrZooms::from(ZoomsOrInt::Int(3))), vec![3]);
    assert_eq!(as_zooms(ZoomOrZooms::from(ZoomsOrInt::Zooms(vec![4, 2]))), vec![4, 2]);
}

#[test]
fn decoded_zoom_list_is_sorted_without_duplicates() {
    let zset = zvec2zset(vec![5, 1, 5, 0, 31, 1]);
    assert_eq!(zset2zvec(zset), vec![0, 1, 5, 31]);
}
