use utiles::errors::UtilesError;
use utiles::quadkey::{quadkey2tile, quadkey2xyz, xyz2quadkey};
use utiles::tile::Tile;

#[test]
fn quadkey_of_tiles() {
    assert_eq!(xyz2quadkey(486, 332, 10), "0313102310");
    assert_eq!(xyz2quadkey(0, 0, 0), "");
    assert_eq!(xyz2quadkey(1, 0, 1), "1");
    assert_eq!(xyz2quadkey(0, 1, 1), "2");
    assert_eq!(xyz2quadkey(1, 1, 1), "3");
    assert_eq!(Tile::new(486, 332, 10).quadkey(), "0313102310");
    assert_eq!(Tile::new(486, 332, 10).qk(), "0313102310");
}

#[test]
fn tiles_of_quadkeys() {
    assert_eq!(quadkey2xyz("0313102310"), Ok((486, 332, 10)));
    assert_eq!(quadkey2xyz(""), Ok((0, 0, 0)));
    assert_eq!(quadkey2tile("3"), Ok(Tile::new(1, 1, 1)));
    assert_eq!(Tile::from_quadkey("0313102310"), Ok(Tile::new(486, 332, 10)));
    assert_eq!(Tile::from_qk("0313102310"), Tile::new(486, 332, 10));
}

#[test]
fn bad_quadkey_characters() {
    assert_eq!(quadkey2xyz("0124"), Err(UtilesError::InvalidQuadkeyChar("Invalid quadkey char found".to_string())));
    assert_eq!(quadkey2tile("a"), Err(UtilesError::InvalidQuadkeyChar("Invalid quadkey char found".to_string())));
    assert_eq!(Tile::from_quadkey("03x"), Err(UtilesError::InvalidQuadkeyChar("Invalid quadkey char found".to_string())));
}

#[test]
fn quadkey_round_trip() {
    for z in 0..8u8 {
        for x in 0..(1u32 << z) {
            for y in 0..(1u32 << z) {
                let qk = xyz2quadkey(x, y, z);
                assert_eq!(qk.len(), z as usize);
                assert_eq!(quadkey2xyz(&qk), Ok((x, y, z)));
            }
        }
    }
}

#[test]
fn digit_strings_round_trip() {
    for q in ["", "0", "3", "0123", "3210", "2222", "1302301", "33333333333333333333333333333333"] {
        let (x, y, z) = quadkey2xyz(q).unwrap();
        assert_eq!(xyz2quadkey(x, y, z), q);
    }
}
