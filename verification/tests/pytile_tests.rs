use utiles::pytile::{CompareOp, PyTile, SliceOrInt, TupleSliceResult};
use utiles::tile::Tile;

#[test]
fn pytile_test_pytile_macro() {
    let tile = PyTile { xyz: Tile::new(0, 0, 0) };
    assert_eq!(tile.xyz.x, 0);
    assert_eq!(tile.xyz.y, 0);
    assert_eq!(tile.xyz.z, 0);
}

#[test]
fn pytile_members_and_indexing() {
    let t = PyTile::new(486, 332, 10);
    assert_eq!(t.__len__(), 3);
    assert_eq!(t.members(), vec![486, 332, 10]);
    assert_eq!(t.__getitem__(SliceOrInt::Int(0)), Some(TupleSliceResult::It(486)));
    assert_eq!(t.__getitem__(SliceOrInt::Int(1)), Some(TupleSliceResult::It(332)));
    assert_eq!(t.__getitem__(SliceOrInt::Int(2)), Some(TupleSliceResult::It(10)));
    assert_eq!(t.__getitem__(SliceOrInt::Int(-1)), Some(TupleSliceResult::It(10)));
    assert_eq!(t.__getitem__(SliceOrInt::Int(-2)), Some(TupleSliceResult::It(332)));
    assert_eq!(t.__getitem__(SliceOrInt::Int(-3)), Some(TupleSliceResult::It(486)));
    assert_eq!(t.__getitem__(SliceOrInt::Int(3)), None);
    assert_eq!(
        t.__getitem__(SliceOrInt::Slice(0, 3, 1)),
        Some(TupleSliceResult::Slice(vec![486, 332, 10]))
    );
    assert_eq!(
        t.__getitem__(SliceOrInt::Slice(0, 3, 2)),
        Some(TupleSliceResult::Slice(vec![486, 10]))
    );
    assert_eq!(
        t.__getitem__(SliceOrInt::Slice(1, 3, 1)),
        Some(TupleSliceResult::Slice(vec![332, 10]))
    );
    assert_eq!(t.__getitem__(SliceOrInt::Slice(2, 2, 1)), Some(TupleSliceResult::Slice(vec![])));
    assert_eq!(t.getitem_slice(0, 3, 5), vec![486]);
    assert_eq!(t.getitem_int(1), Some(332));
}

#[test]
fn pytile_text_forms() {
    let t = PyTile::new(486, 332, 10);
    assert_eq!(t.__repr__(), "Tile(x=486, y=332, z=10)");
    assert_eq!(t.__str__(), "Tile(x=486, y=332, z=10)");
    assert_eq!(t.json_arr(), "[486, 332, 10]");
    assert_eq!(t.fmt_zxy(), "10/486/332");
    assert_eq!(t.fmt_zxy_ext("png"), "10/486/332.png");
    assert_eq!(t.quadkey(), "0313102310");
    assert_eq!(t.qk(), "0313102310");
}

#[test]
fn pytile_comparisons() {
    let t = PyTile::new(1, 2, 3);
    assert_eq!(t.__richcmp__(Some((2, 3, 4)), CompareOp::Lt), Some(true));
    assert_eq!(t.__richcmp__(Some((2, 1, 4)), CompareOp::Lt), Some(false));
    assert_eq!(t.__richcmp__(Some((1, 2, 3)), CompareOp::Lt), Some(false));
    assert_eq!(t.__richcmp__(Some((1, 2, 3)), CompareOp::Le), Some(true));
    assert_eq!(t.__richcmp__(Some((1, 1, 3)), CompareOp::Le), Some(false));
    assert_eq!(t.__richcmp__(Some((0, 1, 2)), CompareOp::Gt), Some(true));
    assert_eq!(t.__richcmp__(Some((0, 2, 2)), CompareOp::Gt), Some(false));
    assert_eq!(t.__richcmp__(Some((1, 2, 3)), CompareOp::Ge), Some(true));
    assert_eq!(t.__richcmp__(Some((1, 3, 3)), CompareOp::Ge), Some(false));
    assert_eq!(t.__richcmp__(Some((1, 2, 3)), CompareOp::Eq), Some(true));
    assert_eq!(t.__richcmp__(Some((1, 2, 4)), CompareOp::Eq), Some(false));
    assert_eq!(t.__richcmp__(Some((1, 2, 4)), CompareOp::Ne), Some(true));
    assert_eq!(t.__richcmp__(Some((1, 2, 3)), CompareOp::Ne), Some(false));
    assert_eq!(t.__richcmp__(None, CompareOp::Eq), Some(false));
    assert_eq!(t.__richcmp__(None, CompareOp::Ne), Some(true));
    assert_eq!(t.__richcmp__(None, CompareOp::Lt), None);
    assert_eq!(t.__richcmp__(None, CompareOp::Ge), None);
    assert!(t.__eq__(&PyTile::new(1, 2, 3)));
    assert!(!t.__eq__(&PyTile::new(1, 2, 4)));
}

#[test]
fn pytile_relations() {
    let t = PyTile::new(486, 332, 10);
    assert_eq!(t.parent(None), PyTile::new(243, 166, 9));
    assert_eq!(t.children(None).len(), 4);
    assert_eq!(t.children(None)[0], PyTile::new(972, 664, 11));
    assert_eq!(
        t.siblings(),
        vec![PyTile::new(487, 332, 10), PyTile::new(486, 333, 10), PyTile::new(487, 333, 10)]
    );
    assert_eq!(t.neighbors().len(), 8);
    assert_eq!(t.tuple(), (486, 332, 10));
    assert_eq!(t.x(), 486);
    assert_eq!(t.y(), 332);
    assert_eq!(t.z(), 10);
    assert!(t.valid());
    assert!(!PyTile::new(1024, 0, 10).valid());
}

#[test]
fn pytile_flip_and_ids() {
    let t = PyTile::new(486, 332, 10);
    assert_eq!(t.flipy(), PyTile::new(486, 691, 10));
    assert_eq!(t.__invert__().__invert__(), t);
    let p = PyTile::new(3423, 1763, 12);
    assert_eq!(p.pmtileid(), 19078479);
    assert_eq!(PyTile::from_pmtileid(19078479), p);
    assert_eq!(p.parent_pmtileid(), p.parent(None).pmtileid());
}

#[test]
fn pytile_conversions() {
    let t = Tile::new(1, 2, 3);
    assert_eq!(PyTile::from(t), PyTile::new(1, 2, 3));
    assert_eq!(Tile::from(PyTile::new(1, 2, 3)), t);
    assert_eq!(PyTile::from((1u32, 2u32, 3u8)), PyTile::new(1, 2, 3));
    assert_eq!(PyTile::from((1u32, 2u32, 3u32)), PyTile::new(1, 2, 3));
    assert_eq!(PyTile::from((1u32, 2u32, 259u32)), PyTile::new(1, 2, 3));
}
