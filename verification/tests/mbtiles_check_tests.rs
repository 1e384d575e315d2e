use utiles::mbtiles_check::{is_mbtiles_next, IsMbtilesStep};

#[test]
fn is_mbtiles_asks_in_order() {
    assert_eq!(is_mbtiles_next(false, true, None, None), IsMbtilesStep::Answer(false));
    assert_eq!(is_mbtiles_next(true, false, None, None), IsMbtilesStep::Answer(false));
    assert_eq!(is_mbtiles_next(true, true, None, None), IsMbtilesStep::AskTilesIsEmpty);
    assert_eq!(is_mbtiles_next(true, true, Some(true), None), IsMbtilesStep::Answer(false));
    assert_eq!(is_mbtiles_next(true, true, Some(false), None), IsMbtilesStep::AskZoomRowColIndex);
    assert_eq!(is_mbtiles_next(true, true, Some(false), Some(true)), IsMbtilesStep::Answer(true));
    assert_eq!(is_mbtiles_next(true, true, Some(false), Some(false)), IsMbtilesStep::Answer(false));
}
