use utiles::errors::UtilesError;
use utiles::pyfns::{py_children, py_minmax, py_neighbors, py_parent};
use utiles::tile::Tile;

#[test]
fn python_minmax() {
    assert_eq!(py_minmax(0), Ok((0, 0)));
    assert_eq!(py_minmax(4), Ok((0, 15)));
    assert_eq!(py_minmax(-1), Err(UtilesError::InvalidZoom));
    assert_eq!(py_minmax(33), Err(UtilesError::InvalidZoom));
}

#[test]
fn python_parent() {
    let t = Tile::new(486, 332, 10);
    assert_eq!(py_parent(t, None), Ok(Some(Tile::new(243, 166, 9))));
    assert_eq!(py_parent(t, Some(8)), Ok(Some(Tile::new(121, 83, 8))));
    assert_eq!(py_parent(t, Some(0)), Ok(Some(Tile::new(0, 0, 0))));
    assert_eq!(py_parent(t, Some(10)), Err(UtilesError::InvalidZoom));
    assert_eq!(py_parent(t, Some(12)), Err(UtilesError::InvalidZoom));
    assert_eq!(py_parent(Tile::new(0, 0, 0), None), Ok(None));
    assert_eq!(py_parent(Tile::new(0, 0, 0), Some(3)), Ok(None));
}

#[test]
fn python_children() {
    let t = Tile::new(1, 1, 1);
    assert_eq!(py_children(t, None).unwrap().len(), 4);
    assert_eq!(py_children(t, Some(3)).unwrap().len(), 16);
    assert_eq!(py_children(t, Some(1)), Ok(vec![t]));
    assert_eq!(py_children(t, Some(0)), Err(UtilesError::InvalidZoom));
}

#[test]
fn python_neighbors() {
    let t = Tile::new(3, 3, 3);
    assert_eq!(py_neighbors(t, None).unwrap().len(), 8);
    assert_eq!(py_neighbors(t, Some(5)).unwrap().len(), 8);
    assert_eq!(py_neighbors(t, Some(2)), Err(UtilesError::InvalidZoom));
}
