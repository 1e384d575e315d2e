use utiles::dbpath::{pathlike2dbpath, DbFspath, DbPath, DbPathTrait};
use utiles::errors::UtilesError;

#[test]
fn dbpath_from_paths() {
    let d = DbPath::new("/data/tiles/osm.mbtiles");
    assert_eq!(d.fspath, "/data/tiles/osm.mbtiles");
    assert_eq!(d.filename, "osm.mbtiles");
    assert_eq!(d.to_string(), "/data/tiles/osm.mbtiles");
    assert_eq!(d.filepath(), "/data/tiles/osm.mbtiles");
    assert_eq!(d.filename(), "osm.mbtiles");
    let rel = DbPath::new("osm.mbtiles");
    assert_eq!(rel.filename, "osm.mbtiles");
    let dir = DbPath::new("/data/tiles/");
    assert_eq!(dir.filename, "tiles");
}

#[test]
fn dbpath_memory() {
    let m = DbPath::memory();
    assert_eq!(m.fspath, ":memory:");
    assert_eq!(m.filename, ":memory:");
}

#[test]
fn pathlike_paths() {
    let d = pathlike2dbpath("a/b/c.mbtiles").unwrap();
    assert_eq!(d.fspath, "a/b/c.mbtiles");
    assert_eq!(d.filename, "c.mbtiles");
    assert_eq!(
        pathlike2dbpath("/").unwrap_err(),
        UtilesError::InvalidFspath("pathlike2dbpath: invalid filename".to_string())
    );
    assert_eq!(
        pathlike2dbpath("a/..").unwrap_err(),
        UtilesError::InvalidFspath("pathlike2dbpath: invalid filename".to_string())
    );
    assert!(pathlike2dbpath("").is_err());
}

#[test]
fn db_fspaths() {
    let d = DbFspath::new("/x/y.sqlite");
    assert_eq!(d.fspath, "/x/y.sqlite");
    assert_eq!(d.filename, "y.sqlite");
    let e = DbFspath::from_path("..").unwrap_err();
    assert_eq!(e, UtilesError::InvalidFspath("DbFspath: invalid filename".to_string()));
    assert_eq!(DbFspath::from_path("z.db").unwrap().filename, "z.db");
}
