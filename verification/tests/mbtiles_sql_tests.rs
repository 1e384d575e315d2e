use utiles::errors::UtilesError;
use utiles::hash_types::{mbt_agg_tile_hash_query, parse_hash_type, HashType};
use utiles::insert_strategy::{insert_tiles_statement, InsertStrategy};
use utiles::mbtstats::{summarize_zoom_stats, zoom_stats_row, MbtilesZoomStats};
use utiles::squealite::{index_covers_zxy, main_db_file, PragmaDatabaseListRow, PragmaIndexInfoRow};

#[test]
fn insert_prefixes() {
    assert_eq!(InsertStrategy::default(), InsertStrategy::Plain);
    assert_eq!(InsertStrategy::Plain.sql_prefix(), "INSERT");
    assert_eq!(InsertStrategy::Replace.sql_prefix(), "INSERT OR REPLACE");
    assert_eq!(InsertStrategy::Ignore.sql_prefix(), "INSERT OR IGNORE");
    assert_eq!(InsertStrategy::Rollback.to_sql_prefix(), "INSERT OR ROLLBACK");
    assert_eq!(InsertStrategy::Abort.to_sql_prefix(), "INSERT OR ABORT");
    assert_eq!(InsertStrategy::Fail.to_sql_prefix(), "INSERT OR FAIL");
}

#[test]
fn insert_statements() {
    assert_eq!(
        insert_tiles_statement(Some(InsertStrategy::Ignore)),
        "INSERT OR IGNORE INTO tiles (zoom_level, tile_column, tile_row, tile_data) VALUES (?1, ?2, ?3, ?4)"
    );
    assert_eq!(
        insert_tiles_statement(None),
        "INSERT INTO tiles (zoom_level, tile_column, tile_row, tile_data) VALUES (?1, ?2, ?3, ?4)"
    );
}

#[test]
fn hash_type_names() {
    assert_eq!(HashType::Md5.sqlite_fn_name(), "md5");
    assert_eq!(HashType::Xxh3_128.sqlite_fn_name(), "xxh3_128");
    assert_eq!(HashType::Fnv1a.sqlite_hex_fn_name(), "fnv1a_hex");
    assert_eq!(HashType::Xxh3_64.sqlite_hex_fn_name(), "xxh3_64_hex");
    assert_eq!(HashType::Xxh32.to_string(), "xxh32");
    assert_eq!(HashType::Xxh32.digest_size(), 4);
    assert_eq!(HashType::Md5.digest_size(), 16);
    assert_eq!(HashType::Xxh3_128.digest_size(), 16);
    assert_eq!(HashType::Fnv1a.digest_size(), 8);
    assert_eq!(HashType::Xxh64.digest_size(), 8);
    assert_eq!(HashType::Xxh3_64.digest_size(), 8);
}

#[test]
fn hash_type_parsing() {
    assert_eq!(parse_hash_type("md5"), Ok(HashType::Md5));
    assert_eq!(parse_hash_type("MD5"), Ok(HashType::Md5));
    assert_eq!(parse_hash_type("Fnv1A"), Ok(HashType::Fnv1a));
    assert_eq!(parse_hash_type("fnv1a64"), Ok(HashType::Fnv1a));
    assert_eq!(parse_hash_type("XXH3_64"), Ok(HashType::Xxh3_64));
    assert_eq!(parse_hash_type("xxh3_128"), Ok(HashType::Xxh3_128));
    assert_eq!("xxh64".parse::<HashType>(), Ok(HashType::Xxh64));
    assert_eq!(
        parse_hash_type("sha1"),
        Err(UtilesError::UnknownHashType("sha1".to_string()))
    );
    assert_eq!(parse_hash_type(""), Err(UtilesError::UnknownHashType(String::new())));
    for h in [
        HashType::Md5,
        HashType::Fnv1a,
        HashType::Xxh32,
        HashType::Xxh64,
        HashType::Xxh3_64,
        HashType::Xxh3_128,
    ] {
        assert_eq!(parse_hash_type(&h.to_string()), Ok(h));
        assert_eq!(parse_hash_type(&h.to_string().to_uppercase()), Ok(h));
    }
}

#[test]
fn aggregate_hash_query() {
    assert_eq!(
        mbt_agg_tile_hash_query(HashType::Md5),
        "SELECT coalesce(\n            md5_concat_hex(\n                cast(zoom_level AS text),\n                cast(tile_column AS text),\n                cast(tile_row AS text),\n                tile_data\n                ORDER BY zoom_level, tile_column, tile_row),\n            md5_hex(''))\n        FROM tiles"
    );
    assert!(mbt_agg_tile_hash_query(HashType::Xxh64).contains("xxh64_concat_hex("));
    assert!(mbt_agg_tile_hash_query(HashType::Xxh64).contains("xxh64_hex('')"));
}

#[test]
fn zoom_stats_rows_flip_rows() {
    let s = zoom_stats_row(3, 10, 1, 5, 2, 6);
    assert_eq!(
        s,
        MbtilesZoomStats { zoom: 3, ntiles: 10, xmin: 2, xmax: 6, ymin: 2, ymax: 6 }
    );
    let s = zoom_stats_row(0, 1, 0, 0, 0, 0);
    assert_eq!(s, MbtilesZoomStats { zoom: 0, ntiles: 1, xmin: 0, xmax: 0, ymin: 0, ymax: 0 });
}

#[test]
fn zoom_stats_summary() {
    let empty = summarize_zoom_stats(&vec![]);
    assert_eq!(empty.ntiles, 0);
    assert_eq!(empty.minzoom, None);
    assert_eq!(empty.maxzoom, None);
    assert_eq!(empty.nzooms, 0);
    let stats = vec![
        zoom_stats_row(4, 7, 0, 3, 0, 3),
        zoom_stats_row(2, 3, 0, 1, 0, 1),
        zoom_stats_row(9, 100, 0, 9, 0, 9),
    ];
    let s = summarize_zoom_stats(&stats);
    assert_eq!(s.ntiles, 110);
    assert_eq!(s.minzoom, Some(2));
    assert_eq!(s.maxzoom, Some(9));
    assert_eq!(s.nzooms, 3);
}

#[test]
fn main_database_file() {
    let rows = vec![
        PragmaDatabaseListRow { seq: 1, name: "temp".to_string(), file: String::new() },
        PragmaDatabaseListRow { seq: 0, name: "main".to_string(), file: "/data/a.mbtiles".to_string() },
        PragmaDatabaseListRow { seq: 2, name: "main".to_string(), file: "/data/b.mbtiles".to_string() },
    ];
    assert_eq!(main_db_file(&rows), Some("/data/a.mbtiles".to_string()));
    assert_eq!(main_db_file(&rows[..1].iter().map(|r| PragmaDatabaseListRow {
        seq: r.seq,
        name: r.name.clone(),
        file: r.file.clone(),
    }).collect()), None);
    assert_eq!(main_db_file(&vec![]), None);
}

fn info(names: &[&str]) -> Vec<PragmaIndexInfoRow> {
    names
        .iter()
        .enumerate()
        .map(|(i, n)| PragmaIndexInfoRow { seqno: i as i64, cid: i as i64, name: n.to_string() })
        .collect()
}

#[test]
fn tile_key_index() {
    assert!(index_covers_zxy(&info(&["zoom_level", "tile_column", "tile_row"])));
    assert!(index_covers_zxy(&info(&["tile_row", "zoom_level", "other", "tile_column"])));
    assert!(!index_covers_zxy(&info(&["zoom_level", "tile_column"])));
    assert!(!index_covers_zxy(&info(&["name"])));
    assert!(!index_covers_zxy(&info(&[])));
}
