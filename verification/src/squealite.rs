//! Rows of SQLite's `PRAGMA` reports, and what the library reads from them.
use vstd::prelude::*;
use vstd::string::StringExecFns;

verus! {

broadcast use vstd::string::group_string_axioms;

/// A row of `PRAGMA database_list`.
#[derive(Debug)]
pub struct PragmaDatabaseListRow {
    pub seq: i64,
    pub name: String,
    pub file: String,
}

/// A row of `PRAGMA index_list(table)`.
#[derive(Debug)]
pub struct PragmaIndexListRow {
    pub seq: i64,
    pub name: String,
    pub unique: bool,
    pub origin: String,
    pub partial: bool,
}

/// A row of `PRAGMA index_info(index)`.
#[derive(Debug)]
pub struct PragmaIndexInfoRow {
    pub seqno: i64,
    pub cid: i64,
    pub name: String,
}

/// The file of the first listed database named `main`, if any.
pub open spec fn main_file_of(rows: Seq<PragmaDatabaseListRow>) -> Option<Seq<char>>
    decreases rows.len(),
{
    if rows.len() == 0 {
        None
    } else if rows[0].name@ == "main"@ {
        Some(rows[0].file@)
    } else {
        main_file_of(rows.drop_first())
    }
}

/// The file that holds the main database, from the rows of
/// `PRAGMA database_list`.
pub fn main_db_file(rows: &Vec<PragmaDatabaseListRow>) -> (r: Option<String>)
    ensures
        match r {
            Some(f) => main_file_of(rows@) == Some(f@),
            None => main_file_of(rows@) is None,
        },
{
    let main = String::from_str("main");
    let mut i: usize = 0;
    assert(rows@.skip(0) =~= rows@);
    while i < rows.len()
        invariant
            i <= rows@.len(),
            main@ == "main"@,
            main_file_of(rows@) == main_file_of(rows@.skip(i as int)),
        decreases rows.len() - i,
    {
        let ghost rest = rows@.skip(i as int);
        assert(rest[0] == rows@[i as int]);
        assert(rest.drop_first() =~= rows@.skip(i + 1));
        if rows[i].name == main {
            return Some(rows[i].file.clone());
        }
        i = i + 1;
    }
    assert(rows@.skip(i as int).len() == 0);
    None
}

/// The row names one of the tile-key columns `zoom_level`, `tile_column`,
/// `tile_row`.
pub open spec fn is_tile_key_column(row: PragmaIndexInfoRow) -> bool {
    row.name@ == "zoom_level"@ || row.name@ == "tile_column"@ || row.name@ == "tile_row"@
}

/// How many of the rows name a tile-key column.
pub open spec fn tile_key_count(rows: Seq<PragmaIndexInfoRow>) -> nat
    decreases rows.len(),
{
    if rows.len() == 0 {
        0
    } else {
        tile_key_count(rows.drop_last()) + if is_tile_key_column(rows.last()) {
            1nat
        } else {
            0nat
        }
    }
}

/// Whether an index, given by the rows of `PRAGMA index_info`, covers the
/// tile key: exactly three of its columns are tile-key columns.
pub fn index_covers_zxy(info: &Vec<PragmaIndexInfoRow>) -> (r: bool)
    ensures
        r == (tile_key_count(info@) == 3),
{
    let zoom_level = String::from_str("zoom_level");
    let tile_column = String::from_str("tile_column");
    let tile_row = String::from_str("tile_row");
    let mut count: usize = 0;
    let mut i: usize = 0;
    assert(info@.take(0) =~= Seq::<PragmaIndexInfoRow>::empty());
    while i < info.len()
        invariant
            i <= info@.len(),
            zoom_level@ == "zoom_level"@,
            tile_column@ == "tile_column"@,
            tile_row@ == "tile_row"@,
            count == tile_key_count(info@.take(i as int)),
            count <= i,
        decreases info.len() - i,
    {
        let ghost pre = info@.take(i as int);
        let ghost post = info@.take(i + 1);
        assert(post.drop_last() =~= pre);
        let name = &info[i].name;
        if *name == zoom_level || *name == tile_column || *name == tile_row {
            count = count + 1;
        }
        i = i + 1;
    }
    assert(info@.take(info@.len() as int) =~= info@);
    count == 3
}

} // verus!
