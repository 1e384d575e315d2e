//! How an insert into the tiles table treats rows that are already there.
use vstd::prelude::*;
use vstd::string::StringExecFns;

verus! {

broadcast use vstd::string::group_string_axioms;

/// The conflict clause of an SQLite `INSERT`.
#[derive(Debug, Clone, Copy, PartialEq, Eq, Structural)]
pub enum InsertStrategy {
    /// No conflict clause: a plain `INSERT`.
    Plain,
    Replace,
    Ignore,
    Rollback,
    Abort,
    Fail,
}

impl Default for InsertStrategy {
    fn default() -> (r: Self)
        ensures
            r == InsertStrategy::Plain,
    {
        InsertStrategy::Plain
    }
}

/// The statement head for each strategy: `INSERT`, or `INSERT OR <clause>`.
pub open spec fn insert_prefix(s: InsertStrategy) -> Seq<char> {
    match s {
        InsertStrategy::Plain => "INSERT"@,
        InsertStrategy::Replace => "INSERT OR REPLACE"@,
        InsertStrategy::Ignore => "INSERT OR IGNORE"@,
        InsertStrategy::Rollback => "INSERT OR ROLLBACK"@,
        InsertStrategy::Abort => "INSERT OR ABORT"@,
        InsertStrategy::Fail => "INSERT OR FAIL"@,
    }
}

/// What follows the head in the statement that inserts one tile row.
pub const INSERT_TILES_TAIL: &'static str =
    " INTO tiles (zoom_level, tile_column, tile_row, tile_data) VALUES (?1, ?2, ?3, ?4)";

impl InsertStrategy {
    /// The statement head for this strategy.
    pub fn sql_prefix(&self) -> (r: &'static str)
        ensures
            r@ == insert_prefix(*self),
    {
        match self {
            InsertStrategy::Plain => "INSERT",
            InsertStrategy::Replace => "INSERT OR REPLACE",
            InsertStrategy::Ignore => "INSERT OR IGNORE",
            InsertStrategy::Rollback => "INSERT OR ROLLBACK",
            InsertStrategy::Abort => "INSERT OR ABORT",
            InsertStrategy::Fail => "INSERT OR FAIL",
        }
    }

    /// The statement head for this strategy.
    pub fn to_sql_prefix(&self) -> (r: &'static str)
        ensures
            r@ == insert_prefix(*self),
    {
        self.sql_prefix()
    }
}

/// The statement that inserts one row `(zoom_level, tile_column, tile_row,
/// tile_data)` into the tiles table; no strategy means a plain `INSERT`.
pub fn insert_tiles_statement(strategy: Option<InsertStrategy>) -> (r: String)
    ensures
        r@ == insert_prefix(
            match strategy {
                Some(s) => s,
                None => InsertStrategy::Plain,
            },
        ) + INSERT_TILES_TAIL@,
{
    let s = match strategy {
        Some(s) => s,
        None => InsertStrategy::default(),
    };
    let mut stmt = String::from_str(s.sql_prefix());
    stmt.append(INSERT_TILES_TAIL);
    stmt
}

} // verus!
