//! Deciding whether a SQLite database is an MBTiles file, one database
//! answer at a time.
use vstd::prelude::*;

verus! {

/// What the check does next: ask the database one more question, or give
/// its answer.
#[derive(Debug, Clone, Copy, PartialEq, Eq, Structural)]
pub enum IsMbtilesStep {
    /// Ask whether the `tiles` table or view is empty.
    AskTilesIsEmpty,
    /// Ask whether an index covers `zoom_level`, `tile_column`, `tile_row`.
    AskZoomRowColIndex,
    /// The database is (`true`) or is not (`false`) an MBTiles file.
    Answer(bool),
}

/// The next step of the check, given the answers so far: both the
/// `metadata` and the `tiles` table (or view) must exist, `tiles` must hold
/// a row, and an index must cover zoom, column and row. A question is asked
/// only when the answers before it leave the verdict open.
pub fn is_mbtiles_next(
    has_metadata: bool,
    has_tiles: bool,
    tiles_is_empty: Option<bool>,
    has_zoom_row_col_index: Option<bool>,
) -> (r: IsMbtilesStep)
    ensures
        !(has_metadata && has_tiles) ==> r == IsMbtilesStep::Answer(false),
        has_metadata && has_tiles ==> match tiles_is_empty {
            None => r == IsMbtilesStep::AskTilesIsEmpty,
            Some(true) => r == IsMbtilesStep::Answer(false),
            Some(false) => match has_zoom_row_col_index {
                None => r == IsMbtilesStep::AskZoomRowColIndex,
                Some(b) => r == IsMbtilesStep::Answer(b),
            },
        },
{
    if !has_metadata || !has_tiles {
        return IsMbtilesStep::Answer(false);
    }
    match tiles_is_empty {
        None => IsMbtilesStep::AskTilesIsEmpty,
        Some(true) => IsMbtilesStep::Answer(false),
        Some(false) => match has_zoom_row_col_index {
            None => IsMbtilesStep::AskZoomRowColIndex,
            Some(b) => IsMbtilesStep::Answer(b),
        },
    }
}

} // verus!
