//! The viewport: which slice of a list is shown on a screen of a given
//! height so that the row of the cursor stands in the middle.

use vstd::prelude::*;

verus! {

/// The slice of a list to show: `leading_blank_rows` empty rows, then `take`
/// items of the list from item `skip` on.
#[derive(Clone, Copy, Debug, PartialEq, Eq, Structural)]
pub struct Window {
    pub skip: usize,
    pub take: usize,
    pub leading_blank_rows: usize,
}

/// The rows left empty above the list: as many as the cursor is short of the
/// middle row.
pub open spec fn leading_rows(total_rows: int, cursor: int) -> int {
    if cursor < total_rows / 2 {
        total_rows / 2 - cursor
    } else {
        0
    }
}

/// The items passed over: as many as the cursor is beyond the middle row.
pub open spec fn skipped_items(total_rows: int, cursor: int) -> int {
    if cursor >= total_rows / 2 {
        cursor - total_rows / 2
    } else {
        0
    }
}

/// The items shown: as many as there are rows below the empty ones, or as
/// there are items left.
pub open spec fn shown_items(total_rows: int, cursor: int, item_count: int) -> int {
    let rows = total_rows - leading_rows(total_rows, cursor);
    let left = item_count - skipped_items(total_rows, cursor);
    if left <= 0 {
        0
    } else if left < rows {
        left
    } else {
        rows
    }
}

/// The window on a list of `item_count` items for a screen of `total_rows`
/// rows and the cursor on item `cursor`.
pub fn window(total_rows: usize, cursor: usize, item_count: usize) -> (w: Window)
    ensures
        w.leading_blank_rows == leading_rows(total_rows as int, cursor as int),
        w.skip == skipped_items(total_rows as int, cursor as int),
        w.take == shown_items(total_rows as int, cursor as int, item_count as int),
{
    let middle = total_rows / 2;
    let leading_blank_rows = if cursor < middle {
        middle - cursor
    } else {
        0
    };
    let skip = if cursor >= middle {
        cursor - middle
    } else {
        0
    };
    let rows = total_rows - leading_blank_rows;
    let take = if item_count <= skip {
        0
    } else if item_count - skip < rows {
        item_count - skip
    } else {
        rows
    };
    Window { skip, take, leading_blank_rows }
}

/// The window fits the screen and the list, and wherever the cursor is on an
/// item and the screen has a row, that item is shown in the middle row.
pub proof fn lemma_window_centers_cursor(total_rows: nat, cursor: nat, item_count: nat)
    ensures
        leading_rows(total_rows as int, cursor as int) + shown_items(
            total_rows as int,
            cursor as int,
            item_count as int,
        ) <= total_rows,
        shown_items(total_rows as int, cursor as int, item_count as int) > 0 ==> skipped_items(
            total_rows as int,
            cursor as int,
        ) + shown_items(total_rows as int, cursor as int, item_count as int) <= item_count,
        leading_rows(total_rows as int, cursor as int) == 0 || skipped_items(
            total_rows as int,
            cursor as int,
        ) == 0,
        cursor < item_count && total_rows > 0 ==> {
            let skip = skipped_items(total_rows as int, cursor as int);
            let take = shown_items(total_rows as int, cursor as int, item_count as int);
            &&& skip <= cursor < skip + take
            &&& leading_rows(total_rows as int, cursor as int) + (cursor - skip) == total_rows / 2
        },
{
}

} // verus!
