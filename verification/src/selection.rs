//! Moving the selection through the result list and choosing which rows to
//! render and where the list starts.
use vstd::prelude::*;

verus! {

/// The rank `offset` rows away from `selected_rank`, kept inside a list of
/// `item_count` rows (a rank past the end counts as the last row); zero for
/// an empty list.
pub open spec fn moved_rank(selected_rank: int, item_count: int, offset: int) -> int {
    if item_count <= 0 {
        0
    } else {
        let current = if selected_rank < item_count - 1 { selected_rank } else { item_count - 1 };
        let target = current + offset;
        if target < 0 {
            0
        } else if target > item_count - 1 {
            item_count - 1
        } else {
            target
        }
    }
}

/// `move_selection`: moves the selection by `offset` rows, clamped to the list.
pub fn move_selection(selected_rank: usize, item_count: usize, offset: isize) -> (r: usize)
    requires
        item_count <= isize::MAX,
        item_count > 0 ==> (if selected_rank < item_count - 1 {
            selected_rank as int
        } else {
            item_count - 1
        }) + offset <= isize::MAX,
    ensures
        r == moved_rank(selected_rank as int, item_count as int, offset as int),
        item_count > 0 ==> r < item_count,
{
    if item_count == 0 {
        return 0;
    }
    let last = item_count - 1;
    let current: isize = if selected_rank < last {
        selected_rank as isize
    } else {
        last as isize
    };
    let target = current + offset;
    if target < 0 {
        0
    } else if target > last as isize {
        last
    } else {
        target as usize
    }
}

/// The rows rendered while the list expands: from `start` (kept inside the
/// list) the visible rows and one more, never past the end; none for an
/// empty list.
pub open spec fn render_range(start: int, total_rows: int, visible_rows: int) -> (int, int) {
    if total_rows <= 0 {
        (0, 0)
    } else {
        let s = if start < total_rows - 1 { start } else { total_rows - 1 };
        let rows = if visible_rows + 1 > 1 { visible_rows + 1 } else { 1 };
        let e = if s + rows < total_rows { s + rows } else { total_rows };
        (s, e)
    }
}

/// `expansion_render_range`: see `render_range`.
pub fn expansion_render_range(start: usize, total_rows: usize, visible_rows: usize) -> (r:
    std::ops::Range<usize>)
    ensures
        (r.start as int, r.end as int) == render_range(
            start as int,
            total_rows as int,
            visible_rows as int,
        ),
        r.start <= r.end <= total_rows,
{
    if total_rows == 0 {
        return 0..0;
    }
    let s = if start < total_rows - 1 {
        start
    } else {
        total_rows - 1
    };
    let rows = if visible_rows == usize::MAX {
        usize::MAX
    } else {
        visible_rows + 1
    };
    let rows = if rows > 1 {
        rows
    } else {
        1
    };
    let e = if rows < total_rows - s {
        s + rows
    } else {
        total_rows
    };
    s..e
}

/// The first rendered row that keeps the selection in view: the previous
/// start, clamped so the window of `visible_rows` rows stays inside the list,
/// moved up to the selection or down just far enough to show it.
pub open spec fn start_for_selection(
    selected_rank: int,
    previous_start: int,
    total_rows: int,
    visible_rows: int,
) -> int {
    if total_rows <= 0 {
        0
    } else {
        let window = if visible_rows > 1 { visible_rows } else { 1 };
        let max_start = if total_rows > window { total_rows - window } else { 0 };
        let start = if previous_start < max_start { previous_start } else { max_start };
        let moved = if selected_rank < start {
            selected_rank
        } else if selected_rank >= start + visible_rows {
            let back = if visible_rows > 1 { visible_rows - 1 } else { 0 };
            if selected_rank > back { selected_rank - back } else { 0 }
        } else {
            start
        };
        if moved < max_start { moved } else { max_start }
    }
}

/// `scroll_start_for_selection`: see `start_for_selection`.
pub fn scroll_start_for_selection(
    selected_rank: usize,
    previous_start: usize,
    total_rows: usize,
    visible_rows: usize,
) -> (r: usize)
    ensures
        r == start_for_selection(
            selected_rank as int,
            previous_start as int,
            total_rows as int,
            visible_rows as int,
        ),
        total_rows > 0 ==> r < total_rows,
{
    if total_rows == 0 {
        return 0;
    }
    let window = if visible_rows > 1 {
        visible_rows
    } else {
        1
    };
    let max_start = if total_rows > window {
        total_rows - window
    } else {
        0
    };
    let mut start = if previous_start < max_start {
        previous_start
    } else {
        max_start
    };
    if selected_rank < start {
        start = selected_rank;
    } else if selected_rank >= start + visible_rows {
        let back = if visible_rows > 1 {
            visible_rows - 1
        } else {
            0
        };
        start = if selected_rank > back {
            selected_rank - back
        } else {
            0
        };
    }
    if start < max_start {
        start
    } else {
        max_start
    }
}

/// Every rank `move_selection` gives for a non-empty list is a row of it,
/// and moving by zero from a row stays on it.
pub proof fn lemma_moved_rank_in_list(selected_rank: int, item_count: int, offset: int)
    requires
        item_count > 0,
    ensures
        0 <= moved_rank(selected_rank, item_count, offset) < item_count,
        0 <= selected_rank < item_count ==> moved_rank(selected_rank, item_count, 0)
            == selected_rank,
{
}

/// Moving a selection that lies in the list by `offset` rows lands exactly
/// `offset` rows away whenever that row is in the list (one row up from
/// rank `s > 0` is `s - 1`, one row down from `s < n - 1` is `s + 1`); a
/// move past the top stops on the first row, and one past the bottom on
/// the last. A rank past the end moves as the last row does.
pub proof fn lemma_move_lands_offset_away(selected_rank: int, item_count: int, offset: int)
    requires
        0 <= selected_rank < item_count,
    ensures
        forall|beyond: int| beyond >= item_count ==> #[trigger] moved_rank(beyond, item_count, offset)
            == moved_rank(item_count - 1, item_count, offset),
        0 <= selected_rank + offset < item_count ==> moved_rank(selected_rank, item_count, offset)
            == selected_rank + offset,
        selected_rank + offset < 0 ==> moved_rank(selected_rank, item_count, offset) == 0,
        selected_rank + offset >= item_count ==> moved_rank(selected_rank, item_count, offset)
            == item_count - 1,
{
}

/// A selection inside the list is shown by the window that
/// `scroll_start_for_selection` picks whenever that window fits in the list.
pub proof fn lemma_start_keeps_selection_visible(
    selected_rank: int,
    previous_start: int,
    total_rows: int,
    visible_rows: int,
)
    requires
        0 <= selected_rank < total_rows,
        0 <= previous_start,
        1 <= visible_rows <= total_rows,
    ensures
        start_for_selection(selected_rank, previous_start, total_rows, visible_rows)
            <= selected_rank < start_for_selection(
            selected_rank,
            previous_start,
            total_rows,
            visible_rows,
        ) + visible_rows,
{
}

} // verus!
