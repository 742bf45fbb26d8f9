//! What the screen shows: the second header line, which rows of the list fit,
//! and the text in place of an empty list.

use vstd::prelude::*;

verus! {

/// The first row drawn for a list of `len` entries, `height` rows on screen,
/// with the selection at row `pos`: the whole list when it fits; otherwise the
/// selection is kept near the middle, without scrolling past either end.
pub open spec fn window_start(len: int, pos: int, height: int) -> int {
    if len <= height {
        0
    } else {
        let half = height / 2;
        if pos < half {
            0
        } else if pos + (height - half) >= len {
            len - height
        } else {
            pos - half
        }
    }
}

/// The rows `start..end` of a list of `len` entries that fit in `height` rows,
/// with the selection at row `pos`.
pub fn list_window(len: usize, pos: usize, height: usize) -> (res: (usize, usize))
    ensures
        res.0 == window_start(len as int, pos as int, height as int),
        res.1 == if res.0 + height <= len { res.0 + height } else { len as int },
{
    let start = if len <= height {
        0
    } else {
        let half = height / 2;
        if pos < half {
            0
        } else if pos >= len || len - pos <= height - half {
            len - height
        } else {
            pos - half
        }
    };
    let end = if len - start >= height {
        start + height
    } else {
        len
    };
    (start, end)
}

/// The selected row is always among the rows drawn, when there is room for one.
pub proof fn lemma_selection_on_screen(len: int, pos: int, height: int)
    requires
        0 <= pos < len,
        height > 0,
    ensures
        ({
            let start = window_start(len, pos, height);
            let end = if start + height <= len { start + height } else { len };
            &&& 0 <= start <= pos < end <= len
            &&& end - start == if height < len { height } else { len }
        }),
{
}

/// A list that fits is drawn whole; otherwise the window never reaches past
/// its end, starts at the top while the selection is in the upper half of the
/// screen, and ends at the bottom once the selection is near the end.
pub proof fn lemma_window_bounds(len: int, pos: int, height: int)
    requires
        0 <= pos < len,
        height > 0,
    ensures
        len <= height ==> window_start(len, pos, height) == 0,
        len > height ==> 0 <= window_start(len, pos, height) <= len - height,
        len > height && pos < height / 2 ==> window_start(len, pos, height) == 0,
        len > height && pos + (height - height / 2) >= len ==> window_start(len, pos, height) == len
            - height,
{
}

/// The line shown in place of an empty list.
pub fn empty_list_message(show_hidden: bool, search_query: &str) -> (res: &'static str)
    ensures
        show_hidden ==> res@ == "  (No hidden games)"@,
        !show_hidden && search_query@.len() > 0 ==> res@ == "  (No games matching search)"@,
        !show_hidden && search_query@.len() == 0 ==> res@ == "  (No games found)"@,
{
    if show_hidden {
        "  (No hidden games)"
    } else if !search_query.is_empty() {
        "  (No games matching search)"
    } else {
        "  (No games found)"
    }
}

/// What the second line of the header shows.
#[derive(Debug, Clone, Copy, PartialEq, Eq)]
pub enum HeaderLine {
    /// The query being typed, after "Search: ".
    Search,
    /// The query in force, after "Filtered: ".
    Filtered,
    /// "Showing Hidden Games".
    ShowingHidden,
    /// Nothing.
    Blank,
}

/// The second line of the header: the query while it is typed, else the query
/// in force, else a note that the hidden games are shown, else nothing.
pub fn header_line(searching: bool, search_query: &str, show_hidden: bool) -> (res: HeaderLine)
    ensures
        searching ==> res == HeaderLine::Search,
        !searching && search_query@.len() > 0 ==> res == HeaderLine::Filtered,
        !searching && search_query@.len() == 0 && show_hidden ==> res == HeaderLine::ShowingHidden,
        !searching && search_query@.len() == 0 && !show_hidden ==> res == HeaderLine::Blank,
{
    if searching {
        HeaderLine::Search
    } else if !search_query.is_empty() {
        HeaderLine::Filtered
    } else if show_hidden {
        HeaderLine::ShowingHidden
    } else {
        HeaderLine::Blank
    }
}

} // verus!
