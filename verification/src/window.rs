//! The scroll window: maps an arbitrarily long entry list onto a fixed
//! number of terminal rows, reserving the last row for a summary footer
//! once the list no longer fits.

use vstd::prelude::*;

verus! {

/// The footer of an overfull viewport: it summarizes lines
/// `first ..= last` of `total`, counting lines from 1.
#[derive(Copy, Clone, Debug, PartialEq, Eq, Structural)]
pub struct Footer {
    pub first: usize,
    pub last: usize,
    pub total: usize,
}

/// Computes the visible index range `[r.0, r.1)` of a list of
/// `total_count` entries on a viewport of `viewport_rows` rows whose
/// first `header_rows` rows are taken by the header.
///
/// With `capacity = viewport_rows - header_rows`: a list that fits is
/// shown whole, from the top, with no footer.  A longer list shows the
/// `capacity - 1` entries from `scroll_offset` on — the last row is
/// reserved for the footer.  No clamping is done here: an out-of-range
/// offset yields a truncated or empty range, which is an accepted
/// degenerate output, not an error.
pub fn scroll_window(
    total_count: usize,
    viewport_rows: usize,
    header_rows: usize,
    scroll_offset: usize,
) -> (r: (usize, usize, Option<Footer>))
    requires
        header_rows < viewport_rows,
        scroll_offset + viewport_rows <= usize::MAX,
    ensures
        ({
            let capacity = viewport_rows - header_rows;
            &&& total_count <= capacity ==> r == (0usize, total_count, None::<Footer>)
            &&& total_count > capacity ==> {
                let stop = if scroll_offset + capacity - 1 <= total_count {
                    (scroll_offset + capacity - 1) as int
                } else {
                    total_count as int
                };
                &&& r.1 == stop
                &&& r.0 == (if scroll_offset <= stop { scroll_offset as int } else { stop })
                &&& r.2 == Some(
                    Footer {
                        first: (scroll_offset + 1) as usize,
                        last: (scroll_offset + capacity - 1) as usize,
                        total: total_count,
                    },
                )
            }
        }),
{
    let capacity = viewport_rows - header_rows;
    if total_count <= capacity {
        (0, total_count, None)
    } else {
        let raw_stop = scroll_offset + capacity - 1;
        let stop = if raw_stop <= total_count {
            raw_stop
        } else {
            total_count
        };
        let start = if scroll_offset <= stop {
            scroll_offset
        } else {
            stop
        };
        let footer = Footer { first: scroll_offset + 1, last: raw_stop, total: total_count };
        (start, stop, Some(footer))
    }
}

} // verus!
