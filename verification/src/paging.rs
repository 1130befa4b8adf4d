//! Listings in pages: a part of a list, chosen by an offset and a limit,
//! and the offset at which the next part starts.

use vstd::prelude::*;

verus! {

/// Where the page at `offset` starts in a list of `len` items.
pub open spec fn page_start(len: int, offset: i64) -> int {
    if offset <= 0 {
        0
    } else if offset >= len {
        len
    } else {
        offset as int
    }
}

/// Where the page of at most `limit` items at `offset` ends in a list of
/// `len` items.
pub open spec fn page_end(len: int, offset: i64, limit: i64) -> int {
    let start = page_start(len, offset);
    if limit <= 0 {
        start
    } else if start + limit >= len {
        len
    } else {
        start + limit
    }
}

/// The page of at most `limit` items at `offset`.
pub open spec fn page_of<T>(items: Seq<T>, offset: i64, limit: i64) -> Seq<T> {
    items.subrange(
        page_start(items.len() as int, offset),
        page_end(items.len() as int, offset, limit),
    )
}

/// The offset of the page that follows a page of `taken` items at `offset`:
/// none after an empty page.
pub open spec fn next_after(offset: i64, taken: int) -> Option<i64> {
    if taken == 0 {
        None
    } else if offset + taken > i64::MAX {
        Some(i64::MAX)
    } else {
        Some((offset + taken) as i64)
    }
}

/// The bounds of a page.
#[derive(Clone, Copy, Debug, PartialEq, Eq, Structural)]
pub struct PageBounds {
    pub start: usize,
    pub end: usize,
    pub next: Option<i64>,
}

/// The bounds of the page of at most `limit` items at `offset` in a list of
/// `len` items.
pub fn page_bounds(len: usize, offset: i64, limit: i64) -> (r: PageBounds)
    ensures
        r.start == page_start(len as int, offset),
        r.end == page_end(len as int, offset, limit),
        r.start <= r.end <= len,
        r.next == next_after(offset, r.end - r.start),
{
    let start: usize = if offset <= 0 {
        0
    } else if offset as u64 as u128 >= len as u128 {
        len
    } else {
        offset as usize
    };
    let end: usize = if limit <= 0 {
        start
    } else if start as u128 + limit as u128 >= len as u128 {
        len
    } else {
        start + limit as usize
    };
    let taken: usize = end - start;
    let next = if taken == 0 {
        None
    } else {
        let sum: i128 = offset as i128 + taken as i128;
        if sum > i64::MAX as i128 {
            Some(i64::MAX)
        } else {
            Some(sum as i64)
        }
    };
    PageBounds { start, end, next }
}

} // verus!
