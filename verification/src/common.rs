//! How a contiguous range of leaves divides into its two children.
//!
//! Every part of the crate that partitions leaves goes through [`split_point`],
//! so that they all agree on the shape of the tree.

use core::ops::Range;
use vstd::prelude::*;

verus! {

/// The index at which the range `[start, end)` divides: the left child
/// `[start, split_point)` takes the larger half when the length is odd.
pub open spec fn split_point(start: int, end: int) -> int {
    start + (end - start + 1) / 2
}

/// The split cuts a range of `n` leaves into `ceil(n / 2)` on the left and
/// `floor(n / 2)` on the right; for `n > 1` both sides are non-empty.
pub proof fn lemma_split_point(start: int, end: int)
    requires
        start <= end,
    ensures
        start <= split_point(start, end) <= end,
        (split_point(start, end) - start) + (end - split_point(start, end)) == end - start,
        split_point(start, end) - start == (end - split_point(start, end)) + (end - start) % 2,
        end - split_point(start, end) == (end - start) / 2,
        end - start > 1 ==> start < split_point(start, end) < end,
{
}

/// Divides `a` into its left and right child.
pub fn split_range(a: Range<usize>) -> (children: (Range<usize>, Range<usize>))
    requires
        a.start <= a.end,
    ensures
        children.0.start == a.start,
        children.0.end == split_point(a.start as int, a.end as int),
        children.1.start == children.0.end,
        children.1.end == a.end,
        (children.0.end - children.0.start) + (children.1.end - children.1.start) == a.end
            - a.start,
        children.0.end - children.0.start == children.1.end - children.1.start
            || children.0.end - children.0.start == children.1.end - children.1.start + 1,
{
    let Range { start, end } = a;
    let len: usize = end - start;
    let mid: usize = start + (len / 2 + len % 2);
    (start..mid, mid..end)
}

/// Divides a slice as [`split_range`] divides its index range.
pub fn split_slice<T>(s: &[T]) -> (halves: (&[T], &[T]))
    ensures
        halves.0@ == s@.take(split_point(0, s.len() as int)),
        halves.1@ == s@.skip(split_point(0, s.len() as int)),
{
    let len: usize = s.len();
    s.split_at(len / 2 + len % 2)
}

/// [`split_range`] on ranges written as `(start, end)` pairs.
pub fn split_tuple_as_range(start: usize, end: usize) -> (children: (
    (usize, usize),
    (usize, usize),
))
    requires
        start <= end,
    ensures
        children.0.0 == start,
        children.0.1 == split_point(start as int, end as int),
        children.1.0 == children.0.1,
        children.1.1 == end,
{
    let (ra, rb) = split_range(Range { start, end });
    ((ra.start, ra.end), (rb.start, rb.end))
}

} // verus!
