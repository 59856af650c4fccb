//! Copies of parts of vectors.

use vstd::prelude::*;

verus! {

/// A copy of the items from `start` to `end`.
pub fn copy_range<T: Copy>(items: &Vec<T>, start: usize, end: usize) -> (copy: Vec<T>)
    requires
        start <= end <= items@.len(),
    ensures
        copy@ == items@.subrange(start as int, end as int),
{
    let mut copy: Vec<T> = Vec::new();
    let mut i: usize = start;
    while i < end
        invariant
            start <= i <= end <= items@.len(),
            copy@ == items@.subrange(start as int, i as int),
        decreases end - i,
    {
        copy.push(items[i]);
        i = i + 1;
    }
    copy
}

/// A copy of the items.
pub fn copy_all<T: Copy>(items: &Vec<T>) -> (copy: Vec<T>)
    ensures
        copy@ == items@,
{
    copy_range(items, 0, items.len())
}

/// Appends the items.
pub fn append_all<T: Copy>(buffer: &mut Vec<T>, items: &Vec<T>)
    ensures
        final(buffer)@ == old(buffer)@ + items@,
{
    let ghost before = buffer@;
    let mut i: usize = 0;
    while i < items.len()
        invariant
            i <= items@.len(),
            buffer@ == before + items@.take(i as int),
        decreases items@.len() - i,
    {
        buffer.push(items[i]);
        i = i + 1;
    }
}

} // verus!
