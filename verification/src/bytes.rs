//! Small verified helpers for moving bytes between slices and vectors.

use vstd::prelude::*;

verus! {

/// Appends every byte of `src` to `out`.
pub fn append(out: &mut Vec<u8>, src: &[u8])
    ensures
        final(out)@ == old(out)@ + src@,
{
    let mut i: usize = 0;
    while i < src.len()
        invariant
            i <= src.len(),
            out@ == old(out)@ + src@.subrange(0, i as int),
        decreases src.len() - i,
    {
        out.push(src[i]);
        i += 1;
        assert(out@ =~= old(out)@ + src@.subrange(0, i as int));
    }
    assert(src@.subrange(0, src@.len() as int) =~= src@);
}

/// Copies the bytes of `src` from index `from` up to, not including, `to`.
pub fn copy_range(src: &[u8], from: usize, to: usize) -> (out: Vec<u8>)
    requires
        from <= to <= src@.len(),
    ensures
        out@ == src@.subrange(from as int, to as int),
{
    let mut out: Vec<u8> = Vec::with_capacity(to - from);
    let mut i: usize = from;
    while i < to
        invariant
            from <= i <= to <= src.len(),
            out@ == src@.subrange(from as int, i as int),
        decreases to - i,
    {
        out.push(src[i]);
        i += 1;
        assert(out@ =~= src@.subrange(from as int, i as int));
    }
    out
}

/// Copies every byte of `src`.
pub fn copy_all(src: &[u8]) -> (out: Vec<u8>)
    ensures
        out@ == src@,
{
    let out = copy_range(src, 0, src.len());
    assert(src@.subrange(0, src@.len() as int) =~= src@);
    out
}

/// Empties `list` into a stack whose top is the first element of the list, so
/// that popping the stack hands the elements out in their order.
pub fn drain_reversed<T>(list: &mut Vec<T>) -> (stack: Vec<T>)
    ensures
        final(list)@.len() == 0,
        stack@ == old(list)@.reverse(),
{
    let ghost all = list@;
    let mut stack: Vec<T> = Vec::new();
    assert(stack@ =~= all.skip(all.len() as int).reverse());
    while list.len() > 0
        invariant
            list@ == all.take(list@.len() as int),
            list@.len() <= all.len(),
            stack@ == all.skip(list@.len() as int).reverse(),
        decreases list@.len(),
    {
        let ghost left = list@.len() as int;
        let ghost had = stack@;
        match list.pop() {
            Some(item) => {
                stack.push(item);
                assert(item == all[left - 1]);
                assert(stack@ =~= all.skip(left - 1).reverse());
                assert(list@ =~= all.take(left - 1));
            },
            None => {},
        }
    }
    assert(all.skip(0) =~= all);
    stack
}

} // verus!
