//! Copying within a slice, where the source and destination ranges may overlap.
use vstd::prelude::*;

verus! {

/// What a slice holds after the `count` elements at `src` were copied to `dest`:
/// the destination range holds what the source range held, the rest is unchanged.
pub open spec fn copied_within<T>(before: Seq<T>, src: int, dest: int, count: int) -> Seq<T> {
    Seq::new(
        before.len(),
        |i: int|
            if dest <= i < dest + count {
                before[i - dest + src]
            } else {
                before[i]
            },
    )
}

/// Copy `count` elements from `src..src + count` to `dest..dest + count`,
/// two ranges that do not overlap.
fn copy_without_overlap<T: Copy>(slice: &mut [T], src: usize, dest: usize, count: usize)
    requires
        src + count <= old(slice)@.len(),
        dest + count <= old(slice)@.len(),
        src + count <= dest || dest + count <= src,
    ensures
        final(slice)@ == copied_within(old(slice)@, src as int, dest as int, count as int),
{
    let len = slice.len();
    let mut k: usize = 0;
    while k < count
        invariant
            len == old(slice)@.len(),
            src + count <= old(slice)@.len(),
            dest + count <= old(slice)@.len(),
            src + count <= dest || dest + count <= src,
            k <= count,
            slice@.len() == old(slice)@.len(),
            forall|i: int|
                0 <= i < old(slice)@.len() ==> #[trigger] slice@[i] == if dest <= i < dest + k {
                    old(slice)@[i - dest + src]
                } else {
                    old(slice)@[i]
                },
        decreases count - k,
    {
        let value = slice[src + k];
        slice[dest + k] = value;
        k += 1;
    }
    assert(slice@ =~= copied_within(old(slice)@, src as int, dest as int, count as int));
}

/// Copy `count` elements of `slice` from `src..src + count` to `dest..dest + count`.
/// The two ranges may overlap: the destination ends up holding what the source
/// held before the call. Overlapping ranges are copied in chunks that do not
/// overlap, starting from the end that is read first.
pub fn copy_within_slice<T: Copy>(slice: &mut [T], src: usize, dest: usize, count: usize)
    requires
        src + count <= old(slice)@.len(),
        dest + count <= old(slice)@.len(),
    ensures
        final(slice)@ == copied_within(old(slice)@, src as int, dest as int, count as int),
{
    let len = slice.len();
    if count == 0 {
        assert(slice@ =~= copied_within(old(slice)@, src as int, dest as int, count as int));
        return;
    }
    if dest < src {
        let diff = src - dest;
        if diff >= count {
            copy_without_overlap(slice, src, dest, count);
            return;
        }
        let mut remaining = count;
        let mut copied: usize = 0;
        while copied < count
            invariant
                len == old(slice)@.len(),
                src + count <= old(slice)@.len(),
                dest + count <= old(slice)@.len(),
                dest < src,
                diff == src - dest,
                copied <= count,
                remaining == count - copied,
                slice@ == copied_within(old(slice)@, src as int, dest as int, copied as int),
            decreases count - copied,
        {
            let to_copy = if diff < remaining {
                diff
            } else {
                remaining
            };
            let chunk_src = src + copied;
            let chunk_dest = dest + copied;
            copy_without_overlap(slice, chunk_src, chunk_dest, to_copy);
            proof {
                assert(slice@ =~= copied_within(old(slice)@, src as int, dest as int, copied + to_copy));
            }
            remaining -= to_copy;
            copied += to_copy;
        }
    } else if dest > src {
        let diff = dest - src;
        if diff >= count {
            copy_without_overlap(slice, src, dest, count);
            return;
        }
        let mut remaining = count;
        let mut copied: usize = 0;
        while copied < count
            invariant
                len == old(slice)@.len(),
                src + count <= old(slice)@.len(),
                dest + count <= old(slice)@.len(),
                src < dest,
                diff == dest - src,
                copied <= count,
                remaining == count - copied,
                slice@ == copied_within(
                    old(slice)@,
                    src + count - copied,
                    dest + count - copied,
                    copied as int,
                ),
            decreases count - copied,
        {
            let to_copy = if diff < remaining {
                diff
            } else {
                remaining
            };
            let chunk_src = src + count - copied - to_copy;
            let chunk_dest = dest + count - copied - to_copy;
            copy_without_overlap(slice, chunk_src, chunk_dest, to_copy);
            proof {
                assert(slice@ =~= copied_within(
                    old(slice)@,
                    src + count - copied - to_copy,
                    dest + count - copied - to_copy,
                    copied + to_copy,
                ));
            }
            remaining -= to_copy;
            copied += to_copy;
        }
    } else {
        assert(slice@ =~= copied_within(old(slice)@, src as int, dest as int, count as int));
    }
}

} // verus!
