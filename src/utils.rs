//! Bitmaps over small index ranges.

use vstd::prelude::*;

verus! {

/// The 0/1 bitmap of width `n` with a one at each position in `indices`.
pub open spec fn bitmap_of_indices(indices: Seq<usize>, n: int) -> Seq<u8> {
    Seq::new(
        n as nat,
        |k: int|
            if exists|j: int| 0 <= j < indices.len() && indices[j] == k {
                1u8
            } else {
                0u8
            },
    )
}

/// A bitmap of width `total_size` with a one at each of `indices`.
pub fn indices_to_bitmap(indices: Vec<usize>, total_size: usize) -> (r: Vec<u8>)
    requires
        forall|j: int| 0 <= j < indices@.len() ==> #[trigger] indices@[j] < total_size,
    ensures
        r@ == bitmap_of_indices(indices@, total_size as int),
{
    let mut bitmap: Vec<u8> = Vec::new();
    let mut i: usize = 0;
    while i < total_size
        invariant
            i <= total_size,
            bitmap@.len() == i,
            forall|k: int| 0 <= k < i ==> bitmap@[k] == 0,
        decreases total_size - i,
    {
        bitmap.push(0);
        i += 1;
    }
    assert(bitmap@ =~= bitmap_of_indices(indices@.take(0), total_size as int));
    let mut j: usize = 0;
    while j < indices.len()
        invariant
            j <= indices@.len(),
            forall|k: int| 0 <= k < indices@.len() ==> #[trigger] indices@[k] < total_size,
            bitmap@ == bitmap_of_indices(indices@.take(j as int), total_size as int),
        decreases indices@.len() - j,
    {
        let idx = indices[j];
        bitmap.set(idx, 1);
        proof {
            let pre = indices@.take(j as int);
            let post = indices@.take(j + 1);
            assert forall|k: int| 0 <= k < total_size implies bitmap@[k] == bitmap_of_indices(
                post,
                total_size as int,
            )[k] by {
                if k == idx as int {
                    assert(post[j as int] == idx);
                } else if exists|w: int| 0 <= w < post.len() && post[w] == k {
                    let w = choose|w: int| 0 <= w < post.len() && post[w] == k;
                    assert(pre[w] == post[w]);
                } else if exists|w: int| 0 <= w < pre.len() && pre[w] == k {
                    let w = choose|w: int| 0 <= w < pre.len() && pre[w] == k;
                    assert(pre[w] == post[w]);
                }
            }
            assert(bitmap@ =~= bitmap_of_indices(post, total_size as int));
        }
        j += 1;
    }
    assert(indices@.take(indices@.len() as int) =~= indices@);
    bitmap
}

} // verus!
