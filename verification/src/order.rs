//! The order in which blocks are laid out: grouped by source image, and
//! by vertical position within an image.

use crate::blocks::{block_views, BlockView, TextBlock};
use vstd::prelude::*;

verus! {

/// Whether `a` may stand before `b`: its image comes first, or both come
/// from one image and `a` does not lie lower.
pub open spec fn in_order(a: BlockView, b: BlockView) -> bool {
    a.image_index < b.image_index || (a.image_index == b.image_index && a.y <= b.y)
}

/// `sorted` with `x` put in behind the last block that may stand before
/// it.
pub open spec fn inserted(sorted: Seq<BlockView>, x: BlockView) -> Seq<BlockView>
    decreases sorted.len(),
{
    if sorted.len() == 0 {
        seq![x]
    } else if in_order(sorted.last(), x) {
        sorted.push(x)
    } else {
        inserted(sorted.drop_last(), x).push(sorted.last())
    }
}

/// The first `n` of `blocks` in layout order: grouped by image, and by
/// vertical position within an image. Blocks that neither rule tells
/// apart keep the order of the source.
pub open spec fn ordered(blocks: Seq<BlockView>, n: int) -> Seq<BlockView>
    decreases n,
{
    if n <= 0 {
        Seq::empty()
    } else {
        inserted(ordered(blocks, n - 1), blocks[n - 1])
    }
}

/// Whether every block of `s` may stand before every block behind it.
pub open spec fn is_ordered(s: Seq<BlockView>) -> bool {
    forall|i: int, j: int| 0 <= i < j < s.len() ==> in_order(s[i], s[j])
}

/// The blocks of `blocks` that `order` points at, in its order.
pub open spec fn picked(blocks: Seq<TextBlock>, order: Seq<usize>) -> Seq<BlockView> {
    order.map_values(|i: usize| blocks[i as int]@)
}

/// Putting a block in behind the last block that may stand before it is
/// putting it at the index behind that block.
pub proof fn lemma_inserted_at(sorted: Seq<BlockView>, x: BlockView, pos: int)
    requires
        0 <= pos <= sorted.len(),
        pos == 0 || in_order(sorted[pos - 1], x),
        forall|k: int| pos <= k < sorted.len() ==> !in_order(sorted[k], x),
    ensures
        inserted(sorted, x) == sorted.insert(pos, x),
    decreases sorted.len(),
{
    if sorted.len() == 0 {
        assert(sorted.insert(pos, x) =~= seq![x]);
    } else if pos == sorted.len() {
        assert(sorted.insert(pos, x) =~= sorted.push(x));
    } else {
        let front = sorted.drop_last();
        lemma_inserted_at(front, x, pos);
        assert(front.insert(pos, x).push(sorted.last()) =~= sorted.insert(pos, x));
    }
}

/// The order in which the blocks are laid out, as indices into `blocks`.
pub fn layout_order(blocks: &Vec<TextBlock>) -> (order: Vec<usize>)
    ensures
        order@.len() == blocks@.len(),
        forall|k: int| 0 <= k < order@.len() ==> order@[k] < blocks@.len(),
        picked(blocks@, order@) == ordered(block_views(blocks@), blocks@.len() as int),
{
    let ghost bv = block_views(blocks@);
    let mut order: Vec<usize> = Vec::new();
    let mut i: usize = 0;
    assert(picked(blocks@, order@) =~= ordered(bv, 0));
    while i < blocks.len()
        invariant
            i <= blocks.len(),
            bv == block_views(blocks@),
            order@.len() == i,
            forall|k: int| 0 <= k < order@.len() ==> order@[k] < blocks@.len(),
            picked(blocks@, order@) == ordered(bv, i as int),
        decreases blocks.len() - i,
    {
        let ghost sorted = picked(blocks@, order@);
        let x = &blocks[i];
        assert(bv[i as int] == x@);
        let mut pos: usize = order.len();
        while pos > 0 && !(blocks[order[pos - 1]].image_index < x.image_index || (blocks[order[pos
            - 1]].image_index == x.image_index && blocks[order[pos - 1]].y <= x.y))
            invariant
                pos <= order@.len(),
                i < blocks.len(),
                x == &blocks@[i as int],
                sorted == picked(blocks@, order@),
                forall|k: int| 0 <= k < order@.len() ==> order@[k] < blocks@.len(),
                forall|k: int| pos <= k < sorted.len() ==> !in_order(sorted[k], x@),
            decreases pos,
        {
            assert(sorted[pos - 1] == blocks@[order@[pos - 1] as int]@);
            pos -= 1;
        }
        assert(pos > 0 ==> sorted[pos - 1] == blocks@[order@[pos - 1] as int]@);
        proof {
            lemma_inserted_at(sorted, x@, pos as int);
        }
        order.insert(pos, i);
        assert(picked(blocks@, order@) =~= sorted.insert(pos as int, x@));
        i += 1;
    }
    order
}

/// Putting a block in keeps every block that was there, and adds that
/// one: every block of the result is the new block or a block of before.
pub proof fn lemma_inserted_blocks(sorted: Seq<BlockView>, x: BlockView)
    ensures
        inserted(sorted, x).len() == sorted.len() + 1,
        inserted(sorted, x).to_multiset() == sorted.to_multiset().insert(x),
        forall|k: int|
            0 <= k < inserted(sorted, x).len() ==> (#[trigger] inserted(sorted, x)[k]) == x || exists|
                j: int,
            | 0 <= j < sorted.len() && inserted(sorted, x)[k] == sorted[j],
    decreases sorted.len(),
{
    broadcast use vstd::seq_lib::group_to_multiset_ensures;

    let r = inserted(sorted, x);
    if sorted.len() == 0 {
        assert(sorted =~= Seq::<BlockView>::empty());
        assert(r =~= Seq::<BlockView>::empty().push(x));
    } else if in_order(sorted.last(), x) {
        assert forall|k: int| 0 <= k < r.len() implies (#[trigger] r[k]) == x || exists|j: int|
            0 <= j < sorted.len() && r[k] == sorted[j] by {
            if k < sorted.len() {
                assert(r[k] == sorted[k]);
            }
        }
    } else {
        let front = sorted.drop_last();
        let last = sorted.last();
        lemma_inserted_blocks(front, x);
        let mid = inserted(front, x);
        assert(sorted =~= front.push(last));
        assert(r == mid.push(last));
        assert(r.to_multiset() =~= sorted.to_multiset().insert(x));
        assert forall|k: int| 0 <= k < r.len() implies (#[trigger] r[k]) == x || exists|j: int|
            0 <= j < sorted.len() && r[k] == sorted[j] by {
            if k < mid.len() {
                assert(r[k] == mid[k]);
                if mid[k] != x {
                    let j = choose|j: int| 0 <= j < front.len() && mid[k] == front[j];
                    assert(sorted[j] == front[j]);
                }
            } else {
                assert(r[k] == sorted[sorted.len() - 1]);
            }
        }
    }
}

/// Putting a block into an ordered sequence leaves it ordered.
pub proof fn lemma_inserted_ordered(sorted: Seq<BlockView>, x: BlockView)
    requires
        is_ordered(sorted),
    ensures
        is_ordered(inserted(sorted, x)),
    decreases sorted.len(),
{
    let r = inserted(sorted, x);
    if sorted.len() == 0 {
    } else if in_order(sorted.last(), x) {
        assert forall|i: int, j: int| 0 <= i < j < r.len() implies in_order(r[i], r[j]) by {
            if j == sorted.len() {
                if i < sorted.len() - 1 {
                    assert(in_order(sorted[i], sorted[sorted.len() - 1]));
                }
            }
        }
    } else {
        let front = sorted.drop_last();
        let last = sorted.last();
        assert(is_ordered(front)) by {
            assert forall|i: int, j: int| 0 <= i < j < front.len() implies in_order(
                front[i],
                front[j],
            ) by {
                assert(in_order(sorted[i], sorted[j]));
            }
        }
        lemma_inserted_ordered(front, x);
        lemma_inserted_blocks(front, x);
        let mid = inserted(front, x);
        assert forall|i: int, j: int| 0 <= i < j < r.len() implies in_order(r[i], r[j]) by {
            if j < mid.len() {
                assert(in_order(mid[i], mid[j]));
            } else {
                if mid[i] != x {
                    let k = choose|k: int| 0 <= k < front.len() && mid[i] == front[k];
                    assert(in_order(sorted[k], sorted[sorted.len() - 1]));
                }
            }
        }
    }
}

/// The layout order holds the blocks of the source, each as often as the
/// source does, grouped by image, and ordered by vertical position within
/// an image.
pub proof fn lemma_ordered(blocks: Seq<BlockView>, n: int)
    requires
        0 <= n <= blocks.len(),
    ensures
        ordered(blocks, n).len() == n,
        ordered(blocks, n).to_multiset() == blocks.take(n).to_multiset(),
        is_ordered(ordered(blocks, n)),
    decreases n,
{
    broadcast use vstd::seq_lib::group_to_multiset_ensures;

    if n > 0 {
        lemma_ordered(blocks, n - 1);
        lemma_inserted_blocks(ordered(blocks, n - 1), blocks[n - 1]);
        lemma_inserted_ordered(ordered(blocks, n - 1), blocks[n - 1]);
        assert(blocks.take(n) =~= blocks.take(n - 1).push(blocks[n - 1]));
    } else {
        assert(blocks.take(0) =~= Seq::<BlockView>::empty());
        assert(ordered(blocks, 0) =~= Seq::<BlockView>::empty());
    }
}

/// Every block of the layout order is a block of the source.
pub proof fn lemma_ordered_from_source(blocks: Seq<BlockView>, n: int)
    requires
        0 <= n <= blocks.len(),
    ensures
        forall|k: int|
            0 <= k < ordered(blocks, n).len() ==> exists|j: int|
                0 <= j < n && (#[trigger] ordered(blocks, n)[k]) == blocks[j],
    decreases n,
{
    if n > 0 {
        lemma_ordered_from_source(blocks, n - 1);
        let front = ordered(blocks, n - 1);
        let all = ordered(blocks, n);
        lemma_inserted_blocks(front, blocks[n - 1]);
        assert forall|k: int| 0 <= k < all.len() implies exists|j: int|
            0 <= j < n && (#[trigger] all[k]) == blocks[j] by {
            if all[k] == blocks[n - 1] {
            } else {
                let i = choose|i: int| 0 <= i < front.len() && all[k] == front[i];
                let j = choose|j: int| 0 <= j < n - 1 && front[i] == blocks[j];
                assert(0 <= j < n && all[k] == blocks[j]);
            }
        }
    }
}

/// Two blocks of different images are laid out in the order of their
/// images, whichever comes first in the source.
pub proof fn lemma_two_blocks_in_order(b0: BlockView, b1: BlockView)
    requires
        b0.image_index < b1.image_index,
    ensures
        ordered(seq![b0, b1], 2) == seq![b0, b1],
        ordered(seq![b1, b0], 2) == seq![b0, b1],
        ordered(seq![b0], 1) == seq![b0],
{
    let e = Seq::<BlockView>::empty();
    assert(ordered(seq![b0], 0) == e);
    assert(inserted(e, b0) == seq![b0]);
    assert(ordered(seq![b0], 1) == seq![b0]);
    assert(ordered(seq![b0, b1], 0) == e);
    assert(ordered(seq![b0, b1], 1) == seq![b0]);
    assert(seq![b0].push(b1) =~= seq![b0, b1]);
    assert(ordered(seq![b0, b1], 2) == seq![b0, b1]);
    assert(ordered(seq![b1, b0], 0) == e);
    assert(inserted(e, b1) == seq![b1]);
    assert(ordered(seq![b1, b0], 1) == seq![b1]);
    assert(seq![b1].drop_last() =~= e);
    assert(e.push(b0).push(b1) =~= seq![b0, b1]);
    assert(inserted(seq![b1], b0) == seq![b0, b1]);
}

} // verus!
