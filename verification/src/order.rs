//! The order in which items are placed: the highest first, and of two items of
//! the same height the one that the caller named first.

use vstd::prelude::*;
use crate::area::{lemma_totals_remove, total_area, total_height};
use crate::geometry::Box;

verus! {

/// `a` is placed before `b`.
pub open spec fn precedes(a: Box, b: Box) -> bool {
    a.h > b.h || (a.h == b.h && a.id < b.id)
}

/// Every box of the list is placed before all that follow it.
pub open spec fn in_order(boxes: Seq<Box>) -> bool {
    forall|i: int, j: int|
        0 <= i < j < boxes.len() ==> precedes(#[trigger] boxes[i], #[trigger] boxes[j])
}

/// Every box is named by its place in the list.
pub open spec fn numbered(boxes: Seq<Box>) -> bool {
    forall|i: int| 0 <= i < boxes.len() ==> (#[trigger] boxes[i]).id == i
}

/// Some box of the list stands for the item `id`.
pub open spec fn holds_item(boxes: Seq<Box>, id: int) -> bool {
    exists|k: int| 0 <= k < boxes.len() && (#[trigger] boxes[k]).id == id
}

/// The boxes name every index below their number exactly once.
pub open spec fn each_once(boxes: Seq<Box>) -> bool {
    &&& forall|k: int| 0 <= k < boxes.len() ==> (#[trigger] boxes[k]).id < boxes.len()
    &&& forall|i: int| 0 <= i < boxes.len() ==> #[trigger] holds_item(boxes, i)
    &&& forall|j: int, k: int|
        0 <= j < boxes.len() && 0 <= k < boxes.len() && j != k ==> (#[trigger] boxes[j]).id != (
        #[trigger] boxes[k]).id
}

/// `out` holds the items of `input`, each exactly once, in some order: as many
/// boxes, every index named once, and each box with the size that `input`
/// gives for its index.
pub open spec fn rearranges(out: Seq<Box>, input: Seq<Box>) -> bool {
    &&& out.len() == input.len()
    &&& each_once(out)
    &&& forall|k: int|
        0 <= k < out.len() ==> (#[trigger] out[k]).same_item(input[out[k].id as int])
}

/// Every box of `out` is the box that `input` has at the place the box names.
pub open spec fn drawn_from(out: Seq<Box>, input: Seq<Box>) -> bool {
    forall|k: int|
        0 <= k < out.len() ==> (#[trigger] out[k]).id < input.len() && out[k]
            == input[out[k].id as int]
}

/// Tells whether `a` is placed before `b`.
pub fn comes_first(a: &Box, b: &Box) -> (first: bool)
    ensures
        first == precedes(*a, *b),
{
    a.h > b.h || (a.h == b.h && a.id < b.id)
}

/// A list numbered by place holds its own items.
pub proof fn lemma_numbered_rearranges(boxes: Seq<Box>)
    requires
        numbered(boxes),
    ensures
        rearranges(boxes, boxes),
{
    assert forall|i: int| 0 <= i < boxes.len() implies #[trigger] holds_item(boxes, i) by {
        assert(boxes[i].id == i);
    }
}

/// Two boxes changing places leave the list with the same items.
pub proof fn lemma_swap_rearranges(boxes: Seq<Box>, input: Seq<Box>, a: int, b: int)
    requires
        rearranges(boxes, input),
        0 <= a < boxes.len(),
        0 <= b < boxes.len(),
    ensures
        rearranges(boxes.update(a, boxes[b]).update(b, boxes[a]), input),
{
    let swapped = boxes.update(a, boxes[b]).update(b, boxes[a]);
    assert forall|i: int| 0 <= i < input.len() implies #[trigger] holds_item(swapped, i) by {
        assert(holds_item(boxes, i));
        let k = choose|k: int| 0 <= k < boxes.len() && (#[trigger] boxes[k]).id == i;
        let moved = if k == a {
            b
        } else if k == b {
            a
        } else {
            k
        };
        assert(swapped[moved].id == i);
    }
}

/// However the items are rearranged, their areas and their heights add up to
/// the same.
pub proof fn lemma_rearranged_totals(out: Seq<Box>, input: Seq<Box>)
    requires
        rearranges(out, input),
    ensures
        total_area(out) == total_area(input),
        total_height(out) == total_height(input),
    decreases input.len(),
{
    if input.len() > 0 {
        let n = input.len() - 1;
        assert(holds_item(out, n));
        let at = choose|k: int| 0 <= k < out.len() && (#[trigger] out[k]).id == n;
        let rest = out.remove(at);
        let front = input.drop_last();
        // Without that box the list holds the items of the input without the
        // last.
        assert forall|k: int| 0 <= k < rest.len() implies (#[trigger] rest[k]).id < front.len()
            && rest[k].same_item(front[rest[k].id as int]) by {
            let from = if k < at {
                k
            } else {
                k + 1
            };
            assert(rest[k] == out[from]);
        }
        assert forall|i: int| 0 <= i < front.len() implies #[trigger] holds_item(rest, i) by {
            assert(holds_item(out, i));
            let from = choose|k: int| 0 <= k < out.len() && (#[trigger] out[k]).id == i;
            let to = if from < at {
                from
            } else {
                from - 1
            };
            assert(rest[to].id == i);
        }
        lemma_rearranged_totals(rest, front);
        lemma_totals_remove(out, at);
    }
}

/// A list that holds, place by place, the same items as a list in the order of
/// placement is such a list too.
pub proof fn lemma_same_items_rearrange(a: Seq<Box>, b: Seq<Box>, input: Seq<Box>)
    requires
        a.len() == b.len(),
        forall|k: int| 0 <= k < a.len() ==> (#[trigger] a[k]).same_item(b[k]),
        rearranges(b, input),
        in_order(b),
    ensures
        rearranges(a, input),
        in_order(a),
{
    assert forall|i: int| 0 <= i < input.len() implies #[trigger] holds_item(a, i) by {
        assert(holds_item(b, i));
        let j = choose|j: int| 0 <= j < b.len() && (#[trigger] b[j]).id == i;
        assert(a[j].same_item(b[j]));
    }
}

/// Two lists that hold the items of `input` in the order of placement agree on
/// their first `n` items.
proof fn lemma_order_agrees_up_to(a: Seq<Box>, b: Seq<Box>, input: Seq<Box>, n: int)
    requires
        rearranges(a, input),
        rearranges(b, input),
        in_order(a),
        in_order(b),
        0 <= n <= input.len(),
    ensures
        forall|k: int| 0 <= k < n ==> (#[trigger] a[k]).id == b[k].id,
    decreases n,
{
    if n > 0 {
        lemma_order_agrees_up_to(a, b, input, n - 1);
        let i = n - 1;
        // Where the other list holds the item that this list has at `i`.
        assert(holds_item(b, a[i].id as int));
        let in_b = choose|m: int| 0 <= m < b.len() && (#[trigger] b[m]).id == a[i].id;
        assert(holds_item(a, b[i].id as int));
        let in_a = choose|m: int| 0 <= m < a.len() && (#[trigger] a[m]).id == b[i].id;
        // Neither stands in front of `i`, where the lists agree and name each
        // item once. Where both stand behind `i`, each of the two items is
        // placed before the other, which cannot be.
        if in_b < i {
            assert(a[in_b].id == b[in_b].id);
        }
    }
}

/// The order of placement is unique: two lists that hold the items of `input`
/// in that order hold the same item at every place.
pub proof fn lemma_order_is_unique(a: Seq<Box>, b: Seq<Box>, input: Seq<Box>)
    requires
        rearranges(a, input),
        rearranges(b, input),
        in_order(a),
        in_order(b),
    ensures
        a.len() == b.len(),
        forall|k: int| 0 <= k < a.len() ==> (#[trigger] a[k]).same_item(b[k]),
{
    lemma_order_agrees_up_to(a, b, input, input.len() as int);
}

/// Brings the boxes, which are numbered by place, into the order of placement.
/// Each box in turn moves towards the front past every box that it is placed
/// before.
pub fn sort_for_placement(boxes: &mut Vec<Box>)
    requires
        numbered(old(boxes)@),
    ensures
        rearranges(final(boxes)@, old(boxes)@),
        drawn_from(final(boxes)@, old(boxes)@),
        in_order(final(boxes)@),
{
    let ghost input = boxes@;
    let n: usize = boxes.len();
    proof {
        lemma_numbered_rearranges(input);
    }
    let mut i: usize = 0;
    while i < n
        invariant
            i <= n,
            n == boxes.len(),
            rearranges(boxes@, input),
            drawn_from(boxes@, input),
            forall|a: int, b: int| 0 <= a < b < i ==> precedes(#[trigger] boxes@[a], #[trigger] boxes@[b]),
        decreases n - i,
    {
        // The boxes in front of `i` are in order; the box at `i` joins them.
        let mut j: usize = i;
        while j > 0 && comes_first(&boxes[j], &boxes[j - 1])
            invariant
                j <= i < n,
                n == boxes.len(),
                rearranges(boxes@, input),
                drawn_from(boxes@, input),
                forall|a: int, b: int|
                    0 <= a < b <= i && a != j && b != j ==> precedes(
                        #[trigger] boxes@[a],
                        #[trigger] boxes@[b],
                    ),
                forall|b: int| j < b <= i ==> precedes(boxes@[j as int], #[trigger] boxes@[b]),
            decreases j,
        {
            let ghost before = boxes@;
            let upper: Box = boxes[j - 1];
            let lower: Box = boxes[j];
            boxes.set(j - 1, lower);
            boxes.set(j, upper);
            proof {
                lemma_swap_rearranges(before, input, j - 1, j as int);
                assert(boxes@ =~= before.update(j - 1, before[j as int]).update(
                    j as int,
                    before[j - 1],
                ));
            }
            j -= 1;
        }
        i += 1;
    }
}

} // verus!
