//! Areas of boxes and free spaces, whole and cut off at a vertical line.

use vstd::prelude::*;
use crate::geometry::{Box, Space};

verus! {

/// `x`, or `limit` where `x` lies beyond it.
pub open spec fn clip(x: int, limit: int) -> int {
    if x <= limit {
        x
    } else {
        limit
    }
}

/// The length of the part of `[x0, x1)` that lies to the left of `limit`.
pub open spec fn span_within(x0: int, x1: int, limit: int) -> int {
    clip(x1, limit) - clip(x0, limit)
}

impl Box {
    /// The area of the part of the box to the left of the column `limit`.
    pub open spec fn area_within(self, limit: int) -> int {
        span_within(self.x as int, self.right(), limit) * self.h
    }
}

impl Space {
    /// The area of the part of a bounded space to the left of the column
    /// `limit`. The open space counts for nothing.
    pub open spec fn area_within(self, limit: int) -> int {
        match self.h {
            Some(depth) => span_within(self.x as int, self.right(), limit) * depth,
            None => 0,
        }
    }
}

/// The sum of the areas of the boxes.
pub open spec fn total_area(boxes: Seq<Box>) -> int
    decreases boxes.len(),
{
    if boxes.len() == 0 {
        0
    } else {
        total_area(boxes.drop_last()) + boxes.last().area()
    }
}

/// The sum of the heights of the boxes.
pub open spec fn total_height(boxes: Seq<Box>) -> int
    decreases boxes.len(),
{
    if boxes.len() == 0 {
        0
    } else {
        total_height(boxes.drop_last()) + boxes.last().h
    }
}

/// The width of the widest box, 0 for no boxes.
pub open spec fn max_width(boxes: Seq<Box>) -> int
    decreases boxes.len(),
{
    if boxes.len() == 0 {
        0
    } else {
        let rest = max_width(boxes.drop_last());
        if boxes.last().w > rest {
            boxes.last().w as int
        } else {
            rest
        }
    }
}

/// The area that the boxes cover to the left of the column `limit`.
pub open spec fn boxes_area_within(boxes: Seq<Box>, limit: int) -> int
    decreases boxes.len(),
{
    if boxes.len() == 0 {
        0
    } else {
        boxes_area_within(boxes.drop_last(), limit) + boxes.last().area_within(limit)
    }
}

/// The area that the bounded spaces cover to the left of the column `limit`.
pub open spec fn spaces_area_within(spaces: Seq<Space>, limit: int) -> int
    decreases spaces.len(),
{
    if spaces.len() == 0 {
        0
    } else {
        spaces_area_within(spaces.drop_last(), limit) + spaces.last().area_within(limit)
    }
}

/// Adding a box adds its area.
pub proof fn lemma_boxes_area_push(boxes: Seq<Box>, b: Box, limit: int)
    ensures
        boxes_area_within(boxes.push(b), limit) == boxes_area_within(boxes, limit) + b.area_within(
            limit,
        ),
        total_area(boxes.push(b)) == total_area(boxes) + b.area(),
        total_height(boxes.push(b)) == total_height(boxes) + b.h,
{
    assert(boxes.push(b).drop_last() =~= boxes);
}

/// Taking one box out takes its area and its height out of the sums.
pub proof fn lemma_totals_remove(boxes: Seq<Box>, i: int)
    requires
        0 <= i < boxes.len(),
    ensures
        total_area(boxes) == total_area(boxes.remove(i)) + boxes[i].area(),
        total_height(boxes) == total_height(boxes.remove(i)) + boxes[i].h,
    decreases boxes.len(),
{
    if i < boxes.len() - 1 {
        lemma_totals_remove(boxes.drop_last(), i);
        assert(boxes.remove(i).drop_last() =~= boxes.drop_last().remove(i));
    }
}

/// No box is wider than the widest, and unless the list is empty some box is
/// as wide.
pub proof fn lemma_max_width(boxes: Seq<Box>)
    ensures
        forall|k: int| 0 <= k < boxes.len() ==> (#[trigger] boxes[k]).w <= max_width(boxes),
        boxes.len() > 0 ==> exists|k: int| 0 <= k < boxes.len() && (#[trigger] boxes[k]).w == max_width(boxes),
        boxes.len() == 0 ==> max_width(boxes) == 0,
    decreases boxes.len(),
{
    if boxes.len() > 0 {
        let front = boxes.drop_last();
        lemma_max_width(front);
        assert forall|k: int| 0 <= k < front.len() implies front[k] == boxes[k] by {}
        if boxes.last().w > max_width(front) || front.len() == 0 {
            assert(boxes[boxes.len() - 1].w == max_width(boxes));
        } else {
            let k = choose|k: int| 0 <= k < front.len() && (#[trigger] front[k]).w == max_width(front);
            assert(boxes[k].w == max_width(boxes));
        }
    }
}

/// Adding a space adds its area.
pub proof fn lemma_spaces_area_push(spaces: Seq<Space>, s: Space, limit: int)
    ensures
        spaces_area_within(spaces.push(s), limit) == spaces_area_within(spaces, limit)
            + s.area_within(limit),
{
    assert(spaces.push(s).drop_last() =~= spaces);
}

/// Replacing one space changes the sum by the difference of the two areas.
pub proof fn lemma_spaces_area_update(spaces: Seq<Space>, i: int, s: Space, limit: int)
    requires
        0 <= i < spaces.len(),
    ensures
        spaces_area_within(spaces.update(i, s), limit) == spaces_area_within(spaces, limit)
            - spaces[i].area_within(limit) + s.area_within(limit),
    decreases spaces.len(),
{
    if i == spaces.len() - 1 {
        assert(spaces.update(i, s).drop_last() =~= spaces.drop_last());
    } else {
        lemma_spaces_area_update(spaces.drop_last(), i, s, limit);
        assert(spaces.update(i, s).drop_last() =~= spaces.drop_last().update(i, s));
    }
}

/// No part of a space has a negative area.
pub proof fn lemma_spaces_area_nonnegative(spaces: Seq<Space>, limit: int)
    ensures
        spaces_area_within(spaces, limit) >= 0,
    decreases spaces.len(),
{
    if spaces.len() > 0 {
        lemma_spaces_area_nonnegative(spaces.drop_last(), limit);
        let s = spaces.last();
        if let Some(depth) = s.h {
            let span = span_within(s.x as int, s.right(), limit);
            assert(span * depth >= 0) by (nonlinear_arith)
                requires
                    span >= 0,
                    depth >= 0,
            ;
        }
    }
}

/// A line to the right of every box cuts nothing off.
pub proof fn lemma_boxes_area_uncut(boxes: Seq<Box>, limit: int)
    requires
        forall|k: int| 0 <= k < boxes.len() ==> (#[trigger] boxes[k]).right() <= limit,
    ensures
        boxes_area_within(boxes, limit) == total_area(boxes),
    decreases boxes.len(),
{
    if boxes.len() > 0 {
        lemma_boxes_area_uncut(boxes.drop_last(), limit);
    }
}

/// The sums over a front part of the list do not exceed the sums over all of it.
pub proof fn lemma_totals_grow(boxes: Seq<Box>, n: int)
    requires
        0 <= n <= boxes.len(),
    ensures
        0 <= total_area(boxes.take(n)) <= total_area(boxes),
        0 <= total_height(boxes.take(n)) <= total_height(boxes),
        0 <= max_width(boxes.take(n)) <= max_width(boxes),
    decreases boxes.len() - n,
{
    if n == boxes.len() {
        assert(boxes.take(n) =~= boxes);
        lemma_totals_nonnegative(boxes);
    } else {
        lemma_totals_grow(boxes, n + 1);
        assert(boxes.take(n + 1).drop_last() =~= boxes.take(n));
        let b = boxes.take(n + 1).last();
        assert(b.w * b.h >= 0) by (nonlinear_arith)
            requires
                b.w >= 0,
                b.h >= 0,
        ;
        lemma_totals_nonnegative(boxes.take(n));
    }
}

/// Areas, heights and widths are never negative.
pub proof fn lemma_totals_nonnegative(boxes: Seq<Box>)
    ensures
        0 <= total_area(boxes),
        0 <= total_height(boxes),
        0 <= max_width(boxes),
    decreases boxes.len(),
{
    if boxes.len() > 0 {
        lemma_totals_nonnegative(boxes.drop_last());
        let b = boxes.last();
        assert(b.w * b.h >= 0) by (nonlinear_arith)
            requires
                b.w >= 0,
                b.h >= 0,
        ;
    }
}

} // verus!
