//! What is measured before anything is placed: the sums over all items, and
//! from them the width of the container to start with.

use vstd::prelude::*;
use crate::area::{lemma_totals_grow, max_width, total_area, total_height};
use crate::geometry::Box;

verus! {

/// The share of the container, in hundredths, that the items are expected to
/// fill. The container is started that much larger than the items need, so
/// that it does not come out tall and thin.
pub const TARGET_FILL_PERCENT: u64 = 95;

/// The sums over a list of boxes.
#[derive(Debug, Copy, Clone)]
pub struct Totals {
    /// The sum of the areas.
    pub area: u64,
    /// The sum of the heights.
    pub height: u64,
    /// The width of the widest box.
    pub max_width: u64,
}

/// The sizes can be used: the sum of the areas and the sum of the heights both
/// lie in the range of the coordinates. Then no box, however the boxes are
/// placed below or beside each other, leaves that range.
pub open spec fn usable(boxes: Seq<Box>) -> bool {
    total_area(boxes) <= u64::MAX && total_height(boxes) <= u64::MAX
}

/// A square of this side, filled to the target share, has room for `area`.
pub open spec fn side_suffices(side: int, area: int) -> bool {
    TARGET_FILL_PERCENT * side * side >= 100 * area
}

/// `side` is the smallest side of a square that, filled to the target share,
/// has room for `area`.
pub open spec fn is_padded_side(area: int, side: int) -> bool {
    &&& 0 <= side
    &&& side_suffices(side, area)
    &&& side > 0 ==> !side_suffices(side - 1, area)
}

/// The smallest side of a square that, filled to the target share, has room
/// for `area`: the square root of `area * 100 / 95`, rounded up.
pub open spec fn padded_side(area: int) -> int {
    choose|side: int| is_padded_side(area, side)
}

/// The width of the container to start with: the padded side for the area of
/// all boxes, or the width of the widest box where that is more.
pub open spec fn start_width(boxes: Seq<Box>) -> int {
    let side = padded_side(total_area(boxes));
    let widest = max_width(boxes);
    if side > widest {
        side
    } else {
        widest
    }
}

/// A larger square has room for whatever a smaller one has room for.
pub proof fn lemma_side_suffices_grows(small: int, large: int, area: int)
    by (nonlinear_arith)
    requires
        0 <= small <= large,
        side_suffices(small, area),
    ensures
        side_suffices(large, area),
{
}

/// There is only one smallest side.
pub proof fn lemma_padded_side_unique(area: int, s: int, t: int)
    requires
        is_padded_side(area, s),
        is_padded_side(area, t),
    ensures
        s == t,
{
    if s < t {
        lemma_side_suffices_grows(s, t - 1, area);
    } else if t < s {
        lemma_side_suffices_grows(t, s - 1, area);
    }
}

/// Computes the smallest side of a square that, filled to the target share,
/// has room for `area`.
pub fn padded_side_of(area: u64) -> (side: u64)
    ensures
        is_padded_side(area as int, side as int),
        side == padded_side(area as int),
{
    let need: u128 = 100 * (area as u128);
    let mut low: u64 = 0;
    let mut high: u64 = 0x2_0000_0000;
    assert(side_suffices(high as int, area as int)) by (nonlinear_arith)
        requires
            high == 0x2_0000_0000,
            area <= u64::MAX,
    ;
    while low < high
        invariant
            low <= high <= 0x2_0000_0000,
            need == 100 * area,
            side_suffices(high as int, area as int),
            low > 0 ==> !side_suffices(low - 1, area as int),
        decreases high - low,
    {
        let mid: u64 = low + (high - low) / 2;
        assert(TARGET_FILL_PERCENT * mid * mid <= u128::MAX) by (nonlinear_arith)
            requires
                mid <= 0x2_0000_0000,
        ;
        assert(TARGET_FILL_PERCENT * mid <= u128::MAX) by (nonlinear_arith)
            requires
                mid <= 0x2_0000_0000,
        ;
        let have: u128 = (TARGET_FILL_PERCENT as u128) * (mid as u128) * (mid as u128);
        if have >= need {
            high = mid;
        } else {
            low = mid + 1;
        }
    }
    proof {
        lemma_padded_side_unique(area as int, low as int, padded_side(area as int));
    }
    low
}

/// Adds up the areas and the heights of the boxes and finds the widest, as far
/// as the sums stay in range.
pub fn totals(boxes: &Vec<Box>) -> (sums: Option<Totals>)
    ensures
        match sums {
            Some(t) => {
                &&& usable(boxes@)
                &&& t.area == total_area(boxes@)
                &&& t.height == total_height(boxes@)
                &&& t.max_width == max_width(boxes@)
            },
            None => !usable(boxes@),
        },
{
    let mut area: u64 = 0;
    let mut height: u64 = 0;
    let mut widest: u64 = 0;
    let mut i: usize = 0;
    while i < boxes.len()
        invariant
            i <= boxes.len(),
            area == total_area(boxes@.take(i as int)),
            height == total_height(boxes@.take(i as int)),
            widest == max_width(boxes@.take(i as int)),
        decreases boxes.len() - i,
    {
        let b: Box = boxes[i];
        proof {
            assert(boxes@.take(i + 1).drop_last() =~= boxes@.take(i as int));
            lemma_totals_grow(boxes@, i + 1);
            assert(b.w * b.h <= 0xffff_ffff_ffff_ffff * 0xffff_ffff_ffff_ffff) by (nonlinear_arith)
                requires
                    b.w <= 0xffff_ffff_ffff_ffff,
                    b.h <= 0xffff_ffff_ffff_ffff,
            ;
        }
        let more: u128 = (area as u128) + (b.w as u128) * (b.h as u128);
        if more > u64::MAX as u128 || b.h > u64::MAX - height {
            return None;
        }
        area = more as u64;
        height = height + b.h;
        if b.w > widest {
            widest = b.w;
        }
        i += 1;
    }
    proof {
        assert(boxes@.take(i as int) =~= boxes@);
    }
    Some(Totals { area, height, max_width: widest })
}

} // verus!
