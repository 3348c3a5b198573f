//! The result of packing: the container's size, the boxes with their offsets,
//! and the share of the container that they fill.

use vstd::prelude::*;
use crate::area::{lemma_max_width, lemma_totals_grow, total_area, total_height};
use crate::error::PackError;
use crate::geometry::{lie_apart, lie_within, tightly_bound, Box};
use crate::laws::{
    lemma_packing_fits, lemma_packing_is_complete, lemma_packing_keeps_area,
    lemma_packing_lies_apart,
};
use crate::measure::{padded_side_of, start_width, totals, usable, Totals};
use crate::order::{
    each_once, holds_item, in_order, lemma_rearranged_totals, lemma_same_items_rearrange,
    numbered, rearranges, sort_for_placement,
};
use crate::packer::{
    lemma_open_space_accepts, lemma_place_all_same_items, lemma_place_wf, Packer, PackerView,
};

verus! {

/// Something with a width and a height, in whole pixels, that can be packed.
pub trait Rect {
    /// The width, as contracts see it. An implementation that is to be verified
    /// states here what `width` returns.
    open spec fn spec_width(&self) -> u64 {
        0
    }

    /// The height, as contracts see it. An implementation that is to be verified
    /// states here what `height` returns.
    open spec fn spec_height(&self) -> u64 {
        0
    }

    /// Returns width.
    fn width(&self) -> (w: u64)
        ensures
            w == self.spec_width(),
    ;

    /// Returns height.
    fn height(&self) -> (h: u64)
        ensures
            h == self.spec_height(),
    ;
}

impl Rect for (u64, u64) {
    open spec fn spec_width(&self) -> u64 {
        self.0
    }

    open spec fn spec_height(&self) -> u64 {
        self.1
    }

    #[inline]
    fn width(&self) -> (w: u64) {
        self.0
    }

    #[inline]
    fn height(&self) -> (h: u64) {
        self.1
    }
}

/// A fraction `num / den` with `den > 0`.
#[derive(Debug, Copy, Clone)]
pub struct Ratio {
    /// The numerator.
    pub num: u128,
    /// The denominator.
    pub den: u128,
}

/// The share of a container of `width` by `height` that boxes of the area
/// `area` fill. A container without area counts as full.
pub open spec fn fill_ratio_of(area: int, width: int, height: int) -> Ratio {
    if width != 0 && height != 0 {
        Ratio { num: area as u128, den: (width * height) as u128 }
    } else {
        Ratio { num: 1, den: 1 }
    }
}

/// The boxes that the items become before they are placed: each named by its
/// place in the list, with the item's size, at the origin.
pub open spec fn unplaced<R: Rect>(items: Seq<R>) -> Seq<Box> {
    Seq::new(
        items.len(),
        |i: int| Box { id: i as usize, w: items[i].spec_width(), h: items[i].spec_height(), x: 0, y: 0 },
    )
}

/// A packing: the smallest container around the boxes, the share of it that
/// the boxes fill, and the boxes in the order in which they were placed.
#[derive(Debug)]
pub struct Layout {
    /// The width of the container.
    pub width: u64,
    /// The height of the container.
    pub height: u64,
    /// The area of the boxes over the area of the container; one for a
    /// container without area.
    pub fill_ratio: Ratio,
    /// The boxes, the highest first.
    pub items: Vec<Box>,
}

impl Layout {
    /// The layout is the packing of `input`, a list of boxes numbered by place
    /// of which only the sizes count:
    ///
    /// - its boxes are the items of `input`, each once, the highest first and
    ///   among equally high ones the one named first;
    /// - each box has the offset that a packer for the start width of `input`
    ///   gives it when the boxes are placed one after the other in that order;
    /// - its size is that of the smallest container around the boxes;
    /// - its fill ratio is the area of all boxes over the area of the
    ///   container.
    pub open spec fn packs(self, input: Seq<Box>) -> bool {
        &&& rearranges(self.items@, input)
        &&& in_order(self.items@)
        &&& PackerView::empty(start_width(input) as u64).place_all(self.items@).items
            == self.items@
        &&& tightly_bound(self.items@, self.width as int, self.height as int)
        &&& self.fill_ratio == fill_ratio_of(
            total_area(input),
            self.width as int,
            self.height as int,
        )
    }

    /// Packs the items: places each without overlap into a container that is
    /// about as wide as it is high, and reports the smallest container around
    /// them. Fails with `InvalidDimension`, before anything is placed, exactly
    /// where the areas or the heights of the items add up to more than a
    /// coordinate can hold.
    pub fn new<R: Rect>(items: Vec<R>) -> (packed: Result<Layout, PackError>)
        ensures
            match packed {
                Ok(layout) => {
                    &&& usable(unplaced(items@))
                    &&& layout.packs(unplaced(items@))
                    &&& layout.items@.len() == items@.len()
                    &&& each_once(layout.items@)
                    &&& items@.len() == 0 ==> layout.width == 0 && layout.height == 0
                        && layout.fill_ratio == (Ratio { num: 1, den: 1 })
                    &&& lie_apart(layout.items@)
                    &&& lie_within(layout.items@, layout.width as int, layout.height as int)
                    &&& total_area(layout.items@) == total_area(unplaced(items@))
                    &&& total_area(layout.items@) <= layout.width * layout.height
                    &&& layout.fill_ratio.num <= layout.fill_ratio.den
                    &&& layout.fill_ratio.den > 0
                },
                Err(e) => !usable(unplaced(items@)) && e == PackError::InvalidDimension,
            },
    {
        let mut boxes: Vec<Box> = Vec::new();
        let mut i: usize = 0;
        while i < items.len()
            invariant
                i <= items.len(),
                boxes@ == unplaced(items@).take(i as int),
            decreases items.len() - i,
        {
            let w: u64 = items[i].width();
            let h: u64 = items[i].height();
            boxes.push(Box { id: i, w, h, x: 0, y: 0 });
            i += 1;
        }
        assert(boxes@ =~= unplaced(items@));
        Layout::from_boxes(boxes)
    }

    /// The boxes in the order of the caller's list, the box of item `i` at place
    /// `i`. `None` where the boxes do not name every index below their number
    /// exactly once, which does not happen to a layout that `new` returned.
    pub fn items_by_id(&self) -> (sorted: Option<Vec<Box>>)
        ensures
            sorted is Some <==> each_once(self.items@),
            match sorted {
                Some(boxes) => {
                    &&& boxes@.len() == self.items@.len()
                    &&& numbered(boxes@)
                    &&& forall|k: int|
                        0 <= k < self.items@.len() ==> boxes@[(#[trigger] self.items@[k]).id as int]
                            == self.items@[k]
                },
                None => true,
            },
    {
        let n: usize = self.items.len();
        let mut boxes: Vec<Box> = Vec::new();
        let mut seen: Vec<bool> = Vec::new();
        let mut i: usize = 0;
        while i < n
            invariant
                i <= n,
                boxes@.len() == i,
                seen@.len() == i,
                forall|j: int| 0 <= j < i ==> !(#[trigger] seen@[j]),
            decreases n - i,
        {
            boxes.push(Box { id: i, w: 0, h: 0, x: 0, y: 0 });
            seen.push(false);
            i += 1;
        }
        let mut k: usize = 0;
        while k < n
            invariant
                k <= n,
                n == self.items@.len(),
                boxes@.len() == n,
                seen@.len() == n,
                forall|j: int|
                    0 <= j < k ==> {
                        &&& (#[trigger] self.items@[j]).id < n
                        &&& seen@[self.items@[j].id as int]
                        &&& boxes@[self.items@[j].id as int] == self.items@[j]
                    },
                forall|i: int|
                    0 <= i < n && #[trigger] seen@[i] ==> holds_item(self.items@.take(k as int), i),
                forall|i: int, j: int|
                    0 <= i < j < k ==> (#[trigger] self.items@[i]).id != (
                    #[trigger] self.items@[j]).id,
            decreases n - k,
        {
            let b: Box = self.items[k];
            if b.id >= n {
                return None;
            }
            if seen[b.id] {
                proof {
                    // An earlier box has the same index.
                    let j = choose|j: int|
                        0 <= j < k && (#[trigger] self.items@.take(k as int)[j]).id == b.id;
                    assert(self.items@[j].id == self.items@[k as int].id);
                }
                return None;
            }
            let ghost before = self.items@.take(k as int);
            let ghost after = self.items@.take(k + 1);
            boxes.set(b.id, b);
            seen.set(b.id, true);
            proof {
                assert forall|i: int| 0 <= i < n && #[trigger] seen@[i] implies holds_item(
                    after,
                    i,
                ) by {
                    if i == b.id {
                        assert(after[k as int].id == i);
                    } else {
                        let j = choose|j: int| 0 <= j < k && (#[trigger] before[j]).id == i;
                        assert(after[j].id == i);
                    }
                }
            }
            k += 1;
        }
        let mut i: usize = 0;
        while i < n
            invariant
                i <= n,
                seen@.len() == n,
                n == self.items@.len(),
                forall|j: int| 0 <= j < i ==> #[trigger] seen@[j],
                forall|j: int| 0 <= j < n ==> seen@[(#[trigger] self.items@[j]).id as int],
                forall|j: int| 0 <= j < n ==> (#[trigger] self.items@[j]).id < n,
                forall|i: int, j: int|
                    0 <= i < j < n ==> (#[trigger] self.items@[i]).id != (
                    #[trigger] self.items@[j]).id,
            decreases n - i,
        {
            if !seen[i] {
                // No box has this index: the place of each that has one is seen.
                assert(!holds_item(self.items@, i as int));
                return None;
            }
            i += 1;
        }
        proof {
            assert forall|i: int| 0 <= i < n implies #[trigger] holds_item(self.items@, i) by {
                assert(seen@[i]);
            }
            assert forall|i: int| 0 <= i < n implies (#[trigger] boxes@[i]).id == i by {
                assert(holds_item(self.items@, i));
                let j = choose|j: int|
                    0 <= j < self.items@.len() && (#[trigger] self.items@[j]).id == i;
                assert(boxes@[i] == self.items@[j]);
            }
        }
        Some(boxes)
    }

    /// Packs boxes that are numbered by place; the offsets they come with do
    /// not count.
    fn from_boxes(boxes: Vec<Box>) -> (packed: Result<Layout, PackError>)
        requires
            numbered(boxes@),
        ensures
            match packed {
                Ok(layout) => {
                    &&& usable(boxes@)
                    &&& layout.packs(boxes@)
                    &&& layout.items@.len() == boxes@.len()
                    &&& each_once(layout.items@)
                    &&& lie_apart(layout.items@)
                    &&& lie_within(layout.items@, layout.width as int, layout.height as int)
                    &&& total_area(layout.items@) == total_area(boxes@)
                    &&& total_area(layout.items@) <= layout.width * layout.height
                    &&& layout.fill_ratio.num <= layout.fill_ratio.den
                    &&& layout.fill_ratio.den > 0
                },
                Err(e) => !usable(boxes@) && e == PackError::InvalidDimension,
            },
    {
        let sums: Totals = match totals(&boxes) {
            Some(sums) => sums,
            None => {
                return Err(PackError::InvalidDimension);
            },
        };
        let ghost input = boxes@;
        let mut boxes = boxes;
        sort_for_placement(&mut boxes);
        let side: u64 = padded_side_of(sums.area);
        let start: u64 = if side > sums.max_width {
            side
        } else {
            sums.max_width
        };
        let mut packer = Packer::new(start);
        let ghost origin = PackerView::empty(start);
        proof {
            lemma_max_width(input);
            lemma_rearranged_totals(boxes@, input);
        }
        let mut k: usize = 0;
        while k < boxes.len()
            invariant
                k <= boxes.len(),
                rearranges(boxes@, input),
                total_height(boxes@) <= u64::MAX,
                forall|j: int| 0 <= j < input.len() ==> (#[trigger] input[j]).w <= start,
                origin == PackerView::empty(start),
                packer@.wf(),
                packer@ == origin.place_all(boxes@.take(k as int)),
                packer@.start_width() == start,
                packer@.height <= total_height(boxes@.take(k as int)),
                packer@.items.len() == k,
                forall|j: int| 0 <= j < k ==> (#[trigger] packer@.items[j]).same_item(boxes@[j]),
            decreases boxes.len() - k,
        {
            let b: Box = boxes[k];
            proof {
                assert(boxes@.take(k + 1).drop_last() =~= boxes@.take(k as int));
                lemma_totals_grow(boxes@, k + 1);
                lemma_place_wf(packer@, b.id, b.w, b.h);
                lemma_open_space_accepts(packer@, b.w, b.h);
            }
            // The open space is as wide as the widest box and deep enough for
            // all heights: an item that fits nowhere else fits there.
            let placed = packer.place(b.id, b.w, b.h);
            assert(placed is Ok);
            k += 1;
        }
        let width: u64 = packer.width();
        let height: u64 = packer.height();
        let items: Vec<Box> = packer.into_items();
        proof {
            assert(boxes@.take(k as int) =~= boxes@);
            lemma_place_all_same_items(origin, items@, boxes@);
            lemma_same_items_rearrange(items@, boxes@, input);
            assert(width * height <= 0xffff_ffff_ffff_ffff * 0xffff_ffff_ffff_ffff)
                by (nonlinear_arith)
                requires
                    width <= 0xffff_ffff_ffff_ffff,
                    height <= 0xffff_ffff_ffff_ffff,
            ;
        }
        let fill_ratio = if width != 0 && height != 0 {
            Ratio { num: sums.area as u128, den: (width as u128) * (height as u128) }
        } else {
            Ratio { num: 1, den: 1 }
        };
        let layout = Layout { width, height, fill_ratio, items };
        proof {
            lemma_packing_is_complete(layout, input);
            lemma_packing_lies_apart(layout, input);
            lemma_packing_keeps_area(layout, input);
            lemma_packing_fits(layout, input);
        }
        Ok(layout)
    }
}

} // verus!
