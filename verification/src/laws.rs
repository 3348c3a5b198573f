//! What holds of every packing, whatever the sizes.

use vstd::prelude::*;
use crate::area::total_area;
use crate::geometry::{lemma_tight_bound_is_unique, lie_apart, lie_within, Box};
use crate::layout::{Layout, Ratio};
use crate::measure::start_width;
use crate::order::{each_once, lemma_order_is_unique, lemma_rearranged_totals};
use crate::packer::{
    lemma_area_fits, lemma_empty_wf, lemma_place_all_same_items, lemma_place_all_wf, PackerView,
};

verus! {

/// The packer that a packing of `input` comes from, after all its boxes were
/// placed, is well formed and holds the boxes of the layout in a container of
/// the layout's size.
proof fn lemma_packing_from_packer(layout: Layout, input: Seq<Box>) -> (last: PackerView)
    requires
        layout.packs(input),
    ensures
        last.wf(),
        last.items == layout.items@,
        last.width == layout.width,
        last.height == layout.height,
{
    let origin = PackerView::empty(start_width(input) as u64);
    let last = origin.place_all(layout.items@);
    lemma_empty_wf(start_width(input) as u64);
    lemma_place_all_wf(origin, layout.items@);
    lemma_tight_bound_is_unique(
        layout.items@,
        layout.width as int,
        layout.height as int,
        last.width,
        last.height,
    );
    last
}

/// No overlap: no two boxes of a packing share a point of their interiors.
pub proof fn lemma_packing_lies_apart(layout: Layout, input: Seq<Box>)
    requires
        layout.packs(input),
    ensures
        lie_apart(layout.items@),
{
    let last = lemma_packing_from_packer(layout, input);
}

/// Completeness: a packing has one box for every item, and every index of the
/// input names exactly one of them.
pub proof fn lemma_packing_is_complete(layout: Layout, input: Seq<Box>)
    requires
        layout.packs(input),
    ensures
        layout.items@.len() == input.len(),
        each_once(layout.items@),
{
}

/// Containment: every box of a packing lies inside the container, at offsets
/// that are not negative.
pub proof fn lemma_packing_lies_within(layout: Layout, input: Seq<Box>)
    requires
        layout.packs(input),
    ensures
        lie_within(layout.items@, layout.width as int, layout.height as int),
        forall|k: int|
            0 <= k < layout.items@.len() ==> (#[trigger] layout.items@[k]).x >= 0
                && layout.items@[k].y >= 0,
{
}

/// Sizes are kept: the boxes of a packing have the sizes of the items, and so
/// the same area in all.
pub proof fn lemma_packing_keeps_area(layout: Layout, input: Seq<Box>)
    requires
        layout.packs(input),
    ensures
        forall|k: int|
            0 <= k < layout.items@.len() ==> (#[trigger] layout.items@[k]).same_item(
                input[layout.items@[k].id as int],
            ),
        total_area(layout.items@) == total_area(input),
{
    lemma_rearranged_totals(layout.items@, input);
}

/// Area bound: the boxes of a packing cover no more than the container, so the
/// fill ratio is at most one.
pub proof fn lemma_packing_fits(layout: Layout, input: Seq<Box>)
    requires
        layout.packs(input),
    ensures
        total_area(layout.items@) <= layout.width * layout.height,
        layout.fill_ratio.num <= layout.fill_ratio.den,
        layout.fill_ratio.den > 0,
{
    let last = lemma_packing_from_packer(layout, input);
    lemma_area_fits(last);
    lemma_rearranged_totals(layout.items@, input);
    let width = layout.width;
    let height = layout.height;
    assert(width * height <= 0xffff_ffff_ffff_ffff * 0xffff_ffff_ffff_ffff) by (nonlinear_arith)
        requires
            width <= 0xffff_ffff_ffff_ffff,
            height <= 0xffff_ffff_ffff_ffff,
    ;
    if width != 0 && height != 0 {
        assert(width * height > 0) by (nonlinear_arith)
            requires
                width > 0,
                height > 0,
        ;
    }
}

/// Nothing to pack: the packing of no items has no boxes, a container without
/// area, and a fill ratio of one.
pub proof fn lemma_packing_of_nothing(layout: Layout, input: Seq<Box>)
    requires
        layout.packs(input),
        input.len() == 0,
    ensures
        layout.items@.len() == 0,
        layout.width == 0,
        layout.height == 0,
        layout.fill_ratio == (Ratio { num: 1, den: 1 }),
{
}

/// Packing is a function of the sizes: two layouts that pack the same input
/// are the same layout.
pub proof fn lemma_packing_is_unique(a: Layout, b: Layout, input: Seq<Box>)
    requires
        a.packs(input),
        b.packs(input),
    ensures
        a.items@ == b.items@,
        a.width == b.width,
        a.height == b.height,
        a.fill_ratio == b.fill_ratio,
{
    lemma_order_is_unique(a.items@, b.items@, input);
    lemma_place_all_same_items(
        PackerView::empty(start_width(input) as u64),
        a.items@,
        b.items@,
    );
    lemma_tight_bound_is_unique(
        a.items@,
        a.width as int,
        a.height as int,
        b.width as int,
        b.height as int,
    );
}

} // verus!
