//! The packer: a container that grows downwards, the boxes placed in it so far,
//! and the free spaces between them.

use vstd::prelude::*;
use crate::area::{
    boxes_area_within, clip, lemma_boxes_area_push, lemma_boxes_area_uncut,
    lemma_spaces_area_nonnegative, lemma_spaces_area_push, lemma_spaces_area_update,
    lemma_totals_nonnegative, span_within, spaces_area_within, total_area,
};
use crate::error::PackError;
use crate::freelist::{carve, carve_space, find_space, last_fit, lemma_last_fit};
use crate::geometry::{
    boxes_overlap, lie_apart, space_covers, spaces_overlap, tightly_bound, Box, Space,
};

verus! {

/// What a packer holds, as plain values.
pub struct PackerView {
    /// The free spaces, the open one first.
    pub spaces: Seq<Space>,
    /// The boxes, in the order in which they were placed.
    pub items: Seq<Box>,
    /// The width of the smallest container around the boxes.
    pub width: int,
    /// The height of the smallest container around the boxes.
    pub height: int,
}

impl PackerView {
    /// A packer without boxes, for a container `start_width` wide: all of the
    /// container is one open space.
    pub open spec fn empty(start_width: u64) -> PackerView {
        PackerView {
            spaces: seq![Space { x: 0, y: 0, w: start_width, h: None }],
            items: Seq::empty(),
            width: 0,
            height: 0,
        }
    }

    /// The width that the packer was made for: no box reaches beyond it.
    pub open spec fn start_width(self) -> int {
        self.spaces[0].w as int
    }

    /// Some free space can take an item of `w` by `h`.
    pub open spec fn accepts(self, w: u64, h: u64) -> bool {
        last_fit(self.spaces, w, h) is Some
    }

    /// The box that the item `id` of `w` by `h` becomes: it goes into the
    /// top-left corner of the space that `last_fit` names.
    pub open spec fn seat(self, id: usize, w: u64, h: u64) -> Box
        recommends
            self.accepts(w, h),
    {
        let s = self.spaces[last_fit(self.spaces, w, h).unwrap()];
        Box { id, w, h, x: s.x, y: s.y }
    }

    /// The packer after the item `id` of `w` by `h` was placed. A packer that
    /// has no space for the item stays as it is.
    pub open spec fn place(self, id: usize, w: u64, h: u64) -> PackerView {
        match last_fit(self.spaces, w, h) {
            Some(i) => {
                let b = self.seat(id, w, h);
                PackerView {
                    spaces: carve(self.spaces, i, w, h),
                    items: self.items.push(b),
                    width: if b.right() > self.width {
                        b.right()
                    } else {
                        self.width
                    },
                    height: if b.bottom() > self.height {
                        b.bottom()
                    } else {
                        self.height
                    },
                }
            },
            None => self,
        }
    }

    /// The packer after the items of `boxes` were placed one after the other.
    /// Of each only the index and the size count.
    pub open spec fn place_all(self, boxes: Seq<Box>) -> PackerView
        decreases boxes.len(),
    {
        if boxes.len() == 0 {
            self
        } else {
            let b = boxes.last();
            self.place_all(boxes.drop_last()).place(b.id, b.w, b.h)
        }
    }

    /// The open space comes first, spans the whole width and begins where the
    /// boxes end. Every other space is bounded and lies above it, within the
    /// width. Each box has left at most one space behind.
    pub open spec fn spaces_in_place(self) -> bool {
        &&& 1 <= self.spaces.len() <= self.items.len() + 1
        &&& self.spaces[0] == (Space { x: 0, y: self.height as u64, w: self.spaces[0].w, h: None })
        &&& 0 <= self.height <= u64::MAX
        &&& forall|i: int|
            1 <= i < self.spaces.len() ==> {
                &&& (#[trigger] self.spaces[i]).bounded()
                &&& self.spaces[i].right() <= self.start_width()
                &&& self.spaces[i].bottom() <= self.height
            }
    }

    /// No two bounded spaces overlap, and no bounded space overlaps a box.
    pub open spec fn spaces_free(self) -> bool {
        &&& forall|i: int, j: int|
            1 <= i < self.spaces.len() && 1 <= j < self.spaces.len() && i != j ==> !spaces_overlap(
                #[trigger] self.spaces[i],
                #[trigger] self.spaces[j],
            )
        &&& forall|i: int, k: int|
            1 <= i < self.spaces.len() && 0 <= k < self.items.len() ==> !space_covers(
                #[trigger] self.spaces[i],
                #[trigger] self.items[k],
            )
    }

    /// The boxes and the bounded spaces together cover the container above the
    /// open space exactly once. Stated by areas: to the left of any column,
    /// their areas add up to the area of the container there.
    pub open spec fn tiled(self) -> bool {
        forall|limit: int|
            0 <= limit ==> #[trigger] boxes_area_within(self.items, limit) + spaces_area_within(
                self.spaces,
                limit,
            ) == clip(self.start_width(), limit) * self.height
    }

    /// What holds of every packer: the boxes lie apart from each other and from
    /// the free spaces, `width` by `height` is the smallest container around
    /// them, it is no wider than the packer was made for, and boxes and spaces
    /// leave no gap.
    pub open spec fn wf(self) -> bool {
        &&& self.spaces_in_place()
        &&& self.spaces_free()
        &&& lie_apart(self.items)
        &&& tightly_bound(self.items, self.width, self.height)
        &&& 0 <= self.width <= self.start_width()
        &&& self.tiled()
    }
}

/// Places items one at a time into a container of a fixed width that grows
/// downwards as far as it must.
pub struct Packer {
    spaces: Vec<Space>,
    items: Vec<Box>,
    width: u64,
    height: u64,
}

impl View for Packer {
    type V = PackerView;

    closed spec fn view(&self) -> PackerView {
        PackerView {
            spaces: self.spaces@,
            items: self.items@,
            width: self.width as int,
            height: self.height as int,
        }
    }
}

impl Packer {
    /// A packer for a container `start_width` wide, with nothing in it.
    pub fn new(start_width: u64) -> (packer: Packer)
        ensures
            packer@ == PackerView::empty(start_width),
            packer@.wf(),
    {
        let mut spaces: Vec<Space> = Vec::new();
        spaces.push(Space { x: 0, y: 0, w: start_width, h: None });
        let packer = Packer { spaces, items: Vec::new(), width: 0, height: 0 };
        proof {
            lemma_empty_wf(start_width);
        }
        packer
    }

    /// Places the item `id` of `w` by `h` into the free space that was added
    /// last among those it fits into, and returns the box it became. Where it
    /// fits into none, nothing changes.
    pub fn place(&mut self, id: usize, w: u64, h: u64) -> (placed: Result<Box, PackError>)
        requires
            old(self)@.wf(),
        ensures
            final(self)@.wf(),
            final(self)@ == old(self)@.place(id, w, h),
            match placed {
                Ok(b) => old(self)@.accepts(w, h) && b == old(self)@.seat(id, w, h),
                Err(e) => !old(self)@.accepts(w, h) && e == PackError::Unplaceable,
            },
    {
        proof {
            lemma_last_fit(self@.spaces, w, h);
            lemma_place_wf(self@, id, w, h);
        }
        match find_space(&self.spaces, w, h) {
            None => Err(PackError::Unplaceable),
            Some(i) => {
                let s: Space = self.spaces[i];
                let b = Box { id, w, h, x: s.x, y: s.y };
                carve_space(&mut self.spaces, i, w, h);
                self.items.push(b);
                let right: u64 = b.x + b.w;
                let bottom: u64 = b.y + b.h;
                if right > self.width {
                    self.width = right;
                }
                if bottom > self.height {
                    self.height = bottom;
                }
                Ok(b)
            },
        }
    }

    /// The width of the smallest container around the boxes placed so far.
    pub fn width(&self) -> (width: u64)
        ensures
            width == self@.width,
    {
        self.width
    }

    /// The height of the smallest container around the boxes placed so far.
    pub fn height(&self) -> (height: u64)
        ensures
            height == self@.height,
    {
        self.height
    }

    /// The number of boxes placed so far.
    pub fn len(&self) -> (len: usize)
        ensures
            len == self@.items.len(),
    {
        self.items.len()
    }

    /// Gives up the packer for its boxes, in the order in which they were
    /// placed.
    pub fn into_items(self) -> (items: Vec<Box>)
        ensures
            items@ == self@.items,
    {
        self.items
    }
}

/// The empty packer is well formed.
pub proof fn lemma_empty_wf(start_width: u64)
    ensures
        PackerView::empty(start_width).wf(),
{
    let v = PackerView::empty(start_width);
    assert forall|limit: int| 0 <= limit implies #[trigger] boxes_area_within(v.items, limit)
        + spaces_area_within(v.spaces, limit) == clip(v.start_width(), limit) * v.height by {
        assert(spaces_area_within(v.spaces.drop_last(), limit) == 0);
        let across = clip(v.start_width(), limit);
        assert(across * v.height == 0) by (nonlinear_arith)
            requires
                v.height == 0,
        ;
    }
}

/// Placing an item keeps the boxes and the free spaces apart: the new box
/// comes out of a free space, and what is left of that space lies beside or
/// below the box.
pub proof fn lemma_place_keeps_apart(v: PackerView, id: usize, w: u64, h: u64)
    requires
        v.spaces_in_place(),
        v.spaces_free(),
        lie_apart(v.items),
        tightly_bound(v.items, v.width, v.height),
        0 <= v.width <= v.start_width(),
        v.accepts(w, h),
    ensures
        ({
            let n = v.place(id, w, h);
            &&& n.spaces_in_place()
            &&& n.spaces_free()
            &&& lie_apart(n.items)
            &&& tightly_bound(n.items, n.width, n.height)
            &&& 0 <= n.width <= n.start_width()
            &&& n.start_width() == v.start_width()
            &&& v.height <= n.height <= v.height + h
        }),
{
    lemma_last_fit(v.spaces, w, h);
    let b = v.seat(id, w, h);
    let n = v.place(id, w, h);
    // The box lies in a free space, or below every box where that space is
    // the open one.
    assert forall|k: int| 0 <= k < v.items.len() implies !boxes_overlap(
        #[trigger] v.items[k],
        b,
    ) by {}
    lemma_new_box_fits_in(v, b, n);
    lemma_spaces_after_cut(v, id, w, h);
}

/// What is left of the space that received the new box lies inside that space
/// and apart from the box; every other space is as it was.
proof fn lemma_spaces_after_cut(v: PackerView, id: usize, w: u64, h: u64)
    requires
        v.spaces_in_place(),
        v.spaces_free(),
        tightly_bound(v.items, v.width, v.height),
        v.accepts(w, h),
    ensures
        ({
            let n = v.place(id, w, h);
            &&& n.spaces_in_place()
            &&& n.spaces_free()
            &&& n.start_width() == v.start_width()
            &&& v.height <= n.height <= v.height + h
        }),
{
    lemma_last_fit(v.spaces, w, h);
    let i = last_fit(v.spaces, w, h).unwrap();
    let s = v.spaces[i];
    let n = v.place(id, w, h);
    let len = v.spaces.len() as int;
    assert forall|k: int| 0 <= k < v.items.len() implies n.items[k] == v.items[k] by {}
    if i == 0 {
        // Every bounded space and every box lies above the open space, and so
        // above what is cut out of it.
        assert forall|a: int| 1 <= a < len implies n.spaces[a] == v.spaces[a] by {}
        if s.w != w {
            let t = s.beside(w, h);
            assert forall|a: int| 1 <= a < len implies !spaces_overlap(
                #[trigger] v.spaces[a],
                t,
            ) && !spaces_overlap(t, v.spaces[a]) by {}
            assert forall|k: int| 0 <= k < v.items.len() implies !space_covers(
                t,
                #[trigger] v.items[k],
            ) by {}
        }
    } else if s.w == w && s.h == Some(h) {
        // The last space takes the place of the one that is filled.
        assert forall|a: int| 1 <= a < len - 1 implies #[trigger] n.spaces[a] == v.spaces[if a
            == i {
            len - 1
        } else {
            a
        }] by {}
    }
}

/// The boxes stay apart and tightly bound when a box joins them that overlaps
/// none of them.
proof fn lemma_new_box_fits_in(v: PackerView, b: Box, n: PackerView)
    requires
        lie_apart(v.items),
        tightly_bound(v.items, v.width, v.height),
        0 <= v.width,
        0 <= v.height,
        forall|k: int| 0 <= k < v.items.len() ==> !boxes_overlap(#[trigger] v.items[k], b),
        n.items == v.items.push(b),
        n.width == if b.right() > v.width { b.right() } else { v.width },
        n.height == if b.bottom() > v.height { b.bottom() } else { v.height },
    ensures
        lie_apart(n.items),
        tightly_bound(n.items, n.width, n.height),
{
    let last = v.items.len() as int;
    assert forall|k: int| 0 <= k < last implies n.items[k] == v.items[k] by {}
    // The box that touches the edge is the new one where it reaches further,
    // else the one that touched it before.
    if b.right() < v.width {
        let k = choose|k: int| 0 <= k < v.items.len() && (#[trigger] v.items[k]).right() == v.width;
        assert(n.items[k].right() == n.width);
    } else {
        assert(n.items[last].right() == n.width);
    }
    if b.bottom() < v.height {
        let k = choose|k: int|
            0 <= k < v.items.len() && (#[trigger] v.items[k]).bottom() == v.height;
        assert(n.items[k].bottom() == n.height);
    } else {
        assert(n.items[last].bottom() == n.height);
    }
}

/// Placing an item leaves no gap and no overlap: to the left of the column
/// `limit`, the box and what is left of its space cover what the space covered.
pub proof fn lemma_place_keeps_tiling(v: PackerView, id: usize, w: u64, h: u64, limit: int)
    requires
        v.spaces_in_place(),
        v.accepts(w, h),
        0 <= limit,
        boxes_area_within(v.items, limit) + spaces_area_within(v.spaces, limit) == clip(
            v.start_width(),
            limit,
        ) * v.height,
    ensures
        ({
            let n = v.place(id, w, h);
            boxes_area_within(n.items, limit) + spaces_area_within(n.spaces, limit) == clip(
                n.start_width(),
                limit,
            ) * n.height
        }),
{
    lemma_last_fit(v.spaces, w, h);
    let i = last_fit(v.spaces, w, h).unwrap();
    let s = v.spaces[i];
    lemma_boxes_area_push(v.items, v.seat(id, w, h), limit);
    // What the box, the rest to its right, and the whole space span left of
    // `limit`: the first two add up to the third.
    let of_box = span_within(s.x as int, s.x + w, limit);
    let of_rest = span_within(s.x + w, s.right(), limit);
    let of_space = span_within(s.x as int, s.right(), limit);
    let lowered = v.spaces.update(i, s.lowered(h));
    lemma_spaces_area_update(v.spaces, i, s.lowered(h), limit);
    if i == 0 {
        // The container grows by the height of the box, over its whole width.
        let across = clip(v.start_width(), limit);
        assert(across * (v.height + h) == across * v.height + of_box * h + of_rest * h)
            by (nonlinear_arith)
            requires
                of_box + of_rest == across,
        ;
        if s.w == w {
            assert(of_rest * h == 0) by (nonlinear_arith)
                requires
                    of_rest == 0,
            ;
        } else {
            lemma_spaces_area_push(lowered, s.beside(w, h), limit);
        }
    } else {
        let depth = s.h.unwrap();
        if s.w == w && s.h == Some(h) {
            // The box covers the space, which leaves the list.
            lemma_spaces_area_update(v.spaces, i, v.spaces.last(), limit);
        } else if s.h == Some(h) {
            // The box and the rest to its right share the depth of the space.
            lemma_spaces_area_update(v.spaces, i, s.narrowed(w), limit);
            assert(of_box * depth + of_rest * depth == of_space * depth) by (nonlinear_arith)
                requires
                    of_box + of_rest == of_space,
            ;
        } else if s.w == w {
            // The box and the rest below it share the width of the space.
            assert(of_space * h + of_space * (depth - h) == of_space * depth) by (nonlinear_arith);
        } else {
            // The box and the rest to its right lie above the rest below them.
            lemma_spaces_area_push(lowered, s.beside(w, h), limit);
            assert(of_box * h + of_rest * h + of_space * (depth - h) == of_space * depth)
                by (nonlinear_arith)
                requires
                    of_box + of_rest == of_space,
            ;
        }
    }
}

/// A well-formed packer has room for every item that is no wider than the
/// packer was made and that ends, put below all boxes, within the range of the
/// coordinates: the open space takes what fits nowhere else.
pub proof fn lemma_open_space_accepts(v: PackerView, w: u64, h: u64)
    requires
        v.wf(),
        w <= v.start_width(),
        v.height + h <= u64::MAX,
    ensures
        v.accepts(w, h),
{
    lemma_last_fit(v.spaces, w, h);
}

/// Placing an item keeps a well-formed packer well formed.
pub proof fn lemma_place_wf(v: PackerView, id: usize, w: u64, h: u64)
    requires
        v.wf(),
    ensures
        v.place(id, w, h).wf(),
        v.place(id, w, h).start_width() == v.start_width(),
        v.height <= v.place(id, w, h).height <= v.height + h,
{
    if v.accepts(w, h) {
        let n = v.place(id, w, h);
        lemma_place_keeps_apart(v, id, w, h);
        assert forall|limit: int| 0 <= limit implies #[trigger] boxes_area_within(n.items, limit)
            + spaces_area_within(n.spaces, limit) == clip(n.start_width(), limit) * n.height by {
            lemma_place_keeps_tiling(v, id, w, h, limit);
        }
    }
}

/// Placing any number of items keeps a well-formed packer well formed, and as
/// wide as it was made.
pub proof fn lemma_place_all_wf(v: PackerView, boxes: Seq<Box>)
    requires
        v.wf(),
    ensures
        v.place_all(boxes).wf(),
        v.place_all(boxes).start_width() == v.start_width(),
    decreases boxes.len(),
{
    if boxes.len() > 0 {
        let b = boxes.last();
        lemma_place_all_wf(v, boxes.drop_last());
        lemma_place_wf(v.place_all(boxes.drop_last()), b.id, b.w, b.h);
    }
}

/// Of the boxes that are placed only the index and the size count: two lists
/// that agree on these lead to the same packer.
pub proof fn lemma_place_all_same_items(v: PackerView, a: Seq<Box>, b: Seq<Box>)
    requires
        a.len() == b.len(),
        forall|k: int| 0 <= k < a.len() ==> (#[trigger] a[k]).same_item(b[k]),
    ensures
        v.place_all(a) == v.place_all(b),
    decreases a.len(),
{
    if a.len() > 0 {
        assert forall|k: int| 0 <= k < a.drop_last().len() implies (
        #[trigger] a.drop_last()[k]).same_item(b.drop_last()[k]) by {}
        lemma_place_all_same_items(v, a.drop_last(), b.drop_last());
    }
}

/// The boxes of a packer cover no more than the smallest container around
/// them.
pub proof fn lemma_area_fits(v: PackerView)
    requires
        v.wf(),
    ensures
        0 <= total_area(v.items) <= v.width * v.height,
{
    lemma_boxes_area_uncut(v.items, v.width);
    lemma_spaces_area_nonnegative(v.spaces, v.width);
    assert(boxes_area_within(v.items, v.width) + spaces_area_within(v.spaces, v.width) == clip(
        v.start_width(),
        v.width,
    ) * v.height);
    lemma_totals_nonnegative(v.items);
}

} // verus!
