//! Rectangles on the integer grid: placed boxes, free spaces, and what it means
//! for two of them to overlap.

use vstd::prelude::*;

verus! {

/// An item of the caller, named by its index in the caller's list, with its size
/// and the offset of its top-left corner in the container.
#[derive(Debug, Copy, Clone)]
pub struct Box {
    /// The index of the item in the caller's list.
    pub id: usize,
    /// The width.
    pub w: u64,
    /// The height.
    pub h: u64,
    /// The column of the left edge.
    pub x: u64,
    /// The row of the top edge.
    pub y: u64,
}

impl Box {
    /// The area that the box covers.
    pub open spec fn area(self) -> int {
        self.w * self.h
    }

    /// The first column to the right of the box.
    pub open spec fn right(self) -> int {
        self.x + self.w
    }

    /// The first row below the box.
    pub open spec fn bottom(self) -> int {
        self.y + self.h
    }

    /// Both boxes stand for the same item: same index, same size.
    pub open spec fn same_item(self, other: Box) -> bool {
        self.id == other.id && self.w == other.w && self.h == other.h
    }
}

/// A rectangle of the container that no box covers yet. One space of every
/// packer is open at the bottom: its `h` is `None` and it reaches down to the
/// last row that a coordinate can name.
#[derive(Debug, Copy, Clone)]
pub struct Space {
    /// The column of the left edge.
    pub x: u64,
    /// The row of the top edge.
    pub y: u64,
    /// The width.
    pub w: u64,
    /// The height, `None` for the open space.
    pub h: Option<u64>,
}

impl Space {
    /// The space ends at a bottom edge of its own.
    pub open spec fn bounded(self) -> bool {
        self.h is Some
    }

    /// The first column to the right of the space.
    pub open spec fn right(self) -> int {
        self.x + self.w
    }

    /// The first row below a bounded space.
    pub open spec fn bottom(self) -> int
        recommends
            self.bounded(),
    {
        self.y + self.h.unwrap()
    }

    /// The space lies within the range of the coordinates.
    pub open spec fn in_range(self) -> bool {
        self.right() <= u64::MAX && (self.bounded() ==> self.bottom() <= u64::MAX)
    }

    /// An item of `w` by `h` can be put into the top-left corner of the space.
    pub open spec fn fits(self, w: u64, h: u64) -> bool {
        w <= self.w && match self.h {
            Some(depth) => h <= depth,
            None => self.y + h <= u64::MAX,
        }
    }

    /// What is left of the space to the right of an item of width `w` that
    /// fills its whole height.
    pub open spec fn narrowed(self, w: u64) -> Space {
        Space { x: (self.x + w) as u64, y: self.y, w: (self.w - w) as u64, h: self.h }
    }

    /// What is left of the space below an item of height `h`, over the whole
    /// width of the space.
    pub open spec fn lowered(self, h: u64) -> Space {
        Space {
            x: self.x,
            y: (self.y + h) as u64,
            w: self.w,
            h: match self.h {
                Some(depth) => Some((depth - h) as u64),
                None => None,
            },
        }
    }

    /// The part of the space to the right of an item of `w` by `h` in its
    /// top-left corner, as high as the item.
    pub open spec fn beside(self, w: u64, h: u64) -> Space {
        Space { x: (self.x + w) as u64, y: self.y, w: (self.w - w) as u64, h: Some(h) }
    }

    /// Tells whether an item of `w` by `h` can be put into the space.
    pub fn has_room(&self, w: u64, h: u64) -> (r: bool)
        ensures
            r == self.fits(w, h),
    {
        if w > self.w {
            return false;
        }
        match self.h {
            Some(depth) => h <= depth,
            None => h <= u64::MAX - self.y,
        }
    }
}

/// The intervals `[a0, a1)` and `[b0, b1)` share a point.
pub open spec fn spans_meet(a0: int, a1: int, b0: int, b1: int) -> bool {
    a0 < a1 && b0 < b1 && a0 < b1 && b0 < a1
}

/// Two boxes overlap when their interiors share a point. Boxes that only touch
/// along an edge do not overlap, and a box without area overlaps nothing.
pub open spec fn boxes_overlap(a: Box, b: Box) -> bool {
    spans_meet(a.x as int, a.right(), b.x as int, b.right()) && spans_meet(
        a.y as int,
        a.bottom(),
        b.y as int,
        b.bottom(),
    )
}

/// Two bounded spaces share a point of their interiors.
pub open spec fn spaces_overlap(s: Space, t: Space) -> bool
    recommends
        s.bounded(),
        t.bounded(),
{
    spans_meet(s.x as int, s.right(), t.x as int, t.right()) && spans_meet(
        s.y as int,
        s.bottom(),
        t.y as int,
        t.bottom(),
    )
}

/// A bounded space and a box share a point of their interiors.
pub open spec fn space_covers(s: Space, b: Box) -> bool
    recommends
        s.bounded(),
{
    spans_meet(s.x as int, s.right(), b.x as int, b.right()) && spans_meet(
        s.y as int,
        s.bottom(),
        b.y as int,
        b.bottom(),
    )
}

/// No two boxes of the list overlap.
pub open spec fn lie_apart(boxes: Seq<Box>) -> bool {
    forall|j: int, k: int|
        0 <= j < boxes.len() && 0 <= k < boxes.len() && j != k ==> !boxes_overlap(
            #[trigger] boxes[j],
            #[trigger] boxes[k],
        )
}

/// Every box of the list lies inside the container of `width` by `height` whose
/// top-left corner is the origin.
pub open spec fn lie_within(boxes: Seq<Box>, width: int, height: int) -> bool {
    forall|k: int|
        0 <= k < boxes.len() ==> (#[trigger] boxes[k]).right() <= width && boxes[k].bottom()
            <= height
}

/// `width` by `height` is the smallest container that holds every box of the
/// list: nothing sticks out, and unless the list is empty some box touches the
/// right edge and some box touches the bottom edge.
pub open spec fn tightly_bound(boxes: Seq<Box>, width: int, height: int) -> bool {
    &&& lie_within(boxes, width, height)
    &&& boxes.len() == 0 ==> width == 0 && height == 0
    &&& boxes.len() > 0 ==> (exists|k: int| 0 <= k < boxes.len() && (#[trigger] boxes[k]).right() == width)
    &&& boxes.len() > 0 ==> (exists|k: int| 0 <= k < boxes.len() && (#[trigger] boxes[k]).bottom() == height)
}

/// A list of boxes has only one smallest container.
pub proof fn lemma_tight_bound_is_unique(
    boxes: Seq<Box>,
    width: int,
    height: int,
    other_width: int,
    other_height: int,
)
    requires
        tightly_bound(boxes, width, height),
        tightly_bound(boxes, other_width, other_height),
    ensures
        width == other_width,
        height == other_height,
{
}

} // verus!
