//! The list of free spaces: which space receives an item, and what the list
//! looks like afterwards.

use vstd::prelude::*;
use crate::geometry::Space;

verus! {

/// The index of the space that receives an item of `w` by `h`: the last space
/// of the list that the item fits into, `None` where it fits into none. The
/// spaces added last are the small leftovers, so they are tried first.
pub open spec fn last_fit(spaces: Seq<Space>, w: u64, h: u64) -> Option<int>
    decreases spaces.len(),
{
    if spaces.len() == 0 {
        None
    } else if spaces.last().fits(w, h) {
        Some(spaces.len() - 1)
    } else {
        last_fit(spaces.drop_last(), w, h)
    }
}

/// The list after the removal of the space at `i`, whose place the last space
/// takes.
pub open spec fn without(spaces: Seq<Space>, i: int) -> Seq<Space> {
    spaces.update(i, spaces.last()).drop_last()
}

/// The list after an item of `w` by `h` went into the top-left corner of the
/// space at `i`.
///
/// - The item fills the space: the space leaves the list.
/// - The item is as high as the space: the space keeps what is to the right of
///   the item.
/// - The item is as wide as the space: the space keeps what is below the item.
/// - Otherwise the space keeps what is below the item, over its whole width,
///   and a new space for what is to the right of the item joins the end of the
///   list.
pub open spec fn carve(spaces: Seq<Space>, i: int, w: u64, h: u64) -> Seq<Space> {
    let s = spaces[i];
    if s.w == w && s.h == Some(h) {
        without(spaces, i)
    } else if s.h == Some(h) {
        spaces.update(i, s.narrowed(w))
    } else if s.w == w {
        spaces.update(i, s.lowered(h))
    } else {
        spaces.update(i, s.lowered(h)).push(s.beside(w, h))
    }
}

/// `last_fit` names a space that the item fits into, with no such space behind
/// it, and names none only where there is none.
pub proof fn lemma_last_fit(spaces: Seq<Space>, w: u64, h: u64)
    ensures
        match last_fit(spaces, w, h) {
            Some(i) => {
                &&& 0 <= i < spaces.len()
                &&& spaces[i].fits(w, h)
                &&& forall|j: int| i < j < spaces.len() ==> !(#[trigger] spaces[j]).fits(w, h)
            },
            None => forall|j: int| 0 <= j < spaces.len() ==> !(#[trigger] spaces[j]).fits(w, h),
        },
    decreases spaces.len(),
{
    if spaces.len() > 0 && !spaces.last().fits(w, h) {
        let front = spaces.drop_last();
        lemma_last_fit(front, w, h);
        // What holds of the front of the list holds of the list.
        assert forall|j: int| 0 <= j < front.len() implies front[j] == spaces[j] by {}
    }
}

/// A space that the item fits into, with none behind it, is the one that
/// `last_fit` names.
pub proof fn lemma_last_fit_is(spaces: Seq<Space>, w: u64, h: u64, i: int)
    requires
        0 <= i < spaces.len(),
        spaces[i].fits(w, h),
        forall|j: int| i < j < spaces.len() ==> !(#[trigger] spaces[j]).fits(w, h),
    ensures
        last_fit(spaces, w, h) == Some(i),
    decreases spaces.len(),
{
    if i < spaces.len() - 1 {
        lemma_last_fit_is(spaces.drop_last(), w, h, i);
    }
}

/// Where the item fits into no space, `last_fit` names none.
pub proof fn lemma_last_fit_none(spaces: Seq<Space>, w: u64, h: u64)
    requires
        forall|j: int| 0 <= j < spaces.len() ==> !(#[trigger] spaces[j]).fits(w, h),
    ensures
        last_fit(spaces, w, h) is None,
    decreases spaces.len(),
{
    if spaces.len() > 0 {
        lemma_last_fit_none(spaces.drop_last(), w, h);
    }
}

/// Finds the space that receives an item of `w` by `h`, looking from the end of
/// the list towards its start.
pub fn find_space(spaces: &Vec<Space>, w: u64, h: u64) -> (found: Option<usize>)
    ensures
        match found {
            Some(i) => last_fit(spaces@, w, h) == Some(i as int),
            None => last_fit(spaces@, w, h) is None,
        },
{
    let mut i: usize = spaces.len();
    while i > 0
        invariant
            i <= spaces.len(),
            forall|j: int| i <= j < spaces.len() ==> !(#[trigger] spaces@[j]).fits(w, h),
        decreases i,
    {
        i -= 1;
        if spaces[i].has_room(w, h) {
            proof {
                lemma_last_fit_is(spaces@, w, h, i as int);
            }
            return Some(i);
        }
    }
    proof {
        lemma_last_fit_none(spaces@, w, h);
    }
    None
}

/// Takes an item of `w` by `h` out of the top-left corner of the space at `i`.
pub fn carve_space(spaces: &mut Vec<Space>, i: usize, w: u64, h: u64)
    requires
        i < old(spaces).len(),
        old(spaces)[i as int].in_range(),
        old(spaces)[i as int].fits(w, h),
    ensures
        final(spaces)@ == carve(old(spaces)@, i as int, w, h),
{
    let s: Space = spaces[i];
    let same_width: bool = s.w == w;
    match s.h {
        Some(depth) => {
            if depth == h {
                if same_width {
                    spaces.swap_remove(i);
                } else {
                    spaces.set(i, Space { x: s.x + w, y: s.y, w: s.w - w, h: s.h });
                }
            } else {
                spaces.set(i, Space { x: s.x, y: s.y + h, w: s.w, h: Some(depth - h) });
                if !same_width {
                    spaces.push(Space { x: s.x + w, y: s.y, w: s.w - w, h: Some(h) });
                }
            }
        },
        None => {
            spaces.set(i, Space { x: s.x, y: s.y + h, w: s.w, h: None });
            if !same_width {
                spaces.push(Space { x: s.x + w, y: s.y, w: s.w - w, h: Some(h) });
            }
        },
    }
}

} // verus!
