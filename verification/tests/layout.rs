use sprite_atlas::{Box, Layout, PackError, Ratio, Rect};

fn as_float(ratio: Ratio) -> f64 {
    ratio.num as f64 / ratio.den as f64
}

fn overlap(a: &Box, b: &Box) -> bool {
    let x = a.x.max(b.x) < (a.x + a.w).min(b.x + b.w);
    let y = a.y.max(b.y) < (a.y + a.h).min(b.y + b.h);
    x && y
}

fn box_of(layout: &Layout, id: usize) -> Box {
    let found: Vec<&Box> = layout.items.iter().filter(|b| b.id == id).collect();
    assert_eq!(found.len(), 1, "item {} must appear exactly once", id);
    *found[0]
}

/// Checks what holds of every layout, against the sizes it was made from.
fn check_layout(sizes: &[(u64, u64)], layout: &Layout) {
    assert_eq!(layout.items.len(), sizes.len());
    let mut area: u128 = 0;
    for (id, &(w, h)) in sizes.iter().enumerate() {
        let b = box_of(layout, id);
        assert_eq!((b.w, b.h), (w, h));
        assert!(b.x + b.w <= layout.width);
        assert!(b.y + b.h <= layout.height);
        area += w as u128 * h as u128;
    }
    for (j, a) in layout.items.iter().enumerate() {
        for b in layout.items.iter().skip(j + 1) {
            assert!(!overlap(a, b), "{:?} overlaps {:?}", a, b);
        }
    }
    let placed: u128 = layout.items.iter().map(|b| b.w as u128 * b.h as u128).sum();
    assert_eq!(placed, area);
    let right = layout.items.iter().map(|b| b.x + b.w).max().unwrap_or(0);
    let bottom = layout.items.iter().map(|b| b.y + b.h).max().unwrap_or(0);
    assert_eq!((layout.width, layout.height), (right, bottom));
    if layout.width != 0 && layout.height != 0 {
        assert_eq!(layout.fill_ratio.num, area);
        assert_eq!(layout.fill_ratio.den, layout.width as u128 * layout.height as u128);
    } else {
        assert_eq!((layout.fill_ratio.num, layout.fill_ratio.den), (1, 1));
    }
    assert!(layout.fill_ratio.num <= layout.fill_ratio.den);
    for pair in layout.items.windows(2) {
        let (a, b) = (pair[0], pair[1]);
        assert!(a.h > b.h || (a.h == b.h && a.id < b.id));
    }
}

#[test]
fn empty_input_gives_empty_layout() {
    let layout = Layout::new(Vec::<(u64, u64)>::new()).unwrap();
    assert_eq!(layout.width, 0);
    assert_eq!(layout.height, 0);
    assert_eq!(as_float(layout.fill_ratio), 1.0);
    assert!(layout.items.is_empty());
}

#[test]
fn single_item_fills_its_container() {
    let layout = Layout::new(vec![(10u64, 10u64)]).unwrap();
    assert_eq!(layout.width, 10);
    assert_eq!(layout.height, 10);
    assert_eq!(as_float(layout.fill_ratio), 1.0);
    assert_eq!(layout.items.len(), 1);
    let b = layout.items[0];
    assert_eq!((b.id, b.x, b.y, b.w, b.h), (0, 0, 0, 10, 10));
}

#[test]
fn two_equal_squares_are_stacked() {
    let layout = Layout::new(vec![(10u64, 10u64), (10, 10)]).unwrap();
    assert_eq!(layout.width, 10);
    assert_eq!(layout.height, 20);
    assert_eq!(as_float(layout.fill_ratio), 1.0);
    let first = box_of(&layout, 0);
    let second = box_of(&layout, 1);
    assert_eq!((first.x, first.y), (0, 0));
    assert_eq!((second.x, second.y), (0, 10));
}

#[test]
fn tall_and_wide_items_do_not_overlap() {
    let sizes = [(5u64, 20u64), (20, 5)];
    let layout = Layout::new(sizes.to_vec()).unwrap();
    check_layout(&sizes, &layout);
    let tall = box_of(&layout, 0);
    let wide = box_of(&layout, 1);
    assert_eq!(layout.items[0].id, 0);
    assert_eq!((tall.x, tall.y), (0, 0));
    assert_eq!((wide.x, wide.y), (0, 20));
    assert_eq!((layout.width, layout.height), (20, 25));
    assert_eq!(layout.fill_ratio.num, 200);
    assert_eq!(layout.fill_ratio.den, 500);
    assert_eq!(as_float(layout.fill_ratio), 200.0 / (20.0 * 25.0));
}

#[test]
fn leftover_space_beside_a_box_is_used() {
    // The second item goes beside the first, into what the split left over.
    let sizes = [(10u64, 10u64), (2, 4), (2, 4)];
    let layout = Layout::new(sizes.to_vec()).unwrap();
    check_layout(&sizes, &layout);
    let a = box_of(&layout, 1);
    let b = box_of(&layout, 2);
    assert_eq!((a.x, a.y), (10, 0));
    assert_eq!((b.x, b.y), (10, 4));
    assert_eq!((layout.width, layout.height), (12, 10));
}

#[test]
fn items_come_back_highest_first() {
    let sizes = [(3u64, 1u64), (3, 7), (3, 4), (3, 7)];
    let layout = Layout::new(sizes.to_vec()).unwrap();
    let ids: Vec<usize> = layout.items.iter().map(|b| b.id).collect();
    assert_eq!(ids, vec![1, 3, 2, 0]);
    check_layout(&sizes, &layout);
}

#[test]
fn every_id_appears_once() {
    let sizes: Vec<(u64, u64)> = (0..40u64).map(|i| (1 + i % 7, 1 + (i * 5) % 11)).collect();
    let layout = Layout::new(sizes.clone()).unwrap();
    let mut ids: Vec<usize> = layout.items.iter().map(|b| b.id).collect();
    ids.sort();
    assert_eq!(ids, (0..40).collect::<Vec<usize>>());
    check_layout(&sizes, &layout);
}

#[test]
fn many_layouts_keep_their_promises() {
    let mut state: u64 = 0x2545_f491_4f6c_dd1d;
    let mut next = move |bound: u64| {
        state ^= state << 13;
        state ^= state >> 7;
        state ^= state << 17;
        state % bound
    };
    for round in 0..200 {
        let count = next(30) as usize;
        let sizes: Vec<(u64, u64)> = (0..count)
            .map(|_| if round % 5 == 0 { (next(6), next(6)) } else { (1 + next(64), 1 + next(64)) })
            .collect();
        let layout = Layout::new(sizes.clone()).unwrap();
        check_layout(&sizes, &layout);
    }
}

#[test]
fn items_without_area_are_placed_too() {
    let sizes = [(5u64, 0u64), (0, 5), (0, 0), (4, 4)];
    let layout = Layout::new(sizes.to_vec()).unwrap();
    check_layout(&sizes, &layout);
}

#[test]
fn only_degenerate_items_count_as_full() {
    let sizes = [(7u64, 0u64), (3, 0)];
    let layout = Layout::new(sizes.to_vec()).unwrap();
    check_layout(&sizes, &layout);
    assert_eq!(layout.height, 0);
    assert_eq!(as_float(layout.fill_ratio), 1.0);
}

#[test]
fn area_beyond_range_is_invalid() {
    let packed = Layout::new(vec![(u64::MAX, 2u64)]);
    assert_eq!(packed.unwrap_err(), PackError::InvalidDimension);
    let packed = Layout::new(vec![(1u64 << 32, 1u64 << 32)]);
    assert_eq!(packed.unwrap_err(), PackError::InvalidDimension);
}

#[test]
fn height_beyond_range_is_invalid() {
    let packed = Layout::new(vec![(0u64, u64::MAX), (0, 1)]);
    assert_eq!(packed.unwrap_err(), PackError::InvalidDimension);
}

#[test]
fn largest_usable_sizes_are_packed() {
    let sizes = [(1u64, u64::MAX - 1), (1, 1)];
    let layout = Layout::new(sizes.to_vec()).unwrap();
    check_layout(&sizes, &layout);
    let sizes = [(u64::MAX, 1u64)];
    let layout = Layout::new(sizes.to_vec()).unwrap();
    check_layout(&sizes, &layout);
    assert_eq!(layout.width, u64::MAX);
}

#[test]
fn items_by_id_follow_the_input() {
    let sizes = [(3u64, 1u64), (3, 7), (3, 4), (3, 7)];
    let layout = Layout::new(sizes.to_vec()).unwrap();
    let boxes = layout.items_by_id().unwrap();
    assert_eq!(boxes.len(), 4);
    for (id, b) in boxes.iter().enumerate() {
        assert_eq!(b.id, id);
        assert_eq!((b.w, b.h), sizes[id]);
        let same = box_of(&layout, id);
        assert_eq!((b.x, b.y), (same.x, same.y));
    }
    let empty = Layout::new(Vec::<(u64, u64)>::new()).unwrap();
    assert!(empty.items_by_id().unwrap().is_empty());
}

#[test]
fn items_by_id_refuse_a_broken_layout() {
    let mut layout = Layout::new(vec![(1u64, 1u64), (2, 2)]).unwrap();
    layout.items[0].id = 1;
    layout.items[1].id = 1;
    assert!(layout.items_by_id().is_none());
    layout.items[0].id = 2;
    assert!(layout.items_by_id().is_none());
    layout.items[0].id = 0;
    assert!(layout.items_by_id().is_some());
}

struct Sprite {
    name: &'static str,
    side: u64,
}

impl Rect for Sprite {
    fn width(&self) -> u64 {
        self.side
    }

    fn height(&self) -> u64 {
        self.side + self.name.len() as u64
    }
}

#[test]
fn any_rect_can_be_packed() {
    let layout =
        Layout::new(vec![Sprite { name: "a", side: 3 }, Sprite { name: "bcd", side: 2 }]).unwrap();
    check_layout(&[(3, 4), (2, 5)], &layout);
    assert_eq!(layout.items[0].id, 1);
}

#[test]
fn start_width_is_the_padded_root_or_the_widest_item() {
    // Area 200 asks for a side of 15, so two boxes of 7 stand side by side.
    let layout = Layout::new(vec![(7u64, 10u64), (7, 10), (1, 60)]).unwrap();
    assert_eq!(layout.width, 15);
    // The widest item asks for more than the area does.
    let layout = Layout::new(vec![(40u64, 1u64), (20, 1), (20, 1)]).unwrap();
    assert_eq!((layout.width, layout.height), (40, 2));
    assert_eq!((layout.fill_ratio.num, layout.fill_ratio.den), (80, 80));
}

#[test]
fn no_two_boxes_overlap() {
    let sizes = [(8u64, 8u64), (8, 8), (4, 4), (4, 4), (4, 4), (2, 9), (9, 2), (1, 1)];
    let layout = Layout::new(sizes.to_vec()).unwrap();
    for (j, a) in layout.items.iter().enumerate() {
        for b in layout.items.iter().skip(j + 1) {
            assert!(!overlap(a, b));
        }
    }
}

#[test]
fn every_box_lies_in_the_container() {
    let sizes = [(8u64, 8u64), (8, 8), (4, 4), (4, 4), (4, 4), (2, 9), (9, 2), (1, 1)];
    let layout = Layout::new(sizes.to_vec()).unwrap();
    for b in layout.items.iter() {
        assert!(b.x + b.w <= layout.width);
        assert!(b.y + b.h <= layout.height);
    }
}

#[test]
fn fill_ratio_is_at_most_one() {
    let sizes = [(8u64, 8u64), (8, 8), (4, 4), (4, 4), (4, 4), (2, 9), (9, 2), (1, 1)];
    let layout = Layout::new(sizes.to_vec()).unwrap();
    assert!(layout.fill_ratio.num <= layout.fill_ratio.den);
    assert!(as_float(layout.fill_ratio) <= 1.0);
    assert!(as_float(layout.fill_ratio) > 0.0);
}

#[test]
fn sizes_and_area_are_kept() {
    let sizes = [(8u64, 8u64), (8, 8), (4, 4), (4, 4), (4, 4), (2, 9), (9, 2), (1, 1)];
    let layout = Layout::new(sizes.to_vec()).unwrap();
    for b in layout.items.iter() {
        assert_eq!((b.w, b.h), sizes[b.id]);
    }
    let area: u64 = layout.items.iter().map(|b| b.w * b.h).sum();
    assert_eq!(area, 64 + 64 + 16 + 16 + 16 + 18 + 18 + 1);
    assert_eq!(layout.fill_ratio.num, area as u128);
}

#[test]
fn packing_twice_gives_the_same_layout() {
    let sizes = [(8u64, 8u64), (8, 8), (4, 4), (4, 4), (4, 4), (2, 9), (9, 2), (1, 1)];
    let a = Layout::new(sizes.to_vec()).unwrap();
    let b = Layout::new(sizes.to_vec()).unwrap();
    assert_eq!((a.width, a.height), (b.width, b.height));
    let offsets = |layout: &Layout| -> Vec<(usize, u64, u64)> {
        layout.items.iter().map(|b| (b.id, b.x, b.y)).collect()
    };
    assert_eq!(offsets(&a), offsets(&b));
}

/// The same packing worked out in floating point, with a free space that is
/// as deep as a float can say: for whole sizes it must agree with the library.
fn pack_in_floats(sizes: &[(f64, f64)]) -> (f64, f64, f64, Vec<(usize, f64, f64)>) {
    let total: f64 = sizes.iter().map(|s| s.0 * s.1).sum();
    let widest = sizes.iter().map(|s| s.0).fold(f64::NEG_INFINITY, f64::max);
    let mut order: Vec<usize> = (0..sizes.len()).collect();
    order.sort_by(|&a, &b| sizes[b].1.partial_cmp(&sizes[a].1).unwrap());
    let start = (total / 0.95).sqrt().ceil().max(widest);
    // Each space is (x, y, w, h).
    let mut spaces = vec![(0.0f64, 0.0f64, start, f64::MAX)];
    let (mut width, mut height) = (0.0f64, 0.0f64);
    let mut placed = Vec::new();
    for id in order {
        let (w, h) = sizes[id];
        let found = (0..spaces.len()).rev().find(|&i| w <= spaces[i].2 && h <= spaces[i].3);
        let i = found.expect("the open space takes every item");
        let (x, y, sw, sh) = spaces[i];
        placed.push((id, x, y));
        width = width.max(x + w);
        height = height.max(y + h);
        if w == sw && h == sh {
            spaces.swap_remove(i);
        } else if h == sh {
            spaces[i] = (x + w, y, sw - w, sh);
        } else if w == sw {
            spaces[i] = (x, y + h, sw, sh - h);
        } else {
            spaces[i] = (x, y + h, sw, sh - h);
            spaces.push((x + w, y, sw - w, h));
        }
    }
    let fill = if width != 0.0 && height != 0.0 { total / (width * height) } else { 1.0 };
    (width, height, fill, placed)
}

#[test]
fn whole_sizes_pack_as_they_do_in_floating_point() {
    let mut state: u64 = 0x9e37_79b9_7f4a_7c15;
    let mut next = move |bound: u64| {
        state ^= state << 13;
        state ^= state >> 7;
        state ^= state << 17;
        state % bound
    };
    for round in 0..300 {
        let count = next(40) as usize;
        let sizes: Vec<(u64, u64)> = (0..count)
            .map(|_| match round % 3 {
                0 => (next(5), next(5)),
                1 => (1 + next(16), 1 + next(16)),
                _ => (1 + next(500), 1 + next(500)),
            })
            .collect();
        let floats: Vec<(f64, f64)> = sizes.iter().map(|s| (s.0 as f64, s.1 as f64)).collect();
        let (width, height, fill, placed) = pack_in_floats(&floats);
        let layout = Layout::new(sizes).unwrap();
        assert_eq!((layout.width as f64, layout.height as f64), (width, height));
        assert_eq!(as_float(layout.fill_ratio), fill);
        let offsets: Vec<(usize, f64, f64)> =
            layout.items.iter().map(|b| (b.id, b.x as f64, b.y as f64)).collect();
        assert_eq!(offsets, placed);
    }
}
