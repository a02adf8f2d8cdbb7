use shin::sx::fontservice::{place_glyph_in_pages, TexturePage};
use shin::sx::texturepacker::{
    TexturePacker, Tree, DEFAULT_TEXTURE_HEIGHT, DEFAULT_TEXTURE_WIDTH,
};

#[test]
fn texturepacker_test_insert_child_maybe_after() {
    let mut tree = Tree::new(0);

    // insert first child / root
    let child1 = tree.insert_child_maybe_after(tree.root_index(), None, 1);
    assert_eq!(tree.get(child1).parent, Some(tree.root_index()));
    assert_eq!(tree.get(tree.root_index()).first_child, Some(child1));

    // insert second child after first
    let child2 = tree.insert_child_maybe_after(tree.root_index(), Some(child1), 2);
    assert_eq!(tree.get(child2).parent, Some(tree.root_index()));
    assert_eq!(tree.get(child1).next_sibling, Some(child2));

    // insert third child after second
    let child3 = tree.insert_child_maybe_after(tree.root_index(), Some(child2), 3);
    assert_eq!(tree.get(child3).parent, Some(tree.root_index()));
    assert_eq!(tree.get(child2).next_sibling, Some(child3));
    assert_eq!(tree.get(child3).next_sibling, None);
}

#[test]
fn texturepacker_test_insert_exact_fit() {
    let mut packer = TexturePacker::default();

    let maybe_index = packer.insert(DEFAULT_TEXTURE_WIDTH, DEFAULT_TEXTURE_HEIGHT);
    assert!(maybe_index.is_some());

    let index = maybe_index.unwrap();
    let entry = &packer.tree().get(index).value;
    assert!(entry.in_use);
    assert_eq!(entry.x, 0);
    assert_eq!(entry.y, 0);
    assert_eq!(entry.w, DEFAULT_TEXTURE_WIDTH);
    assert_eq!(entry.h, DEFAULT_TEXTURE_HEIGHT);
}

#[test]
fn texturepacker_test_insert_too_large() {
    let mut packer = TexturePacker::default();

    let maybe_index = packer.insert(DEFAULT_TEXTURE_WIDTH, DEFAULT_TEXTURE_HEIGHT + 1);
    assert!(maybe_index.is_none());
}

#[test]
fn test_insert_horizontal_split() {
    let mut packer = TexturePacker::default();

    // a rectangle that causes a horizontal split (width difference > height difference)
    let maybe_index1 = packer.insert(400, DEFAULT_TEXTURE_HEIGHT);
    assert!(maybe_index1.is_some());

    // the root should now have two children
    assert!(!packer.is_leaf(packer.tree().root_index()));

    // another rectangle in the remaining space
    let maybe_index2 = packer.insert(400, DEFAULT_TEXTURE_HEIGHT);
    assert!(maybe_index2.is_some());

    assert!(maybe_index1 != maybe_index2);
}

#[test]
fn test_insert_vertical_split() {
    let mut packer = TexturePacker::default();

    // a rectangle that causes a vertical split (height difference > width difference)
    let maybe_index1 = packer.insert(DEFAULT_TEXTURE_WIDTH, 400);
    assert!(maybe_index1.is_some());

    // the root should now have two children
    assert!(!packer.is_leaf(packer.tree().root_index()));

    // another rectangle in the remaining space
    let maybe_index2 = packer.insert(DEFAULT_TEXTURE_WIDTH, 400);
    assert!(maybe_index2.is_some());

    assert!(maybe_index1 != maybe_index2);
}

// ---- further scenarios

fn overlaps(a: (u32, u32, u32, u32), b: (u32, u32, u32, u32)) -> bool {
    a.0 < b.0 + b.2 && b.0 < a.0 + a.2 && a.1 < b.1 + b.3 && b.1 < a.1 + a.3
}

#[test]
fn sx_packed_rects_do_not_overlap_and_keep_gap() {
    let mut packer = TexturePacker::new(64, 64, 1);
    let mut placed = Vec::new();
    for (w, h) in [(10, 12), (20, 5), (7, 7), (30, 30), (1, 1), (16, 9)] {
        let index = packer.insert(w, h).expect("room left");
        let e = packer.get_entry(index);
        assert!(e.in_use);
        assert_eq!((e.w, e.h), (w, h));
        assert!(e.x + e.w <= 64 && e.y + e.h <= 64);
        placed.push((e.x, e.y, e.w, e.h));
    }
    for i in 0..placed.len() {
        for j in 0..placed.len() {
            if i != j {
                assert!(!overlaps(placed[i], placed[j]));
            }
        }
    }
}

#[test]
fn sx_first_split_leaves_gap() {
    let mut packer = TexturePacker::new(100, 100, 1);
    let a = packer.insert(40, 100).unwrap();
    let b = packer.insert(40, 100).unwrap();
    assert_eq!(packer.get_entry(a).x, 0);
    // the second rectangle starts after the first one plus the gap
    assert_eq!(packer.get_entry(b).x, 41);
    // 18 pixels are left: too narrow for a third one
    assert!(packer.insert(40, 100).is_none());
    assert!(packer.insert(19, 100).is_none());
    assert!(packer.insert(18, 100).is_some());
}

#[test]
fn sx_packer_accessors() {
    let mut packer = TexturePacker::new(32, 16, 0);
    assert!(packer.is_empty());
    assert_eq!(packer.texture_size(), (32, 16));
    assert!(packer.try_get_entry(1).is_none());
    let index = packer.insert(8, 8).unwrap();
    assert!(!packer.is_empty());
    assert!(packer.try_get_entry(index).is_some());
    let nodes = packer.iter_nodes();
    for (k, (i, _)) in nodes.iter().enumerate() {
        assert_eq!(k, *i);
    }
    let root = packer.tree().root_index();
    let first = packer.tree().get(root).first_child.unwrap();
    assert!(packer.is_left_child(root, first));
    assert!(packer.is_right_child(root, first + 1));
}

#[test]
fn sx_wide_gap_splits() {
    // a gap of 3 pixels: each split leaves 3 pixels between its halves
    let mut packer = TexturePacker::new(100, 100, 3);
    let a = packer.insert(40, 100).unwrap();
    assert_eq!((packer.get_entry(a).x, packer.get_entry(a).y), (0, 0));
    let b = packer.insert(57, 50).unwrap();
    // the right half starts at 43 and is 57 wide; the cut along y leaves 47 below
    assert_eq!((packer.get_entry(b).x, packer.get_entry(b).y), (43, 0));
    let c = packer.insert(57, 47).unwrap();
    assert_eq!((packer.get_entry(c).x, packer.get_entry(c).y), (43, 53));
    assert!(packer.insert(1, 1).is_none());
}

#[test]
fn sx_split_remainder_takes_second_insert() {
    let mut packer = TexturePacker::default();
    let a = packer.insert(400, DEFAULT_TEXTURE_HEIGHT).unwrap();
    let b = packer.insert(400, DEFAULT_TEXTURE_HEIGHT).unwrap();
    let (ea, eb) = (packer.get_entry(a), packer.get_entry(b));
    assert_eq!((ea.x, ea.y, ea.w, ea.h), (0, 0, 400, DEFAULT_TEXTURE_HEIGHT));
    assert_eq!((eb.x, eb.y, eb.w, eb.h), (400, 0, 400, DEFAULT_TEXTURE_HEIGHT));

    let mut packer = TexturePacker::default();
    let a = packer.insert(DEFAULT_TEXTURE_WIDTH, 400).unwrap();
    let b = packer.insert(DEFAULT_TEXTURE_WIDTH, 400).unwrap();
    let (ea, eb) = (packer.get_entry(a), packer.get_entry(b));
    assert_eq!((ea.x, ea.y, ea.w, ea.h), (0, 0, DEFAULT_TEXTURE_WIDTH, 400));
    assert_eq!((eb.x, eb.y, eb.w, eb.h), (0, 400, DEFAULT_TEXTURE_WIDTH, 400));
}

#[test]
fn sx_full_packer_refuses_more() {
    let mut packer = TexturePacker::default();
    assert!(packer.insert(DEFAULT_TEXTURE_WIDTH, DEFAULT_TEXTURE_HEIGHT).is_some());
    assert!(packer.insert(1, 1).is_none());
}

#[test]
fn sx_glyph_goes_into_every_page_with_room_and_the_last_is_kept() {
    let mut full = TexturePacker::new(16, 16, 1);
    full.insert(16, 16).unwrap();
    let mut pages = vec![
        TexturePage { texture_packer: TexturePacker::new(16, 16, 1), texture_handle: 'a' },
        TexturePage { texture_packer: full, texture_handle: 'b' },
        TexturePage { texture_packer: TexturePacker::new(16, 16, 1), texture_handle: 'c' },
        TexturePage { texture_packer: TexturePacker::new(4, 4, 1), texture_handle: 'd' },
    ];
    let (page, node) = place_glyph_in_pages(&mut pages, 8, 8).unwrap();
    assert_eq!(page, 2);
    let e = pages[2].texture_packer.get_entry(node);
    assert_eq!((e.x, e.y, e.w, e.h, e.in_use), (0, 0, 8, 8, true));
    // the first page took a copy too, the full and the small page did not change
    assert_eq!(pages[0].texture_packer.iter_nodes().len(), pages[2].texture_packer.iter_nodes().len());
    assert_eq!(pages[1].texture_packer.iter_nodes().len(), 1);
    assert_eq!(pages[3].texture_packer.iter_nodes().len(), 1);
    assert_eq!(pages.iter().map(|p| p.texture_handle).collect::<String>(), "abcd");

    assert_eq!(place_glyph_in_pages(&mut pages, 16, 16), None);
    let mut none: Vec<TexturePage<()>> = Vec::new();
    assert_eq!(place_glyph_in_pages(&mut none, 1, 1), None);
}
