use shin::uhi::texturepacker::{
    TexturePacker, Tree, DEFAULT_TEXTURE_HEIGHT, DEFAULT_TEXTURE_WIDTH,
};

#[test]
fn test_insert_child_maybe_after() {
    let mut ntree = Tree::new(0);

    // insert first child / root
    let child1 = ntree.insert_child_maybe_after(ntree.root_index(), None, 1);

    // insert second child after first
    let child2 = ntree.insert_child_maybe_after(ntree.root_index(), Some(child1), 2);
    assert_eq!(ntree.get_node(child2).parent, Some(ntree.root_index()));
    assert_eq!(ntree.get_node(child1).next_sibling, Some(child2));

    // insert third child after second
    let child3 = ntree.insert_child_maybe_after(ntree.root_index(), Some(child2), 3);
    assert_eq!(ntree.get_node(child3).parent, Some(ntree.root_index()));
    assert_eq!(ntree.get_node(child2).next_sibling, Some(child3));
    assert!(ntree.get_node(child3).next_sibling.is_none());
}

#[test]
fn test_insert_exact_fit() {
    let mut packer = TexturePacker::default();

    let maybe_index = packer.insert(DEFAULT_TEXTURE_WIDTH, DEFAULT_TEXTURE_HEIGHT);
    assert!(maybe_index.is_some());

    let index = maybe_index.unwrap();
    let entry = &packer.tree().get_node(index).value;
    assert!(entry.in_use);
    assert_eq!(entry.x, 0);
    assert_eq!(entry.y, 0);
    assert_eq!(entry.w, DEFAULT_TEXTURE_WIDTH);
    assert_eq!(entry.h, DEFAULT_TEXTURE_HEIGHT);
}

#[test]
fn test_insert_too_large() {
    let mut packer = TexturePacker::default();

    let maybe_index = packer.insert(DEFAULT_TEXTURE_WIDTH, DEFAULT_TEXTURE_HEIGHT + 1);
    assert!(maybe_index.is_none());
}

#[test]
fn test_horizontal_split() {
    let mut packer = TexturePacker::default();

    // a rectangle that causes a horizontal split (width difference > height difference)
    let maybe_index1 = packer.insert(400, DEFAULT_TEXTURE_HEIGHT);
    assert!(maybe_index1.is_some());

    // the root should now have two children
    assert!(!packer.is_leaf(packer.tree().root_index()));

    // another rectangle in the remaining space
    let maybe_index2 = packer.insert(400, DEFAULT_TEXTURE_HEIGHT);
    assert!(maybe_index2.is_some());

    assert!(maybe_index1 != maybe_index2);
}

#[test]
fn test_vertical_split() {
    let mut packer = TexturePacker::default();

    // a rectangle that causes a vertical split (height difference > width difference)
    let maybe_index1 = packer.insert(DEFAULT_TEXTURE_WIDTH, 400);
    assert!(maybe_index1.is_some());

    // the root should now have two children
    assert!(!packer.is_leaf(packer.tree().root_index()));

    // another rectangle in the remaining space
    let maybe_index2 = packer.insert(DEFAULT_TEXTURE_WIDTH, 400);
    assert!(maybe_index2.is_some());

    assert!(maybe_index1 != maybe_index2);
}

// ---- further scenarios

#[test]
fn uhi_packed_rects_do_not_overlap() {
    let mut packer = TexturePacker::new(256, 256, 1);
    let mut placed: Vec<(u32, u32, u32, u32)> = Vec::new();
    for (w, h) in [(12, 14), (12, 14), (40, 3), (100, 100), (9, 30), (1, 1)] {
        let index = packer.insert(w, h).expect("room left");
        let e = packer.get(index);
        assert_eq!((e.w, e.h), (w, h));
        assert!(e.x + e.w <= 256 && e.y + e.h <= 256);
        for p in placed.iter() {
            let apart = e.x + e.w <= p.0 || p.0 + p.2 <= e.x || e.y + e.h <= p.1 || p.1 + p.3 <= e.y;
            assert!(apart);
        }
        placed.push((e.x, e.y, e.w, e.h));
    }
    assert_eq!(packer.get_texture_size(), (256, 256));
}

#[test]
fn uhi_vertical_split_keeps_gap() {
    let mut packer = TexturePacker::new(50, 50, 1);
    let a = packer.insert(50, 20).unwrap();
    let b = packer.insert(50, 20).unwrap();
    assert_eq!(packer.get(a).y, 0);
    assert_eq!(packer.get(b).y, 21);
    assert!(packer.insert(50, 10).is_none());
    assert!(packer.insert(50, 9).is_none());
    assert!(packer.insert(50, 8).is_some());
}

#[test]
fn uhi_wide_gap_splits_both_ways() {
    // a gap of 4 pixels; the first leaf is cut along x, then its left part along y
    let mut packer = TexturePacker::new(100, 60, 4);
    let a = packer.insert(30, 20).unwrap();
    assert_eq!((packer.get(a).x, packer.get(a).y, packer.get(a).w, packer.get(a).h), (0, 0, 30, 20));
    // below the first rectangle: 30 wide, 36 high, starting at y = 24
    let b = packer.insert(30, 36).unwrap();
    assert_eq!((packer.get(b).x, packer.get(b).y), (0, 24));
    // right of the first cut: 66 wide, starting at x = 34
    let c = packer.insert(66, 60).unwrap();
    assert_eq!((packer.get(c).x, packer.get(c).y), (34, 0));
    assert!(packer.insert(1, 1).is_none());
}

#[test]
fn uhi_split_remainder_takes_second_insert() {
    let mut packer = TexturePacker::default();
    let a = packer.insert(400, DEFAULT_TEXTURE_HEIGHT).unwrap();
    let b = packer.insert(400, DEFAULT_TEXTURE_HEIGHT).unwrap();
    let ea = &packer.tree().get_node(a).value;
    let eb = &packer.tree().get_node(b).value;
    assert_eq!((ea.x, ea.y, ea.w, ea.h), (0, 0, 400, DEFAULT_TEXTURE_HEIGHT));
    assert_eq!((eb.x, eb.y, eb.w, eb.h), (400, 0, 400, DEFAULT_TEXTURE_HEIGHT));

    let mut packer = TexturePacker::default();
    let a = packer.insert(DEFAULT_TEXTURE_WIDTH, 400).unwrap();
    let b = packer.insert(DEFAULT_TEXTURE_WIDTH, 400).unwrap();
    let ea = &packer.tree().get_node(a).value;
    let eb = &packer.tree().get_node(b).value;
    assert_eq!((ea.x, ea.y, ea.w, ea.h), (0, 0, DEFAULT_TEXTURE_WIDTH, 400));
    assert_eq!((eb.x, eb.y, eb.w, eb.h), (0, 400, DEFAULT_TEXTURE_WIDTH, 400));
}

#[test]
fn uhi_full_packer_refuses_more() {
    let mut packer = TexturePacker::default();
    assert!(packer.insert(DEFAULT_TEXTURE_WIDTH, DEFAULT_TEXTURE_HEIGHT).is_some());
    assert!(packer.insert(1, 1).is_none());
}
