//! Texture packing with a binary split tree.
//!
//! The packer never removes or replaces textures: it packs rectangles as tightly as it can by
//! splitting free leaves of a tree whose root covers the whole texture. A rectangle is placed
//! into the first free leaf (in depth-first, left-to-right order) that can hold it; the leaf is
//! split along the axis with more room to spare until a leaf of exactly the requested size
//! remains.
use vstd::prelude::*;

verus! {

/// A node of a [`Tree`]: its value and the indices of its relatives.
#[derive(Debug)]
#[non_exhaustive]
pub struct Node<T> {
    pub value: T,
    pub parent: Option<usize>,
    pub first_child: Option<usize>,
    pub next_sibling: Option<usize>,
}

impl<T> Node<T> {
    fn new(value: T) -> (r: Self)
        ensures
            r.value == value,
            r.parent is None,
            r.first_child is None,
            r.next_sibling is None,
    {
        Self { value: value, parent: None, first_child: None, next_sibling: None }
    }
}

/// An n-way tree stored in a vector of slots; children are linked through `first_child` and
/// `next_sibling`, and slots listed in `free_indices` are reused before the vector grows.
#[derive(Debug)]
pub struct Tree<T> {
    nodes: Vec<Option<Node<T>>>,
    root_index: usize,
    free_indices: Vec<usize>,
}

impl<T> Tree<T> {
    /// The slots of the tree.
    pub closed spec fn slots(&self) -> Seq<Option<Node<T>>> {
        self.nodes@
    }

    /// Index of the root.
    pub closed spec fn root(&self) -> int {
        self.root_index as int
    }

    /// Slots waiting for reuse, the last one first.
    pub closed spec fn free_slots(&self) -> Seq<usize> {
        self.free_indices@
    }

    /// Slot `i` holds a node.
    pub open spec fn has(&self, i: int) -> bool {
        0 <= i < self.slots().len() && self.slots()[i] is Some
    }

    /// The node in slot `i`.
    pub open spec fn node(&self, i: int) -> Node<T> {
        self.slots()[i]->Some_0
    }

    /// The root exists and every free slot is an empty slot of the tree.
    pub open spec fn wf(&self) -> bool {
        &&& self.has(self.root())
        &&& forall|k: int|
            0 <= k < self.free_slots().len() ==> #[trigger] self.free_slots()[k] < self.slots().len()
                && self.slots()[self.free_slots()[k] as int] is None
        &&& self.free_slots().no_duplicates()
    }

    /// The slot the next insertion fills: the last free slot, or a new one at the end.
    pub open spec fn next_slot(&self) -> int {
        if self.free_slots().len() > 0 {
            self.free_slots().last() as int
        } else {
            self.slots().len() as int
        }
    }

    /// A tree holding `value` at its root.
    pub fn new(value: T) -> (r: Self)
        ensures
            r.wf(),
            r.root() == 0,
            r.slots().len() == 1,
            r.node(0).value == value,
            r.node(0).parent is None,
            r.node(0).first_child is None,
            r.node(0).next_sibling is None,
            r.free_slots().len() == 0,
    {
        let mut nodes = Vec::new();
        nodes.push(Some(Node::new(value)));
        Self { nodes, root_index: 0, free_indices: Vec::new() }
    }

    /// Index of the root.
    pub fn root_index(&self) -> (r: usize)
        ensures
            r == self.root(),
    {
        self.root_index
    }

    /// The node at `index`, if that slot holds one.
    pub fn try_get(&self, index: usize) -> (r: Option<&Node<T>>)
        ensures
            r is Some <==> self.has(index as int),
            r matches Some(n) ==> *n == self.node(index as int),
    {
        if index < self.nodes.len() {
            match &self.nodes[index] {
                Some(node) => Some(node),
                None => None,
            }
        } else {
            None
        }
    }

    /// The node at `index`.
    pub fn get(&self, index: usize) -> (r: &Node<T>)
        requires
            self.has(index as int),
        ensures
            *r == self.node(index as int),
    {
        match &self.nodes[index] {
            Some(node) => node,
            None => unreached(),
        }
    }

    /// Present nodes with their indices, in index order.
    pub fn iter(&self) -> (r: Vec<(usize, &Node<T>)>)
        ensures
            forall|k: int|
                0 <= k < r@.len() ==> self.has(#[trigger] r@[k].0 as int) && *r@[k].1 == self.node(
                    r@[k].0 as int,
                ),
            forall|a: int, b: int| 0 <= a < b < r@.len() ==> r@[a].0 < r@[b].0,
            forall|i: int| #[trigger] self.has(i) ==> exists|k: int| 0 <= k < r@.len() && r@[k].0 == i,
    {
        let mut out: Vec<(usize, &Node<T>)> = Vec::new();
        let mut i: usize = 0;
        while i < self.nodes.len()
            invariant
                i <= self.slots().len(),
                forall|k: int|
                    0 <= k < out@.len() ==> self.has(#[trigger] out@[k].0 as int) && *out@[k].1
                        == self.node(out@[k].0 as int) && out@[k].0 < i,
                forall|a: int, b: int| 0 <= a < b < out@.len() ==> out@[a].0 < out@[b].0,
                forall|j: int|
                    0 <= j < i && #[trigger] self.has(j) ==> exists|k: int|
                        0 <= k < out@.len() && out@[k].0 == j,
            decreases self.slots().len() - i,
        {
            match &self.nodes[i] {
                Some(node) => {
                    let ghost before = out@;
                    out.push((i, node));
                    proof {
                        assert forall|j: int| 0 <= j < i + 1 && #[trigger] self.has(j) implies exists|k: int|
                            0 <= k < out@.len() && out@[k].0 == j by {
                            if j == i {
                                assert(out@[before.len() as int].0 == j);
                            } else {
                                let k0 = choose|k: int| 0 <= k < before.len() && before[k].0 == j;
                                assert(out@[k0].0 == j);
                            }
                        }
                    }
                },
                None => {},
            }
            i += 1;
        }
        out
    }

    /// Links a new node holding `child_value` under `parent_index`: right after the sibling
    /// `maybe_after_index` when given, as the first child otherwise. Returns its index.
    pub fn insert_child_maybe_after(
        &mut self,
        parent_index: usize,
        maybe_after_index: Option<usize>,
        child_value: T,
    ) -> (r: usize)
        requires
            old(self).wf(),
            maybe_after_index matches Some(a) ==> old(self).has(a as int),
            maybe_after_index is None ==> old(self).has(parent_index as int),
        ensures
            final(self).wf(),
            final(self).root() == old(self).root(),
            r == old(self).next_slot(),
            final(self).free_slots() == (if old(self).free_slots().len() > 0 {
                old(self).free_slots().drop_last()
            } else {
                old(self).free_slots()
            }),
            final(self).slots().len() == (if old(self).free_slots().len() > 0 {
                old(self).slots().len()
            } else {
                old(self).slots().len() + 1
            }),
            final(self).has(r as int),
            final(self).node(r as int).value == child_value,
            final(self).node(r as int).parent == Some(parent_index),
            final(self).node(r as int).first_child is None,
            match maybe_after_index {
                Some(a) => {
                    &&& final(self).node(r as int).next_sibling == old(self).node(a as int).next_sibling
                    &&& final(self).node(a as int).value == old(self).node(a as int).value
                    &&& final(self).node(a as int).parent == old(self).node(a as int).parent
                    &&& final(self).node(a as int).first_child == old(self).node(a as int).first_child
                    &&& final(self).node(a as int).next_sibling == Some(r)
                    &&& final(self).has(a as int)
                    &&& forall|i: int|
                        0 <= i < old(self).slots().len() && i != a && i != r
                            ==> #[trigger] final(self).slots()[i] == old(self).slots()[i]
                },
                None => {
                    &&& final(self).node(r as int).next_sibling == old(self).node(
                        parent_index as int,
                    ).first_child
                    &&& final(self).node(parent_index as int).value == old(self).node(
                        parent_index as int,
                    ).value
                    &&& final(self).node(parent_index as int).parent == old(self).node(
                        parent_index as int,
                    ).parent
                    &&& final(self).node(parent_index as int).next_sibling == old(self).node(
                        parent_index as int,
                    ).next_sibling
                    &&& final(self).node(parent_index as int).first_child == Some(r)
                    &&& final(self).has(parent_index as int)
                    &&& forall|i: int|
                        0 <= i < old(self).slots().len() && i != parent_index && i != r
                            ==> #[trigger] final(self).slots()[i] == old(self).slots()[i]
                },
            },
    {
        let child_index = match self.free_indices.pop() {
            Some(index) => index,
            None => {
                let ret = self.nodes.len();
                self.nodes.push(None);
                ret
            },
        };
        proof {
            if old(self).free_slots().len() > 0 {
                assert(old(self).free_slots()[old(self).free_slots().len() - 1] == child_index);
                assert forall|k: int| 0 <= k < self.free_slots().len() implies #[trigger] self.free_slots()[k] != child_index by {
                    assert(old(self).free_slots()[k] == self.free_slots()[k]);
                }
            }
        }
        let mut child_node = Node::new(child_value);
        child_node.parent = Some(parent_index);
        match maybe_after_index {
            Some(after_index) => {
                let after_node = self.get_mut(after_index);
                child_node.next_sibling = after_node.next_sibling;
                after_node.next_sibling = Some(child_index);
            },
            None => {
                let parent_node = self.get_mut(parent_index);
                child_node.next_sibling = parent_node.first_child;
                parent_node.first_child = Some(child_index);
            },
        }
        self.nodes.set(child_index, Some(child_node));
        child_index
    }

    /// The node at `index`, for modification, if that slot holds one.
    pub fn try_get_mut(&mut self, index: usize) -> (r: Option<&mut Node<T>>)
        ensures
            r is Some <==> old(self).has(index as int),
            final(self).root() == old(self).root(),
            final(self).free_slots() == old(self).free_slots(),
            r matches Some(n) ==> *n == old(self).node(index as int) && final(self).slots()
                == old(self).slots().update(index as int, Some(*final(n))),
            r is None ==> final(self).slots() == old(self).slots(),
    {
        if index < self.nodes.len() {
            self.nodes[index].as_mut()
        } else {
            None
        }
    }

    /// The node at `index`, for modification.
    pub fn get_mut(&mut self, index: usize) -> (r: &mut Node<T>)
        requires
            old(self).has(index as int),
        ensures
            *r == old(self).node(index as int),
            final(self).root() == old(self).root(),
            final(self).free_slots() == old(self).free_slots(),
            final(self).slots() == old(self).slots().update(index as int, Some(*final(r))),
    {
        self.nodes[index].as_mut().unwrap()
    }
}

/// Width of the texture a default packer manages.
pub const DEFAULT_TEXTURE_WIDTH: u32 = 1024;

/// Height of the texture a default packer manages.
pub const DEFAULT_TEXTURE_HEIGHT: u32 = 1024;

/// A rectangle of the texture and whether a texture was placed into it.
#[derive(Debug)]
pub struct TexturePackerEntry {
    pub x: u32,
    pub y: u32,
    pub w: u32,
    pub h: u32,
    pub in_use: bool,
}

/// `inner` lies within `outer`.
pub open spec fn rect_within(inner: TexturePackerEntry, outer: TexturePackerEntry) -> bool {
    &&& outer.x <= inner.x
    &&& outer.y <= inner.y
    &&& inner.x + inner.w <= outer.x + outer.w
    &&& inner.y + inner.h <= outer.y + outer.h
}

/// Cutting a `w` by `h` rectangle out of the free rectangle `e` never runs out of room: every
/// split it takes (first along the axis with more room to spare, then along the other one)
/// leaves at least `gap` pixels beside the cut.
pub open spec fn split_ok(e: TexturePackerEntry, w: int, h: int, gap: int) -> bool {
    let dw = e.w - w;
    let dh = e.h - h;
    if dw == 0 && dh == 0 {
        true
    } else if dw > dh {
        dw >= gap && (dh == 0 || dh >= gap)
    } else {
        dh >= gap && (dw == 0 || dw >= gap)
    }
}

/// The parent, first child and next sibling of node `j`.
pub open spec fn links_of(p: TexturePacker, j: int) -> (Option<usize>, Option<usize>, Option<usize>) {
    (p.parent_of(j), p.first_child_of(j), p.next_sibling_of(j))
}

/// What cutting a `w` by `h` rectangle out of the free leaf `f` did, ending in node `k`: the
/// leaf is marked used when the rectangle fills it exactly; otherwise it is split along the
/// axis with more room to spare into the rectangle's strip (node `n`) and the remainder beyond
/// the gap (node `n + 1`), and the strip, unless it already fits exactly, is split once more
/// along the other axis into the rectangle (node `n + 2`) and the rest of the strip (node
/// `n + 3`), `n` being the number of nodes before. The new nodes are leaves but for a strip
/// that is split again, and each pair of them are the two children of the node they were cut
/// from. Every other node keeps its rectangle and its links.
pub open spec fn split_result(old: TexturePacker, new: TexturePacker, f: int, k: int, w: int, h: int) -> bool {
    let e = old.entry(f);
    let n = old.node_count() as int;
    let g = old.gap_size() as int;
    let fu = f as usize;
    let nu = n as usize;
    &&& forall|j: int|
        0 <= j < n && j != f ==> #[trigger] new.entry(j) == old.entry(j) && links_of(new, j)
            == links_of(old, j)
    &&& if e.w == w && e.h == h {
        &&& k == f
        &&& new.node_count() == n
        &&& new.entry(f) == (TexturePackerEntry { in_use: true, ..e })
        &&& links_of(new, f) == links_of(old, f)
    } else {
        &&& new.entry(f) == e
        &&& links_of(new, f) == (old.parent_of(f), Some(nu), old.next_sibling_of(f))
        &&& links_of(new, n + 1) == (Some(fu), None::<usize>, None::<usize>)
        &&& if e.w - w > e.h - h {
            &&& new.entry(n) == (TexturePackerEntry { x: e.x, y: e.y, w: w as u32, h: e.h, in_use: e.h == h })
            &&& new.entry(n + 1) == (TexturePackerEntry {
                x: (e.x + w + g) as u32,
                y: e.y,
                w: (e.w - w - g) as u32,
                h: e.h,
                in_use: false,
            })
            &&& if e.h == h {
                &&& k == n
                &&& new.node_count() == n + 2
                &&& links_of(new, n) == (Some(fu), None::<usize>, Some((n + 1) as usize))
            } else {
                &&& k == n + 2
                &&& new.node_count() == n + 4
                &&& links_of(new, n) == (Some(fu), Some((n + 2) as usize), Some((n + 1) as usize))
                &&& links_of(new, n + 2) == (Some(nu), None::<usize>, Some((n + 3) as usize))
                &&& links_of(new, n + 3) == (Some(nu), None::<usize>, None::<usize>)
                &&& new.entry(n + 2) == (TexturePackerEntry { x: e.x, y: e.y, w: w as u32, h: h as u32, in_use: true })
                &&& new.entry(n + 3) == (TexturePackerEntry {
                    x: e.x,
                    y: (e.y + h + g) as u32,
                    w: w as u32,
                    h: (e.h - h - g) as u32,
                    in_use: false,
                })
            }
        } else {
            &&& new.entry(n) == (TexturePackerEntry { x: e.x, y: e.y, w: e.w, h: h as u32, in_use: e.w == w })
            &&& new.entry(n + 1) == (TexturePackerEntry {
                x: e.x,
                y: (e.y + h + g) as u32,
                w: e.w,
                h: (e.h - h - g) as u32,
                in_use: false,
            })
            &&& if e.w == w {
                &&& k == n
                &&& new.node_count() == n + 2
                &&& links_of(new, n) == (Some(fu), None::<usize>, Some((n + 1) as usize))
            } else {
                &&& k == n + 2
                &&& new.node_count() == n + 4
                &&& links_of(new, n) == (Some(fu), Some((n + 2) as usize), Some((n + 1) as usize))
                &&& links_of(new, n + 2) == (Some(nu), None::<usize>, Some((n + 3) as usize))
                &&& links_of(new, n + 3) == (Some(nu), None::<usize>, None::<usize>)
                &&& new.entry(n + 2) == (TexturePackerEntry { x: e.x, y: e.y, w: w as u32, h: h as u32, in_use: true })
                &&& new.entry(n + 3) == (TexturePackerEntry {
                    x: (e.x + w + g) as u32,
                    y: e.y,
                    w: (e.w - w - g) as u32,
                    h: h as u32,
                    in_use: false,
                })
            }
        }
    }
}

/// The two rectangles are separated along the x or the y axis, so they share no pixel.
pub open spec fn rects_apart(a: TexturePackerEntry, b: TexturePackerEntry) -> bool {
    a.x + a.w <= b.x || b.x + b.w <= a.x || a.y + a.h <= b.y || b.y + b.h <= a.y
}

/// Packs rectangles into a texture of `w` by `h` pixels, leaving `gap` pixels between
/// neighbours created by the same split.
#[derive(Debug)]
pub struct TexturePacker {
    w: u32,
    h: u32,
    gap: u32,
    tree: Tree<TexturePackerEntry>,
}

impl TexturePacker {
    /// Width of the packed texture.
    pub closed spec fn width(&self) -> nat {
        self.w as nat
    }

    /// Height of the packed texture.
    pub closed spec fn height(&self) -> nat {
        self.h as nat
    }

    /// Gap left between the two halves of a split.
    pub closed spec fn gap_size(&self) -> nat {
        self.gap as nat
    }

    /// Number of nodes of the split tree.
    pub closed spec fn node_count(&self) -> nat {
        self.tree.slots().len()
    }

    /// The rectangle of node `i`.
    pub closed spec fn entry(&self, i: int) -> TexturePackerEntry {
        self.tree.node(i).value
    }

    /// Node `i` has not been split.
    pub open spec fn is_leaf_node(&self, i: int) -> bool {
        self.first_child_of(i) is None
    }

    /// The first child of node `i`, if any.
    pub closed spec fn first_child_of(&self, i: int) -> Option<usize> {
        self.tree.node(i).first_child
    }

    /// The parent of node `i`, if any.
    pub closed spec fn parent_of(&self, i: int) -> Option<usize> {
        self.tree.node(i).parent
    }

    /// The next sibling of node `i`, if any.
    pub closed spec fn next_sibling_of(&self, i: int) -> Option<usize> {
        self.tree.node(i).next_sibling
    }

    /// Node `i` holds a placed texture.
    pub open spec fn used(&self, i: int) -> bool {
        0 <= i < self.node_count() && self.entry(i).in_use
    }

    /// Node `i` is an unused leaf that can hold `w` by `h` pixels.
    pub open spec fn free_fit(&self, i: int, w: int, h: int) -> bool {
        &&& 0 <= i < self.node_count()
        &&& self.is_leaf_node(i)
        &&& !self.entry(i).in_use
        &&& w <= self.entry(i).w
        &&& h <= self.entry(i).h
    }

    /// Node `j` lies in the subtree of node `i`.
    pub closed spec fn descends(&self, j: int, i: int) -> bool
        decreases j,
    {
        if j == i {
            true
        } else {
            match self.tree.node(j).parent {
                Some(p) => 0 <= p < j && self.descends(p as int, i),
                None => false,
            }
        }
    }

    /// Node `j` is one of the two children of node `p`.
    closed spec fn child_of(&self, j: int, p: int) -> bool {
        ||| self.tree.node(p).first_child == Some(j as usize)
        ||| (self.tree.node(p).first_child matches Some(l) && self.tree.node(l as int).next_sibling
            == Some(j as usize))
    }

    /// Structure of node `i`: a leaf, or an unused node split into two children that lie within
    /// it, are apart from each other and are smaller.
    closed spec fn node_ok(&self, i: int) -> bool {
        let n = self.tree.node(i);
        let e = n.value;
        &&& e.x + e.w <= self.w
        &&& e.y + e.h <= self.h
        &&& n.parent matches Some(p) ==> p < i && self.child_of(i, p as int)
        &&& i != 0 ==> n.parent is Some
        &&& n.first_child matches Some(l) ==> {
            let ln = self.tree.node(l as int);
            &&& i < l < self.tree.slots().len()
            &&& ln.parent == Some(i as usize)
            &&& ln.next_sibling matches Some(r) && {
                let rn = self.tree.node(r as int);
                &&& i < r < self.tree.slots().len()
                &&& r != l
                &&& rn.parent == Some(i as usize)
                &&& rn.next_sibling is None
                &&& rect_within(rn.value, e)
                &&& rn.value.w + rn.value.h <= e.w + e.h
                &&& rects_apart(ln.value, rn.value)
            }
            &&& !e.in_use
            &&& rect_within(ln.value, e)
            &&& ln.value.w + ln.value.h < e.w + e.h
        }
    }

    /// Well-formedness of the packer.
    pub closed spec fn wf(&self) -> bool {
        &&& self.tree.wf()
        &&& self.tree.root() == 0
        &&& self.tree.free_slots().len() == 0
        &&& self.tree.slots().len() <= usize::MAX
        &&& forall|i: int| 0 <= i < self.tree.slots().len() ==> #[trigger] self.tree.has(i)
        &&& self.tree.node(0).parent is None
        &&& self.entry(0).x == 0 && self.entry(0).y == 0
        &&& self.entry(0).w == self.w && self.entry(0).h == self.h
        &&& forall|i: int| 0 <= i < self.tree.slots().len() ==> #[trigger] self.node_ok(i)
        &&& forall|a: int, b: int|
            0 <= a < self.tree.slots().len() && 0 <= b < self.tree.slots().len() && a != b
                && self.is_leaf_node(a) && self.is_leaf_node(b) ==> rects_apart(
                #[trigger] self.entry(a),
                #[trigger] self.entry(b),
            )
    }

    /// The first unused leaf of the subtree of node `i`, depth first and left to right, that
    /// can hold `w` by `h` pixels.
    pub closed spec fn first_fit(&self, i: int, w: int, h: int) -> Option<int>
        decreases self.entry(i).w + self.entry(i).h, self.node_count() - i,
        when self.wf() && 0 <= i < self.node_count()
    {
        proof {
            assert(self.node_ok(i));
        }
        match self.tree.node(i).first_child {
            None => if self.free_fit(i, w, h) {
                Some(i)
            } else {
                None
            },
            Some(l) => match self.first_fit(l as int, w, h) {
                Some(k) => Some(k),
                None => match self.tree.node(l as int).next_sibling {
                    Some(r) => self.first_fit(r as int, w, h),
                    None => None,
                },
            },
        }
    }

    /// A packer for a `texture_width` by `texture_height` texture with `gap` pixels between
    /// split halves.
    pub fn new(texture_width: u32, texture_height: u32, gap: u32) -> (r: Self)
        ensures
            r.wf(),
            r.width() == texture_width,
            r.height() == texture_height,
            r.gap_size() == gap,
            r.node_count() == 1,
            r.is_leaf_node(0),
            r.entry(0) == (TexturePackerEntry {
                x: 0,
                y: 0,
                w: texture_width,
                h: texture_height,
                in_use: false,
            }),
    {
        let r = Self {
            w: texture_width,
            h: texture_height,
            gap,
            tree: Tree::new(
                TexturePackerEntry { x: 0, y: 0, w: texture_width, h: texture_height, in_use: false },
            ),
        };
        proof {
            assert(r.node_ok(0));
        }
        r
    }

    /// The split tree.
    pub fn tree(&self) -> (r: &Tree<TexturePackerEntry>)
        ensures
            r.slots().len() == self.node_count(),
            forall|i: int| 0 <= i < self.node_count() ==> r.node(i).value == self.entry(i),
    {
        &self.tree
    }

    /// Node `index` has not been split.
    pub fn is_leaf(&self, index: usize) -> (r: bool)
        requires
            self.wf(),
            index < self.node_count(),
        ensures
            r == self.is_leaf_node(index as int),
    {
        proof {
            assert(self.tree.has(index as int));
            assert(self.node_ok(index as int));
        }
        match self.tree.get(index).first_child {
            None => true,
            Some(h) => {
                proof {
                    assert(self.tree.has(h as int));
                }
                self.tree.get(h).next_sibling.is_none()
            },
        }
    }

    /// `child_index` is the first child of `parent_index`.
    pub fn is_left_child(&self, parent_index: usize, child_index: usize) -> (r: bool)
        requires
            self.wf(),
            parent_index < self.node_count(),
        ensures
            r == (self.first_child_of(parent_index as int) == Some(child_index)),
    {
        proof {
            assert(self.tree.has(parent_index as int));
        }
        match self.tree.get(parent_index).first_child {
            Some(h) => h == child_index,
            None => false,
        }
    }

    /// `child_index` is not the first child of `parent_index`.
    pub fn is_right_child(&self, parent_index: usize, child_index: usize) -> (r: bool)
        requires
            self.wf(),
            parent_index < self.node_count(),
        ensures
            r == (self.first_child_of(parent_index as int) != Some(child_index)),
    {
        !self.is_left_child(parent_index, child_index)
    }

    fn insert_at(&mut self, width: u32, height: u32, index: usize) -> (r: Option<usize>)
        requires
            old(self).wf(),
            index < old(self).node_count(),
            old(self).first_fit(index as int, width as int, height as int) matches Some(f)
                ==> split_ok(old(self).entry(f), width as int, height as int, old(self).gap_size() as int),
        ensures
            final(self).wf(),
            final(self).width() == old(self).width(),
            final(self).height() == old(self).height(),
            final(self).gap_size() == old(self).gap_size(),
            r is None <==> old(self).first_fit(index as int, width as int, height as int) is None,
            r is None ==> *final(self) == *old(self),
            r matches Some(k) ==> placed(*old(self), *final(self), k as int, width as int, height as int)
                && (old(self).first_fit(index as int, width as int, height as int) matches Some(f)
                && split_result(*old(self), *final(self), f, k as int, width as int, height as int)),
        decreases old(self).entry(index as int).w + old(self).entry(index as int).h, old(
            self,
        ).node_count() - index,
    {
        proof {
            assert(self.tree.has(index as int));
            assert(self.node_ok(index as int));
        }
        if !self.is_leaf(index) {
            // try inserting under left child
            let left_child_index = match self.tree.get(index).first_child {
                Some(l) => l,
                None => unreached(),
            };
            proof {
                assert(self.tree.has(left_child_index as int));
            }
            let new_index = self.insert_at(width, height, left_child_index);
            if new_index.is_some() {
                return new_index;
            }
            // no room, insert under right child
            let right_child_index = match self.tree.get(left_child_index).next_sibling {
                Some(r) => r,
                None => unreached(),
            };
            let r = self.insert_at(width, height, right_child_index);
            return r;
        }
        let entry = &self.tree.get(index).value;
        // there is already a glyph here
        if entry.in_use {
            return None;
        }
        let entry_x = entry.x;
        let entry_y = entry.y;
        let cache_slot_width = entry.w;
        let cache_slot_height = entry.h;
        if width > cache_slot_width || height > cache_slot_height {
            // this node's box is too small
            return None;
        }
        if width == cache_slot_width && height == cache_slot_height {
            // just right, accept
            self.tree.get_mut(index).value.in_use = true;
            proof {
                old(self).lemma_mark_used_keeps_wf(*self, index as int);
                assert forall|j: int| 0 <= j < old(self).node_count() && j != index implies #[trigger] self.entry(j)
                    == old(self).entry(j) && links_of(*self, j) == links_of(*old(self), j) by {
                    assert(self.tree.slots()[j] == old(self).tree.slots()[j]);
                }
                assert(links_of(*self, index as int) == links_of(*old(self), index as int));
            }
            return Some(index);
        }
        // otherwise split this node, along the axis with more room to spare
        let dw = cache_slot_width - width;
        let dh = cache_slot_height - height;
        let (left_child, right_child) = if dw > dh {
            // split along x
            (
                TexturePackerEntry {
                    x: entry_x,
                    y: entry_y,
                    w: width,
                    h: cache_slot_height,
                    in_use: false,
                },
                TexturePackerEntry {
                    x: entry_x + width + self.gap,
                    y: entry_y,
                    w: dw - self.gap,
                    h: cache_slot_height,
                    in_use: false,
                },
            )
        } else {
            // split along y
            (
                TexturePackerEntry {
                    x: entry_x,
                    y: entry_y,
                    w: cache_slot_width,
                    h: height,
                    in_use: false,
                },
                TexturePackerEntry {
                    x: entry_x,
                    y: entry_y + height + self.gap,
                    w: cache_slot_width,
                    h: dh - self.gap,
                    in_use: false,
                },
            )
        };
        let ghost lv = left_child;
        let ghost rv = right_child;
        let left_child_index = self.tree.insert_child_maybe_after(index, None, left_child);
        let right_child_index = self.tree.insert_child_maybe_after(
            index,
            Some(left_child_index),
            right_child,
        );
        let node_count = self.tree.nodes.len();
        proof {
            assert(node_count == self.tree.slots().len());
            old(self).lemma_split_keeps_wf(*self, index as int, lv, rv);
            assert(self.free_fit(left_child_index as int, width as int, height as int));
        }
        // insert into the first child we created
        let ghost mid = *self;
        proof {
            assert(mid.first_fit(left_child_index as int, width as int, height as int) == Some(
                left_child_index as int,
            ));
        }
        let r = self.insert_at(width, height, left_child_index);
        proof {
            assert(r is Some);
            let k = r->0 as int;
            assert forall|j: int| 0 <= j < self.node_count() && j != k implies (self.used(j)
                <==> old(self).used(j)) by {
                assert(mid.used(j) <==> self.used(j));
            }
            assert forall|j: int| #[trigger] old(self).used(j) implies self.entry(j) == old(self).entry(j) by {
                assert(mid.used(j));
            }
            let n = old(self).node_count() as int;
            let f = index as int;
            assert(mid.node_count() == n + 2);
            assert(mid.entry(n) == lv && mid.entry(n + 1) == rv);
            assert(links_of(mid, f) == (old(self).parent_of(f), Some(n as usize), old(self).next_sibling_of(f)));
            assert(links_of(mid, n) == (Some(f as usize), None::<usize>, Some((n + 1) as usize)));
            assert(links_of(mid, n + 1) == (Some(f as usize), None::<usize>, None::<usize>));
            assert forall|j: int| 0 <= j < n && j != f implies #[trigger] mid.entry(j) == old(self).entry(j)
                && links_of(mid, j) == links_of(*old(self), j) by {
                assert(mid.tree.slots()[j] == old(self).tree.slots()[j]);
            }
            assert(mid.entry(f) == old(self).entry(f));
            assert(split_result(mid, *self, n, k, width as int, height as int));
            old(self).lemma_split_compose(mid, *self, f, k, width as int, height as int, lv, rv);
        }
        r
    }

    /// Places a `width` by `height` rectangle into the first unused leaf (depth first, left to
    /// right) that can hold it, splitting that leaf as needed, and returns the index of the node
    /// that now holds the rectangle, at the top left corner of that leaf. `None`, with the packer
    /// unchanged, when no unused leaf is large enough. The splits must leave room for the gap.
    pub fn insert(&mut self, width: u32, height: u32) -> (r: Option<usize>)
        requires
            old(self).wf(),
            old(self).first_fit(0, width as int, height as int) matches Some(f) ==> split_ok(
                old(self).entry(f),
                width as int,
                height as int,
                old(self).gap_size() as int,
            ),
        ensures
            final(self).wf(),
            final(self).width() == old(self).width(),
            final(self).height() == old(self).height(),
            final(self).gap_size() == old(self).gap_size(),
            r is None <==> !exists|j: int| #[trigger]
                old(self).free_fit(j, width as int, height as int),
            r is None ==> *final(self) == *old(self),
            r matches Some(k) ==> placed(*old(self), *final(self), k as int, width as int, height as int),
            r matches Some(k) ==> (old(self).first_fit(0, width as int, height as int) matches Some(f)
                && split_result(*old(self), *final(self), f, k as int, width as int, height as int)),
    {
        let r = self.insert_at(width, height, self.tree.root_index);
        proof {
            old(self).lemma_first_fit(0, width as int, height as int);
            if r is None {
                assert forall|j: int| !#[trigger] old(self).free_fit(j, width as int, height as int) by {
                    if 0 <= j < old(self).node_count() {
                        old(self).lemma_descends_from_root(j);
                    }
                }
            }
        }
        r
    }

    /// The rectangle of node `index`, if there is such a node.
    pub fn try_get_entry(&self, index: usize) -> (r: Option<&TexturePackerEntry>)
        requires
            self.wf(),
        ensures
            r is Some <==> index < self.node_count(),
            r matches Some(e) ==> *e == self.entry(index as int),
    {
        match self.tree.try_get(index) {
            Some(node) => Some(&node.value),
            None => None,
        }
    }

    /// The rectangle of node `index`.
    pub fn get_entry(&self, index: usize) -> (r: &TexturePackerEntry)
        requires
            self.wf(),
            index < self.node_count(),
        ensures
            *r == self.entry(index as int),
    {
        proof {
            assert(self.tree.has(index as int));
        }
        &self.tree.get(index).value
    }

    /// Width and height of the packed texture.
    pub fn texture_size(&self) -> (r: (u32, u32))
        ensures
            r.0 == self.width(),
            r.1 == self.height(),
    {
        (self.w, self.h)
    }

    /// Nothing has been placed or split yet: the tree is the root alone.
    pub fn is_empty(&self) -> (r: bool)
        requires
            self.wf(),
        ensures
            r == (self.node_count() == 1),
    {
        self.tree.nodes.len() == 1
    }

    /// All nodes with their indices, in index order.
    pub fn iter_nodes(&self) -> (r: Vec<(usize, &Node<TexturePackerEntry>)>)
        requires
            self.wf(),
        ensures
            r@.len() == self.node_count(),
            forall|k: int|
                0 <= k < r@.len() ==> #[trigger] r@[k].0 == k && r@[k].1.value == self.entry(k)
                    && r@[k].1.parent == self.parent_of(k) && r@[k].1.first_child == self.first_child_of(k)
                    && r@[k].1.next_sibling == self.next_sibling_of(k),
    {
        let r = self.tree.iter();
        proof {
            let n = self.node_count() as int;
            assert forall|j: int| 0 <= j < n implies #[trigger] index_occurs(r@, j) by {
                assert(self.tree.has(j));
            }
            assert forall|i: int| 0 <= i < r@.len() implies (#[trigger] r@[i]).0 < n by {
                assert(self.tree.has(r@[i].0 as int));
            }
            assert forall|k: int| 0 <= k < r@.len() implies #[trigger] r@[k].0 == k by {
                lemma_dense_indices(r@, n, k);
            }
            if r@.len() < n {
                let j = r@.len() as int;
                assert(index_occurs(r@, j));
                let w = choose|i: int| 0 <= i < r@.len() && #[trigger] r@[i].0 == j;
                assert(r@[w].0 == w);
            }
            if r@.len() > n {
                lemma_index_at_least(r@, n);
            }
        }
        r
    }

    // ---- proofs about the split tree

    /// The first fit of the subtree of node `i` is an unused leaf of that subtree that can hold
    /// `w` by `h` pixels; there is none exactly when no leaf of the subtree can.
    pub proof fn lemma_first_fit(&self, i: int, w: int, h: int)
        requires
            self.wf(),
            0 <= i < self.node_count(),
        ensures
            self.first_fit(i, w, h) matches Some(f) ==> self.descends(f, i) && self.free_fit(f, w, h),
            self.first_fit(i, w, h) is None ==> forall|j: int| #[trigger]
                self.descends(j, i) ==> !self.free_fit(j, w, h),
        decreases self.entry(i).w + self.entry(i).h, self.node_count() - i,
    {
        assert(self.node_ok(i));
        assert(self.tree.has(i));
        match self.tree.node(i).first_child {
            None => {
                self.lemma_leaf_subtree_is_itself(i);
            },
            Some(l) => {
                let r = self.tree.node(l as int).next_sibling->Some_0;
                self.lemma_first_fit(l as int, w, h);
                self.lemma_first_fit(r as int, w, h);
                assert(self.descends(i, i));
                assert(self.descends(l as int, i));
                assert(self.descends(r as int, i));
                if let Some(f) = self.first_fit(l as int, w, h) {
                    self.lemma_descends_trans(f, l as int, i);
                } else if let Some(f) = self.first_fit(r as int, w, h) {
                    self.lemma_descends_trans(f, r as int, i);
                } else {
                    assert forall|j: int| #[trigger] self.descends(j, i) implies !self.free_fit(j, w, h) by {
                        if 0 <= j < self.node_count() && j != i {
                            self.lemma_descends_split(i, l, r, j);
                        }
                    }
                }
            },
        }
    }

    proof fn lemma_descends_trans(&self, j: int, m: int, i: int)
        requires
            self.descends(j, m),
            self.descends(m, i),
        ensures
            self.descends(j, i),
        decreases j,
    {
        if j != m {
            let p = self.tree.node(j).parent->Some_0;
            self.lemma_descends_trans(p as int, m, i);
        }
    }

    proof fn lemma_leaf_subtree_is_itself(&self, i: int)
        requires
            self.wf(),
            0 <= i < self.node_count(),
            self.is_leaf_node(i),
        ensures
            forall|j: int| 0 <= j < self.node_count() && #[trigger] self.descends(j, i) ==> j == i,
    {
        assert forall|j: int| 0 <= j < self.node_count() && #[trigger] self.descends(j, i) implies j == i by {
            self.lemma_leaf_descendant(i, j);
        }
    }

    proof fn lemma_leaf_descendant(&self, i: int, j: int)
        requires
            self.wf(),
            0 <= i < self.node_count(),
            0 <= j < self.node_count(),
            self.is_leaf_node(i),
            self.descends(j, i),
        ensures
            j == i,
        decreases j,
    {
        if j != i {
            assert(self.node_ok(j));
            let p = self.tree.node(j).parent->Some_0 as int;
            if p == i {
                assert(self.child_of(j, i));
            } else {
                self.lemma_leaf_descendant(i, p);
            }
        }
    }

    proof fn lemma_descends_split(&self, i: int, l: usize, r: usize, j: int)
        requires
            self.wf(),
            0 <= i < self.node_count(),
            0 <= j < self.node_count(),
            self.tree.node(i).first_child == Some(l),
            self.tree.node(l as int).next_sibling == Some(r),
            self.descends(j, i),
            j != i,
        ensures
            self.descends(j, l as int) || self.descends(j, r as int),
        decreases j,
    {
        assert(self.node_ok(j));
        let p = self.tree.node(j).parent->Some_0 as int;
        if p == i {
            assert(self.child_of(j, i));
            assert(self.node_ok(i));
            if self.tree.node(i).first_child == Some(j as usize) {
                assert(j == l);
                assert(self.descends(j, l as int));
            } else {
                assert(j == r);
                assert(self.descends(j, r as int));
            }
        } else {
            self.lemma_descends_split(i, l, r, p);
            assert(self.descends(j, l as int) || self.descends(j, r as int));
        }
    }

    proof fn lemma_descends_from_root(&self, j: int)
        requires
            self.wf(),
            0 <= j < self.node_count(),
        ensures
            self.descends(j, 0),
        decreases j,
    {
        if j != 0 {
            assert(self.node_ok(j));
            let p = self.tree.node(j).parent->Some_0 as int;
            self.lemma_descends_from_root(p);
        }
    }

    proof fn lemma_mark_used_keeps_wf(&self, new: Self, i: int)
        requires
            self.wf(),
            0 <= i < self.node_count(),
            self.is_leaf_node(i),
            !self.entry(i).in_use,
            new.w == self.w,
            new.h == self.h,
            new.gap == self.gap,
            new.tree.root() == self.tree.root(),
            new.tree.free_slots() == self.tree.free_slots(),
            new.tree.slots() == self.tree.slots().update(
                i,
                Some(
                    Node {
                        value: TexturePackerEntry { in_use: true, ..self.entry(i) },
                        ..self.tree.node(i)
                    },
                ),
            ),
        ensures
            new.wf(),
            placed(*self, new, i, self.entry(i).w as int, self.entry(i).h as int),
    {
        assert forall|k: int| 0 <= k < new.tree.slots().len() implies #[trigger] new.node_ok(k) by {
            assert(self.node_ok(k));
            if let Some(p) = new.tree.node(k).parent {
                assert(self.tree.has(p as int));
                assert(self.node_ok(p as int));
            }
            if let Some(l) = new.tree.node(k).first_child {
                assert(self.tree.has(l as int));
            }
        }
        assert forall|a: int, b: int|
            0 <= a < new.tree.slots().len() && 0 <= b < new.tree.slots().len() && a != b
                && new.is_leaf_node(a) && new.is_leaf_node(b) implies rects_apart(
            #[trigger] new.entry(a),
            #[trigger] new.entry(b),
        ) by {
            assert(rects_apart(self.entry(a), self.entry(b)));
        }
        assert forall|k: int| 0 <= k < new.tree.slots().len() implies #[trigger] new.tree.has(k) by {
            assert(self.tree.has(k));
        }
    }

    /// Splitting the free leaf `f` into the two fresh leaves `lv` and `rv` (giving `mid`) and
    /// then cutting the rectangle out of the first of them (giving `new`) is one cut out of `f`.
    proof fn lemma_split_compose(
        &self,
        mid: Self,
        new: Self,
        f: int,
        k: int,
        w: int,
        h: int,
        lv: TexturePackerEntry,
        rv: TexturePackerEntry,
    )
        requires
            0 <= f < self.node_count(),
            !(self.entry(f).w == w && self.entry(f).h == h),
            0 <= w <= self.entry(f).w,
            0 <= h <= self.entry(f).h,
            mid.node_count() == self.node_count() + 2,
            mid.gap_size() == self.gap_size(),
            mid.entry(self.node_count() as int) == lv,
            mid.entry(self.node_count() as int + 1) == rv,
            mid.entry(f) == self.entry(f),
            links_of(mid, f) == (self.parent_of(f), Some(self.node_count() as usize), self.next_sibling_of(f)),
            links_of(mid, self.node_count() as int) == (
                Some(f as usize),
                None::<usize>,
                Some((self.node_count() + 1) as usize),
            ),
            links_of(mid, self.node_count() as int + 1) == (Some(f as usize), None::<usize>, None::<usize>),
            forall|j: int|
                0 <= j < self.node_count() && j != f ==> #[trigger] mid.entry(j) == self.entry(j)
                    && links_of(mid, j) == links_of(*self, j),
            ({
                let e = self.entry(f);
                let g = self.gap_size() as int;
                if e.w - w > e.h - h {
                    &&& lv == (TexturePackerEntry { x: e.x, y: e.y, w: w as u32, h: e.h, in_use: false })
                    &&& rv == (TexturePackerEntry {
                        x: (e.x + w + g) as u32,
                        y: e.y,
                        w: (e.w - w - g) as u32,
                        h: e.h,
                        in_use: false,
                    })
                } else {
                    &&& lv == (TexturePackerEntry { x: e.x, y: e.y, w: e.w, h: h as u32, in_use: false })
                    &&& rv == (TexturePackerEntry {
                        x: e.x,
                        y: (e.y + h + g) as u32,
                        w: e.w,
                        h: (e.h - h - g) as u32,
                        in_use: false,
                    })
                }
            }),
            split_result(mid, new, self.node_count() as int, k, w, h),
        ensures
            split_result(*self, new, f, k, w, h),
    {
        let n = self.node_count() as int;
        assert forall|j: int| 0 <= j < n && j != f implies #[trigger] new.entry(j) == self.entry(j)
            && links_of(new, j) == links_of(*self, j) by {
            assert(mid.entry(j) == self.entry(j));
            assert(new.entry(j) == mid.entry(j));
        }
        assert(new.entry(f) == mid.entry(f));
        assert(links_of(new, f) == links_of(mid, f));
        assert(new.entry(n + 1) == mid.entry(n + 1));
        assert(links_of(new, n + 1) == links_of(mid, n + 1));
        let e = self.entry(f);
        let g = self.gap_size() as int;
        if e.w - w > e.h - h {
            if e.h == h {
                assert(k == n && new.node_count() == n + 2);
                assert(new.entry(n) == (TexturePackerEntry { x: e.x, y: e.y, w: w as u32, h: e.h, in_use: true }));
                assert(links_of(new, n) == links_of(mid, n));
            } else {
                assert(new.entry(n) == (TexturePackerEntry { x: e.x, y: e.y, w: w as u32, h: e.h, in_use: false }));
                assert(k == n + 2 && new.node_count() == n + 4);
                assert(links_of(new, n) == (Some(f as usize), Some((n + 2) as usize), Some((n + 1) as usize)));
                assert(new.entry(n + 2) == (TexturePackerEntry { x: e.x, y: e.y, w: w as u32, h: h as u32, in_use: true }));
                assert(new.entry(n + 3) == (TexturePackerEntry { x: e.x, y: (e.y + h + g) as u32, w: w as u32, h: (e.h - h - g) as u32, in_use: false }));
            }
        } else {
            if e.w == w {
                assert(k == n && new.node_count() == n + 2);
                assert(new.entry(n) == (TexturePackerEntry { x: e.x, y: e.y, w: e.w, h: h as u32, in_use: true }));
                assert(links_of(new, n) == links_of(mid, n));
            } else {
                assert(new.entry(n) == (TexturePackerEntry { x: e.x, y: e.y, w: e.w, h: h as u32, in_use: false }));
                assert(k == n + 2 && new.node_count() == n + 4);
                assert(links_of(new, n) == (Some(f as usize), Some((n + 2) as usize), Some((n + 1) as usize)));
                assert(new.entry(n + 2) == (TexturePackerEntry { x: e.x, y: e.y, w: w as u32, h: h as u32, in_use: true }));
                assert(new.entry(n + 3) == (TexturePackerEntry { x: (e.x + w + g) as u32, y: e.y, w: (e.w - w - g) as u32, h: h as u32, in_use: false }));
            }
        }
    }

    proof fn lemma_split_keeps_wf(&self, new: Self, i: int, lv: TexturePackerEntry, rv: TexturePackerEntry)
        requires
            self.wf(),
            0 <= i < self.node_count(),
            self.is_leaf_node(i),
            !self.entry(i).in_use,
            new.w == self.w,
            new.h == self.h,
            new.gap == self.gap,
            new.tree.root() == self.tree.root(),
            new.tree.free_slots() == self.tree.free_slots(),
            new.tree.slots().len() == self.tree.slots().len() + 2,
            new.tree.slots().len() <= usize::MAX,
            new.tree.wf(),
            ({
                let l = self.tree.slots().len() as int;
                let r = l + 1;
                &&& new.tree.has(l)
                &&& new.tree.has(r)
                &&& new.tree.has(i)
                &&& new.tree.node(i).value == self.entry(i)
                &&& new.tree.node(i).parent == self.tree.node(i).parent
                &&& new.tree.node(i).next_sibling == self.tree.node(i).next_sibling
                &&& new.tree.node(i).first_child == Some(l as usize)
                &&& new.tree.node(l).value == lv
                &&& new.tree.node(l).parent == Some(i as usize)
                &&& new.tree.node(l).first_child is None
                &&& new.tree.node(l).next_sibling == Some(r as usize)
                &&& new.tree.node(r).value == rv
                &&& new.tree.node(r).parent == Some(i as usize)
                &&& new.tree.node(r).first_child is None
                &&& new.tree.node(r).next_sibling is None
                &&& forall|k: int| 0 <= k < l && k != i ==> #[trigger] new.tree.slots()[k] == self.tree.slots()[k]
            }),
            rect_within(lv, self.entry(i)),
            rect_within(rv, self.entry(i)),
            rects_apart(lv, rv),
            lv.w + lv.h < self.entry(i).w + self.entry(i).h,
            rv.w + rv.h <= self.entry(i).w + self.entry(i).h,
            !lv.in_use,
            !rv.in_use,
        ensures
            new.wf(),
            forall|j: int| 0 <= j < self.node_count() ==> (#[trigger] new.used(j) <==> self.used(j)),
            forall|j: int| 0 <= j < self.node_count() ==> #[trigger] new.entry(j) == self.entry(j),
            !new.used(self.node_count() as int),
            !new.used(self.node_count() as int + 1),
            forall|j: int| new.used(j) ==> j < self.node_count(),
    {
        let l = self.tree.slots().len() as int;
        let r = l + 1;
        assert(self.node_ok(i));
        assert forall|k: int| 0 <= k < new.tree.slots().len() implies #[trigger] new.tree.has(k) by {
            if k < l {
                assert(self.tree.has(k));
            }
        }
        assert forall|k: int| 0 <= k < new.tree.slots().len() implies #[trigger] new.node_ok(k) by {
            if k == l || k == r {
                assert(new.child_of(k, i));
            } else if k == i {
                if let Some(p) = self.tree.node(k).parent {
                    assert(self.node_ok(p as int));
                    assert(new.tree.node(p as int) == self.tree.node(p as int));
                    if let Some(pl) = self.tree.node(p as int).first_child {
                        assert(self.tree.has(pl as int));
                        if pl != i {
                            assert(new.tree.node(pl as int) == self.tree.node(pl as int));
                        }
                    }
                    assert(new.child_of(k, p as int));
                }
            } else {
                assert(self.node_ok(k));
                assert(new.tree.node(k) == self.tree.node(k));
                if let Some(p) = self.tree.node(k).parent {
                    assert(self.node_ok(p as int));
                    if p != i {
                        assert(new.tree.node(p as int) == self.tree.node(p as int));
                    } else {
                        assert(!self.child_of(k, i));
                    }
                    if let Some(pl) = self.tree.node(p as int).first_child {
                        assert(self.tree.has(pl as int));
                        if pl != i {
                            assert(new.tree.node(pl as int) == self.tree.node(pl as int));
                        }
                    }
                    assert(new.child_of(k, p as int));
                }
                if let Some(kl) = self.tree.node(k).first_child {
                    assert(self.tree.has(kl as int));
                    if kl != i {
                        assert(new.tree.node(kl as int) == self.tree.node(kl as int));
                    }
                    if let Some(kr) = self.tree.node(kl as int).next_sibling {
                        assert(self.tree.has(kr as int));
                        if kr != i {
                            assert(new.tree.node(kr as int) == self.tree.node(kr as int));
                        }
                    }
                }
            }
        }
        assert forall|a: int, b: int|
            0 <= a < new.tree.slots().len() && 0 <= b < new.tree.slots().len() && a != b
                && new.is_leaf_node(a) && new.is_leaf_node(b) implies rects_apart(
            #[trigger] new.entry(a),
            #[trigger] new.entry(b),
        ) by {
            if a < l && b < l {
                assert(rects_apart(self.entry(a), self.entry(b)));
            } else if a < l {
                assert(rects_apart(self.entry(a), self.entry(i)));
            } else if b < l {
                assert(rects_apart(self.entry(i), self.entry(b)));
            }
        }
        assert forall|j: int| 0 <= j < self.node_count() implies #[trigger] new.entry(j) == self.entry(j) by {}
    }
}

/// What a successful insertion did: node `k`, which held no texture before, is now a leaf
/// holding exactly `w` by `h` pixels; every other node keeps its use and every used node keeps
/// its rectangle.
pub open spec fn placed(before: TexturePacker, after: TexturePacker, k: int, w: int, h: int) -> bool {
    &&& 0 <= k < after.node_count()
    &&& after.node_count() >= before.node_count()
    &&& after.used(k)
    &&& after.is_leaf_node(k)
    &&& after.entry(k).w == w
    &&& after.entry(k).h == h
    &&& !before.used(k)
    &&& forall|j: int| 0 <= j < after.node_count() && j != k ==> (#[trigger] after.used(j) <==> before.used(j))
    &&& forall|j: int| #[trigger] before.used(j) ==> after.entry(j) == before.entry(j)
}

/// Index `j` is the first component of some element.
spec fn index_occurs<A>(s: Seq<(usize, A)>, j: int) -> bool {
    exists|i: int| 0 <= i < s.len() && #[trigger] s[i].0 == j
}

/// In a strictly increasing list of indices, the `k`-th index is at least `k`.
proof fn lemma_index_at_least<A>(s: Seq<(usize, A)>, k: int)
    requires
        forall|a: int, b: int| 0 <= a < b < s.len() ==> s[a].0 < s[b].0,
        0 <= k < s.len(),
    ensures
        s[k].0 >= k,
    decreases k,
{
    if k > 0 {
        lemma_index_at_least(s, k - 1);
    }
}

/// A strictly increasing list of indices below `n` in which every index below `n` occurs is
/// `0, 1, .., n - 1`.
proof fn lemma_dense_indices<A>(s: Seq<(usize, A)>, n: int, k: int)
    requires
        forall|i: int| 0 <= i < s.len() ==> (#[trigger] s[i]).0 < n,
        forall|a: int, b: int| 0 <= a < b < s.len() ==> s[a].0 < s[b].0,
        forall|j: int| 0 <= j < n ==> #[trigger] index_occurs(s, j),
        0 <= k < s.len(),
    ensures
        s[k].0 == k,
    decreases k,
{
    if k > 0 {
        lemma_dense_indices(s, n, k - 1);
    }
    lemma_index_at_least(s, k);
    assert(index_occurs(s, k));
    let w = choose|i: int| 0 <= i < s.len() && #[trigger] s[i].0 == k;
    if w < k {
        if w < k - 1 {
            assert(s[w].0 < s[k - 1].0);
        }
    }
}

impl Default for TexturePacker {
    /// A packer for a [`DEFAULT_TEXTURE_WIDTH`] by [`DEFAULT_TEXTURE_HEIGHT`] texture without
    /// gaps.
    fn default() -> (r: Self)
        ensures
            r.wf(),
            r.width() == DEFAULT_TEXTURE_WIDTH,
            r.height() == DEFAULT_TEXTURE_HEIGHT,
            r.gap_size() == 0,
            r.node_count() == 1,
            r.is_leaf_node(0),
            r.entry(0) == (TexturePackerEntry {
                x: 0,
                y: 0,
                w: DEFAULT_TEXTURE_WIDTH,
                h: DEFAULT_TEXTURE_HEIGHT,
                in_use: false,
            }),
    {
        Self::new(DEFAULT_TEXTURE_WIDTH, DEFAULT_TEXTURE_HEIGHT, 0)
    }
}

/// A placement keeps every earlier placement: a rectangle that was placed before stays placed
/// where it was, is not the one just placed, and shares no pixel with it. Chained over a run of
/// insertions, every index an insertion returned keeps its rectangle and no two overlap.
pub proof fn law_placement_keeps_earlier(
    before: TexturePacker,
    after: TexturePacker,
    k: int,
    w: int,
    h: int,
    j: int,
)
    requires
        after.wf(),
        placed(before, after, k, w, h),
        before.used(j),
    ensures
        j != k,
        after.used(j),
        after.entry(j) == before.entry(j),
        rects_apart(after.entry(j), after.entry(k)),
{
    law_used_rects_apart(after, j, k);
}

/// The rectangles of two different used nodes share no pixel.
pub proof fn law_used_rects_apart(p: TexturePacker, a: int, b: int)
    requires
        p.wf(),
        p.used(a),
        p.used(b),
        a != b,
    ensures
        rects_apart(p.entry(a), p.entry(b)),
{
    assert(p.node_ok(a));
    assert(p.node_ok(b));
}

/// Every node but the root has a parent before it; a split node has exactly two children, the
/// first one's next sibling being the second, which has none; both name it as their parent,
/// lie within its rectangle and are apart from each other; and a split node holds no texture.
pub proof fn law_split_nodes_have_two_children(p: TexturePacker, i: int)
    requires
        p.wf(),
        0 <= i < p.node_count(),
    ensures
        i != 0 ==> (p.parent_of(i) matches Some(q) && q < i),
        p.first_child_of(i) matches Some(l) ==> {
            &&& i < l < p.node_count()
            &&& p.parent_of(l as int) == Some(i as usize)
            &&& p.next_sibling_of(l as int) matches Some(r) && {
                &&& i < r < p.node_count()
                &&& r != l
                &&& p.parent_of(r as int) == Some(i as usize)
                &&& p.next_sibling_of(r as int) is None
                &&& rect_within(p.entry(l as int), p.entry(i))
                &&& rect_within(p.entry(r as int), p.entry(i))
                &&& rects_apart(p.entry(l as int), p.entry(r as int))
            }
            &&& !p.entry(i).in_use
        },
{
    assert(p.node_ok(i));
}

/// Every node's rectangle lies within the texture.
pub proof fn law_rects_within_texture(p: TexturePacker, a: int)
    requires
        p.wf(),
        0 <= a < p.node_count(),
    ensures
        p.entry(a).x + p.entry(a).w <= p.width(),
        p.entry(a).y + p.entry(a).h <= p.height(),
{
    assert(p.node_ok(a));
}

} // verus!
