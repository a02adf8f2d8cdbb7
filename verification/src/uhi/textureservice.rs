//! Texture descriptions and the updates that the renderer applies to textures.
//!
//! The pending creations, updates and destructions and the created textures are kept in
//! vectors rather than hash maps and sets keyed by handle: the service's invariant states what
//! a map or a set would give, that no handle (for updates, no handle and region) occurs twice,
//! and the vectors also keep the order in which the requests came, which the contracts of
//! the `next_pending_*` functions speak of.
use crate::rangealloc::{any_fit, hi, interval, lo, points, ranges_disjoint, span, RangeAlloc};
use crate::uhi::Externs;
use std::ops::Range;
use vstd::prelude::*;

verus! {

/// Names a texture of the UI.
#[derive(Debug, Clone, Copy, PartialEq, Eq, Hash, Structural)]
pub struct TextureHandle {
    pub id: u32,
}

/// A texture of the UI or one that the renderer owns.
#[derive(Debug)]
pub enum TextureKind<E: Externs> {
    Internal(TextureHandle),
    External(E::TextureHandle),
}

/// Pixel format of a texture.
#[derive(Debug, Clone, Copy, PartialEq, Eq, Structural)]
pub enum TextureFormat {
    Rgba8Unorm,
    R8Unorm,
}

impl TextureFormat {
    /// Bytes per pixel.
    pub fn block_size(&self) -> (r: u8)
        ensures
            r == match *self {
                TextureFormat::Rgba8Unorm => 4u8,
                TextureFormat::R8Unorm => 1u8,
            },
    {
        match self {
            TextureFormat::Rgba8Unorm => 4,
            TextureFormat::R8Unorm => 1,
        }
    }
}

/// Format and size of a texture.
#[derive(Debug, Clone, Copy, PartialEq, Eq, Structural)]
pub struct TextureDesc {
    pub format: TextureFormat,
    pub w: u32,
    pub h: u32,
}

/// A rectangle of texels.
#[derive(Debug, Clone, Copy, PartialEq, Eq, Hash, Structural)]
pub struct TextureRegion {
    pub x: u32,
    pub y: u32,
    pub w: u32,
    pub h: u32,
}

/// An upload that the renderer has to perform: `data` goes into `region` of `texture`.
pub struct TexturePendingUpdate<'a, E: Externs> {
    pub region: TextureRegion,
    pub texture: &'a E::TextureHandle,
    pub desc: &'a TextureDesc,
    pub data: &'a [u8],
}


/// Proof that a texture creation was asked for; [`TextureService::commit_create`] takes it.
#[derive(Debug)]
pub struct TextureCreateTicket {
    handle: TextureHandle,
}

impl TextureCreateTicket {
    /// The texture to create.
    pub closed spec fn handle(&self) -> TextureHandle {
        self.handle
    }
}

struct Materialization<E: Externs> {
    texture: E::TextureHandle,
    desc: TextureDesc,
}

struct PendingUpdate {
    handle: TextureHandle,
    region: TextureRegion,
    range: Range<usize>,
}

/// Defers texture creation, uploads and destruction until the renderer asks for them, and
/// maps the UI's handles to the renderer's textures once they exist.
///
/// Uploads are staged in one byte buffer whose ranges a [`RangeAlloc`] hands out.
pub struct TextureService<E: Externs> {
    handle_id_acc: u32,
    buf: Vec<u8>,
    range_alloc: RangeAlloc<usize>,
    pending_creates: Vec<(TextureHandle, TextureDesc)>,
    pending_updates: Vec<PendingUpdate>,
    pending_destroys: Vec<TextureHandle>,
    materializations: Vec<(TextureHandle, Materialization<E>)>,
}

/// A pending upload: texture, region and staging range.
pub type UpdateModel = (TextureHandle, TextureRegion, Range<usize>);

/// A created texture: the UI's handle, the renderer's texture and its description.
pub type TextureModel<H> = (TextureHandle, H, TextureDesc);

/// `h` has an entry in `s`.
pub open spec fn has_handle<A>(s: Seq<(TextureHandle, A)>, h: TextureHandle) -> bool {
    exists|i: int| 0 <= i < s.len() && #[trigger] s[i].0 == h
}

/// `h` was created by the renderer.
pub open spec fn has_texture<H>(s: Seq<TextureModel<H>>, h: TextureHandle) -> bool {
    exists|i: int| 0 <= i < s.len() && #[trigger] s[i].0 == h
}

/// No two entries of `s` have the same handle.
pub open spec fn unique_handles<A>(s: Seq<(TextureHandle, A)>) -> bool {
    forall|i: int, j: int| 0 <= i < j < s.len() ==> #[trigger] s[i].0 != #[trigger] s[j].0
}

impl<E: Externs> TextureService<E> {
    /// The id the next created texture gets.
    pub closed spec fn next_id(&self) -> u32 {
        self.handle_id_acc
    }

    /// The id the next created texture gets.
    pub fn next_handle_id(&self) -> (r: u32)
        ensures
            r == self.next_id(),
    {
        self.handle_id_acc
    }

    /// Textures waiting to be created by the renderer, oldest first.
    pub closed spec fn creates(&self) -> Seq<(TextureHandle, TextureDesc)> {
        self.pending_creates@
    }

    /// Uploads waiting for the renderer.
    pub closed spec fn updates(&self) -> Seq<UpdateModel> {
        self.pending_updates@.map_values(|u: PendingUpdate| (u.handle, u.region, u.range))
    }

    /// Textures waiting to be destroyed, oldest first.
    pub closed spec fn destroys(&self) -> Seq<TextureHandle> {
        self.pending_destroys@
    }

    /// Textures the renderer created.
    pub closed spec fn textures(&self) -> Seq<TextureModel<E::TextureHandle>> {
        self.materializations@.map_values(
            |m: (TextureHandle, Materialization<E>)| (m.0, m.1.texture, m.1.desc),
        )
    }

    /// The staging buffer of uploads.
    pub closed spec fn staging(&self) -> Seq<u8> {
        self.buf@
    }

    /// The allocator of staging ranges.
    pub closed spec fn allocator(&self) -> RangeAlloc<usize> {
        self.range_alloc
    }

    /// The allocator manages exactly the staging buffer; every pending upload has a non-empty
    /// range inside it; handles are unique per list and below the next id.
    pub open spec fn wf(&self) -> bool {
        &&& self.allocator().wf()
        &&& self.allocator().full().start == 0
        &&& self.allocator().full().end == self.staging().len()
        &&& forall|i: int|
            0 <= i < self.updates().len() ==> {
                let r = #[trigger] self.updates()[i].2;
                r.start < r.end <= self.staging().len()
            }
        &&& unique_handles(self.creates())
        &&& forall|i: int| 0 <= i < self.creates().len() ==> #[trigger] self.creates()[i].0.id < self.next_id()
        &&& forall|i: int, j: int|
            0 <= i < j < self.textures().len() ==> #[trigger] self.textures()[i].0 != #[trigger] self.textures()[j].0
        &&& forall|i: int, j: int|
            0 <= i < j < self.destroys().len() ==> #[trigger] self.destroys()[i] != #[trigger] self.destroys()[j]
        &&& forall|i: int, j: int|
            0 <= i < j < self.updates().len() ==> (#[trigger] self.updates()[i].0, self.updates()[i].1)
                != (#[trigger] self.updates()[j].0, self.updates()[j].1)
        &&& self.staged_apart()
    }

    /// Staged uploads never share bytes: the allocator's free list is disjoint, no pending
    /// upload's range is free, and no two pending uploads overlap.
    pub open spec fn staged_apart(&self) -> bool {
        &&& self.allocator().disjoint()
        &&& forall|i: int|
            0 <= i < self.updates().len() ==> points(#[trigger] self.updates()[i].2).disjoint(
                self.allocator().free_points(),
            )
        &&& forall|i: int, j: int|
            0 <= i < self.updates().len() && 0 <= j < self.updates().len() && i != j
                ==> ranges_disjoint(#[trigger] self.updates()[i].2, #[trigger] self.updates()[j].2)
    }

    /// Index of the pending create of `handle`.
    fn find_create(&self, handle: TextureHandle) -> (r: Option<usize>)
        ensures
            match r {
                Some(i) => i < self.creates().len() && self.creates()[i as int].0 == handle,
                None => forall|i: int| 0 <= i < self.creates().len() ==> #[trigger] self.creates()[i].0 != handle,
            },
    {
        let mut i: usize = 0;
        while i < self.pending_creates.len()
            invariant
                i <= self.creates().len(),
                forall|j: int| 0 <= j < i ==> #[trigger] self.creates()[j].0 != handle,
            decreases self.creates().len() - i,
        {
            if self.pending_creates[i].0 == handle {
                return Some(i);
            }
            i += 1;
        }
        None
    }

    /// Index of the created texture of `handle`.
    fn find_texture(&self, handle: TextureHandle) -> (r: Option<usize>)
        ensures
            match r {
                Some(i) => i < self.textures().len() && self.textures()[i as int].0 == handle,
                None => forall|i: int| 0 <= i < self.textures().len() ==> #[trigger] self.textures()[i].0 != handle,
            },
    {
        let mut i: usize = 0;
        while i < self.materializations.len()
            invariant
                i <= self.textures().len(),
                self.textures().len() == self.materializations@.len(),
                forall|j: int| 0 <= j < i ==> #[trigger] self.textures()[j].0 != handle,
            decreases self.textures().len() - i,
        {
            if self.materializations[i].0 == handle {
                return Some(i);
            }
            i += 1;
        }
        None
    }

    /// Asks for a texture; returns its handle, which is new.
    pub fn enque_create(&mut self, desc: TextureDesc) -> (handle: TextureHandle)
        requires
            old(self).wf(),
            old(self).next_id() < u32::MAX,
        ensures
            final(self).wf(),
            handle.id == old(self).next_id(),
            final(self).next_id() == old(self).next_id() + 1,
            final(self).creates() == old(self).creates().push((handle, desc)),
            final(self).updates() == old(self).updates(),
            final(self).destroys() == old(self).destroys(),
            final(self).textures() == old(self).textures(),
            final(self).staging() == old(self).staging(),
            final(self).allocator() == old(self).allocator(),
    {
        let handle = TextureHandle { id: self.handle_id_acc };
        self.handle_id_acc = self.handle_id_acc + 1;
        self.pending_creates.push((handle, desc));
        proof {
            let c = self.creates();
            assert(c =~= old(self).creates().push((handle, desc)));
            assert forall|a: int, b: int| 0 <= a < b < c.len() implies #[trigger] c[a].0 != #[trigger] c[b].0 by {
                if b < c.len() - 1 {
                    assert(old(self).creates()[a].0 != old(self).creates()[b].0);
                } else {
                    assert(old(self).creates()[a].0.id < old(self).next_id());
                }
            }
            assert forall|a: int| 0 <= a < c.len() implies #[trigger] c[a].0.id < self.next_id() by {
                if a < c.len() - 1 {
                    assert(old(self).creates()[a].0.id < old(self).next_id());
                }
            }
            assert(self.updates() =~= old(self).updates());
            assert(self.textures() =~= old(self).textures());
            assert(self.destroys() =~= old(self).destroys());
        }
        handle
    }

    /// A texture waiting to be created, with its description; `None` when none waits.
    pub fn next_pending_create(&self) -> (r: Option<(TextureCreateTicket, &TextureDesc)>)
        ensures
            self.creates().len() == 0 ==> r is None,
            self.creates().len() > 0 ==> (r matches Some((t, d)) && (t.handle(), *d) == self.creates()[0]),
    {
        if self.pending_creates.len() == 0 {
            return None;
        }
        let entry = &self.pending_creates[0];
        Some((TextureCreateTicket { handle: entry.0 }, &entry.1))
    }

    /// The renderer created the texture of `ticket` as `texture`.
    pub fn commit_create(&mut self, ticket: TextureCreateTicket, texture: E::TextureHandle)
        requires
            old(self).wf(),
            has_handle(old(self).creates(), ticket.handle()),
            forall|i: int| 0 <= i < old(self).textures().len() ==> #[trigger] old(self).textures()[i].0 != ticket.handle(),
        ensures
            final(self).wf(),
            exists|i: int|
                0 <= i < old(self).creates().len() && old(self).creates()[i].0 == ticket.handle() && {
                    &&& final(self).creates() == old(self).creates().remove(i)
                    &&& final(self).textures() == old(self).textures().push(
                        (ticket.handle(), texture, old(self).creates()[i].1),
                    )
                },
            final(self).next_id() == old(self).next_id(),
            final(self).updates() == old(self).updates(),
            final(self).destroys() == old(self).destroys(),
            final(self).staging() == old(self).staging(),
            final(self).allocator() == old(self).allocator(),
    {
        let TextureCreateTicket { handle } = ticket;
        let i = match self.find_create(handle) {
            Some(i) => i,
            None => unreached(),
        };
        let (_, desc) = self.pending_creates.remove(i);
        self.materializations.push((handle, Materialization { texture, desc }));
        proof {
            assert(self.textures() =~= old(self).textures().push((handle, texture, desc)));
            let t = self.textures();
            assert forall|a: int, b: int| 0 <= a < b < t.len() implies #[trigger] t[a].0 != #[trigger] t[b].0 by {
                if b < t.len() - 1 {
                    assert(old(self).textures()[a].0 != old(self).textures()[b].0);
                } else {
                    assert(old(self).textures()[a].0 != handle);
                }
            }
            assert(self.updates() =~= old(self).updates());
            assert(self.destroys() =~= old(self).destroys());
            assert(self.creates() =~= old(self).creates().remove(i as int));
            assert forall|a: int, b: int| 0 <= a < b < self.creates().len() implies #[trigger] self.creates()[a].0 != #[trigger] self.creates()[b].0 by {
                let oa = if a < i { a } else { a + 1 };
                let ob = if b < i { b } else { b + 1 };
                assert(old(self).creates()[oa].0 != old(self).creates()[ob].0);
            }
            assert forall|a: int| 0 <= a < self.creates().len() implies #[trigger] self.creates()[a].0.id < self.next_id() by {
                let oa = if a < i { a } else { a + 1 };
                assert(old(self).creates()[oa].0.id < old(self).next_id());
            }
        }
    }

    /// The renderer's texture for `handle`, which must have been created.
    pub fn get(&self, handle: TextureHandle) -> (r: &E::TextureHandle)
        requires
            has_texture(self.textures(), handle),
        ensures
            exists|i: int| 0 <= i < self.textures().len() && self.textures()[i].0 == handle && *r == self.textures()[i].1,
    {
        match self.find_texture(handle) {
            Some(i) => &self.materializations[i].1.texture,
            None => unreached(),
        }
    }

    fn destroy_pending(&self, handle: TextureHandle) -> (r: bool)
        ensures
            r == self.destroys().contains(handle),
    {
        let mut i: usize = 0;
        while i < self.pending_destroys.len()
            invariant
                i <= self.destroys().len(),
                forall|j: int| 0 <= j < i ==> #[trigger] self.destroys()[j] != handle,
            decreases self.destroys().len() - i,
        {
            if self.pending_destroys[i] == handle {
                assert(self.destroys()[i as int] == handle);
                return true;
            }
            i += 1;
        }
        false
    }

    /// Asks for `handle` to be destroyed; asking twice is asking once.
    pub fn enque_destroy(&mut self, handle: TextureHandle)
        requires
            old(self).wf(),
        ensures
            final(self).wf(),
            final(self).destroys() == if old(self).destroys().contains(handle) {
                old(self).destroys()
            } else {
                old(self).destroys().push(handle)
            },
            final(self).next_id() == old(self).next_id(),
            final(self).creates() == old(self).creates(),
            final(self).updates() == old(self).updates(),
            final(self).textures() == old(self).textures(),
            final(self).staging() == old(self).staging(),
            final(self).allocator() == old(self).allocator(),
    {
        if self.destroy_pending(handle) {
            return;
        }
        self.pending_destroys.push(handle);
        proof {
            let d = self.destroys();
            assert(d =~= old(self).destroys().push(handle));
            assert(!old(self).destroys().contains(handle));
            assert forall|a: int, b: int| 0 <= a < b < d.len() implies #[trigger] d[a] != #[trigger] d[b] by {
                if b < d.len() - 1 {
                    assert(old(self).destroys()[a] != old(self).destroys()[b]);
                }
            }
            assert(self.updates() =~= old(self).updates());
            assert(self.textures() =~= old(self).textures());
        }
    }
}

impl<E: Externs> Default for TextureService<E> {
    fn default() -> (s: Self)
        ensures
            s.wf(),
            s.next_id() == 0,
            s.creates().len() == 0,
            s.updates().len() == 0,
            s.destroys().len() == 0,
            s.textures().len() == 0,
            s.staging().len() == 0,
    {
        TextureService {
            handle_id_acc: 0,
            buf: Vec::new(),
            range_alloc: RangeAlloc::new(0..0),
            pending_creates: Vec::new(),
            pending_updates: Vec::new(),
            pending_destroys: Vec::new(),
            materializations: Vec::new(),
        }
    }
}


/// The bytes `start..end` of `v`, to write.
///
/// Trusted: calls `IndexMut::index_mut` of `Vec<u8>` with the range `start..end`, which
/// borrows exactly those bytes (it panics outside `0..=len` or when `start > end`, which
/// `requires` rules out); writing through the slice cannot change its length.
#[verifier::external_body]
fn bytes_mut(v: &mut Vec<u8>, start: usize, end: usize) -> (r: &mut [u8])
    requires
        start <= end <= old(v)@.len(),
    ensures
        r@ == old(v)@.subrange(start as int, end as int),
        final(r)@.len() == r@.len(),
        final(v)@ == old(v)@.subrange(0, start as int) + final(r)@ + old(v)@.subrange(
            end as int,
            old(v)@.len() as int,
        ),
{
    &mut v[start..end]
}

/// Where an upload of `(h, region)` goes in the pending uploads `o`: the position of the
/// pending upload of the same region, else the end.
pub open spec fn update_index(o: Seq<UpdateModel>, h: TextureHandle, region: TextureRegion) -> int {
    if exists|k: int| 0 <= k < o.len() && #[trigger] o[k].0 == h && o[k].1 == region {
        choose|k: int| 0 <= k < o.len() && #[trigger] o[k].0 == h && o[k].1 == region
    } else {
        o.len() as int
    }
}

/// Bytes per texel of a format.
pub open spec fn block(f: TextureFormat) -> nat {
    match f {
        TextureFormat::Rgba8Unorm => 4,
        TextureFormat::R8Unorm => 1,
    }
}

impl<E: Externs> TextureService<E> {
    /// The texture has been created or waits to be.
    pub open spec fn known(&self, h: TextureHandle) -> bool {
        has_texture(self.textures(), h) || has_handle(self.creates(), h)
    }

    /// The description of `h`: that of the created texture, else that of the pending create.
    pub open spec fn desc_of(&self, h: TextureHandle) -> TextureDesc {
        if has_texture(self.textures(), h) {
            self.textures()[choose|i: int|
                0 <= i < self.textures().len() && #[trigger] self.textures()[i].0 == h].2
        } else {
            self.creates()[choose|i: int|
                0 <= i < self.creates().len() && #[trigger] self.creates()[i].0 == h].1
        }
    }

    /// The number of staging bytes an upload of `region` into `h` takes.
    pub open spec fn upload_size(&self, h: TextureHandle, region: TextureRegion) -> int {
        region.w * region.h * block(self.desc_of(h).format)
    }

    /// The pending upload of `(h, region)`, if any.
    fn find_update(&self, handle: TextureHandle, region: TextureRegion) -> (r: Option<usize>)
        ensures
            match r {
                Some(j) => j < self.updates().len() && self.updates()[j as int].0 == handle
                    && self.updates()[j as int].1 == region,
                None => forall|j: int|
                    0 <= j < self.updates().len() ==> (#[trigger] self.updates()[j].0, self.updates()[j].1)
                        != (handle, region),
            },
    {
        let mut j: usize = 0;
        while j < self.pending_updates.len()
            invariant
                j <= self.updates().len(),
                self.updates().len() == self.pending_updates@.len(),
                forall|k: int| 0 <= k < j ==> (#[trigger] self.updates()[k].0, self.updates()[k].1) != (handle, region),
            decreases self.updates().len() - j,
        {
            let u = &self.pending_updates[j];
            if u.handle == handle && u.region == region {
                return Some(j);
            }
            j += 1;
        }
        None
    }

    /// The description of a known texture.
    fn desc_for(&self, handle: TextureHandle) -> (r: TextureDesc)
        requires
            self.wf(),
            self.known(handle),
        ensures
            r == self.desc_of(handle),
    {
        match self.find_texture(handle) {
            Some(i) => {
                proof {
                    let c = choose|k: int| 0 <= k < self.textures().len() && #[trigger] self.textures()[k].0 == handle;
                    if c != i {
                        if c < i {
                            assert(self.textures()[c].0 != self.textures()[i as int].0);
                        } else {
                            assert(self.textures()[i as int].0 != self.textures()[c].0);
                        }
                    }
                }
                self.materializations[i].1.desc
            },
            None => {
                let i = match self.find_create(handle) {
                    Some(i) => i,
                    None => unreached(),
                };
                proof {
                    let c = choose|k: int| 0 <= k < self.creates().len() && #[trigger] self.creates()[k].0 == handle;
                    if c != i {
                        if c < i {
                            assert(self.creates()[c].0 != self.creates()[i as int].0);
                        } else {
                            assert(self.creates()[i as int].0 != self.creates()[c].0);
                        }
                    }
                }
                self.pending_creates[i].1
            },
        }
    }

    /// A free staging range of `size` bytes, growing the buffer when none is free: by its
    /// current size, or by `size` when that is more.
    fn allocate_staging(&mut self, size: usize) -> (r: Range<usize>)
        requires
            old(self).wf(),
            size > 0,
            old(self).staging().len() + if old(self).staging().len() > size {
                old(self).staging().len() as int
            } else {
                size as int
            } <= isize::MAX,
        ensures
            final(self).wf(),
            r.end - r.start == size,
            r.end <= final(self).staging().len(),
            points(r).disjoint(final(self).allocator().free_points()),
            forall|i: int|
                0 <= i < final(self).updates().len() ==> ranges_disjoint(#[trigger] final(self).updates()[i].2, r),
            final(self).staging().len() >= old(self).staging().len(),
            final(self).staging().subrange(0, old(self).staging().len() as int) == old(self).staging(),
            final(self).next_id() == old(self).next_id(),
            final(self).creates() == old(self).creates(),
            final(self).updates() == old(self).updates(),
            final(self).destroys() == old(self).destroys(),
            final(self).textures() == old(self).textures(),
    {
        let ghost taken: Set<int>;
        let range = match self.range_alloc.allocate(size) {
            Ok(range) => {
                proof {
                    taken = old(self).allocator().free_points();
                }
                range
            },
            Err(_) => {
                let full_end = self.range_alloc.full_range().end;
                let additional = if full_end > size { full_end } else { size };
                let new_end = full_end + additional;
                self.buf.resize(new_end, 0u8);
                self.range_alloc.grow(new_end);
                proof {
                    let rs = old(self).allocator().free();
                    let n = rs.len() as int;
                    let fr = self.allocator().free();
                    if n > 0 && hi(rs[n - 1]) == hi(old(self).allocator().full()) {
                        assert(fr[n - 1].end == new_end);
                        assert(span(fr[n - 1]) >= size);
                        assert(any_fit(fr, size as int));
                    } else {
                        assert(fr[n] == (Range { start: full_end, end: new_end }));
                        assert(any_fit(fr, size as int));
                    }
                    taken = self.allocator().free_points();
                    assert(taken == old(self).allocator().free_points().union(
                        interval(full_end as int, new_end as int),
                    ));
                }
                match self.range_alloc.allocate(size) {
                    Ok(range) => range,
                    Err(_) => unreached(),
                }
            },
        };
        proof {
            assert(self.updates() =~= old(self).updates());
            assert(self.textures() =~= old(self).textures());
            assert(self.destroys() =~= old(self).destroys());
            assert(self.creates() =~= old(self).creates());
            assert(points(range).subset_of(taken));
            assert forall|i: int| 0 <= i < self.updates().len() implies ranges_disjoint(#[trigger] self.updates()[i].2, range) by {
                let q = self.updates()[i].2;
                assert(points(q).disjoint(old(self).allocator().free_points()));
                assert(q.end <= old(self).staging().len());
                if !ranges_disjoint(q, range) {
                    let pt = if lo(q) < lo(range) { lo(range) } else { lo(q) };
                    assert(points(q).contains(pt));
                    assert(points(range).contains(pt));
                    assert(taken.contains(pt));
                }
            }
        }
        range
    }
}


impl<E: Externs> TextureService<E> {
    /// Stages an upload of `region` into texture `handle`, which is created or waits to be, and
    /// returns the staging bytes to fill; an earlier pending upload of the same region is
    /// replaced.
    ///
    /// The returned bytes are not cleared: every one of them has to be written.
    pub fn enque_update(&mut self, handle: TextureHandle, region: TextureRegion) -> (r: &mut [u8])
        requires
            old(self).wf(),
            old(self).known(handle),
            0 < old(self).upload_size(handle, region) <= u32::MAX,
            old(self).staging().len() + if old(self).staging().len() > old(self).upload_size(handle, region) {
                old(self).staging().len() as int
            } else {
                old(self).upload_size(handle, region)
            } <= isize::MAX,
        ensures
            final(self).wf(),
            r@.len() == old(self).upload_size(handle, region),
            ({
                let u = final(self).updates();
                let o = old(self).updates();
                let j = update_index(o, handle, region);
                &&& 0 <= j < u.len()
                &&& u[j].0 == handle && u[j].1 == region
                &&& u[j].2.end - u[j].2.start == r@.len()
                &&& final(self).staging().subrange(u[j].2.start as int, u[j].2.end as int) == final(r)@
                &&& forall|k: int|
                    0 <= k < old(self).staging().len() && !(u[j].2.start <= k < u[j].2.end)
                        ==> #[trigger] final(self).staging()[k] == old(self).staging()[k]
                &&& u == if j < o.len() { o.update(j, u[j]) } else { o.push(u[j]) }
            }),
            final(self).next_id() == old(self).next_id(),
            final(self).creates() == old(self).creates(),
            final(self).destroys() == old(self).destroys(),
            final(self).textures() == old(self).textures(),
    {
        let desc = self.desc_for(handle);
        let texel = desc.format.block_size() as u32;
        proof {
            let w = region.w as int;
            let h = region.h as int;
            let b = texel as int;
            assert(b == block(desc.format));
            assert(w * h <= w * h * b) by (nonlinear_arith)
                requires
                    b >= 1,
                    w >= 0,
                    h >= 0,
            ;
        }
        let size = (region.w * region.h * texel) as usize;
        let range = self.allocate_staging(size);
        let ghost before = self.updates();
        let start = range.start;
        let end = range.end;
        let entry = PendingUpdate { handle, region, range: Range { start, end } };
        let ghost model: UpdateModel = (handle, region, Range { start, end });
        let ghost j: int;
        match self.find_update(handle, region) {
            Some(k) => {
                self.pending_updates.set(k, entry);
                proof {
                    j = k as int;
                    let c = choose|c: int| 0 <= c < before.len() && #[trigger] before[c].0 == handle && before[c].1 == region;
                    assert(before[j].0 == handle);
                    if c < j {
                        assert((before[c].0, before[c].1) != (before[j].0, before[j].1));
                    } else if c > j {
                        assert((before[j].0, before[j].1) != (before[c].0, before[c].1));
                    }
                    assert(j == update_index(before, handle, region));
                    assert(self.updates() =~= before.update(j, model));
                }
            },
            None => {
                self.pending_updates.push(entry);
                proof {
                    j = before.len() as int;
                    assert(self.updates() =~= before.push(model));
                    assert(j == update_index(before, handle, region));
                }
            },
        }
        proof {
            let u = self.updates();
            assert forall|a: int, b: int| 0 <= a < b < u.len() implies (#[trigger] u[a].0, u[a].1) != (#[trigger] u[b].0, u[b].1) by {
                if a != j && b != j {
                    assert((before[a].0, before[a].1) != (before[b].0, before[b].1));
                }
            }
            assert forall|i: int| 0 <= i < u.len() implies {
                let rg = #[trigger] u[i].2;
                rg.start < rg.end <= self.staging().len()
            } by {
                if i != j {
                    assert(before[i].2.end <= old(self).staging().len());
                }
            }
        }
        bytes_mut(&mut self.buf, start, end)
    }
}


/// The pending uploads `u` without those of texture `h`.
pub open spec fn without_updates_of(u: Seq<UpdateModel>, h: TextureHandle) -> Seq<UpdateModel>
    decreases u.len(),
{
    if u.len() == 0 {
        u
    } else {
        let rest = without_updates_of(u.drop_last(), h);
        if u.last().0 == h {
            rest
        } else {
            rest.push(u.last())
        }
    }
}

/// The pending creates `c` without that of texture `h`.
pub open spec fn without_create_of(c: Seq<(TextureHandle, TextureDesc)>, h: TextureHandle) -> Seq<
    (TextureHandle, TextureDesc),
>
    decreases c.len(),
{
    if c.len() == 0 {
        c
    } else {
        let rest = without_create_of(c.drop_last(), h);
        if c.last().0 == h {
            rest
        } else {
            rest.push(c.last())
        }
    }
}

/// The pending uploads `u` after the textures `hs` were destroyed, in order.
pub open spec fn updates_after(u: Seq<UpdateModel>, hs: Seq<TextureHandle>) -> Seq<UpdateModel>
    decreases hs.len(),
{
    if hs.len() == 0 {
        u
    } else {
        without_updates_of(updates_after(u, hs.drop_last()), hs.last())
    }
}

/// The pending creates `c` after the textures `hs` were destroyed, in order.
pub open spec fn creates_after(c: Seq<(TextureHandle, TextureDesc)>, hs: Seq<TextureHandle>) -> Seq<
    (TextureHandle, TextureDesc),
>
    decreases hs.len(),
{
    if hs.len() == 0 {
        c
    } else {
        without_create_of(creates_after(c, hs.drop_last()), hs.last())
    }
}

proof fn lemma_without_updates_keeps_others(u: Seq<UpdateModel>, h: TextureHandle, i: int)
    requires
        0 <= i < without_updates_of(u, h).len(),
    ensures
        without_updates_of(u, h)[i].0 != h,
    decreases u.len(),
{
    if u.len() > 0 {
        let rest = without_updates_of(u.drop_last(), h);
        if i < rest.len() {
            lemma_without_updates_keeps_others(u.drop_last(), h, i);
        }
    }
}

proof fn lemma_without_updates_subseq(u: Seq<UpdateModel>, h: TextureHandle)
    ensures
        forall|i: int|
            0 <= i < without_updates_of(u, h).len() ==> exists|k: int|
                0 <= k < u.len() && #[trigger] without_updates_of(u, h)[i] == u[k],
        forall|i: int, j: int|
            0 <= i < j < without_updates_of(u, h).len() ==> exists|a: int, b: int|
                0 <= a < b < u.len() && #[trigger] without_updates_of(u, h)[i] == u[a]
                    && #[trigger] without_updates_of(u, h)[j] == u[b],
    decreases u.len(),
{
    if u.len() > 0 {
        lemma_without_updates_subseq(u.drop_last(), h);
        let rest = without_updates_of(u.drop_last(), h);
        let w = without_updates_of(u, h);
        assert forall|i: int| 0 <= i < w.len() implies exists|k: int| 0 <= k < u.len() && #[trigger] w[i] == u[k] by {
            if i < rest.len() {
                let k = choose|k: int| 0 <= k < u.drop_last().len() && #[trigger] rest[i] == u.drop_last()[k];
                assert(w[i] == u[k]);
            } else {
                assert(w[i] == u[u.len() - 1]);
            }
        }
        assert forall|i: int, j: int| 0 <= i < j < w.len() implies exists|a: int, b: int|
            0 <= a < b < u.len() && #[trigger] w[i] == u[a] && #[trigger] w[j] == u[b] by {
            if j < rest.len() {
                let (a, b) = choose|a: int, b: int|
                    0 <= a < b < u.drop_last().len() && #[trigger] rest[i] == u.drop_last()[a]
                        && #[trigger] rest[j] == u.drop_last()[b];
                assert(w[i] == u[a] && w[j] == u[b]);
            } else {
                let a = choose|k: int| 0 <= k < u.drop_last().len() && #[trigger] rest[i] == u.drop_last()[k];
                assert(w[i] == u[a] && w[j] == u[u.len() - 1]);
            }
        }
    }
}

impl<E: Externs> TextureService<E> {
    /// Drops the pending uploads of `handle`, handing their staging ranges back.
    fn drop_updates_of(&mut self, handle: TextureHandle)
        requires
            old(self).wf(),
        ensures
            final(self).wf(),
            final(self).updates() == without_updates_of(old(self).updates(), handle),
            final(self).next_id() == old(self).next_id(),
            final(self).creates() == old(self).creates(),
            final(self).destroys() == old(self).destroys(),
            final(self).textures() == old(self).textures(),
            final(self).staging() == old(self).staging(),
    {
        let ghost u = old(self).updates();
        let mut kept: Vec<PendingUpdate> = Vec::new();
        let mut k: usize = 0;
        while k < self.pending_updates.len()
            invariant
                k <= u.len(),
                u == self.updates(),
                self.pending_updates@.len() == u.len(),
                self.range_alloc.wf(),
                self.allocator().full() == old(self).allocator().full(),
                self.buf@ == old(self).buf@,
                self.handle_id_acc == old(self).handle_id_acc,
                self.pending_creates@ == old(self).pending_creates@,
                self.pending_destroys@ == old(self).pending_destroys@,
                self.textures() == old(self).textures(),
                self.allocator().full().start == 0,
                self.allocator().full().end == self.buf@.len(),
                forall|i: int| 0 <= i < u.len() ==> {
                    let r = #[trigger] u[i].2;
                    r.start < r.end <= self.buf@.len()
                },
                kept@.map_values(|p: PendingUpdate| (p.handle, p.region, p.range)) == without_updates_of(
                    u.take(k as int),
                    handle,
                ),
                self.range_alloc.disjoint(),
                forall|i: int|
                    0 <= i < u.len() && (i >= k || u[i].0 != handle) ==> points(#[trigger] u[i].2).disjoint(
                        self.allocator().free_points(),
                    ),
                forall|i: int, j: int|
                    0 <= i < u.len() && 0 <= j < u.len() && i != j ==> ranges_disjoint(#[trigger] u[i].2, #[trigger] u[j].2),
            decreases u.len() - k,
        {
            proof {
                assert(u.take(k + 1).drop_last() =~= u.take(k as int));
            }
            let p = &self.pending_updates[k];
            let model: UpdateModel = (p.handle, p.region, Range { start: p.range.start, end: p.range.end });
            assert(model == u[k as int]);
            assert(u[k as int].2.start < u[k as int].2.end <= self.buf@.len());
            if p.handle == handle {
                let start = p.range.start;
                let end = p.range.end;
                let ghost before = self.allocator().free_points();
                proof {
                    assert(points(u[k as int].2).disjoint(before));
                }
                self.range_alloc.deallocate(Range { start, end });
                proof {
                    assert forall|i: int|
                        0 <= i < u.len() && (i >= k + 1 || u[i].0 != handle) implies points(#[trigger] u[i].2).disjoint(
                            self.allocator().free_points(),
                        ) by {
                        assert(points(u[i].2).disjoint(before));
                        assert(i != k);
                        assert(ranges_disjoint(u[i].2, u[k as int].2));
                    }
                }
            } else {
                let copy = PendingUpdate {
                    handle: p.handle,
                    region: p.region,
                    range: Range { start: p.range.start, end: p.range.end },
                };
                kept.push(copy);
                proof {
                    assert(kept@.map_values(|p: PendingUpdate| (p.handle, p.region, p.range)) =~= without_updates_of(
                        u.take(k as int),
                        handle,
                    ).push(model));
                }
            }
            k += 1;
        }
        self.pending_updates = kept;
        proof {
            assert(u.take(u.len() as int) =~= u);
            let w = self.updates();
            lemma_without_updates_subseq(u, handle);
            assert forall|i: int| 0 <= i < w.len() implies {
                let r = #[trigger] w[i].2;
                r.start < r.end <= self.staging().len()
            } by {
                let k = choose|k: int| 0 <= k < u.len() && #[trigger] w[i] == u[k];
                assert(u[k].2.end <= self.staging().len());
            }
            assert forall|i: int, j: int| 0 <= i < j < w.len() implies (#[trigger] w[i].0, w[i].1) != (#[trigger] w[j].0, w[j].1) by {
                let (a, b) = choose|a: int, b: int| 0 <= a < b < u.len() && #[trigger] w[i] == u[a] && #[trigger] w[j] == u[b];
                assert((u[a].0, u[a].1) != (u[b].0, u[b].1));
            }
            assert forall|i: int, j: int|
                0 <= i < w.len() && 0 <= j < w.len() && i != j implies ranges_disjoint(#[trigger] w[i].2, #[trigger] w[j].2) by {
                if i < j {
                    let (a, b) = choose|a: int, b: int| 0 <= a < b < u.len() && #[trigger] w[i] == u[a] && #[trigger] w[j] == u[b];
                    assert(ranges_disjoint(u[a].2, u[b].2));
                } else {
                    let (a, b) = choose|a: int, b: int| 0 <= a < b < u.len() && #[trigger] w[j] == u[a] && #[trigger] w[i] == u[b];
                    assert(ranges_disjoint(u[b].2, u[a].2));
                }
            }
            assert forall|i: int| 0 <= i < w.len() implies points(#[trigger] w[i].2).disjoint(self.allocator().free_points()) by {
                let k = choose|k: int| 0 <= k < u.len() && #[trigger] w[i] == u[k];
                lemma_without_updates_keeps_others(u, handle, i);
                assert(points(u[k].2).disjoint(self.allocator().free_points()));
            }
            assert(self.creates() =~= old(self).creates());
            assert(self.destroys() =~= old(self).destroys());
            assert(self.textures() =~= old(self).textures());
        }
    }
}


proof fn lemma_without_create_subseq(c: Seq<(TextureHandle, TextureDesc)>, h: TextureHandle)
    ensures
        forall|i: int|
            0 <= i < without_create_of(c, h).len() ==> exists|k: int|
                0 <= k < c.len() && #[trigger] without_create_of(c, h)[i] == c[k],
        forall|i: int, j: int|
            0 <= i < j < without_create_of(c, h).len() ==> exists|a: int, b: int|
                0 <= a < b < c.len() && #[trigger] without_create_of(c, h)[i] == c[a]
                    && #[trigger] without_create_of(c, h)[j] == c[b],
    decreases c.len(),
{
    if c.len() > 0 {
        lemma_without_create_subseq(c.drop_last(), h);
        let rest = without_create_of(c.drop_last(), h);
        let w = without_create_of(c, h);
        assert forall|i: int| 0 <= i < w.len() implies exists|k: int| 0 <= k < c.len() && #[trigger] w[i] == c[k] by {
            if i < rest.len() {
                let k = choose|k: int| 0 <= k < c.drop_last().len() && #[trigger] rest[i] == c.drop_last()[k];
                assert(w[i] == c[k]);
            } else {
                assert(w[i] == c[c.len() - 1]);
            }
        }
        assert forall|i: int, j: int| 0 <= i < j < w.len() implies exists|a: int, b: int|
            0 <= a < b < c.len() && #[trigger] w[i] == c[a] && #[trigger] w[j] == c[b] by {
            if j < rest.len() {
                let (a, b) = choose|a: int, b: int|
                    0 <= a < b < c.drop_last().len() && #[trigger] rest[i] == c.drop_last()[a]
                        && #[trigger] rest[j] == c.drop_last()[b];
                assert(w[i] == c[a] && w[j] == c[b]);
            } else {
                let a = choose|k: int| 0 <= k < c.drop_last().len() && #[trigger] rest[i] == c.drop_last()[k];
                assert(w[i] == c[a] && w[j] == c[c.len() - 1]);
            }
        }
    }
}

impl<E: Externs> TextureService<E> {
    /// Drops the pending create of `handle`, if any.
    fn drop_create_of(&mut self, handle: TextureHandle)
        requires
            old(self).wf(),
        ensures
            final(self).wf(),
            final(self).creates() == without_create_of(old(self).creates(), handle),
            final(self).next_id() == old(self).next_id(),
            final(self).updates() == old(self).updates(),
            final(self).destroys() == old(self).destroys(),
            final(self).textures() == old(self).textures(),
            final(self).staging() == old(self).staging(),
            final(self).allocator() == old(self).allocator(),
    {
        let ghost c = old(self).creates();
        let mut kept: Vec<(TextureHandle, TextureDesc)> = Vec::new();
        let mut k: usize = 0;
        while k < self.pending_creates.len()
            invariant
                k <= c.len(),
                c == self.creates(),
                kept@ == without_create_of(c.take(k as int), handle),
            decreases c.len() - k,
        {
            proof {
                assert(c.take(k + 1).drop_last() =~= c.take(k as int));
            }
            let entry = self.pending_creates[k];
            if entry.0 != handle {
                kept.push(entry);
            }
            k += 1;
        }
        self.pending_creates = kept;
        proof {
            assert(c.take(c.len() as int) =~= c);
            let w = self.creates();
            lemma_without_create_subseq(c, handle);
            assert forall|i: int, j: int| 0 <= i < j < w.len() implies #[trigger] w[i].0 != #[trigger] w[j].0 by {
                let (a, b) = choose|a: int, b: int| 0 <= a < b < c.len() && #[trigger] w[i] == c[a] && #[trigger] w[j] == c[b];
                assert(c[a].0 != c[b].0);
            }
            assert forall|i: int| 0 <= i < w.len() implies #[trigger] w[i].0.id < self.next_id() by {
                let k = choose|k: int| 0 <= k < c.len() && #[trigger] w[i] == c[k];
                assert(c[k].0.id < old(self).next_id());
            }
            assert(self.updates() =~= old(self).updates());
            assert(self.destroys() =~= old(self).destroys());
            assert(self.textures() =~= old(self).textures());
        }
    }

    /// Destroys the textures asked for, oldest first, until one that the renderer created: its
    /// pending uploads and pending create are dropped, and it is handed back for the renderer
    /// to destroy. A texture that was never created is just forgotten. `None` when every
    /// texture asked for was processed without finding a created one.
    pub fn next_pending_destroy(&mut self) -> (r: Option<E::TextureHandle>)
        requires
            old(self).wf(),
        ensures
            final(self).wf(),
            exists|n: int|
                0 <= n <= old(self).destroys().len() && {
                    let d = old(self).destroys();
                    &&& final(self).destroys() == #[trigger] old(self).destroys().skip(n)
                    &&& final(self).updates() == updates_after(old(self).updates(), d.take(n))
                    &&& final(self).creates() == creates_after(old(self).creates(), d.take(n))
                    &&& match r {
                        Some(t) => n >= 1 && (forall|k: int| 0 <= k < n - 1 ==> !has_texture(old(self).textures(), #[trigger] d[k]))
                            && exists|i: int|
                            0 <= i < old(self).textures().len() && old(self).textures()[i].0 == d[n - 1]
                                && t == old(self).textures()[i].1 && final(self).textures()
                                == old(self).textures().remove(i),
                        None => n == d.len() && (forall|k: int| 0 <= k < n ==> !has_texture(old(self).textures(), #[trigger] d[k]))
                            && final(self).textures() == old(self).textures(),
                    }
                },
            final(self).next_id() == old(self).next_id(),
    {
        let ghost d = old(self).destroys();
        let ghost mut n: int = 0;
        while self.pending_destroys.len() > 0
            invariant
                self.wf(),
                d == old(self).destroys(),
                0 <= n <= d.len(),
                self.destroys() == d.skip(n),
                self.updates() == updates_after(old(self).updates(), d.take(n)),
                self.creates() == creates_after(old(self).creates(), d.take(n)),
                self.textures() == old(self).textures(),
                self.next_id() == old(self).next_id(),
                forall|k: int| 0 <= k < n ==> !has_texture(old(self).textures(), #[trigger] d[k]),
            decreases self.destroys().len(),
        {
            let handle = self.pending_destroys.remove(0);
            proof {
                assert(handle == d[n]);
                assert(d.take(n + 1).drop_last() =~= d.take(n));
                assert(d.skip(n + 1) =~= d.skip(n).remove(0));
                let ds = self.destroys();
                assert forall|a: int, b: int| 0 <= a < b < ds.len() implies #[trigger] ds[a] != #[trigger] ds[b] by {
                    assert(d.skip(n)[a + 1] != d.skip(n)[b + 1]);
                }
                assert(self.updates() =~= updates_after(old(self).updates(), d.take(n)));
                assert(self.textures() =~= old(self).textures());
            }
            self.drop_updates_of(handle);
            self.drop_create_of(handle);
            proof {
                n = n + 1;
            }
            match self.find_texture(handle) {
                Some(i) => {
                    let (_, m) = self.materializations.remove(i);
                    proof {
                        let t = self.textures();
                        assert(t =~= old(self).textures().remove(i as int));
                        assert forall|a: int, b: int| 0 <= a < b < t.len() implies #[trigger] t[a].0 != #[trigger] t[b].0 by {
                            let oa = if a < i { a } else { a + 1 };
                            let ob = if b < i { b } else { b + 1 };
                            assert(old(self).textures()[oa].0 != old(self).textures()[ob].0);
                        }
                        assert(self.updates() =~= updates_after(old(self).updates(), d.take(n)));
                        assert(self.creates() =~= creates_after(old(self).creates(), d.take(n)));
                        assert(self.destroys() =~= d.skip(n));
                        assert(old(self).textures()[i as int].0 == d[n - 1]);
                        assert(m.texture == old(self).textures()[i as int].1);
                        assert(forall|k: int| 0 <= k < n - 1 ==> !has_texture(old(self).textures(), #[trigger] d[k]));
                        assert(self.destroys() == old(self).destroys().skip(n));
                    }
                    return Some(m.texture);
                },
                None => {
                    proof {
                        assert(!has_texture(old(self).textures(), d[n - 1]));
                    }
                },
            }
        }
        proof {
            assert(d.skip(n).len() == 0);
        }
        None
    }
}


impl<E: Externs> TextureService<E> {
    /// Takes the oldest staged upload for the renderer: its region, the texture and its
    /// description, and the staged bytes; `None` when no upload waits. The texture of the
    /// upload must have been created. The staging range stays reserved.
    pub fn next_pending_update(&mut self) -> (r: Option<TexturePendingUpdate<'_, E>>)
        requires
            old(self).wf(),
            old(self).updates().len() > 0 ==> has_texture(old(self).textures(), old(self).updates()[0].0),
        ensures
            final(self).wf(),
            old(self).updates().len() == 0 ==> r is None && final(self).updates() == old(self).updates(),
            old(self).updates().len() > 0 ==> {
                let u = old(self).updates()[0];
                &&& final(self).updates() == old(self).updates().remove(0)
                &&& r matches Some(p) && p.region == u.1 && p.data@ == old(self).staging().subrange(
                    u.2.start as int,
                    u.2.end as int,
                ) && exists|i: int|
                    0 <= i < old(self).textures().len() && old(self).textures()[i].0 == u.0
                        && *p.texture == old(self).textures()[i].1 && *p.desc == old(self).textures()[i].2
            },
            final(self).next_id() == old(self).next_id(),
            final(self).creates() == old(self).creates(),
            final(self).destroys() == old(self).destroys(),
            final(self).textures() == old(self).textures(),
            final(self).staging() == old(self).staging(),
            final(self).allocator() == old(self).allocator(),
    {
        if self.pending_updates.len() == 0 {
            return None;
        }
        let ghost u0 = self.updates()[0];
        proof {
            assert(u0.2.start < u0.2.end <= old(self).staging().len());
        }
        let u = self.pending_updates.remove(0);
        proof {
            assert(u0 == (u.handle, u.region, u.range));
            let w = self.updates();
            assert(w =~= old(self).updates().remove(0));
            assert forall|a: int, b: int| 0 <= a < b < w.len() implies (#[trigger] w[a].0, w[a].1) != (#[trigger] w[b].0, w[b].1) by {
                assert((old(self).updates()[a + 1].0, old(self).updates()[a + 1].1) != (old(self).updates()[b + 1].0, old(self).updates()[b + 1].1));
            }
            assert forall|a: int| 0 <= a < w.len() implies {
                let rg = #[trigger] w[a].2;
                rg.start < rg.end <= self.staging().len()
            } by {
                assert(old(self).updates()[a + 1].2.end <= old(self).staging().len());
            }
            assert(self.creates() =~= old(self).creates());
            assert(self.destroys() =~= old(self).destroys());
            assert(self.textures() =~= old(self).textures());
            assert(u.range.end <= self.buf@.len());
        }
        let i = match self.find_texture(u.handle) {
            Some(i) => i,
            None => unreached(),
        };
        let this: &Self = self;
        let m = &this.materializations[i].1;
        let (_, tail) = this.buf.as_slice().split_at(u.range.start);
        let (data, _) = tail.split_at(u.range.end - u.range.start);
        proof {
            assert(data@ =~= old(self).staging().subrange(u0.2.start as int, u0.2.end as int));
        }
        Some(TexturePendingUpdate { region: u.region, texture: &m.texture, desc: &m.desc, data })
    }
}


/// Staged uploads never share bytes: in a service that every operation above left
/// well-formed, two pending uploads have disjoint staging ranges, and neither range is free
/// for the allocator to hand out again.
pub proof fn law_staged_uploads_apart<E: Externs>(svc: TextureService<E>, i: int, j: int)
    requires
        svc.wf(),
        0 <= i < svc.updates().len(),
        0 <= j < svc.updates().len(),
        i != j,
    ensures
        ranges_disjoint(svc.updates()[i].2, svc.updates()[j].2),
        points(svc.updates()[i].2).disjoint(svc.allocator().free_points()),
{
}

} // verus!
