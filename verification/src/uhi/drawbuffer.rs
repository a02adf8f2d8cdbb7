//! The UI draw buffer: vertices, the triangles over them, and the draw commands that run over
//! the triangles' indices.
//!
//! Shapes are drawn as quads of four vertices (top left, top right, bottom right, bottom left)
//! split into two triangles; each quad becomes a draw command of its own, with the clip
//! rectangle in force and the quad's texture. The buffer does not look into vertices, clip
//! rectangles or textures: the geometry that makes them is the caller's.
use crate::sx::color::byte_at;
use std::ops::Range;
use vstd::prelude::*;

verus! {

/// A color with red, green, blue and alpha channels of one byte each.
#[derive(Debug, Default, Clone, Copy, PartialEq, Eq, Structural)]
pub struct Rgba8 {
    pub r: u8,
    pub g: u8,
    pub b: u8,
    pub a: u8,
}

impl Rgba8 {
    pub fn new(r: u8, g: u8, b: u8, a: u8) -> (c: Self)
        ensures
            c == (Rgba8 { r, g, b, a }),
    {
        Self { r, g, b, a }
    }

    /// The color whose channels are the bytes of `arr` in order: red, green, blue, alpha.
    pub fn from_bytes(arr: [u8; 4]) -> (c: Self)
        ensures
            c == (Rgba8 { r: arr@[0], g: arr@[1], b: arr@[2], a: arr@[3] }),
    {
        Self { r: arr[0], g: arr[1], b: arr[2], a: arr[3] }
    }

    /// Reads a color written as hex `0xRRGGBBAA`.
    pub fn from_u32(value: u32) -> (c: Self)
        ensures
            c.r == byte_at(value, 24),
            c.g == byte_at(value, 16),
            c.b == byte_at(value, 8),
            c.a == byte_at(value, 0),
    {
        let c = crate::sx::color::Rgba8::from_u32(value);
        Self { r: c.r, g: c.g, b: c.b, a: c.a }
    }
}


/// A run of indices drawn with one clip rectangle and one texture.
#[derive(Debug)]
pub struct DrawCommand<C, T> {
    pub clip_rect: Option<C>,
    pub index_range: Range<u32>,
    pub texture: Option<T>,
}

/// What a renderer draws: the buffer's indices, vertices and commands.
#[derive(Debug)]
pub struct DrawData<'a, V, C, T> {
    pub indices: &'a [u32],
    pub vertices: &'a [V],
    pub commands: &'a [DrawCommand<C, T>],
}

/// The indices of a quad whose first vertex is `base`: the triangles top left, top right,
/// bottom right and bottom right, bottom left, top left.
pub open spec fn quad_indices(base: int) -> Seq<u32> {
    seq![base as u32, (base + 1) as u32, (base + 2) as u32, (base + 2) as u32, (base + 3) as u32, base as u32]
}

/// End of the indices that commands cover: where the last command ends, or 0.
pub open spec fn covered_end<C, T>(commands: Seq<DrawCommand<C, T>>) -> int {
    if commands.len() == 0 {
        0
    } else {
        commands.last().index_range.end as int
    }
}

/// Vertices, triangle indices and draw commands of a frame.
#[derive(Debug)]
pub struct DrawBuffer<V, C, T> {
    clip_rect: Option<C>,
    vertices: Vec<V>,
    indices: Vec<u32>,
    pending_indices: usize,
    draw_commands: Vec<DrawCommand<C, T>>,
}

impl<V, C: Copy, T> DrawBuffer<V, C, T> {
    /// The vertices pushed so far.
    pub closed spec fn vertex_seq(&self) -> Seq<V> {
        self.vertices@
    }

    /// The triangle indices pushed so far, three per triangle.
    pub closed spec fn index_seq(&self) -> Seq<u32> {
        self.indices@
    }

    /// The draw commands so far.
    pub closed spec fn command_seq(&self) -> Seq<DrawCommand<C, T>> {
        self.draw_commands@
    }

    /// The clip rectangle new commands get.
    pub closed spec fn clip(&self) -> Option<C> {
        self.clip_rect
    }

    /// Every index names a vertex of the buffer, and the commands cover the indices one after
    /// another from the first to the last, each a non-empty run.
    pub closed spec fn wf(&self) -> bool {
        &&& self.pending_indices == 0
        &&& self.indices@.len() <= u32::MAX
        &&& forall|i: int| 0 <= i < self.indices@.len() ==> (#[trigger] self.indices@[i]) < self.vertices@.len()
        &&& covered_end(self.draw_commands@) == self.indices@.len()
        &&& forall|k: int| 0 <= k < self.draw_commands@.len() ==> {
            let r = #[trigger] self.draw_commands@[k].index_range;
            &&& r.start < r.end
            &&& k == 0 ==> r.start == 0
            &&& k > 0 ==> r.start == self.draw_commands@[k - 1].index_range.end
        }
    }

    /// An empty buffer with no clip rectangle.
    pub fn new() -> (r: Self)
        ensures
            r.wf(),
            r.vertex_seq().len() == 0,
            r.index_seq().len() == 0,
            r.command_seq().len() == 0,
            r.clip() is None,
    {
        DrawBuffer {
            clip_rect: None,
            vertices: Vec::new(),
            indices: Vec::new(),
            pending_indices: 0,
            draw_commands: Vec::new(),
        }
    }

    /// Empties the buffer for the next frame; the clip rectangle stays.
    pub fn clear(&mut self)
        requires
            old(self).wf(),
        ensures
            final(self).wf(),
            final(self).vertex_seq().len() == 0,
            final(self).index_seq().len() == 0,
            final(self).command_seq().len() == 0,
            final(self).clip() == old(self).clip(),
    {
        self.vertices.clear();
        self.indices.clear();
        self.draw_commands.clear();
    }

    /// Sets the clip rectangle of the commands that follow.
    pub fn set_clip_rect(&mut self, clip_rect: Option<C>)
        requires
            old(self).wf(),
        ensures
            final(self).wf(),
            final(self).clip() == clip_rect,
            final(self).vertex_seq() == old(self).vertex_seq(),
            final(self).index_seq() == old(self).index_seq(),
            final(self).command_seq() == old(self).command_seq(),
    {
        self.clip_rect = clip_rect;
    }

    /// There is room for one more quad: its vertices can be numbered and its indices counted
    /// in 32 bits.
    pub open spec fn room_for_quad(&self) -> bool {
        &&& self.vertex_seq().len() + 4 <= u32::MAX
        &&& self.index_seq().len() + 6 <= u32::MAX
    }

    /// Whether there is room for one more quad.
    pub fn has_room_for_quad(&self) -> (r: bool)
        ensures
            r == self.room_for_quad(),
    {
        self.vertices.len() <= 0xffff_fffb && self.indices.len() <= 0xffff_fff9
    }

    fn push_vertex(&mut self, vertex: V)
        ensures
            final(self).vertices@ == old(self).vertices@.push(vertex),
            final(self).indices@ == old(self).indices@,
            final(self).draw_commands@ == old(self).draw_commands@,
            final(self).pending_indices == old(self).pending_indices,
            final(self).clip_rect == old(self).clip_rect,
    {
        self.vertices.push(vertex);
    }

    fn push_triangle(&mut self, zero: u32, ichi: u32, ni: u32)
        requires
            old(self).pending_indices + 3 <= usize::MAX,
        ensures
            final(self).indices@ == old(self).indices@.push(zero).push(ichi).push(ni),
            final(self).pending_indices == old(self).pending_indices + 3,
            final(self).vertices@ == old(self).vertices@,
            final(self).draw_commands@ == old(self).draw_commands@,
            final(self).clip_rect == old(self).clip_rect,
    {
        self.indices.push(zero);
        self.indices.push(ichi);
        self.indices.push(ni);
        self.pending_indices += 3;
    }

    /// Ends a primitive: its pending indices become one command with the clip rectangle in
    /// force and `texture`.
    fn commit_primitive(&mut self, texture: Option<T>)
        requires
            old(self).pending_indices <= old(self).indices@.len(),
            old(self).indices@.len() <= u32::MAX,
        ensures
            final(self).pending_indices == 0,
            final(self).vertices@ == old(self).vertices@,
            final(self).indices@ == old(self).indices@,
            final(self).clip_rect == old(self).clip_rect,
            old(self).pending_indices == 0 ==> final(self).draw_commands@ == old(self).draw_commands@,
            old(self).pending_indices > 0 ==> final(self).draw_commands@ == old(self).draw_commands@.push(
                DrawCommand {
                    clip_rect: old(self).clip_rect,
                    index_range: Range {
                        start: (old(self).indices@.len() - old(self).pending_indices) as u32,
                        end: old(self).indices@.len() as u32,
                    },
                    texture,
                },
            ),
    {
        if self.pending_indices == 0 {
            return;
        }
        let start_index = (self.indices.len() - self.pending_indices) as u32;
        let end_index = self.indices.len() as u32;
        self.draw_commands.push(
            DrawCommand {
                clip_rect: self.clip_rect,
                index_range: Range { start: start_index, end: end_index },
                texture,
            },
        );
        self.pending_indices = 0;
    }

    /// Pushes a quad of the vertices `top_left`, `top_right`, `bottom_right` and `bottom_left`
    /// as two triangles, drawn by a command of its own with the clip rectangle in force and
    /// `texture`.
    pub fn push_quad(&mut self, top_left: V, top_right: V, bottom_right: V, bottom_left: V, texture: Option<T>)
        requires
            old(self).wf(),
            old(self).room_for_quad(),
        ensures
            final(self).wf(),
            final(self).clip() == old(self).clip(),
            final(self).vertex_seq() == old(self).vertex_seq() + seq![top_left, top_right, bottom_right, bottom_left],
            final(self).index_seq() == old(self).index_seq() + quad_indices(old(self).vertex_seq().len() as int),
            final(self).command_seq() == old(self).command_seq().push(
                DrawCommand {
                    clip_rect: old(self).clip(),
                    index_range: Range {
                        start: old(self).index_seq().len() as u32,
                        end: (old(self).index_seq().len() + 6) as u32,
                    },
                    texture,
                },
            ),
    {
        let idx = self.vertices.len() as u32;
        self.push_vertex(top_left);
        self.push_vertex(top_right);
        self.push_vertex(bottom_right);
        self.push_vertex(bottom_left);
        self.push_triangle(idx + 0, idx + 1, idx + 2);
        self.push_triangle(idx + 2, idx + 3, idx + 0);
        self.commit_primitive(texture);
        proof {
            assert(self.vertices@ =~= old(self).vertices@ + seq![top_left, top_right, bottom_right, bottom_left]);
            assert(self.indices@ =~= old(self).indices@ + quad_indices(old(self).vertices@.len() as int));
            let n = old(self).indices@.len() as int;
            assert forall|i: int| 0 <= i < self.indices@.len() implies (#[trigger] self.indices@[i]) < self.vertices@.len() by {
                if i < n {
                    assert(self.indices@[i] == old(self).indices@[i]);
                }
            }
        }
    }

    /// The indices, vertices and commands to draw.
    pub fn get_draw_data(&self) -> (r: DrawData<'_, V, C, T>)
        ensures
            r.indices@ == self.index_seq(),
            r.vertices@ == self.vertex_seq(),
            r.commands@ == self.command_seq(),
    {
        DrawData {
            indices: self.indices.as_slice(),
            vertices: self.vertices.as_slice(),
            commands: self.draw_commands.as_slice(),
        }
    }
}

impl<V, C: Copy, T> Default for DrawBuffer<V, C, T> {
    /// An empty buffer with no clip rectangle.
    fn default() -> (r: Self)
        ensures
            r.wf(),
            r.vertex_seq().len() == 0,
            r.index_seq().len() == 0,
            r.command_seq().len() == 0,
            r.clip() is None,
    {
        Self::new()
    }
}

/// Every index of a buffer names one of its vertices.
pub proof fn law_indices_name_vertices<V, C: Copy, T>(b: DrawBuffer<V, C, T>, i: int)
    requires
        b.wf(),
        0 <= i < b.index_seq().len(),
    ensures
        b.index_seq()[i] < b.vertex_seq().len(),
{
}

/// The commands of a buffer cover its indices in order, each command a non-empty run that
/// starts where the one before it ends.
pub proof fn law_commands_tile_indices<V, C: Copy, T>(b: DrawBuffer<V, C, T>, k: int)
    requires
        b.wf(),
        0 <= k < b.command_seq().len(),
    ensures
        b.command_seq()[k].index_range.start < b.command_seq()[k].index_range.end,
        k == 0 ==> b.command_seq()[k].index_range.start == 0,
        k > 0 ==> b.command_seq()[k].index_range.start == b.command_seq()[k - 1].index_range.end,
        b.command_seq().last().index_range.end == b.index_seq().len(),
{
}

} // verus!
