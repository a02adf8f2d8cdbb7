//! Fonts of the sx renderer: font data is parsed by ab_glyph when it is registered, and glyphs
//! are placed on texture pages.
use crate::sx::texturepacker::{placed, split_ok, split_result, TexturePacker};
use crate::uhi::fontservice::{font_from_slice, font_from_vec, font_slice_parses, font_vec_parses};
use ab_glyph::{FontArc, InvalidFont};
use vstd::prelude::*;

verus! {

/// Identifies a registered font.
#[derive(Debug, Clone, Copy, PartialEq, Eq, Hash, Structural)]
pub struct FontHandle {
    idx: u32,
}

impl FontHandle {
    /// The position of the font among the registered ones.
    pub closed spec fn position(&self) -> nat {
        self.idx as nat
    }

    /// The position of the font among the registered ones.
    pub fn index(&self) -> (r: usize)
        ensures
            r == self.position(),
    {
        self.idx as usize
    }
}

/// Registers the font in `font_data` as the next of `fonts`: its handle names its position.
/// Fails, leaving `fonts` unchanged, when the data is not a font.
pub fn register_font_slice(fonts: &mut Vec<FontArc>, font_data: &'static [u8]) -> (r: Result<
    FontHandle,
    InvalidFont,
>)
    requires
        old(fonts)@.len() <= u32::MAX,
    ensures
        r is Ok <==> font_slice_parses(font_data@),
        r matches Ok(h) ==> h.position() == old(fonts)@.len() && final(fonts)@.len() == old(
            fonts,
        )@.len() + 1 && final(fonts)@.subrange(0, old(fonts)@.len() as int) == old(fonts)@,
        r is Err ==> final(fonts)@ == old(fonts)@,
{
    let idx = fonts.len();
    match font_from_slice(font_data) {
        Ok(font) => {
            fonts.push(font);
            assert(fonts@.subrange(0, idx as int) =~= old(fonts)@);
            Ok(FontHandle { idx: idx as u32 })
        },
        Err(err) => Err(err),
    }
}

/// Registers the font in `font_data` as the next of `fonts`: its handle names its position.
/// Fails, leaving `fonts` unchanged, when the data is not a font.
pub fn register_font_vec(fonts: &mut Vec<FontArc>, font_data: Vec<u8>) -> (r: Result<
    FontHandle,
    InvalidFont,
>)
    requires
        old(fonts)@.len() <= u32::MAX,
    ensures
        r is Ok <==> font_vec_parses(font_data@),
        r matches Ok(h) ==> h.position() == old(fonts)@.len() && final(fonts)@.len() == old(
            fonts,
        )@.len() + 1 && final(fonts)@.subrange(0, old(fonts)@.len() as int) == old(fonts)@,
        r is Err ==> final(fonts)@ == old(fonts)@,
{
    let idx = fonts.len();
    match font_from_vec(font_data) {
        Ok(font) => {
            fonts.push(font);
            assert(fonts@.subrange(0, idx as int) =~= old(fonts)@);
            Ok(FontHandle { idx: idx as u32 })
        },
        Err(err) => Err(err),
    }
}

/// A glyph texture and the packer that places glyphs on it.
#[derive(Debug)]
pub struct TexturePage<H> {
    pub texture_packer: TexturePacker,
    pub texture_handle: H,
}

/// The packer has an unused leaf that can hold `w` by `h` pixels.
pub open spec fn has_room(p: TexturePacker, w: int, h: int) -> bool {
    exists|j: int| #[trigger] p.free_fit(j, w, h)
}

/// A `w` by `h` rectangle can be inserted into the packer: it is well formed, and cutting the
/// rectangle out of the leaf that insertion picks leaves room for the gap.
pub open spec fn insertable(p: TexturePacker, w: int, h: int) -> bool {
    &&& p.wf()
    &&& p.first_fit(0, w, h) matches Some(f) ==> split_ok(p.entry(f), w, h, p.gap_size() as int)
}

/// What inserting a `w` by `h` rectangle did to a packer: with room, the first unused leaf that
/// can hold it was cut as [`TexturePacker::insert`] cuts it; without, nothing changed.
pub open spec fn page_inserted(old: TexturePacker, new: TexturePacker, w: int, h: int) -> bool {
    if has_room(old, w, h) {
        exists|k: int|
            #[trigger] placed(old, new, k, w, h) && (old.first_fit(0, w, h) matches Some(f)
                && split_result(old, new, f, k, w, h))
    } else {
        new == old
    }
}

/// Places a `width` by `height` glyph on the existing pages: it is inserted into every page
/// that has room for it, and the last of them is kept, as the page and the node that hold the
/// glyph. `None` when no page has room; the caller then starts a new page.
pub fn place_glyph_in_pages<H>(pages: &mut Vec<TexturePage<H>>, width: u32, height: u32) -> (r: Option<
    (usize, usize),
>)
    requires
        forall|i: int|
            0 <= i < old(pages)@.len() ==> insertable(
                #[trigger] old(pages)@[i].texture_packer,
                width as int,
                height as int,
            ),
    ensures
        final(pages)@.len() == old(pages)@.len(),
        forall|i: int|
            0 <= i < old(pages)@.len() ==> {
                &&& (#[trigger] final(pages)@[i]).texture_handle == old(pages)@[i].texture_handle
                &&& final(pages)@[i].texture_packer.wf()
                &&& page_inserted(
                    old(pages)@[i].texture_packer,
                    final(pages)@[i].texture_packer,
                    width as int,
                    height as int,
                )
            },
        r is None <==> forall|i: int|
            0 <= i < old(pages)@.len() ==> !has_room(
                #[trigger] old(pages)@[i].texture_packer,
                width as int,
                height as int,
            ),
        r matches Some((p, k)) ==> {
            &&& p < old(pages)@.len()
            &&& has_room(old(pages)@[p as int].texture_packer, width as int, height as int)
            &&& forall|q: int|
                p < q < old(pages)@.len() ==> !has_room(
                    #[trigger] old(pages)@[q].texture_packer,
                    width as int,
                    height as int,
                )
            &&& placed(
                old(pages)@[p as int].texture_packer,
                final(pages)@[p as int].texture_packer,
                k as int,
                width as int,
                height as int,
            )
        },
{
    let ghost before = pages@;
    let mut result: Option<(usize, usize)> = None;
    let mut i: usize = 0;
    while i < pages.len()
        invariant
            pages@.len() == before.len(),
            i <= before.len(),
            forall|q: int|
                0 <= q < before.len() ==> insertable(
                    #[trigger] before[q].texture_packer,
                    width as int,
                    height as int,
                ),
            forall|q: int|
                0 <= q < i ==> {
                    &&& (#[trigger] pages@[q]).texture_handle == before[q].texture_handle
                    &&& pages@[q].texture_packer.wf()
                    &&& page_inserted(
                        before[q].texture_packer,
                        pages@[q].texture_packer,
                        width as int,
                        height as int,
                    )
                },
            forall|q: int| i <= q < before.len() ==> #[trigger] pages@[q] == before[q],
            result is None <==> forall|q: int|
                0 <= q < i ==> !has_room(#[trigger] before[q].texture_packer, width as int, height as int),
            result matches Some((p, k)) ==> {
                &&& p < i
                &&& has_room(before[p as int].texture_packer, width as int, height as int)
                &&& forall|q: int|
                    p < q < i ==> !has_room(
                        #[trigger] before[q].texture_packer,
                        width as int,
                        height as int,
                    )
                &&& placed(
                    before[p as int].texture_packer,
                    pages@[p as int].texture_packer,
                    k as int,
                    width as int,
                    height as int,
                )
            },
        decreases before.len() - i,
    {
        let ghost prev = pages@;
        let mut page = pages.remove(i);
        assert(page == before[i as int]);
        let placed_at = page.texture_packer.insert(width, height);
        proof {
            let (o, n) = (before[i as int].texture_packer, page.texture_packer);
            if has_room(o, width as int, height as int) {
                let k = placed_at->0 as int;
                assert(placed(o, n, k, width as int, height as int));
            }
        }
        pages.insert(i, page);
        assert(pages@ =~= prev.update(i as int, page));
        if let Some(k) = placed_at {
            result = Some((i, k));
        }
        i = i + 1;
    }
    result
}

} // verus!
