//! Fonts and the texture pages of their glyphs: font data is parsed by ab_glyph when it is
//! registered, and rasterized glyphs are packed into 256 by 256 single-channel textures, the
//! newest page first, a new page being started when a glyph no longer fits.
use ab_glyph::{FontArc, InvalidFont};
use crate::uhi::texturepacker::{placed, split_result, TexturePacker, TexturePackerEntry};
use crate::uhi::textureservice::{TextureDesc, TextureFormat, TextureHandle, TextureService};
use crate::uhi::Externs;
use vstd::prelude::*;

verus! {

/// Width of a glyph texture page.
pub const TEXTURE_WIDTH: u32 = 256;

/// Height of a glyph texture page.
pub const TEXTURE_HEIGHT: u32 = 256;

/// Pixels left between glyphs on a page.
pub const TEXTURE_GAP: u32 = 1;

/// Identifies a registered font.
#[derive(Debug, Clone, Copy, PartialEq, Eq, Hash, Structural)]
pub struct FontHandle {
    idx: u32,
}

impl FontHandle {
    /// The position of the font among the registered ones.
    pub closed spec fn position(&self) -> nat {
        self.idx as nat
    }

    /// The position of the font among the registered ones.
    pub fn index(&self) -> (r: usize)
        ensures
            r == self.position(),
    {
        self.idx as usize
    }
}

/// A parsed font.
#[verifier::external_type_specification]
#[verifier::external_body]
pub struct ExFontArc(ab_glyph::FontArc);

/// Font data that could not be parsed.
#[verifier::external_type_specification]
#[verifier::external_body]
pub struct ExInvalidFont(ab_glyph::InvalidFont);

/// Whether `FontArc::try_from_slice` accepts `data` as a font.
pub uninterp spec fn font_slice_parses(data: Seq<u8>) -> bool;

/// Whether `FontArc::try_from_vec` accepts `data` as a font.
pub uninterp spec fn font_vec_parses(data: Seq<u8>) -> bool;

/// Parses borrowed font data.
///
/// Trusted: calls `FontArc::try_from_slice`, which reads the font's tables from `data` and
/// fails with `InvalidFont` when they cannot be read; whether it succeeds depends on the bytes
/// alone and is named [`font_slice_parses`]. Nothing else is stated of the font.
#[verifier::external_body]
pub(crate) fn font_from_slice(data: &'static [u8]) -> (r: Result<FontArc, InvalidFont>)
    ensures
        r is Ok <==> font_slice_parses(data@),
{
    FontArc::try_from_slice(data)
}

/// Parses owned font data.
///
/// Trusted: calls `FontArc::try_from_vec`, which reads the font's tables from `data` and fails
/// with `InvalidFont` when they cannot be read; whether it succeeds depends on the bytes alone
/// and is named [`font_vec_parses`]. Nothing else is stated of the font.
#[verifier::external_body]
pub(crate) fn font_from_vec(data: Vec<u8>) -> (r: Result<FontArc, InvalidFont>)
    ensures
        r is Ok <==> font_vec_parses(data@),
{
    FontArc::try_from_vec(data)
}

/// Registers the font in `font_data` as the next of `fonts`: its handle names its position.
/// Fails, leaving `fonts` unchanged, when the data is not a font.
pub fn register_font_slice(fonts: &mut Vec<FontArc>, font_data: &'static [u8]) -> (r: Result<
    FontHandle,
    InvalidFont,
>)
    requires
        old(fonts)@.len() <= u32::MAX,
    ensures
        r is Ok <==> font_slice_parses(font_data@),
        r matches Ok(h) ==> h.position() == old(fonts)@.len() && final(fonts)@.len() == old(
            fonts,
        )@.len() + 1 && final(fonts)@.subrange(0, old(fonts)@.len() as int) == old(fonts)@,
        r is Err ==> final(fonts)@ == old(fonts)@,
{
    let idx = fonts.len();
    match font_from_slice(font_data) {
        Ok(font) => {
            fonts.push(font);
            assert(fonts@.subrange(0, idx as int) =~= old(fonts)@);
            Ok(FontHandle { idx: idx as u32 })
        },
        Err(err) => Err(err),
    }
}

/// Registers the font in `font_data` as the next of `fonts`: its handle names its position.
/// Fails, leaving `fonts` unchanged, when the data is not a font.
pub fn register_font_vec(fonts: &mut Vec<FontArc>, font_data: Vec<u8>) -> (r: Result<
    FontHandle,
    InvalidFont,
>)
    requires
        old(fonts)@.len() <= u32::MAX,
    ensures
        r is Ok <==> font_vec_parses(font_data@),
        r matches Ok(h) ==> h.position() == old(fonts)@.len() && final(fonts)@.len() == old(
            fonts,
        )@.len() + 1 && final(fonts)@.subrange(0, old(fonts)@.len() as int) == old(fonts)@,
        r is Err ==> final(fonts)@ == old(fonts)@,
{
    let idx = fonts.len();
    match font_from_vec(font_data) {
        Ok(font) => {
            fonts.push(font);
            assert(fonts@.subrange(0, idx as int) =~= old(fonts)@);
            Ok(FontHandle { idx: idx as u32 })
        },
        Err(err) => Err(err),
    }
}

/// A texture of glyphs and the packer that places them on it.
#[derive(Debug)]
pub struct TexturePage {
    tex_packer: TexturePacker,
    tex_handle: TextureHandle,
}

impl TexturePage {
    /// The packer of the page.
    pub closed spec fn packer(&self) -> TexturePacker {
        self.tex_packer
    }

    /// The texture the page's glyphs are uploaded to.
    pub closed spec fn texture(&self) -> TextureHandle {
        self.tex_handle
    }

    /// The page is a well-formed packer over a whole glyph texture.
    pub open spec fn page_ok(&self) -> bool {
        &&& self.packer().wf()
        &&& self.packer().width() == TEXTURE_WIDTH
        &&& self.packer().height() == TEXTURE_HEIGHT
        &&& self.packer().gap_size() == TEXTURE_GAP
    }

    /// Width and height of the page's texture.
    pub fn size(&self) -> (r: (u32, u32))
        ensures
            r == (self.packer().width() as u32, self.packer().height() as u32),
    {
        self.tex_packer.get_texture_size()
    }

    /// The texture of the page.
    pub fn handle(&self) -> (r: TextureHandle)
        ensures
            r == self.texture(),
    {
        self.tex_handle
    }

    /// The rectangle of node `index` of the page's packer.
    pub fn entry(&self, index: usize) -> (r: &TexturePackerEntry)
        requires
            self.packer().wf(),
            index < self.packer().node_count(),
        ensures
            *r == self.packer().entry(index as int),
    {
        self.tex_packer.get(index)
    }
}

/// Every page is a glyph page.
pub open spec fn pages_ok(pages: Seq<TexturePage>) -> bool {
    forall|i: int| 0 <= i < pages.len() ==> (#[trigger] pages[i]).page_ok()
}

/// The description of a glyph texture page.
pub open spec fn page_desc() -> TextureDesc {
    TextureDesc { format: TextureFormat::R8Unorm, w: TEXTURE_WIDTH, h: TEXTURE_HEIGHT }
}

/// Places a `width` by `height` glyph: into the newest page when one of its free leaves can
/// hold it (the first such leaf, cut as the packer's `insert` cuts it), else into a new page, whose texture is asked for from `texture_service`. Returns
/// the page's index and the index of the packer node that holds the glyph.
pub fn place_glyph<E: Externs>(
    pages: &mut Vec<TexturePage>,
    texture_service: &mut TextureService<E>,
    width: u32,
    height: u32,
) -> (r: (usize, usize))
    requires
        pages_ok(old(pages)@),
        old(texture_service).wf(),
        old(texture_service).next_id() < u32::MAX,
        width <= TEXTURE_WIDTH,
        height <= TEXTURE_HEIGHT,
    ensures
        pages_ok(final(pages)@),
        final(texture_service).wf(),
        r.0 < final(pages)@.len(),
        ({
            let n = old(pages)@.len();
            let reuse = n > 0 && exists|j: int| #[trigger]
                old(pages)@[n - 1].packer().free_fit(j, width as int, height as int);
            if reuse {
                &&& r.0 == n - 1
                &&& final(pages)@.len() == n
                &&& forall|i: int| 0 <= i < n - 1 ==> final(pages)@[i] == old(pages)@[i]
                &&& final(pages)@[r.0 as int].texture() == old(pages)@[r.0 as int].texture()
                &&& placed(
                    old(pages)@[r.0 as int].packer(),
                    final(pages)@[r.0 as int].packer(),
                    r.1 as int,
                    width as int,
                    height as int,
                )
                &&& old(pages)@[r.0 as int].packer().first_fit(0, width as int, height as int) matches Some(f)
                &&& split_result(
                    old(pages)@[r.0 as int].packer(),
                    final(pages)@[r.0 as int].packer(),
                    f,
                    r.1 as int,
                    width as int,
                    height as int,
                )
                &&& *final(texture_service) == *old(texture_service)
            } else {
                &&& r.0 == n
                &&& final(pages)@.len() == n + 1
                &&& forall|i: int| 0 <= i < n ==> final(pages)@[i] == old(pages)@[i]
                &&& final(pages)@[r.0 as int].texture() == (TextureHandle {
                    id: old(texture_service).next_id(),
                })
                &&& final(pages)@[r.0 as int].packer().used(r.1 as int)
                &&& final(pages)@[r.0 as int].packer().entry(r.1 as int) == (TexturePackerEntry {
                    x: 0,
                    y: 0,
                    w: width,
                    h: height,
                    in_use: true,
                })
                &&& forall|j: int| #[trigger]
                    final(pages)@[r.0 as int].packer().used(j) ==> j == r.1
                &&& final(texture_service).next_id() == old(texture_service).next_id() + 1
                &&& final(texture_service).creates() == old(texture_service).creates().push(
                    (final(pages)@[r.0 as int].texture(), page_desc()),
                )
                &&& final(texture_service).updates() == old(texture_service).updates()
                &&& final(texture_service).destroys() == old(texture_service).destroys()
                &&& final(texture_service).textures() == old(texture_service).textures()
                &&& final(texture_service).staging() == old(texture_service).staging()
                &&& final(texture_service).allocator() == old(texture_service).allocator()
            }
        }),
{
    let n = pages.len();
    // try the newest page first
    if n > 0 {
        let mut last = pages.pop().unwrap();
        proof {
            assert(last == old(pages)@[n - 1]);
            assert(last.page_ok());
            last.tex_packer.lemma_small_gap_splits(width as int, height as int);
        }
        let placed_at = last.tex_packer.insert(width, height);
        pages.push(last);
        proof {
            assert forall|i: int| 0 <= i < pages@.len() implies (#[trigger] pages@[i]).page_ok() by {
                if i < n - 1 {
                    assert(pages@[i] == old(pages)@[i]);
                }
            }
        }
        if let Some(index) = placed_at {
            return (n - 1, index);
        }
        assert(pages@ =~= old(pages)@);
    }
    // no room left: start a new page
    let mut tex_packer = TexturePacker::new(TEXTURE_WIDTH, TEXTURE_HEIGHT, TEXTURE_GAP);
    let ghost fresh = tex_packer;
    proof {
        tex_packer.lemma_small_gap_splits(width as int, height as int);
        tex_packer.lemma_first_fit(0, width as int, height as int);
        assert(tex_packer.free_fit(0, width as int, height as int));
    }
    let index = match tex_packer.insert(width, height) {
        Some(index) => index,
        None => unreached(),
    };
    proof {
        assert forall|j: int| #[trigger] tex_packer.used(j) implies j == index by {
            if j != index {
                assert(!fresh.used(j));
            }
        }
    }
    let tex_handle = texture_service.enque_create(
        TextureDesc { format: TextureFormat::R8Unorm, w: TEXTURE_WIDTH, h: TEXTURE_HEIGHT },
    );
    let ghost before = pages@;
    pages.push(TexturePage { tex_packer, tex_handle });
    proof {
        assert forall|i: int| 0 <= i < pages@.len() implies (#[trigger] pages@[i]).page_ok() by {
            if i < before.len() {
                assert(pages@[i] == before[i]);
            }
        }
    }
    (pages.len() - 1, index)
}

} // verus!
