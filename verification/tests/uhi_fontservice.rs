use ab_glyph::FontArc;
use shin::uhi::fontservice::{
    place_glyph, register_font_slice, register_font_vec, TexturePage, TEXTURE_HEIGHT, TEXTURE_WIDTH,
};
use shin::uhi::textureservice::{TextureFormat, TextureService};
use shin::uhi::Externs;

struct GlyphExterns;

impl Externs for GlyphExterns {
    type TextureHandle = ();
}

#[test]
fn glyphs_fill_the_newest_page_then_start_another() {
    let mut ts: TextureService<GlyphExterns> = TextureService::default();
    let mut pages: Vec<TexturePage> = Vec::new();

    // the first glyph starts the first page, at its top left corner
    let (page, index) = place_glyph(&mut pages, &mut ts, 10, 12);
    assert_eq!(page, 0);
    assert_eq!(pages.len(), 1);
    let e = pages[0].entry(index);
    assert_eq!((e.x, e.y, e.w, e.h, e.in_use), (0, 0, 10, 12, true));
    assert_eq!(pages[0].size(), (TEXTURE_WIDTH, TEXTURE_HEIGHT));

    // the second one goes into the same page: the first cut was along x (more room to spare
    // there), the second along y, so it lands below the first glyph
    let (page, index) = place_glyph(&mut pages, &mut ts, 10, 12);
    assert_eq!(page, 0);
    let e = pages[0].entry(index);
    assert_eq!((e.x, e.y), (0, 13));

    // a glyph as large as a page no longer fits into the first one
    let (page, index) = place_glyph(&mut pages, &mut ts, 256, 256);
    assert_eq!(page, 1);
    assert_eq!(pages.len(), 2);
    let e = pages[1].entry(index);
    assert_eq!((e.x, e.y, e.w, e.h), (0, 0, 256, 256));

    // the newest page is full: a third page starts, even though the first one has room
    let (page, _) = place_glyph(&mut pages, &mut ts, 1, 1);
    assert_eq!(page, 2);

    // each page asked for its own single-channel texture
    assert_ne!(pages[0].handle(), pages[1].handle());
    assert_ne!(pages[1].handle(), pages[2].handle());
    let mut created = 0;
    while let Some((ticket, desc)) = ts.next_pending_create() {
        assert_eq!((desc.format, desc.w, desc.h), (TextureFormat::R8Unorm, 256, 256));
        ts.commit_create(ticket, ());
        created += 1;
    }
    assert_eq!(created, 3);
}

#[test]
fn data_that_is_no_font_is_refused() {
    let mut fonts: Vec<FontArc> = Vec::new();
    assert!(register_font_slice(&mut fonts, b"not a font at all").is_err());
    assert!(register_font_vec(&mut fonts, vec![0u8; 64]).is_err());
    assert!(register_font_vec(&mut fonts, Vec::new()).is_err());
    assert!(fonts.is_empty());
    let mut sx_fonts: Vec<FontArc> = Vec::new();
    assert!(shin::sx::fontservice::register_font_slice(&mut sx_fonts, b"\0\x01\0\0").is_err());
    assert!(shin::sx::fontservice::register_font_vec(&mut sx_fonts, vec![1, 2, 3]).is_err());
    assert!(sx_fonts.is_empty());
}
