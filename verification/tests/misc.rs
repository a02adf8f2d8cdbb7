use shin::nohash::{NoHashHasher, NoHashMap, NoHashSet};
use std::hash::{BuildHasher, Hasher};
use shin::sx::color::Rgba8;
use shin::sx::drawbuffer::{PipelineId, Quad, StrokeAlignment};
use shin::sx::geometry::{BVec2, U32Vec2};
use shin::sx::textureservice::TextureFormat;
use shin::uhi::drawbuffer::Rgba8 as UhiRgba8;
use shin::w0::{Event, Size, WindowConfig};
use shin::xkbcommon::KeymapStateCreationError as E;

#[test]
fn rgba8_from_u32_reads_hex_channels() {
    let c = Rgba8::from_u32(0x8faf9fff);
    assert_eq!(c, Rgba8::new(0x8f, 0xaf, 0x9f, 0xff));
    assert_eq!(Rgba8::from_u8_array([1, 2, 3, 4]), Rgba8::new(1, 2, 3, 4));
    assert_eq!(c.with_a(7), Rgba8::new(0x8f, 0xaf, 0x9f, 7));
    let u = UhiRgba8::from_u32(0x01020304);
    assert_eq!(u, UhiRgba8::new(1, 2, 3, 4));
    assert_eq!(UhiRgba8::from_bytes([9, 8, 7, 6]), UhiRgba8::new(9, 8, 7, 6));
}

#[test]
fn bvec2_any_all() {
    assert!(BVec2::new(true, false).any());
    assert!(!BVec2::new(true, false).all());
    assert!(BVec2::splat(true).all());
    assert!(!BVec2::splat(false).any());
    assert_eq!(U32Vec2::new(3, 4), U32Vec2 { x: 3, y: 4 });
}

#[test]
fn drawbuffer_plain_data() {
    assert_eq!(PipelineId::default(), PipelineId(u32::MAX));
    let q = Quad::splat(5u8);
    assert_eq!((q.ne, q.se, q.sw, q.nw), (5, 5, 5, 5));
    assert_eq!(StrokeAlignment::default(), StrokeAlignment::Center);
    assert_eq!(StrokeAlignment::Inside.as_i32(), -1);
    assert_eq!(StrokeAlignment::Outside.as_i32(), 1);
    assert_eq!(StrokeAlignment::Center.as_i32(), 0);
}

#[test]
fn texture_format_block_size() {
    assert_eq!(TextureFormat::Rgba8Unorm.block_size(), 4);
    assert_eq!(TextureFormat::R8Unorm.block_size(), 1);
    assert_eq!(shin::uhi::textureservice::TextureFormat::Rgba8Unorm.block_size(), 4);
}

#[test]
fn nohash_hasher_is_identity() {
    let mut h: NoHashHasher<u32> = NoHashHasher::new();
    assert_eq!(h.finish(), 0);
    h.write_u32(42);
    assert_eq!(h.finish(), 42);
    h.write_i8(-1);
    assert_eq!(h.finish(), u64::MAX);
    h.write_u64(5);
    assert_eq!(h.finish(), 5);
    let copied = h;
    let cloned = h.clone();
    assert_eq!((copied.finish(), cloned.finish()), (5, 5));
}

#[test]
fn size_new() {
    assert_eq!(Size::new(800, 600), Size { width: 800, height: 600 });
}

#[test]
fn keymap_errors_describe_themselves() {
    assert_eq!(E::MmapFailed(12).message(), "could not mmap: 0xc");
    assert_eq!(E::MmapFailed(255).message(), "could not mmap: 0xff");
    assert_eq!(E::MmapFailed(-1).message(), "could not mmap: 0xffffffff");
    assert_eq!(E::NoKeymap.message(), "could not create keymap");
    assert_eq!(E::NoState.message(), "could not create state");
}

#[test]
fn w0_configure_event_sizes() {
    let config = WindowConfig::default();
    assert_eq!(
        config.configure_event(0, 0),
        Event::Configure { logical_size: Size::new(800, 600) }
    );
    assert_eq!(
        config.configure_event(1024, 0),
        Event::Configure { logical_size: Size::new(1024, 0) }
    );
    assert_eq!(config.configure_event(3, 4), Event::Configure { logical_size: Size::new(3, 4) });
}

#[test]
fn nohash_passes_integer_keys_through() {
    let mut h = NoHashHasher::<u32>::default();
    Hasher::write_u32(&mut h, 7);
    assert_eq!(Hasher::finish(&h), 7);
    Hasher::write_i8(&mut h, -1);
    assert_eq!(Hasher::finish(&h), u64::MAX);
    let build = shin::nohash::BuildNoHashHasher::<u64>::default();
    assert_eq!(build.hash_one(42u64), 42);

    let mut map: NoHashMap<u32, &str> = NoHashMap::default();
    map.insert(3, "three");
    map.insert(9, "nine");
    assert_eq!(map.get(&3), Some(&"three"));
    let mut set: NoHashSet<usize> = NoHashSet::default();
    set.insert(12);
    assert!(set.contains(&12) && !set.contains(&13));
}
