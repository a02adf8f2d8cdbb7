use shin::uhi::textureservice::{TextureDesc, TextureFormat, TextureRegion, TextureService};
use shin::uhi::Externs;

struct TestExterns;

impl Externs for TestExterns {
    type TextureHandle = u32;
}

fn region(x: u32, y: u32, w: u32, h: u32) -> TextureRegion {
    TextureRegion { x, y, w, h }
}

#[test]
fn create_upload_destroy() {
    let mut ts: TextureService<TestExterns> = TextureService::default();
    let first = ts.next_handle_id();
    let a = ts.enque_create(TextureDesc { format: TextureFormat::R8Unorm, w: 4, h: 4 });
    assert_eq!(a.id, first);
    assert_eq!(ts.next_handle_id(), first + 1);
    let b = ts.enque_create(TextureDesc { format: TextureFormat::Rgba8Unorm, w: 8, h: 8 });
    assert_ne!(a, b);

    let (ticket, desc) = ts.next_pending_create().unwrap();
    assert_eq!(desc.w, 4);
    ts.commit_create(ticket, 70);
    let (ticket, desc) = ts.next_pending_create().unwrap();
    assert_eq!(desc.format, TextureFormat::Rgba8Unorm);
    ts.commit_create(ticket, 71);
    assert!(ts.next_pending_create().is_none());
    assert_eq!(*ts.get(a), 70);
    assert_eq!(*ts.get(b), 71);

    let staged = ts.enque_update(a, region(0, 0, 2, 2));
    assert_eq!(staged.len(), 4);
    staged.copy_from_slice(&[1, 2, 3, 4]);
    let staged = ts.enque_update(b, region(1, 1, 1, 2));
    assert_eq!(staged.len(), 8);
    staged.copy_from_slice(&[9; 8]);

    let up = ts.next_pending_update().unwrap();
    assert_eq!(up.region, region(0, 0, 2, 2));
    assert_eq!(*up.texture, 70);
    assert_eq!(up.data, &[1, 2, 3, 4]);
    let up = ts.next_pending_update().unwrap();
    assert_eq!(*up.texture, 71);
    assert_eq!(up.desc.w, 8);
    assert_eq!(up.data, &[9; 8]);
    assert!(ts.next_pending_update().is_none());

    ts.enque_update(a, region(0, 0, 1, 1))[0] = 5;
    ts.enque_destroy(a);
    ts.enque_destroy(a);
    assert_eq!(ts.next_pending_destroy(), Some(70));
    assert!(ts.next_pending_update().is_none());
    assert_eq!(ts.next_pending_destroy(), None);
}

#[test]
fn upload_to_the_same_region_replaces_it() {
    let mut ts: TextureService<TestExterns> = TextureService::default();
    let a = ts.enque_create(TextureDesc { format: TextureFormat::R8Unorm, w: 4, h: 4 });
    ts.enque_update(a, region(0, 0, 1, 1))[0] = 1;
    ts.enque_update(a, region(0, 0, 1, 1))[0] = 2;
    let (ticket, _) = ts.next_pending_create().unwrap();
    ts.commit_create(ticket, 3);
    let up = ts.next_pending_update().unwrap();
    assert_eq!(up.data, &[2]);
    assert!(ts.next_pending_update().is_none());
}

#[test]
fn destroying_a_texture_never_created_forgets_it() {
    let mut ts: TextureService<TestExterns> = TextureService::default();
    let a = ts.enque_create(TextureDesc { format: TextureFormat::R8Unorm, w: 1, h: 1 });
    ts.enque_update(a, region(0, 0, 1, 1))[0] = 1;
    ts.enque_destroy(a);
    assert_eq!(ts.next_pending_destroy(), None);
    assert!(ts.next_pending_create().is_none());
    assert!(ts.next_pending_update().is_none());
}
