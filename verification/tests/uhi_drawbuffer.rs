use shin::uhi::drawbuffer::DrawBuffer;

// vertices are plain numbers here, clip rectangles and textures small tags
type Buffer = DrawBuffer<u32, u8, &'static str>;

#[test]
fn quads_become_commands() {
    let mut buf = Buffer::default();
    assert!(buf.has_room_for_quad());
    buf.push_quad(10, 11, 12, 13, None);
    buf.set_clip_rect(Some(7));
    buf.push_quad(20, 21, 22, 23, Some("glyphs"));

    let data = buf.get_draw_data();
    assert_eq!(data.vertices, &[10, 11, 12, 13, 20, 21, 22, 23]);
    assert_eq!(data.indices, &[0, 1, 2, 2, 3, 0, 4, 5, 6, 6, 7, 4]);
    assert_eq!(data.commands.len(), 2);
    assert_eq!(data.commands[0].index_range, 0..6);
    assert_eq!(data.commands[0].clip_rect, None);
    assert_eq!(data.commands[0].texture, None);
    assert_eq!(data.commands[1].index_range, 6..12);
    assert_eq!(data.commands[1].clip_rect, Some(7));
    assert_eq!(data.commands[1].texture, Some("glyphs"));
}

#[test]
fn clear_keeps_clip_rect() {
    let mut buf = Buffer::new();
    buf.set_clip_rect(Some(3));
    buf.push_quad(1, 2, 3, 4, None);
    buf.clear();
    let data = buf.get_draw_data();
    assert!(data.vertices.is_empty() && data.indices.is_empty() && data.commands.is_empty());
    buf.push_quad(5, 6, 7, 8, None);
    let data = buf.get_draw_data();
    assert_eq!(data.indices, &[0, 1, 2, 2, 3, 0]);
    assert_eq!(data.commands[0].clip_rect, Some(3));
}
