# shin

Verified building blocks of the shin UI toolkit, written in Verus.

`src/` is the library. Its functions carry contracts that Verus proves, except for the few
thin wrappers around calls into std and ab_glyph (marked `#[verifier::external_body]`) and the
outer types declared for them, whose contracts are trusted as stated in their doc comments:

- `rangealloc`: a best-fit range allocator with defragmenting deallocation.
- `sx::texturepacker`, `uhi::texturepacker`: binary split-tree texture packers.
- `uhi::textureservice`: deferred texture creation, uploads staged in a shared buffer handed
  out by the range allocator, and destruction.
- `uhi::text`: editing a UTF-8 text through a byte-offset selection, the key bindings of
  selectable and editable text, and their frame: the hot and active flags, and the reactions
  to events, which an inactive widget ignores.
- `uhi::clipboardservice`, `uhi::interactionstate`: frame-by-frame clipboard requests and
  hot/active widget tracking.
- `uhi::drawbuffer`: vertices, triangle indices and the draw commands over them.
- `uhi::fontservice`, `sx::fontservice`: registering fonts parsed by ab_glyph, and placing
  rasterized glyphs on texture pages (the newest page, or every page with room).
- `xml_iterator`, `wayland_scanner`: a minimal XML tokenizer, a parser of wayland protocol
  descriptions, a check that a protocol can be generated, and two generators of Rust
  bindings for them.
- `nohash`: a pass-through hasher for integer keys.
- `window`: registry globals, pointer buttons, evdev key codes, key repetition, cursor shapes
  and input serials of the wayland backend; `input`: the input vocabulary they share with the
  UI.

`app/` holds what the verifier does not take: I/O, floating point (geometry, shape vertices,
stack layout, glyph outlines and metrics through ab_glyph, text wrapping, hit-testing and
drawing),
`Drop`, and the per-frame loops that interleave floating-point hit-testing with the verified
reactions to input.
