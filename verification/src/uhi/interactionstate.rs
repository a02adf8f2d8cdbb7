//! Which widget the pointer is over ("hot") and which one the user is working with
//! ("active"), frame after frame.
use crate::input::CursorShape;
use vstd::prelude::*;

verus! {

/// Identifies a widget across frames.
#[derive(Debug, Clone, Copy, PartialEq, Eq, Structural)]
pub struct Key(u64);

impl Key {
    /// The key of a hashable value: its hash under the standard library's default hasher.
    ///
    /// Trusted: calls `BuildHasher::hash_one` of `BuildHasherDefault<DefaultHasher>`, which
    /// hashes `hashable` into a fresh default hasher and finishes it. Nothing is stated of the
    /// resulting key.
    #[verifier::external_body]
    pub fn new<T: std::hash::Hash>(hashable: T) -> Key {
        Key(
            std::hash::BuildHasher::hash_one(
                &std::hash::BuildHasherDefault::<std::collections::hash_map::DefaultHasher>::default(),
                hashable,
            ),
        )
    }
}

/// The interaction state as the contracts see it.
pub struct InteractionModel {
    /// The widget under the pointer this frame.
    pub hot: Option<Key>,
    /// The widget that was under the pointer last frame.
    pub hot_last_frame: Option<Key>,
    /// The widget the user is interacting with.
    pub active: Option<Key>,
    /// The cursor shape that the frame asks for, until it is taken.
    pub cursor_shape: Option<CursorShape>,
}

/// Hot and active widgets; see [`InteractionModel`].
#[derive(Debug)]
pub struct InteractionState {
    hot: Option<Key>,
    hot_last_frame: Option<Key>,
    active: Option<Key>,
    cursor_shape: Option<CursorShape>,
}

impl View for InteractionState {
    type V = InteractionModel;

    closed spec fn view(&self) -> InteractionModel {
        InteractionModel {
            hot: self.hot,
            hot_last_frame: self.hot_last_frame,
            active: self.active,
            cursor_shape: self.cursor_shape,
        }
    }
}

/// `key` becomes active: it was hot last frame and the primary button was just pressed
/// inside it.
pub open spec fn becomes_active(m: InteractionModel, key: Key, inside: bool, pressed: bool) -> bool {
    m.hot_last_frame == Some(key) && pressed && inside
}

/// The state after `key` reports where the pointer is: a press outside the active widget
/// deactivates it, a press on the widget that was hot last frame activates it, and the widget
/// under the pointer becomes hot and sets the cursor shape.
pub open spec fn hover_step(
    m: InteractionModel,
    key: Key,
    inside: bool,
    pressed: bool,
    shape: CursorShape,
) -> InteractionModel {
    InteractionModel {
        hot: if inside { Some(key) } else { m.hot },
        hot_last_frame: m.hot_last_frame,
        active: if becomes_active(m, key, inside, pressed) {
            Some(key)
        } else if m.active == Some(key) && pressed && !inside {
            None
        } else {
            m.active
        },
        cursor_shape: if inside { Some(shape) } else { m.cursor_shape },
    }
}

/// The state at the end of a frame: this frame's hot widget is remembered, none is hot.
pub open spec fn end_frame_step(m: InteractionModel) -> InteractionModel {
    InteractionModel { hot: None, hot_last_frame: m.hot, active: m.active, cursor_shape: m.cursor_shape }
}

/// The state at the start of a frame: the cursor shape is reset to the default.
pub open spec fn begin_frame_step(m: InteractionModel) -> InteractionModel {
    InteractionModel { cursor_shape: Some(CursorShape::Default), ..m }
}

impl Default for InteractionState {
    fn default() -> (s: Self)
        ensures
            s@ == (InteractionModel { hot: None, hot_last_frame: None, active: None, cursor_shape: None }),
    {
        InteractionState { hot: None, hot_last_frame: None, active: None, cursor_shape: None }
    }
}

impl InteractionState {
    /// Starts a frame with the default cursor, so that the event loop restores it when no
    /// widget asks for another one.
    pub fn begin_frame(&mut self)
        ensures
            final(self)@ == begin_frame_step(old(self)@),
    {
        self.cursor_shape = Some(CursorShape::Default);
    }

    /// Ends a frame; the cursor shape must have been taken.
    pub fn end_frame(&mut self)
        requires
            old(self)@.cursor_shape is None,
        ensures
            final(self)@ == end_frame_step(old(self)@),
    {
        self.hot_last_frame = self.hot.take();
    }

    /// Reports whether the pointer is `inside` the widget `key` and whether the primary button
    /// was just `pressed`; returns whether the widget just became active.
    pub fn maybe_set_hot_or_active(
        &mut self,
        key: Key,
        inside: bool,
        pressed: bool,
        cursor_shape: CursorShape,
    ) -> (r: bool)
        ensures
            r == becomes_active(old(self)@, key, inside, pressed),
            final(self)@ == hover_step(old(self)@, key, inside, pressed, cursor_shape),
    {
        let mut ret = false;
        if self.active == Some(key) && pressed && !inside {
            self.active = None;
        }
        if self.hot_last_frame == Some(key) && pressed && inside {
            self.active = Some(key);
            self.cursor_shape = Some(cursor_shape);
            ret = true;
        }
        if inside {
            self.hot = Some(key);
            self.cursor_shape = Some(cursor_shape);
        }
        ret
    }

    pub fn is_hot(&self, key: Key) -> (r: bool)
        ensures
            r == (self@.hot == Some(key)),
    {
        self.hot == Some(key)
    }

    pub fn is_active(&self, key: Key) -> (r: bool)
        ensures
            r == (self@.active == Some(key)),
    {
        self.active == Some(key)
    }

    /// Hands the requested cursor shape to the event loop.
    pub fn take_cursor_shape(&mut self) -> (r: Option<CursorShape>)
        ensures
            r == old(self)@.cursor_shape,
            final(self)@ == (InteractionModel { cursor_shape: None, ..old(self)@ }),
    {
        self.cursor_shape.take()
    }
}

/// A widget that was hot in one frame and is pressed inside in the next becomes active, and
/// stays active until the primary button is pressed outside it.
pub proof fn law_hot_then_pressed_becomes_active(m: InteractionModel, key: Key, shape: CursorShape)
    requires
        m.cursor_shape is None,
    ensures
        ({
            let hovered = hover_step(begin_frame_step(m), key, true, false, shape);
            let next = begin_frame_step(end_frame_step(InteractionModel { cursor_shape: None, ..hovered }));
            &&& becomes_active(next, key, true, true)
            &&& hover_step(next, key, true, true, shape).active == Some(key)
        }),
{
}

/// Only a widget that was hot last frame can become active: a press on any other widget does
/// not activate it.
pub proof fn law_only_hot_last_frame_activates(m: InteractionModel, key: Key, inside: bool, pressed: bool, shape: CursorShape)
    requires
        m.hot_last_frame != Some(key),
    ensures
        !becomes_active(m, key, inside, pressed),
        hover_step(m, key, inside, pressed, shape).active != Some(key) || m.active == Some(key),
{
}

} // verus!
