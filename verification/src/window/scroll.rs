//! Scrolling of the Wayland backend: the axis events of one pointer frame are gathered, and the
//! frame's end turns them into one scroll, taken from the most precise source that reported.
use vstd::prelude::*;

verus! {

/// `wl_pointer.axis`: the vertical axis.
pub const WL_POINTER_AXIS_VERTICAL_SCROLL: u32 = 0;

/// `wl_pointer.axis`: the horizontal axis.
pub const WL_POINTER_AXIS_HORIZONTAL_SCROLL: u32 = 1;

/// A value per scroll axis.
#[derive(Debug, Clone, Copy, PartialEq, Eq, Structural)]
pub struct AxisPair {
    pub vertical: i32,
    pub horizontal: i32,
}

/// The value of `axis` in `p`, zero when nothing was reported yet.
pub open spec fn axis_value(p: Option<AxisPair>, axis: u32) -> int {
    match p {
        Some(p) => if axis == WL_POINTER_AXIS_VERTICAL_SCROLL {
            p.vertical as int
        } else {
            p.horizontal as int
        },
        None => 0,
    }
}

/// `p` with `v` as the value of `axis`, the other axis kept (zero when nothing was reported).
pub open spec fn with_axis(p: Option<AxisPair>, axis: u32, v: i32) -> AxisPair {
    let base = match p {
        Some(p) => p,
        None => AxisPair { vertical: 0, horizontal: 0 },
    };
    if axis == WL_POINTER_AXIS_VERTICAL_SCROLL {
        AxisPair { vertical: v, ..base }
    } else {
        AxisPair { horizontal: v, ..base }
    }
}

/// The scroll of a pointer frame, in the units of its source.
#[derive(Debug, Clone, Copy, PartialEq, Eq, Structural)]
pub enum ScrollDelta {
    /// High-resolution wheel steps: 120 per detent.
    Value120 { x: i32, y: i32 },
    /// Whole wheel detents.
    Discrete { x: i32, y: i32 },
    /// Continuous scrolling in surface coordinates, as 24.8 fixed-point numbers.
    Axis { x: i32, y: i32 },
}

/// The scroll a frame with these reports becomes: high-resolution steps when there were any,
/// else detents, else continuous scrolling; none when nothing scrolled.
pub open spec fn frame_delta(
    axis: Option<AxisPair>,
    discrete: Option<AxisPair>,
    value120: Option<AxisPair>,
) -> Option<ScrollDelta> {
    match value120 {
        Some(p) => Some(ScrollDelta::Value120 { x: p.horizontal, y: p.vertical }),
        None => match discrete {
            Some(p) => Some(ScrollDelta::Discrete { x: p.horizontal, y: p.vertical }),
            None => match axis {
                Some(p) => Some(ScrollDelta::Axis { x: p.horizontal, y: p.vertical }),
                None => None,
            },
        },
    }
}

/// The axis events of the pointer frame in progress.
#[derive(Debug, Default, Clone, Copy, PartialEq, Eq, Structural)]
pub struct ScrollFrame {
    /// Continuous scrolling, summed over the frame.
    pub axis: Option<AxisPair>,
    /// Wheel detents; at most one report per axis and frame.
    pub axis_discrete: Option<AxisPair>,
    /// High-resolution wheel steps, summed over the frame.
    pub axis_value120: Option<AxisPair>,
}

fn add_to_axis(p: Option<AxisPair>, axis: u32, value: i32) -> (r: AxisPair)
    requires
        axis == WL_POINTER_AXIS_VERTICAL_SCROLL || axis == WL_POINTER_AXIS_HORIZONTAL_SCROLL,
        i32::MIN <= axis_value(p, axis) + value <= i32::MAX,
    ensures
        r == with_axis(p, axis, (axis_value(p, axis) + value) as i32),
{
    let mut pair = match p {
        Some(pair) => pair,
        None => AxisPair { vertical: 0, horizontal: 0 },
    };
    if axis == WL_POINTER_AXIS_VERTICAL_SCROLL {
        pair.vertical = pair.vertical + value;
    } else {
        pair.horizontal = pair.horizontal + value;
    }
    pair
}

impl ScrollFrame {
    /// Nothing reported yet.
    pub fn new() -> (r: Self)
        ensures
            r.axis is None,
            r.axis_discrete is None,
            r.axis_value120 is None,
    {
        ScrollFrame { axis: None, axis_discrete: None, axis_value120: None }
    }

    /// `wl_pointer.axis`: continuous scrolling by `value` (24.8 fixed point) along `axis`; the
    /// reports of a frame add up.
    pub fn on_axis(&mut self, axis: u32, value: i32)
        requires
            axis == WL_POINTER_AXIS_VERTICAL_SCROLL || axis == WL_POINTER_AXIS_HORIZONTAL_SCROLL,
            i32::MIN <= axis_value(old(self).axis, axis) + value <= i32::MAX,
        ensures
            final(self).axis == Some(
                with_axis(old(self).axis, axis, (axis_value(old(self).axis, axis) + value) as i32),
            ),
            final(self).axis_discrete == old(self).axis_discrete,
            final(self).axis_value120 == old(self).axis_value120,
    {
        self.axis = Some(add_to_axis(self.axis, axis, value));
    }

    /// `wl_pointer.axis_discrete`: `discrete` wheel detents along `axis`, reported at most once
    /// per axis in a frame.
    pub fn on_axis_discrete(&mut self, axis: u32, discrete: i32)
        requires
            axis == WL_POINTER_AXIS_VERTICAL_SCROLL || axis == WL_POINTER_AXIS_HORIZONTAL_SCROLL,
            axis_value(old(self).axis_discrete, axis) == 0,
        ensures
            final(self).axis_discrete == Some(with_axis(old(self).axis_discrete, axis, discrete)),
            final(self).axis == old(self).axis,
            final(self).axis_value120 == old(self).axis_value120,
    {
        self.axis_discrete = Some(add_to_axis(self.axis_discrete, axis, discrete));
    }

    /// `wl_pointer.axis_value120`: `value120` high-resolution steps along `axis`; the reports
    /// of a frame add up.
    pub fn on_axis_value120(&mut self, axis: u32, value120: i32)
        requires
            axis == WL_POINTER_AXIS_VERTICAL_SCROLL || axis == WL_POINTER_AXIS_HORIZONTAL_SCROLL,
            i32::MIN <= axis_value(old(self).axis_value120, axis) + value120 <= i32::MAX,
        ensures
            final(self).axis_value120 == Some(
                with_axis(
                    old(self).axis_value120,
                    axis,
                    (axis_value(old(self).axis_value120, axis) + value120) as i32,
                ),
            ),
            final(self).axis == old(self).axis,
            final(self).axis_discrete == old(self).axis_discrete,
    {
        self.axis_value120 = Some(add_to_axis(self.axis_value120, axis, value120));
    }

    /// `wl_pointer.frame`: the frame's scroll, and a fresh start for the next frame.
    pub fn on_frame(&mut self) -> (r: Option<ScrollDelta>)
        ensures
            r == frame_delta(old(self).axis, old(self).axis_discrete, old(self).axis_value120),
            final(self).axis is None,
            final(self).axis_discrete is None,
            final(self).axis_value120 is None,
    {
        let axis = self.axis.take();
        let axis_value120 = self.axis_value120.take();
        let axis_discrete = self.axis_discrete.take();
        match axis_value120 {
            Some(p) => Some(ScrollDelta::Value120 { x: p.horizontal, y: p.vertical }),
            None => match axis_discrete {
                Some(p) => Some(ScrollDelta::Discrete { x: p.horizontal, y: p.vertical }),
                None => match axis {
                    Some(p) => Some(ScrollDelta::Axis { x: p.horizontal, y: p.vertical }),
                    None => None,
                },
            },
        }
    }
}

/// A frame's scroll never mixes sources: once high-resolution steps were reported, detents and
/// continuous scrolling of the same frame are ignored, and detents win over continuous
/// scrolling.
pub proof fn law_most_precise_source_wins(
    axis: Option<AxisPair>,
    discrete: Option<AxisPair>,
    value120: Option<AxisPair>,
)
    ensures
        value120 is Some ==> frame_delta(axis, discrete, value120) matches Some(
            ScrollDelta::Value120 { .. },
        ),
        value120 is None && discrete is Some ==> frame_delta(axis, discrete, value120) matches Some(
            ScrollDelta::Discrete { .. },
        ),
        frame_delta(axis, discrete, value120) is None <==> (axis is None && discrete is None
            && value120 is None),
{
}

} // verus!
