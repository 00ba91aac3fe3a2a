//! What a renderer needs to know that is not arithmetic on coordinates: which
//! colour a body has, how its marker looks in the static plot and in the
//! animation, and how long a frame of the animation is shown.
//!
//! A body keeps its index through the whole run, so its colour is the same in
//! every frame.

use vstd::prelude::*;

verus! {

/// The colours of the markers.
#[derive(Clone, Copy, Debug, PartialEq, Eq)]
pub enum Color {
    Blue,
    Red,
    Green,
    Black,
}

/// How a body is drawn: a filled circle of a radius, in pixels, and a colour.
#[derive(Clone, Copy, Debug, PartialEq, Eq)]
pub struct Marker {
    pub radius: u32,
    pub color: Color,
}

/// The colour of the body with index `body`: blue, red and green for the first
/// three bodies, black for all others.
pub open spec fn color_of(body: nat) -> Color {
    if body == 0 {
        Color::Blue
    } else if body == 1 {
        Color::Red
    } else if body == 2 {
        Color::Green
    } else {
        Color::Black
    }
}

/// The marker of body `body` in the static plot, for the retained snapshot at
/// position `rank`: the first snapshot is highlighted by a larger black
/// marker, the trajectory after it is drawn small and in the body's colour.
pub open spec fn trail_marker_of(rank: nat, body: nat) -> Marker {
    if rank == 0 {
        Marker { radius: 2, color: Color::Black }
    } else {
        Marker { radius: 1, color: color_of(body) }
    }
}

/// The colour of the body with index `body`.
pub fn body_color(body: usize) -> (color: Color)
    ensures
        color == color_of(body as nat),
{
    if body == 0 {
        Color::Blue
    } else if body == 1 {
        Color::Red
    } else if body == 2 {
        Color::Green
    } else {
        Color::Black
    }
}

/// The marker of body `body` in the static plot, for the retained snapshot at
/// position `rank`.
pub fn trail_marker(rank: usize, body: usize) -> (marker: Marker)
    ensures
        marker == trail_marker_of(rank as nat, body as nat),
{
    if rank == 0 {
        Marker { radius: 2, color: Color::Black }
    } else {
        Marker { radius: 1, color: body_color(body) }
    }
}

/// The marker of body `body` in a frame of the animation.
pub fn frame_marker(body: usize) -> (marker: Marker)
    ensures
        marker == (Marker { radius: 2, color: color_of(body as nat) }),
{
    Marker { radius: 2, color: body_color(body) }
}

/// How long a frame of the animation is shown, in whole milliseconds.
pub fn frame_delay_ms(frames_per_second: u32) -> (delay: u32)
    requires
        frames_per_second > 0,
    ensures
        delay == 1000int / (frames_per_second as int),
{
    1000 / frames_per_second
}

/// The number of frames of an animation of `seconds` seconds.
pub fn frame_count(frames_per_second: u32, seconds: u32) -> (frames: u64)
    ensures
        frames == frames_per_second * seconds,
{
    assert(frames_per_second * seconds <= u64::MAX) by (nonlinear_arith)
        requires
            frames_per_second <= u32::MAX,
            seconds <= u32::MAX,
    ;
    (frames_per_second as u64) * (seconds as u64)
}

} // verus!
