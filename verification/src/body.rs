//! The physical state: vectors, bodies and published snapshots.
//!
//! The number type `S` is a parameter. The library never computes with it: every
//! arithmetic step is delegated to a kernel supplied by the caller, and the
//! library decides which kernel is applied to which values, in which order.

use vstd::prelude::*;

verus! {

/// A pair of coordinates: a position, a velocity or a force.
#[derive(Clone, Copy, Debug, PartialEq)]
pub struct Vector2<S> {
    pub x: S,
    pub y: S,
}

/// A point mass with its position and velocity in the plane.
#[derive(Clone, Copy, Debug, PartialEq)]
pub struct Body<S> {
    pub mass: S,
    pub position: Vector2<S>,
    pub velocity: Vector2<S>,
}

impl<S> Body<S> {
    /// This body with its velocity replaced; mass and position are kept.
    pub open spec fn with_velocity(self, velocity: Vector2<S>) -> Body<S> {
        Body { mass: self.mass, position: self.position, velocity }
    }

    /// This body with its position replaced; mass and velocity are kept.
    pub open spec fn with_position(self, position: Vector2<S>) -> Body<S> {
        Body { mass: self.mass, position, velocity: self.velocity }
    }
}

/// The complete state of all bodies at one simulated instant. A snapshot owns
/// its bodies: it is a copy of the live state, not a reference into it.
#[derive(Clone, Debug, PartialEq)]
pub struct Snapshot<S> {
    pub time: S,
    pub step_index: u64,
    pub bodies: Vec<Body<S>>,
}

/// The mathematical content of a [`Snapshot`].
pub struct SnapshotView<S> {
    pub time: S,
    pub step_index: nat,
    pub bodies: Seq<Body<S>>,
}

impl<S> View for Snapshot<S> {
    type V = SnapshotView<S>;

    open spec fn view(&self) -> SnapshotView<S> {
        SnapshotView {
            time: self.time,
            step_index: self.step_index as nat,
            bodies: self.bodies@,
        }
    }
}

/// The views of a sequence of snapshots, in order.
pub open spec fn snapshot_views<S>(snapshots: Seq<Snapshot<S>>) -> Seq<SnapshotView<S>> {
    Seq::new(snapshots.len(), |k: int| snapshots[k]@)
}

/// An independent copy of a list of bodies.
pub fn copy_bodies<S: Copy>(bodies: &Vec<Body<S>>) -> (copy: Vec<Body<S>>)
    ensures
        copy@ == bodies@,
{
    let mut copy: Vec<Body<S>> = Vec::new();
    let mut i: usize = 0;
    while i < bodies.len()
        invariant
            i <= bodies.len(),
            copy@ == bodies@.take(i as int),
        decreases bodies.len() - i,
    {
        copy.push(bodies[i]);
        i = i + 1;
    }
    copy
}

} // verus!
