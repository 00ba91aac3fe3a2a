//! The sampling policy: of the snapshots of a run, only those whose step index
//! is a multiple of a stride are retained. The engine still computes every
//! step; sampling only decides which results are kept.

use vstd::prelude::*;
use crate::body::{copy_bodies, snapshot_views, Snapshot, SnapshotView};
use vstd::arithmetic::div_mod::{lemma_fundamental_div_mod, lemma_fundamental_div_mod_converse};

verus! {

/// The stride that spreads about `desired_frames` retained snapshots over a run
/// of `total_steps`: the whole quotient, but never less than one.
pub open spec fn stride_for(total_steps: nat, desired_frames: nat) -> nat
    recommends
        desired_frames > 0,
{
    if total_steps / desired_frames >= 1 {
        total_steps / desired_frames
    } else {
        1
    }
}

/// Whether the snapshot of step `step_index` is retained under `stride`.
pub open spec fn is_retained(stride: nat, step_index: nat) -> bool
    recommends
        stride > 0,
{
    step_index % stride == 0
}

/// How many of the steps `0 .. total_steps` are retained under `stride`.
pub open spec fn retained_count(total_steps: nat, stride: nat) -> nat
    recommends
        stride > 0,
{
    if total_steps == 0 {
        0
    } else {
        ((total_steps - 1) / (stride as int) + 1) as nat
    }
}

/// The test that a snapshot is retained under `stride`.
pub open spec fn retention<S>(stride: nat) -> spec_fn(SnapshotView<S>) -> bool {
    |snapshot: SnapshotView<S>| is_retained(stride, snapshot.step_index)
}

/// The snapshots of `snapshots` that are retained under `stride`, in their
/// order.
pub open spec fn sampled<S>(snapshots: Seq<SnapshotView<S>>, stride: nat) -> Seq<SnapshotView<S>> {
    snapshots.filter(retention(stride))
}

/// A sampling policy with a stride of at least one.
#[derive(Clone, Copy, Debug, PartialEq, Eq)]
pub struct Sampler {
    stride: u64,
}

impl Sampler {
    #[verifier::type_invariant]
    spec fn well_formed(self) -> bool {
        self.stride >= 1
    }

    /// The stride of this sampler, as a number.
    pub closed spec fn spec_stride(self) -> nat {
        self.stride as nat
    }

    /// A sampler with the given stride; a stride of zero is raised to one.
    pub fn new(stride: u64) -> (sampler: Sampler)
        ensures
            sampler.spec_stride() == if stride == 0 { 1 } else { stride as nat },
    {
        if stride == 0 {
            Sampler { stride: 1 }
        } else {
            Sampler { stride }
        }
    }

    /// The sampler for a run of `total_steps` of which about `desired_frames`
    /// snapshots are wanted. When more frames are wanted than there are steps,
    /// every snapshot is retained.
    pub fn for_frames(total_steps: u64, desired_frames: u64) -> (sampler: Sampler)
        requires
            desired_frames > 0,
        ensures
            sampler.spec_stride() == stride_for(total_steps as nat, desired_frames as nat),
    {
        let quotient: u64 = total_steps / desired_frames;
        if quotient >= 1 {
            Sampler { stride: quotient }
        } else {
            Sampler { stride: 1 }
        }
    }

    /// The stride: the distance in steps between two retained snapshots.
    pub fn stride(&self) -> (stride: u64)
        ensures
            stride == self.spec_stride(),
            stride >= 1,
    {
        proof {
            use_type_invariant(self);
        }
        self.stride
    }

    /// Whether the snapshot of step `step_index` is retained.
    pub fn retains(&self, step_index: u64) -> (retained: bool)
        ensures
            retained == is_retained(self.spec_stride(), step_index as nat),
    {
        proof {
            use_type_invariant(self);
        }
        step_index % self.stride == 0
    }

    /// How many snapshots of a run of `total_steps` are retained.
    pub fn retained_count(&self, total_steps: u64) -> (count: u64)
        ensures
            count == retained_count(total_steps as nat, self.spec_stride()),
    {
        proof {
            use_type_invariant(self);
        }
        if total_steps == 0 {
            0
        } else {
            let full: u64 = (total_steps - 1) / self.stride;
            assert(full <= total_steps - 1) by (nonlinear_arith)
                requires
                    full == (total_steps - 1) / (self.stride as int),
                    self.stride >= 1,
                    total_steps >= 1,
            ;
            full + 1
        }
    }

    /// Of a sequence of snapshots, copies of those that are retained, in their
    /// order.
    pub fn sample<S: Copy>(&self, snapshots: &Vec<Snapshot<S>>) -> (retained: Vec<Snapshot<S>>)
        ensures
            snapshot_views(retained@) == sampled(snapshot_views(snapshots@), self.spec_stride()),
    {
        let ghost all = snapshot_views(snapshots@);
        let ghost keep = retention::<S>(self.spec_stride());
        let mut retained: Vec<Snapshot<S>> = Vec::new();
        let mut i: usize = 0;
        proof {
            reveal(Seq::filter);
            assert(all.take(0).len() == 0);
        }
        while i < snapshots.len()
            invariant
                i <= snapshots.len(),
                all == snapshot_views(snapshots@),
                keep == retention::<S>(self.spec_stride()),
                snapshot_views(retained@) == all.take(i as int).filter(keep),
            decreases snapshots.len() - i,
        {
            let snapshot = &snapshots[i];
            let ghost before = snapshot_views(retained@);
            if self.retains(snapshot.step_index) {
                retained.push(
                    Snapshot {
                        time: snapshot.time,
                        step_index: snapshot.step_index,
                        bodies: copy_bodies(&snapshot.bodies),
                    },
                );
            }
            proof {
                reveal(Seq::filter);
                let longer = all.take(i + 1);
                assert(longer.drop_last() == all.take(i as int));
                assert(longer.last() == snapshots@[i as int]@);
                if keep(longer.last()) {
                    assert(snapshot_views(retained@) == before.push(longer.last()));
                }
            }
            i = i + 1;
        }
        proof {
            assert(all.take(snapshots.len() as int) == all);
        }
        retained
    }
}

/// The retained steps are counted by their rank: the `rank`-th retained step,
/// `rank * stride`, lies within a run of `total_steps` exactly when `rank` is
/// below the retained count.
pub proof fn lemma_rank_within_run(total_steps: nat, stride: nat, rank: nat)
    requires
        stride > 0,
    ensures
        rank < retained_count(total_steps, stride) <==> rank * stride < total_steps,
{
    if total_steps > 0 {
        let last = (total_steps - 1) as int;
        let s = stride as int;
        let r = rank as int;
        assert(r <= last / s <==> r * s <= last) by (nonlinear_arith)
            requires
                s > 0,
                last >= 0,
                r >= 0,
        ;
    } else {
        assert(rank * stride >= 0) by (nonlinear_arith);
    }
}

/// A step is retained exactly when it is the product of its rank and the
/// stride, the rank being the whole quotient of the step by the stride.
pub proof fn lemma_retained_is_multiple(stride: nat, step_index: nat)
    requires
        stride > 0,
    ensures
        is_retained(stride, step_index) <==> step_index == (step_index / stride) * stride,
        is_retained(stride, step_index) <==> exists|rank: nat| step_index == #[trigger] (rank * stride),
{
    let s = stride as int;
    let k = step_index as int;
    assert(k == (k / s) * s + k % s) by (nonlinear_arith)
        requires
            s > 0,
    ;
    if is_retained(stride, step_index) {
        let rank = step_index / stride;
        assert(step_index == rank * stride);
    }
    if exists|rank: nat| step_index == #[trigger] (rank * stride) {
        let rank = choose|rank: nat| step_index == #[trigger] (rank * stride);
        assert((rank * stride) % stride == 0) by (nonlinear_arith)
            requires
                stride > 0,
        ;
    }
}

/// The retained steps of a run are exactly the multiples of the stride below
/// its length, and their ranks order them: a step within the run is retained if
/// and only if it is `rank * stride` for a rank below the retained count.
pub proof fn lemma_retained_steps(total_steps: nat, stride: nat, step_index: nat)
    requires
        stride > 0,
    ensures
        (step_index < total_steps && is_retained(stride, step_index)) <==> (step_index / stride
            < retained_count(total_steps, stride) && step_index == (step_index / stride) * stride),
{
    lemma_retained_is_multiple(stride, step_index);
    lemma_rank_within_run(total_steps, stride, step_index / stride);
}

/// Retained steps come in strictly increasing order of their rank.
pub proof fn lemma_ranks_increase(stride: nat, earlier: nat, later: nat)
    requires
        stride > 0,
        earlier < later,
    ensures
        earlier * stride < later * stride,
{
    assert(earlier * stride < later * stride) by (nonlinear_arith)
        requires
            stride > 0,
            earlier < later,
    ;
}

/// Taking one more step adds one retained snapshot if that step is retained,
/// and none otherwise; a retained step is the product of its rank, the count
/// before it, and the stride.
pub proof fn lemma_count_after_step(steps: nat, stride: nat)
    requires
        stride > 0,
    ensures
        is_retained(stride, steps) ==> retained_count(steps + 1, stride) == retained_count(
            steps,
            stride,
        ) + 1,
        is_retained(stride, steps) ==> steps == retained_count(steps, stride) * stride,
        !is_retained(stride, steps) ==> retained_count(steps + 1, stride) == retained_count(
            steps,
            stride,
        ),
{
    let s = stride as int;
    let k = steps as int;
    if steps > 0 {
        let q = k / s;
        let r = k % s;
        lemma_fundamental_div_mod(k, s);
        assert(k == s * q + r);
        assert(s * q == q * s) by (nonlinear_arith);
        if r == 0 {
            assert(q >= 1) by (nonlinear_arith)
                requires
                    k == q * s,
                    k > 0,
                    s > 0,
            ;
            assert((q - 1) * s + (s - 1) == k - 1) by (nonlinear_arith)
                requires
                    k == q * s,
            ;
            lemma_fundamental_div_mod_converse(k - 1, s, q - 1, s - 1);
        } else {
            lemma_fundamental_div_mod_converse(k - 1, s, q, r - 1);
        }
    } else {
        assert(0int / s == 0) by (nonlinear_arith)
            requires
                s > 0,
        ;
        assert(0 * stride == 0) by (nonlinear_arith);
    }
}

/// Sampling a complete record. When the snapshot at position `k` of
/// `snapshots` is that of step `k`, for every `k`, then sampling the first
/// `steps` of them retains `retained_count(steps, stride)` snapshots, and the
/// one of rank `rank` is the snapshot of step `rank * stride`.
pub proof fn lemma_sampled_prefix<S>(snapshots: Seq<SnapshotView<S>>, stride: nat, steps: nat)
    requires
        stride > 0,
        steps <= snapshots.len(),
        forall|k: int| 0 <= k < snapshots.len() ==> (#[trigger] snapshots[k]).step_index == k,
    ensures
        sampled(snapshots.take(steps as int), stride).len() == retained_count(steps, stride),
        forall|rank: int|
            0 <= rank < retained_count(steps, stride) ==> (#[trigger] sampled(
                snapshots.take(steps as int),
                stride,
            )[rank]) == snapshots[rank * stride],
    decreases steps,
{
    reveal(Seq::filter);
    let prefix = snapshots.take(steps as int);
    if steps > 0 {
        let shorter = snapshots.take(steps - 1);
        assert(prefix.drop_last() == shorter);
        assert(prefix.last() == snapshots[steps - 1]);
        lemma_sampled_prefix(snapshots, stride, (steps - 1) as nat);
        lemma_count_after_step((steps - 1) as nat, stride);
    } else {
        assert(prefix.len() == 0);
    }
}

/// The first step of a run is always retained.
pub proof fn lemma_first_step_is_retained(total_steps: nat, stride: nat)
    requires
        stride > 0,
        total_steps > 0,
    ensures
        is_retained(stride, 0),
        retained_count(total_steps, stride) >= 1,
{
    lemma_rank_within_run(total_steps, stride, 0);
    assert(0 * stride == 0) by (nonlinear_arith);
}

/// The sampler bounds what is retained. With the stride chosen for
/// `desired_frames`, a run retains no more than twice as many snapshots as
/// were asked for, however long it is.
pub proof fn lemma_retained_count_is_bounded(total_steps: nat, desired_frames: nat)
    requires
        desired_frames > 0,
    ensures
        stride_for(total_steps, desired_frames) >= 1,
        retained_count(total_steps, stride_for(total_steps, desired_frames)) <= 2
            * desired_frames,
{
    let stride = stride_for(total_steps, desired_frames);
    let frames = desired_frames as int;
    let total = total_steps as int;
    let quotient = total / frames;
    lemma_fundamental_div_mod(total, frames);
    assert(0 <= total % frames < frames) by (nonlinear_arith)
        requires
            frames > 0,
            total >= 0,
    ;
    assert(quotient >= 0) by (nonlinear_arith)
        requires
            quotient == total / frames,
            frames > 0,
            total >= 0,
    ;
    assert((2 * frames) * (stride as int) >= total) by (nonlinear_arith)
        requires
            total == frames * quotient + total % frames,
            0 <= total % frames < frames,
            stride >= 1,
            stride >= quotient,
            frames > 0,
    ;
    lemma_rank_within_run(total_steps, stride, 2 * desired_frames);
}

} // verus!
