//! The steps of a stepped simulation.
//!
//! The payload does not mark where one sweep of the independent variable ends
//! and the next begins. The decoder takes a sample of the independent
//! variable to begin a new step when it equals the first sample of the step
//! that is being built, and that step is not empty. This assumes that every
//! sweep starts from the same value, which holds for swept simulations but is
//! no rule of the format. The samples of every dependent variable are cut at
//! the same places.

use vstd::prelude::*;
use crate::sample::Value;

verus! {

/// The positions at which the steps among the first `n` samples begin. The
/// first step begins at 0, also where there is no sample at all.
pub open spec fn step_starts(xs: Seq<Value>, n: int) -> Seq<int>
    decreases n,
{
    if n <= 0 {
        seq![0int]
    } else {
        let before = step_starts(xs, n - 1);
        let first = before.last();
        if first < n - 1 && xs[first].same(xs[n - 1]) {
            before.push(n - 1)
        } else {
            before
        }
    }
}

/// Where step `k` ends among the first `n` samples: where the next step
/// begins, or at `n` for the last step.
pub open spec fn step_end(starts: Seq<int>, k: int, n: int) -> int {
    if k + 1 < starts.len() {
        starts[k + 1]
    } else {
        n
    }
}

/// The samples cut into steps that begin at the given positions.
pub open spec fn split_steps(samples: Seq<Value>, starts: Seq<int>) -> Seq<Seq<Value>> {
    Seq::new(
        starts.len(),
        |k: int| samples.subrange(starts[k], step_end(starts, k, samples.len() as int)),
    )
}

/// The samples of the independent variable cut into the steps that they
/// themselves mark.
pub open spec fn steps_of(xs: Seq<Value>) -> Seq<Seq<Value>> {
    split_steps(xs, step_starts(xs, xs.len() as int))
}

/// The length of the last step that was closed by a following one, or
/// `otherwise` where no step was closed.
pub open spec fn closed_step_size(starts: Seq<int>, otherwise: int) -> int {
    if starts.len() >= 2 {
        starts[starts.len() - 1] - starts[starts.len() - 2]
    } else {
        otherwise
    }
}

/// The number of steps of the size of the last closed step that `points`
/// points make up, or 0 where no step was closed.
pub open spec fn counted_steps(starts: Seq<int>, points: int) -> int {
    if starts.len() >= 2 {
        points / (starts[starts.len() - 1] - starts[starts.len() - 2])
    } else {
        0
    }
}

/// The number of samples in all steps together.
pub open spec fn total_length(steps: Seq<Seq<Value>>) -> int
    decreases steps.len(),
{
    if steps.len() == 0 {
        0
    } else {
        total_length(steps.drop_last()) + steps.last().len()
    }
}

/// Whether the positions are such at which steps among `n` samples can begin:
/// the first is 0, they lie in rising order, and the last lies before `n`
/// unless there is no sample.
pub open spec fn ordered_starts(starts: Seq<int>, n: int) -> bool {
    &&& starts.len() >= 1
    &&& starts[0] == 0
    &&& forall|i: int, j: int|
        0 <= i < j < starts.len() ==> #[trigger] starts[i] < #[trigger] starts[j]
    &&& starts.last() < n || (n <= 0 && starts.len() == 1)
}

/// The positions that `step_starts` gives are ordered.
pub proof fn lemma_step_starts_ordered(xs: Seq<Value>, n: int)
    ensures
        ordered_starts(step_starts(xs, n), n),
    decreases n,
{
    if n > 0 {
        lemma_step_starts_ordered(xs, n - 1);
        let before = step_starts(xs, n - 1);
        let after = step_starts(xs, n);
        assert forall|i: int, j: int| 0 <= i < j < after.len() implies #[trigger] after[i]
            < #[trigger] after[j] by {
            if j < before.len() {
                assert(before[i] < before[j]);
            } else if i < before.len() - 1 {
                assert(before[i] < before[before.len() - 1]);
            }
        }
    }
}

/// Each step among `n` samples begins and ends within them, and does not end
/// before it begins.
pub proof fn lemma_step_bounds(starts: Seq<int>, n: int, k: int)
    requires
        ordered_starts(starts, n),
        0 <= n,
        0 <= k < starts.len(),
    ensures
        0 <= starts[k] <= step_end(starts, k, n) <= n,
{
    if k > 0 {
        assert(starts[0] < starts[k]);
    }
    if k + 1 < starts.len() {
        assert(starts[k] < starts[k + 1]);
        if k + 1 < starts.len() - 1 {
            assert(starts[k + 1] < starts[starts.len() - 1]);
        }
    } else {
        assert(starts[k] == starts.last());
    }
}

/// The steps cover the samples: the lengths of the steps into which ordered
/// positions cut a sequence add up to the length of the sequence.
pub proof fn lemma_steps_cover(samples: Seq<Value>, starts: Seq<int>)
    requires
        ordered_starts(starts, samples.len() as int),
    ensures
        total_length(split_steps(samples, starts)) == samples.len(),
{
    let steps = split_steps(samples, starts);
    lemma_prefix_length(samples, starts, starts.len() as int);
    assert(steps.take(starts.len() as int) =~= steps);
}

/// The first `count` steps hold the samples before the end of the last of them.
proof fn lemma_prefix_length(samples: Seq<Value>, starts: Seq<int>, count: int)
    requires
        ordered_starts(starts, samples.len() as int),
        0 <= count <= starts.len(),
    ensures
        total_length(split_steps(samples, starts).take(count)) == if count == 0 {
            0
        } else {
            step_end(starts, count - 1, samples.len() as int)
        },
    decreases count,
{
    let steps = split_steps(samples, starts);
    if count > 0 {
        lemma_prefix_length(samples, starts, count - 1);
        assert(steps.take(count).drop_last() =~= steps.take(count - 1));
        assert(steps.take(count).last() == steps[count - 1]);
        lemma_step_bounds(starts, samples.len() as int, count - 1);
        if count - 1 > 0 {
            assert(step_end(starts, count - 2, samples.len() as int) == starts[count - 1]);
        }
    }
}

/// The number of points is the sum of the lengths of the steps of the
/// independent variable.
pub proof fn lemma_points_are_step_lengths(xs: Seq<Value>)
    ensures
        total_length(steps_of(xs)) == xs.len(),
{
    lemma_step_starts_ordered(xs, xs.len() as int);
    lemma_steps_cover(xs, step_starts(xs, xs.len() as int));
}

/// A dependent variable has the steps of the independent variable: as many,
/// and each as long.
pub proof fn lemma_steps_in_lockstep(xs: Seq<Value>, ys: Seq<Value>)
    requires
        ys.len() == xs.len(),
    ensures
        split_steps(ys, step_starts(xs, xs.len() as int)).len() == steps_of(xs).len(),
        forall|k: int|
            0 <= k < steps_of(xs).len() ==> (#[trigger] split_steps(
                ys,
                step_starts(xs, xs.len() as int),
            )[k]).len() == steps_of(xs)[k].len(),
{
    let n = xs.len() as int;
    let starts = step_starts(xs, n);
    lemma_step_starts_ordered(xs, n);
    assert forall|k: int| 0 <= k < steps_of(xs).len() implies (#[trigger] split_steps(
        ys,
        starts,
    )[k]).len() == steps_of(xs)[k].len() by {
        lemma_step_bounds(starts, n, k);
    }
}

/// Samples among which none behind the first equals the first make one step,
/// which holds them all.
pub proof fn lemma_single_step(xs: Seq<Value>)
    requires
        forall|i: int| 0 < i < xs.len() ==> !xs[0].same(#[trigger] xs[i]),
    ensures
        steps_of(xs) == seq![xs],
{
    lemma_no_boundary(xs, xs.len() as int);
    assert(steps_of(xs) =~= seq![xs]) by {
        assert(xs.subrange(0, xs.len() as int) =~= xs);
    }
}

/// The steps that begin among the first `n` samples are the first of those
/// that begin among the first `m`, for `n` up to `m`; the others begin at `n`
/// or behind it.
proof fn lemma_step_starts_prefix(xs: Seq<Value>, n: int, m: int)
    requires
        0 <= n <= m,
    ensures
        step_starts(xs, n).len() <= step_starts(xs, m).len(),
        step_starts(xs, m).take(step_starts(xs, n).len() as int) == step_starts(xs, n),
        forall|k: int|
            step_starts(xs, n).len() <= k < step_starts(xs, m).len() ==> n <= #[trigger] step_starts(
                xs,
                m,
            )[k],
    decreases m - n,
{
    if n < m {
        lemma_step_starts_prefix(xs, n, m - 1);
        let short = step_starts(xs, n);
        let before = step_starts(xs, m - 1);
        let after = step_starts(xs, m);
        assert(after.take(short.len() as int) =~= before.take(short.len() as int));
    } else {
        assert(step_starts(xs, m).take(step_starts(xs, n).len() as int) =~= step_starts(xs, n));
    }
}

/// While a step is being built, it is the last that has begun.
proof fn lemma_open_step(xs: Seq<Value>, k: int, i: int)
    requires
        0 <= k < step_starts(xs, xs.len() as int).len(),
        step_starts(xs, xs.len() as int)[k] <= i < step_end(
            step_starts(xs, xs.len() as int),
            k,
            xs.len() as int,
        ),
    ensures
        step_starts(xs, i + 1).last() == step_starts(xs, xs.len() as int)[k],
        step_starts(xs, i + 1).len() == k + 1,
{
    let n = xs.len() as int;
    let all = step_starts(xs, n);
    let some = step_starts(xs, i + 1);
    lemma_step_starts_ordered(xs, n);
    lemma_step_starts_ordered(xs, i + 1);
    lemma_step_bounds(all, n, k);
    lemma_step_starts_prefix(xs, i + 1, n);
    assert(some == all.take(some.len() as int));
    if some.len() <= k {
        assert(i + 1 <= all[k]);
    }
    if some.len() > k + 1 {
        assert(some[k + 1] == all[k + 1]);
        assert(some[k + 1] <= some[some.len() - 1]) by {
            if k + 1 < some.len() - 1 {
                assert(some[k + 1] < some[some.len() - 1]);
            }
        }
    }
    assert(some[k] == all[k]);
}

/// Within a step no sample behind the first equals the first.
pub proof fn lemma_first_sample_comes_once(xs: Seq<Value>, k: int, i: int)
    requires
        0 <= k < step_starts(xs, xs.len() as int).len(),
        step_starts(xs, xs.len() as int)[k] < i < step_end(
            step_starts(xs, xs.len() as int),
            k,
            xs.len() as int,
        ),
    ensures
        !xs[step_starts(xs, xs.len() as int)[k]].same(xs[i]),
{
    lemma_open_step(xs, k, i - 1);
    lemma_open_step(xs, k, i);
}

/// Detection changes nothing when it is run again: each step that it finds is
/// one step to it, whole.
pub proof fn lemma_steps_are_single(xs: Seq<Value>, k: int)
    requires
        0 <= k < steps_of(xs).len(),
    ensures
        steps_of(steps_of(xs)[k]) == seq![steps_of(xs)[k]],
{
    let n = xs.len() as int;
    let starts = step_starts(xs, n);
    let step = steps_of(xs)[k];
    lemma_step_starts_ordered(xs, n);
    lemma_step_bounds(starts, n, k);
    assert forall|i: int| 0 < i < step.len() implies !step[0].same(#[trigger] step[i]) by {
        lemma_first_sample_comes_once(xs, k, starts[k] + i);
    }
    lemma_single_step(step);
}

/// Without a sample that equals the first, no step but the first begins.
proof fn lemma_no_boundary(xs: Seq<Value>, n: int)
    requires
        n <= xs.len(),
        forall|i: int| 0 < i < xs.len() ==> !xs[0].same(#[trigger] xs[i]),
    ensures
        step_starts(xs, n) == seq![0int],
    decreases n,
{
    if n > 0 {
        lemma_no_boundary(xs, n - 1);
    }
}

} // verus!
