//! Decoding the payload: one pass over the records, in which every sample is
//! read and put into the step it belongs to.

use vstd::prelude::*;
use crate::header::Header;
use crate::layout::{layout_fits, layout_of, plan_layout, Layout};
use crate::model::{ByteOrder, ParseError};
use crate::sample::{read_sample, sample_at, Value};
use crate::steps::{
    closed_step_size, counted_steps, lemma_step_starts_ordered, split_steps, step_end,
    step_starts,
};

verus! {

/// The steps of a variable as sequences of samples.
pub open spec fn steps_view(steps: Seq<Vec<Value>>) -> Seq<Seq<Value>> {
    steps.map_values(|step: Vec<Value>| step@)
}

/// The samples of the independent variable that a payload holds, one per
/// point.
pub open spec fn x_samples(payload: Seq<u8>, layout: Layout, order: ByteOrder) -> Seq<Value> {
    Seq::new(
        layout.points as nat,
        |point: int| sample_at(payload, layout.x_offset(point), layout.x_type, order),
    )
}

/// The samples of one dependent variable that a payload holds, one per point.
pub open spec fn y_samples(
    payload: Seq<u8>,
    layout: Layout,
    order: ByteOrder,
    variable: int,
) -> Seq<Value> {
    Seq::new(
        layout.points as nat,
        |point: int| sample_at(payload, layout.y_offset(variable, point), layout.y_type, order),
    )
}

/// The decoded samples: the steps of the independent variable, and the steps
/// of each dependent variable in the order of declaration.
#[derive(Debug)]
pub struct Dataset {
    pub x: Vec<Vec<Value>>,
    pub series: Vec<Vec<Vec<Value>>>,
}

impl Dataset {
    /// The steps of the independent variable.
    pub open spec fn x_steps(&self) -> Seq<Seq<Value>> {
        steps_view(self.x@)
    }

    /// The steps of a dependent variable.
    pub open spec fn y_steps(&self, variable: int) -> Seq<Seq<Value>> {
        steps_view(self.series@[variable]@)
    }

    /// Whether these are the samples of the payload: those of the independent
    /// variable cut into the steps that they mark, and those of each dependent
    /// variable cut at the same places.
    pub open spec fn holds(&self, payload: Seq<u8>, layout: Layout, order: ByteOrder) -> bool {
        let xs = x_samples(payload, layout, order);
        let starts = step_starts(xs, xs.len() as int);
        &&& self.x_steps() == split_steps(xs, starts)
        &&& self.series@.len() == layout.dependents
        &&& forall|variable: int|
            0 <= variable < layout.dependents ==> #[trigger] self.y_steps(variable) == split_steps(
                y_samples(payload, layout, order, variable),
                starts,
            )
    }
}

/// What decoding a payload yields.
#[derive(Debug)]
pub struct Decoded {
    /// The samples in their steps.
    pub data: Dataset,
    /// The number of steps that the points make up at the size of the last
    /// closed step; 0 where there is one step only.
    pub steps: u32,
    /// The length of the last closed step; the length of the payload in bytes
    /// where there is one step only.
    pub step_size: u64,
}

impl Decoded {
    /// Whether this is what the payload yields under the layout.
    pub open spec fn yields(&self, payload: Seq<u8>, layout: Layout, order: ByteOrder) -> bool {
        let xs = x_samples(payload, layout, order);
        let starts = step_starts(xs, xs.len() as int);
        &&& self.data.holds(payload, layout, order)
        &&& self.step_size == closed_step_size(starts, payload.len() as int)
        &&& self.steps == counted_steps(starts, layout.points as int)
    }
}

/// Whether the steps hold the first `n` samples, cut at the given positions.
spec fn tracks(steps: Seq<Vec<Value>>, samples: Seq<Value>, starts: Seq<int>, n: int) -> bool {
    &&& steps.len() == starts.len()
    &&& forall|k: int|
        0 <= k < steps.len() ==> (#[trigger] steps[k])@ == samples.subrange(
            starts[k],
            step_end(starts, k, n),
        )
}

/// Whether `after` is `before` with an empty step appended.
spec fn opened(before: Seq<Vec<Value>>, after: Seq<Vec<Value>>) -> bool {
    &&& after.len() == before.len() + 1
    &&& after.last()@.len() == 0
    &&& forall|k: int| 0 <= k < before.len() ==> after[k] == before[k]
}

/// Whether `after` is `before` with a sample appended to its last step.
spec fn extended(before: Seq<Vec<Value>>, after: Seq<Vec<Value>>, sample: Value) -> bool {
    &&& before.len() > 0
    &&& after.len() == before.len()
    &&& after.last()@ == before.last()@.push(sample)
    &&& forall|k: int| 0 <= k < before.len() - 1 ==> after[k] == before[k]
}

proof fn lemma_tracks_opened(
    before: Seq<Vec<Value>>,
    after: Seq<Vec<Value>>,
    samples: Seq<Value>,
    starts: Seq<int>,
    n: int,
)
    requires
        tracks(before, samples, starts, n),
        opened(before, after),
        0 <= n <= samples.len(),
    ensures
        tracks(after, samples, starts.push(n), n),
{
    let longer = starts.push(n);
    assert forall|k: int| 0 <= k < after.len() implies (#[trigger] after[k])@ == samples.subrange(
        longer[k],
        step_end(longer, k, n),
    ) by {
        if k < before.len() {
            assert(after[k] == before[k]);
            assert(step_end(longer, k, n) == step_end(starts, k, n));
        } else {
            assert(after[k]@ =~= samples.subrange(n, n));
        }
    }
}

proof fn lemma_tracks_extended(
    before: Seq<Vec<Value>>,
    after: Seq<Vec<Value>>,
    samples: Seq<Value>,
    starts: Seq<int>,
    n: int,
)
    requires
        tracks(before, samples, starts, n),
        extended(before, after, samples[n]),
        0 <= starts.last() <= n < samples.len(),
    ensures
        tracks(after, samples, starts, n + 1),
{
    assert forall|k: int| 0 <= k < after.len() implies (#[trigger] after[k])@ == samples.subrange(
        starts[k],
        step_end(starts, k, n + 1),
    ) by {
        if k < before.len() - 1 {
            assert(after[k] == before[k]);
        } else {
            assert(before[k]@ == samples.subrange(starts[k], n));
            assert(samples.subrange(starts[k], n).push(samples[n]) =~= samples.subrange(
                starts[k],
                n + 1,
            ));
        }
    }
}

/// The record of a point and each of its samples lie within the payload.
proof fn lemma_record_bounds(layout: Layout, point: int, variable: int)
    requires
        0 <= point < layout.points,
        0 <= variable <= layout.dependents,
    ensures
        layout.x_offset(point) + layout.x_type.width() == layout.y_offset(0, point),
        layout.y_offset(layout.dependents as int, point) == layout.x_offset(point + 1),
        layout.x_offset(point + 1) <= layout.length(),
        0 <= layout.x_offset(point),
        variable < layout.dependents ==> layout.y_offset(variable, point) + layout.y_type.width()
            == layout.y_offset(variable + 1, point),
        layout.y_offset(variable, point) <= layout.x_offset(point + 1),
{
    let stride = layout.stride();
    let width = layout.y_type.width();
    assert((point + 1) * stride == point * stride + stride) by (nonlinear_arith);
    assert((point + 1) * stride <= layout.points * stride) by (nonlinear_arith)
        requires
            point + 1 <= layout.points,
            0 <= stride,
    ;
    assert(0 <= point * stride) by (nonlinear_arith)
        requires
            0 <= point,
            0 <= stride,
    ;
    assert((variable + 1) * width == variable * width + width) by (nonlinear_arith);
    assert(variable * width <= layout.dependents * width) by (nonlinear_arith)
        requires
            variable <= layout.dependents,
            0 <= width,
    ;
}

/// Appends an empty step.
fn open_step(steps: &mut Vec<Vec<Value>>)
    ensures
        opened(old(steps)@, final(steps)@),
{
    steps.push(Vec::new());
}

/// Appends a sample to the last step.
fn extend_step(steps: &mut Vec<Vec<Value>>, sample: Value)
    requires
        old(steps)@.len() > 0,
    ensures
        extended(old(steps)@, final(steps)@, sample),
{
    let last = steps.len() - 1;
    steps[last].push(sample);
}

/// Appends an empty step to every variable.
fn open_steps(series: &mut Vec<Vec<Vec<Value>>>)
    ensures
        final(series)@.len() == old(series)@.len(),
        forall|j: int|
            0 <= j < old(series)@.len() ==> opened(old(series)@[j]@, #[trigger] final(series)@[j]@),
{
    let ghost before = series@;
    let mut j: usize = 0;
    while j < series.len()
        invariant
            series@.len() == before.len(),
            j <= series@.len(),
            forall|i: int| 0 <= i < j ==> opened(before[i]@, #[trigger] series@[i]@),
            forall|i: int| j <= i < before.len() ==> series@[i] == before[i],
        decreases series.len() - j,
    {
        open_step(&mut series[j]);
        j = j + 1;
    }
}

/// Decodes a payload that has the length of its layout.
fn decode_payload(payload: &[u8], layout: Layout, order: ByteOrder) -> (decoded: Decoded)
    requires
        layout.length() == payload.len(),
        layout.points <= u32::MAX,
    ensures
        decoded.yields(payload@, layout, order),
{
    let x_width = layout.x_type.byte_width();
    let y_width = layout.y_type.byte_width();
    let ghost xs = x_samples(payload@, layout, order);
    let mut x: Vec<Vec<Value>> = Vec::new();
    x.push(Vec::new());
    let mut series: Vec<Vec<Vec<Value>>> = Vec::new();
    let mut j: usize = 0;
    while j < layout.dependents
        invariant
            j <= layout.dependents,
            series@.len() == j,
            forall|i: int|
                0 <= i < j ==> (#[trigger] series@[i])@.len() == 1 && series@[i]@[0]@.len() == 0,
        decreases layout.dependents - j,
    {
        let mut steps: Vec<Vec<Value>> = Vec::new();
        steps.push(Vec::new());
        series.push(steps);
        j = j + 1;
    }
    let mut steps: u32 = 0;
    let mut step_size: u64 = payload.len() as u64;
    let mut at: usize = 0;
    let mut point: usize = 0;
    assert(x@[0]@ =~= xs.subrange(0, 0));
    assert forall|i: int| 0 <= i < layout.dependents implies tracks(
        #[trigger] series@[i]@,
        y_samples(payload@, layout, order, i),
        step_starts(xs, 0),
        0,
    ) by {
        assert(series@[i]@[0]@ =~= y_samples(payload@, layout, order, i).subrange(0, 0));
    }
    while point < layout.points
        invariant
            layout.length() == payload.len(),
            layout.points <= u32::MAX,
            x_width == layout.x_type.width(),
            y_width == layout.y_type.width(),
            xs == x_samples(payload@, layout, order),
            point <= layout.points,
            at == layout.x_offset(point as int),
            tracks(x@, xs, step_starts(xs, point as int), point as int),
            series@.len() == layout.dependents,
            forall|i: int|
                0 <= i < layout.dependents ==> tracks(
                    #[trigger] series@[i]@,
                    y_samples(payload@, layout, order, i),
                    step_starts(xs, point as int),
                    point as int,
                ),
            step_size == closed_step_size(step_starts(xs, point as int), payload.len() as int),
            steps == counted_steps(step_starts(xs, point as int), layout.points as int),
        decreases layout.points - point,
    {
        let ghost starts = step_starts(xs, point as int);
        let ghost next = step_starts(xs, point + 1);
        proof {
            lemma_record_bounds(layout, point as int, 0);
            lemma_step_starts_ordered(xs, point as int);
        }
        let sample = read_sample(payload, at, layout.x_type, order);
        assert(sample == xs[point as int]);
        let last = x.len() - 1;
        assert(x@[last as int]@ == xs.subrange(starts.last(), point as int));
        if x[last].len() > 0 && x[last][0] == sample {
            let size = x[last].len();
            assert(next == starts.push(point as int));
            step_size = size as u64;
            steps = (layout.points / size) as u32;
            let ghost before = x@;
            let ghost others = series@;
            open_step(&mut x);
            open_steps(&mut series);
            proof {
                lemma_tracks_opened(before, x@, xs, starts, point as int);
                assert forall|i: int| 0 <= i < layout.dependents implies tracks(
                    #[trigger] series@[i]@,
                    y_samples(payload@, layout, order, i),
                    next,
                    point as int,
                ) by {
                    lemma_tracks_opened(
                        others[i]@,
                        series@[i]@,
                        y_samples(payload@, layout, order, i),
                        starts,
                        point as int,
                    );
                }
            }
        } else {
            assert(next == starts);
        }
        let ghost before = x@;
        extend_step(&mut x, sample);
        proof {
            lemma_tracks_extended(before, x@, xs, next, point as int);
        }
        at = at + x_width;
        let mut variable: usize = 0;
        while variable < layout.dependents
            invariant
                layout.length() == payload.len(),
                y_width == layout.y_type.width(),
                point < layout.points,
                variable <= layout.dependents,
                at == layout.y_offset(variable as int, point as int),
                series@.len() == layout.dependents,
                next.len() >= 1,
                0 <= next.last() <= point,
                forall|i: int|
                    0 <= i < variable ==> tracks(
                        #[trigger] series@[i]@,
                        y_samples(payload@, layout, order, i),
                        next,
                        point + 1,
                    ),
                forall|i: int|
                    variable <= i < layout.dependents ==> tracks(
                        #[trigger] series@[i]@,
                        y_samples(payload@, layout, order, i),
                        next,
                        point as int,
                    ),
            decreases layout.dependents - variable,
        {
            proof {
                lemma_record_bounds(layout, point as int, variable as int);
                lemma_record_bounds(layout, point as int, variable + 1);
            }
            let sample = read_sample(payload, at, layout.y_type, order);
            let ghost samples = y_samples(payload@, layout, order, variable as int);
            assert(sample == samples[point as int]);
            let ghost before = series@[variable as int]@;
            assert(tracks(before, samples, next, point as int));
            extend_step(&mut series[variable], sample);
            proof {
                lemma_tracks_extended(
                    before,
                    series@[variable as int]@,
                    samples,
                    next,
                    point as int,
                );
            }
            at = at + y_width;
            variable = variable + 1;
        }
        proof {
            lemma_record_bounds(layout, point as int, layout.dependents as int);
        }
        point = point + 1;
    }
    let decoded = Decoded { data: Dataset { x, series }, steps, step_size };
    proof {
        let starts = step_starts(xs, xs.len() as int);
        assert(decoded.data.x_steps() =~= split_steps(xs, starts));
        assert forall|i: int| 0 <= i < layout.dependents implies #[trigger] decoded.data.y_steps(
            i,
        ) == split_steps(y_samples(payload@, layout, order, i), starts) by {
            assert(tracks(
                series@[i]@,
                y_samples(payload@, layout, order, i),
                starts,
                layout.points as int,
            ));
            assert(decoded.data.y_steps(i) =~= split_steps(
                y_samples(payload@, layout, order, i),
                starts,
            ));
        }
    }
    decoded
}

/// Decodes the payload that follows a header.
///
/// The payload is decoded if, and only if, it has the layout that the header
/// implies. The result then holds every sample of the payload: no record is
/// left out and none is made up.
pub fn decode(header: &Header, payload: &[u8], order: ByteOrder) -> (r: Result<
    Decoded,
    ParseError,
>)
    ensures
        match r {
            Ok(decoded) => layout_fits(*header, payload.len() as int) && decoded.yields(
                payload@,
                layout_of(*header),
                order,
            ),
            Err(e) => e == ParseError::LayoutMismatch && !layout_fits(
                *header,
                payload.len() as int,
            ),
        },
{
    let layout = plan_layout(header, payload.len())?;
    Ok(decode_payload(payload, layout, order))
}

} // verus!
