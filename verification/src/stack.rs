//! Context stacking ("low frame rate" windowing): regroup a sequence of
//! `T` frames of width `H` into `ceil(T/n)` wider frames of width `H*m`,
//! output frame `i` being the concatenation of the `m` source frames at
//! indices `i*n - (m-1)/2 + j` for `j` in `0..m`, each index clamped to
//! `[0, T-1]`.

use vstd::prelude::*;

use crate::errors::FrameDim;
use crate::errors::StackParam;
use crate::errors::TransformError;

verus! {

/// The sequence of rows a frame buffer holds, each row as a sequence.
pub open spec fn rows_view<T>(v: Seq<Vec<T>>) -> Seq<Seq<T>> {
    Seq::new(v.len(), |i: int| v[i]@)
}

/// How many of the `m` window slots sit at or before the window center:
/// the window for output frame `i` starts `repeat_count(m)` frames to the
/// left of source frame `i*n`.
pub open spec fn repeat_count(m: int) -> int {
    (m - 1) / 2
}

/// Saturate a source index to the valid range `[0, t-1]`.
pub open spec fn clamp_index(x: int, t: int) -> int {
    if x < 0 {
        0
    } else if x >= t {
        t - 1
    } else {
        x
    }
}

/// The source frame copied into window slot `j` of output frame `i`.
pub open spec fn source_index(i: int, j: int, m: int, n: int, t: int) -> int {
    clamp_index(i * n - repeat_count(m) + j, t)
}

/// The number of output frames: `t/n` rounded up.
pub open spec fn out_frame_count(t: int, n: int) -> int {
    t / n + if t % n == 0 {
        0int
    } else {
        1int
    }
}

/// A well-formed unbatched frame buffer: at least one frame, a positive
/// frame width, and every frame of the same width.
pub open spec fn frames_wf<T>(frames: Seq<Seq<T>>) -> bool {
    &&& frames.len() > 0
    &&& frames[0].len() > 0
    &&& forall|i: int| 0 <= i < frames.len() ==> #[trigger] frames[i].len() == frames[0].len()
}

/// Output frame `i` of the stacking transform: the concatenation of the
/// `m` clamped source frames of its window.
pub open spec fn stacked_row<T>(frames: Seq<Seq<T>>, m: int, n: int, i: int) -> Seq<T> {
    let h = frames[0].len() as int;
    Seq::new(
        (m * h) as nat,
        |p: int| frames[source_index(i, p / h, m, n, frames.len() as int)][p % h],
    )
}

/// The full stacking transform on well-formed input.
pub open spec fn stack_spec<T>(frames: Seq<Seq<T>>, m: int, n: int) -> Seq<Seq<T>> {
    Seq::new(
        out_frame_count(frames.len() as int, n) as nat,
        |i: int| stacked_row(frames, m, n, i),
    )
}

/// The per-element views of a batched frame buffer.
pub open spec fn batch_view<T>(v: Seq<Vec<Vec<T>>>) -> Seq<Seq<Seq<T>>> {
    Seq::new(v.len(), |b: int| rows_view(v[b]@))
}

/// Every batch element has the frame count of the first, and that count is
/// positive.
pub open spec fn batch_times_ok<T>(batches: Seq<Seq<Seq<T>>>) -> bool {
    &&& batches[0].len() > 0
    &&& forall|b: int| 0 <= b < batches.len() ==> (#[trigger] batches[b]).len() == batches[0].len()
}

/// Every frame of every batch element has the width of the first frame of
/// the first element, and that width is positive.
pub open spec fn batch_hiddens_ok<T>(batches: Seq<Seq<Seq<T>>>) -> bool {
    &&& batches[0][0].len() > 0
    &&& forall|b: int, r: int|
        0 <= b < batches.len() && 0 <= r < batches[b].len() ==> (#[trigger] batches[b][r]).len()
            == batches[0][0].len()
}

/// The window slot index, computed without ever leaving `usize`:
/// equals `base - rt + j` clamped to `[0, t-1]`.
fn clamped_source_index(base: usize, rt: usize, j: usize, t: usize) -> (idx: usize)
    requires
        1 <= t,
        base < t,
    ensures
        idx == clamp_index(base as int - rt as int + j as int, t as int),
{
    if base >= rt {
        let start: usize = base - rt;
        if j >= t - 1 - start {
            t - 1
        } else {
            start + j
        }
    } else {
        let lead: usize = rt - base;
        if j < lead {
            0
        } else {
            let offset: usize = j - lead;
            if offset >= t - 1 {
                t - 1
            } else {
                offset
            }
        }
    }
}

/// Context stacking of a validated buffer.
#[verifier::loop_isolation(false)]
fn stack_frames<T: Copy>(frames: &Vec<Vec<T>>, m: usize, n: usize) -> (out: Vec<Vec<T>>)
    requires
        m >= 1,
        n >= 1,
        frames_wf(rows_view(frames@)),
    ensures
        rows_view(out@) == stack_spec(rows_view(frames@), m as int, n as int),
{
    let ghost fv = rows_view(frames@);
    let t: usize = frames.len();
    let h: usize = frames[0].len();
    let rt: usize = (m - 1) / 2;
    let quot: usize = t / n;
    let rem: usize = t % n;
    proof {
        lemma_out_count_bounds(t as int, n as int);
    }
    let n_out: usize = if rem == 0 {
        quot
    } else {
        quot + 1
    };
    let mut out: Vec<Vec<T>> = Vec::new();
    for i in 0..n_out
        invariant
            out@.len() == i,
            forall|i2: int|
                0 <= i2 < i ==> rows_view(out@)[i2] == stacked_row(fv, m as int, n as int, i2),
    {
        proof {
            lemma_mul_bound(i as int, n_out as int - 1, n as int);
        }
        let base: usize = i * n;
        let mut row: Vec<T> = Vec::new();
        proof {
            assert(0 * h == 0);
        }
        for j in 0..m
            invariant
                base < t,
                row@.len() == j * h,
                forall|p: int|
                    0 <= p < row@.len() ==> row@[p] == fv[source_index(
                        i as int,
                        p / h as int,
                        m as int,
                        n as int,
                        t as int,
                    )][p % h as int],
        {
            let idx: usize = clamped_source_index(base, rt, j, t);
            assert(fv[idx as int] == frames@[idx as int]@);
            assert(frames@[idx as int]@.len() == h);
            for k in 0..h
                invariant
                    idx == source_index(i as int, j as int, m as int, n as int, t as int),
                    row@.len() == j * h + k,
                    forall|p: int|
                        0 <= p < row@.len() ==> row@[p] == fv[source_index(
                            i as int,
                            p / h as int,
                            m as int,
                            n as int,
                            t as int,
                        )][p % h as int],
            {
                row.push(frames[idx][k]);
                proof {
                    vstd::arithmetic::div_mod::lemma_fundamental_div_mod_converse(
                        j * h + k,
                        h as int,
                        j as int,
                        k as int,
                    );
                }
            }
            proof {
                assert((j + 1) * h == j * h + h) by {
                    vstd::arithmetic::mul::lemma_mul_is_distributive_add_other_way(
                        h as int,
                        j as int,
                        1,
                    );
                }
            }
        }
        proof {
            assert(row@.len() == m * h);
            assert(row@ =~= stacked_row(fv, m as int, n as int, i as int));
        }
        out.push(row);
    }
    proof {
        assert(rows_view(out@) =~~= stack_spec(fv, m as int, n as int));
    }
    out
}

/// `i <= bound` and `n >= 1` give `i * n <= bound * n`.
proof fn lemma_mul_bound(i: int, bound: int, n: int)
    requires
        0 <= i <= bound,
        n >= 1,
    ensures
        i * n <= bound * n,
{
    vstd::arithmetic::mul::lemma_mul_inequality(i, bound, n);
}

/// Bounds that pin `out_frame_count` as the rounded-up quotient: it is the
/// least count whose windows cover all `t` frames, and it agrees with the
/// closed form `(t + n - 1) / n`.
pub proof fn lemma_out_count_bounds(t: int, n: int)
    requires
        t >= 1,
        n >= 1,
    ensures
        out_frame_count(t, n) >= 1,
        out_frame_count(t, n) <= t,
        (out_frame_count(t, n) - 1) * n < t,
        t <= out_frame_count(t, n) * n,
        out_frame_count(t, n) == (t + n - 1) / n,
{
    vstd::arithmetic::div_mod::lemma_fundamental_div_mod(t, n);
    vstd::arithmetic::div_mod::lemma_mod_bound(t, n);
    let q = t / n;
    let r = t % n;
    assert(t == q * n + r) by {
        vstd::arithmetic::mul::lemma_mul_is_commutative(n, q);
    }
    assert(q >= 0) by {
        vstd::arithmetic::div_mod::lemma_div_is_ordered(0, t, n);
    }
    if r == 0 {
        assert(q >= 1) by {
            if q == 0 {
                assert(t == 0);
            }
        }
        assert(q <= t) by {
            vstd::arithmetic::div_mod::lemma_div_nonincreasing(t, n);
        }
        assert((q - 1) * n == q * n - n) by {
            vstd::arithmetic::mul::lemma_mul_is_distributive_sub_other_way(n, q, 1);
        }
        assert(out_frame_count(t, n) == (t + n - 1) / n) by {
            vstd::arithmetic::div_mod::lemma_fundamental_div_mod_converse(t + n - 1, n, q, n - 1);
        }
    } else {
        assert(n >= 2) by {
            if n == 1 {
                assert(t % 1int == 0);
            }
        }
        assert(q + 1 <= t) by {
            vstd::arithmetic::div_mod::lemma_div_decreases(t, n);
        }
        assert((q + 1) * n == q * n + n) by {
            vstd::arithmetic::mul::lemma_mul_is_distributive_add_other_way(n, q, 1);
        }
        assert(out_frame_count(t, n) == (t + n - 1) / n) by {
            vstd::arithmetic::div_mod::lemma_fundamental_div_mod_converse(
                t + n - 1,
                n,
                q + 1,
                r - 1,
            );
        }
    }
}

/// Shape law: on a well-formed buffer of `T` frames of width `H`, stacking
/// with parameters `m` and `n` yields exactly `(T + n - 1) / n` output
/// frames (`T/n` rounded up), each of width `H * m`.
pub proof fn lemma_stack_shape<T>(frames: Seq<Seq<T>>, m: int, n: int)
    requires
        frames_wf(frames),
        m >= 1,
        n >= 1,
    ensures
        stack_spec(frames, m, n).len() == (frames.len() + n - 1) / n,
        forall|i: int|
            0 <= i < stack_spec(frames, m, n).len() ==> (#[trigger] stack_spec(frames, m, n)[i]).len()
                == m * frames[0].len(),
{
    lemma_out_count_bounds(frames.len() as int, n);
}

/// Identity law: stacking with a window of one frame and a stride of one
/// returns the input unchanged.
pub proof fn lemma_stack_identity<T>(frames: Seq<Seq<T>>)
    requires
        frames_wf(frames),
    ensures
        stack_spec(frames, 1, 1) == frames,
{
    let t = frames.len() as int;
    let h = frames[0].len() as int;
    assert(out_frame_count(t, 1) == t);
    assert forall|i: int| 0 <= i < t implies stacked_row(frames, 1, 1, i) == frames[i] by {
        assert forall|p: int| 0 <= p < h implies stacked_row(frames, 1, 1, i)[p] == frames[i][p] by {
            vstd::arithmetic::div_mod::lemma_basic_div(p, h);
            vstd::arithmetic::div_mod::lemma_small_mod(p as nat, h as nat);
            assert(source_index(i, 0, 1, 1, t) == i);
        }
        assert(stacked_row(frames, 1, 1, i) =~= frames[i]);
    }
    assert(stack_spec(frames, 1, 1) =~~= frames);
}

/// Clamp law: window slot `j` of output frame `i` is a copy of the source
/// frame at index `i*n - (m-1)/2 + j`, saturated to `[0, T-1]`.
pub proof fn lemma_stack_clamp<T>(frames: Seq<Seq<T>>, m: int, n: int, i: int, j: int)
    requires
        frames_wf(frames),
        m >= 1,
        n >= 1,
        0 <= i < stack_spec(frames, m, n).len(),
        0 <= j < m,
    ensures
        stack_spec(frames, m, n)[i].subrange(
            j * frames[0].len(),
            (j + 1) * frames[0].len(),
        ) == frames[clamp_index(i * n - (m - 1) / 2 + j, frames.len() as int)],
{
    let h = frames[0].len() as int;
    let t = frames.len() as int;
    let row = stacked_row(frames, m, n, i);
    assert(0 <= j * h) by {
        vstd::arithmetic::mul::lemma_mul_nonnegative(j, h);
    }
    assert((j + 1) * h <= m * h) by {
        vstd::arithmetic::mul::lemma_mul_inequality(j + 1, m, h);
    }
    assert((j + 1) * h == j * h + h) by {
        vstd::arithmetic::mul::lemma_mul_is_distributive_add_other_way(h, j, 1);
    }
    let src = frames[source_index(i, j, m, n, t)];
    assert forall|p: int| 0 <= p < h implies row[j * h + p] == src[p] by {
        vstd::arithmetic::div_mod::lemma_fundamental_div_mod_converse(j * h + p, h, j, p);
    }
    assert(row.subrange(j * h, (j + 1) * h) =~= src);
}

/// Context stacking of an unbatched buffer of frames.
///
/// On a well-formed buffer (some frames, uniform positive width) and
/// positive parameters, returns the freshly allocated stacked buffer:
/// `ceil(T/n)` output frames, output frame `i` the concatenation of the
/// `m` source frames at the clamped window indices. Otherwise returns the
/// error naming the offending parameter or dimension.
#[verifier::loop_isolation(false)]
pub fn context_stack<T: Copy>(frames: &Vec<Vec<T>>, m: usize, n: usize) -> (r: Result<
    Vec<Vec<T>>,
    TransformError,
>)
    ensures
        m == 0 ==> r == Err::<Vec<Vec<T>>, TransformError>(
            TransformError::InvalidParameter(StackParam::ContextWidth),
        ),
        m >= 1 && n == 0 ==> r == Err::<Vec<Vec<T>>, TransformError>(
            TransformError::InvalidParameter(StackParam::Stride),
        ),
        m >= 1 && n >= 1 && frames@.len() == 0 ==> r == Err::<Vec<Vec<T>>, TransformError>(
            TransformError::InvalidShape(FrameDim::Time),
        ),
        m >= 1 && n >= 1 && frames@.len() > 0 && !frames_wf(rows_view(frames@)) ==> r == Err::<
            Vec<Vec<T>>,
            TransformError,
        >(TransformError::InvalidShape(FrameDim::Hidden)),
        m >= 1 && n >= 1 && frames_wf(rows_view(frames@)) ==> (r matches Ok(out) && rows_view(out@)
            == stack_spec(rows_view(frames@), m as int, n as int)),
{
    if m == 0 {
        return Err(TransformError::InvalidParameter(StackParam::ContextWidth));
    }
    if n == 0 {
        return Err(TransformError::InvalidParameter(StackParam::Stride));
    }
    if frames.len() == 0 {
        return Err(TransformError::InvalidShape(FrameDim::Time));
    }
    let h: usize = frames[0].len();
    if h == 0 {
        return Err(TransformError::InvalidShape(FrameDim::Hidden));
    }
    for i in 0..frames.len()
        invariant
            forall|i2: int| 0 <= i2 < i ==> #[trigger] frames@[i2]@.len() == h,
    {
        if frames[i].len() != h {
            assert(rows_view(frames@)[i as int].len() != rows_view(frames@)[0].len());
            return Err(TransformError::InvalidShape(FrameDim::Hidden));
        }
    }
    assert(frames_wf(rows_view(frames@)));
    Ok(stack_frames(frames, m, n))
}

/// Context stacking of a batched buffer: one leading batch dimension, and
/// every batch element stacked independently with the same parameters.
///
/// On a well-formed batched buffer (some elements, one shared frame count
/// and frame width, both positive) and positive parameters, returns the
/// freshly allocated buffer whose element `b` is the stacked element `b`
/// of the input. Otherwise returns the error naming the offending
/// parameter or dimension.
#[verifier::loop_isolation(false)]
pub fn low_frame_rate<T: Copy>(batches: &Vec<Vec<Vec<T>>>, m: usize, n: usize) -> (r: Result<
    Vec<Vec<Vec<T>>>,
    TransformError,
>)
    ensures
        m == 0 ==> r == Err::<Vec<Vec<Vec<T>>>, TransformError>(
            TransformError::InvalidParameter(StackParam::ContextWidth),
        ),
        m >= 1 && n == 0 ==> r == Err::<Vec<Vec<Vec<T>>>, TransformError>(
            TransformError::InvalidParameter(StackParam::Stride),
        ),
        m >= 1 && n >= 1 && batches@.len() == 0 ==> r == Err::<Vec<Vec<Vec<T>>>, TransformError>(
            TransformError::InvalidShape(FrameDim::Batch),
        ),
        m >= 1 && n >= 1 && batches@.len() > 0 && !batch_times_ok(batch_view(batches@)) ==> r
            == Err::<Vec<Vec<Vec<T>>>, TransformError>(TransformError::InvalidShape(FrameDim::Time)),
        m >= 1 && n >= 1 && batches@.len() > 0 && batch_times_ok(batch_view(batches@))
            && !batch_hiddens_ok(batch_view(batches@)) ==> r == Err::<
            Vec<Vec<Vec<T>>>,
            TransformError,
        >(TransformError::InvalidShape(FrameDim::Hidden)),
        m >= 1 && n >= 1 && batches@.len() > 0 && batch_times_ok(batch_view(batches@))
            && batch_hiddens_ok(batch_view(batches@)) ==> (r matches Ok(out) && out@.len()
            == batches@.len() && forall|b: int|
            0 <= b < out@.len() ==> rows_view(#[trigger] out@[b]@) == stack_spec(
                rows_view(batches@[b]@),
                m as int,
                n as int,
            )),
{
    if m == 0 {
        return Err(TransformError::InvalidParameter(StackParam::ContextWidth));
    }
    if n == 0 {
        return Err(TransformError::InvalidParameter(StackParam::Stride));
    }
    if batches.len() == 0 {
        return Err(TransformError::InvalidShape(FrameDim::Batch));
    }
    let ghost bv = batch_view(batches@);
    assert(forall|b: int| 0 <= b < bv.len() ==> #[trigger] bv[b] == rows_view(batches@[b]@));
    let t: usize = batches[0].len();
    if t == 0 {
        return Err(TransformError::InvalidShape(FrameDim::Time));
    }
    for b in 0..batches.len()
        invariant
            forall|b2: int| 0 <= b2 < b ==> #[trigger] batches@[b2]@.len() == t,
    {
        if batches[b].len() != t {
            assert(bv[b as int].len() != bv[0].len());
            return Err(TransformError::InvalidShape(FrameDim::Time));
        }
    }
    assert(batch_times_ok(bv));
    let h: usize = batches[0][0].len();
    if h == 0 {
        return Err(TransformError::InvalidShape(FrameDim::Hidden));
    }
    for b in 0..batches.len()
        invariant
            forall|b2: int, r2: int|
                0 <= b2 < b && 0 <= r2 < batches@[b2]@.len() ==> (
                #[trigger] batches@[b2]@[r2]@).len() == h,
    {
        for row in 0..t
            invariant
                batches@[b as int]@.len() == t,
                forall|b2: int, r2: int|
                    0 <= b2 < b && 0 <= r2 < batches@[b2]@.len() ==> (
                    #[trigger] batches@[b2]@[r2]@).len() == h,
                forall|r2: int|
                    0 <= r2 < row ==> (#[trigger] batches@[b as int]@[r2]@).len() == h,
        {
            if batches[b][row].len() != h {
                assert(bv[b as int][row as int].len() != bv[0][0].len());
                return Err(TransformError::InvalidShape(FrameDim::Hidden));
            }
        }
    }
    assert(batch_hiddens_ok(bv));
    let mut out: Vec<Vec<Vec<T>>> = Vec::new();
    for b in 0..batches.len()
        invariant
            out@.len() == b,
            forall|b2: int|
                0 <= b2 < b ==> rows_view(#[trigger] out@[b2]@) == stack_spec(
                    rows_view(batches@[b2]@),
                    m as int,
                    n as int,
                ),
    {
        assert(frames_wf(rows_view(batches@[b as int]@))) by {
            assert(bv[b as int].len() == t);
            assert(forall|r2: int|
                0 <= r2 < bv[b as int].len() ==> (#[trigger] bv[b as int][r2]).len() == h);
        }
        let stacked: Vec<Vec<T>> = stack_frames(&batches[b], m, n);
        out.push(stacked);
    }
    Ok(out)
}

} // verus!
