//! Row-wise scaffolding of the per-frame energy statistic: shape
//! validation and the one-statistic-per-frame map, with the numeric
//! statistic itself supplied by the caller.

use vstd::prelude::*;

use crate::errors::FrameDim;
use crate::errors::TransformError;
use crate::stack::rows_view;

verus! {

/// A frame buffer the energy meter accepts: every frame of the same
/// positive width. An empty buffer is accepted and yields an empty result.
pub open spec fn energy_frames_wf<T>(frames: Seq<Seq<T>>) -> bool {
    frames.len() == 0 || (frames[0].len() > 0 && forall|i: int|
        0 <= i < frames.len() ==> #[trigger] frames[i].len() == frames[0].len())
}

/// One statistic per frame, row `i` of the output computed from row `i` of
/// the input alone by the supplied statistic.
///
/// On a well-formed buffer returns one output value per frame, each a
/// result the statistic admits for its own row; otherwise the shape error.
#[verifier::loop_isolation(false)]
pub fn compute_decibel<T: Copy, F: Fn(&Vec<T>) -> T>(frames: &Vec<Vec<T>>, row_stat: F) -> (r:
    Result<Vec<T>, TransformError>)
    requires
        forall|i: int|
            0 <= i < frames@.len() ==> call_requires(row_stat, (&frames[i],)),
    ensures
        !energy_frames_wf(rows_view(frames@)) ==> r == Err::<Vec<T>, TransformError>(
            TransformError::InvalidShape(FrameDim::Hidden),
        ),
        energy_frames_wf(rows_view(frames@)) ==> (r matches Ok(out) && out@.len()
            == frames@.len() && forall|i: int|
            0 <= i < frames@.len() ==> call_ensures(row_stat, (&frames[i],), #[trigger] out@[i])),
{
    if frames.len() == 0 {
        return Ok(Vec::new());
    }
    let h: usize = frames[0].len();
    if h == 0 {
        return Err(TransformError::InvalidShape(FrameDim::Hidden));
    }
    for i in 0..frames.len()
        invariant
            forall|i2: int| 0 <= i2 < i ==> #[trigger] frames@[i2]@.len() == h,
    {
        if frames[i].len() != h {
            assert(rows_view(frames@)[i as int].len() != rows_view(frames@)[0].len());
            return Err(TransformError::InvalidShape(FrameDim::Hidden));
        }
    }
    assert(energy_frames_wf(rows_view(frames@)));
    let mut out: Vec<T> = Vec::new();
    let mut i: usize = 0;
    while i < frames.len()
        invariant
            i <= frames.len(),
            out@.len() == i,
            forall|i2: int|
                0 <= i2 < i ==> call_ensures(row_stat, (&frames[i2],), #[trigger] out@[i2]),
        decreases frames.len() - i,
    {
        out.push(row_stat(&frames[i]));
        i += 1;
    }
    Ok(out)
}

} // verus!
