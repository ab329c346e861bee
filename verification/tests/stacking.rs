use frame_ops::errors::FrameDim;
use frame_ops::errors::StackParam;
use frame_ops::errors::TransformError;
use frame_ops::stack::context_stack;
use frame_ops::stack::low_frame_rate;

/// One frame per value, each frame the value repeated `h` times.
fn frames_of(values: &[f64], h: usize) -> Vec<Vec<f64>> {
    values.iter().map(|&v| vec![v; h]).collect()
}

fn clamp(x: i64, t: usize) -> usize {
    if x < 0 {
        0
    } else if x >= t as i64 {
        t - 1
    } else {
        x as usize
    }
}

#[test]
fn scenario_five_frames_window_three_stride_two() {
    let frames = frames_of(&[0.0, 1.0, 2.0, 3.0, 4.0], 2);
    let out = context_stack(&frames, 3, 2).unwrap();
    assert_eq!(out.len(), 3);
    assert_eq!(out[0], vec![0.0, 0.0, 0.0, 0.0, 1.0, 1.0]);
    assert_eq!(out[1], vec![1.0, 1.0, 2.0, 2.0, 3.0, 3.0]);
    assert_eq!(out[2], vec![3.0, 3.0, 4.0, 4.0, 4.0, 4.0]);
}

#[test]
fn scenario_single_frame_identity() {
    let frames = vec![vec![7.5f64]];
    let out = context_stack(&frames, 1, 1).unwrap();
    assert_eq!(out, frames);
}

#[test]
fn identity_window_one_stride_one() {
    let frames = frames_of(&[4.0, -1.0, 0.5, 2.25], 3);
    let out = context_stack(&frames, 1, 1).unwrap();
    assert_eq!(out, frames);
}

#[test]
fn shape_law_sampled() {
    for &t in &[1usize, 2, 3, 5, 8] {
        for &h in &[1usize, 2, 4] {
            for &m in &[1usize, 2, 3, 4, 7] {
                for &n in &[1usize, 2, 3, 5] {
                    let values: Vec<f64> = (0..t).map(|v| v as f64).collect();
                    let frames = frames_of(&values, h);
                    let out = context_stack(&frames, m, n).unwrap();
                    assert_eq!(out.len(), t.div_ceil(n), "t={t} h={h} m={m} n={n}");
                    for row in &out {
                        assert_eq!(row.len(), h * m, "t={t} h={h} m={m} n={n}");
                    }
                }
            }
        }
    }
}

#[test]
fn clamp_law_sampled() {
    for &t in &[1usize, 3, 6] {
        for &m in &[1usize, 2, 3, 5, 8] {
            for &n in &[1usize, 2, 4] {
                let h = 2usize;
                let values: Vec<f64> = (0..t).map(|v| v as f64 * 1.5 - 2.0).collect();
                let frames = frames_of(&values, h);
                let out = context_stack(&frames, m, n).unwrap();
                let rt = (m - 1) / 2;
                for (i, row) in out.iter().enumerate() {
                    for j in 0..m {
                        let idx = clamp((i * n + j) as i64 - rt as i64, t);
                        assert_eq!(
                            &row[j * h..(j + 1) * h],
                            &frames[idx][..],
                            "t={t} m={m} n={n} i={i} j={j}"
                        );
                    }
                }
            }
        }
    }
}

#[test]
fn even_window_boundaries() {
    // m = 4: repeat_times = 1, so the window of output frame i covers
    // source indices i*n - 1 .. i*n + 2, clamped.
    let frames = frames_of(&[0.0, 1.0, 2.0], 1);
    let out = context_stack(&frames, 4, 1).unwrap();
    assert_eq!(out.len(), 3);
    assert_eq!(out[0], vec![0.0, 0.0, 1.0, 2.0]);
    assert_eq!(out[1], vec![0.0, 1.0, 2.0, 2.0]);
    assert_eq!(out[2], vec![1.0, 2.0, 2.0, 2.0]);
}

#[test]
fn window_wider_than_input() {
    // The whole window clamps onto the two existing frames.
    let frames = frames_of(&[1.0, 2.0], 1);
    let out = context_stack(&frames, 6, 3).unwrap();
    // ceil(2/3) = 1 output frame; repeat_times = 2; window indices
    // -2..4 clamp to [0,0,0,1,1,1].
    assert_eq!(out, vec![vec![1.0, 1.0, 1.0, 2.0, 2.0, 2.0]]);
}

#[test]
fn integer_elements_stack() {
    let frames: Vec<Vec<u32>> = vec![vec![10, 20], vec![30, 40]];
    let out = context_stack(&frames, 2, 1).unwrap();
    assert_eq!(out, vec![vec![10, 20, 30, 40], vec![30, 40, 30, 40]]);
}

#[test]
fn zero_context_width_rejected() {
    let frames = frames_of(&[1.0], 1);
    assert_eq!(
        context_stack(&frames, 0, 1),
        Err(TransformError::InvalidParameter(StackParam::ContextWidth))
    );
}

#[test]
fn zero_stride_rejected() {
    let frames = frames_of(&[1.0], 1);
    assert_eq!(
        context_stack(&frames, 3, 0),
        Err(TransformError::InvalidParameter(StackParam::Stride))
    );
}

#[test]
fn empty_buffer_rejected() {
    let frames: Vec<Vec<f64>> = Vec::new();
    assert_eq!(
        context_stack(&frames, 1, 1),
        Err(TransformError::InvalidShape(FrameDim::Time))
    );
}

#[test]
fn zero_width_frame_rejected() {
    let frames: Vec<Vec<f64>> = vec![Vec::new()];
    assert_eq!(
        context_stack(&frames, 1, 1),
        Err(TransformError::InvalidShape(FrameDim::Hidden))
    );
}

#[test]
fn ragged_rows_rejected() {
    let frames: Vec<Vec<f64>> = vec![vec![1.0, 2.0], vec![3.0]];
    assert_eq!(
        context_stack(&frames, 1, 1),
        Err(TransformError::InvalidShape(FrameDim::Hidden))
    );
}

#[test]
fn batched_matches_unbatched() {
    let first = frames_of(&[0.0, 1.0, 2.0, 3.0, 4.0], 2);
    let second = frames_of(&[5.0, 4.0, 3.0, 2.0, 1.0], 2);
    let batches = vec![first.clone(), second.clone()];
    let out = low_frame_rate(&batches, 3, 2).unwrap();
    assert_eq!(out.len(), 2);
    assert_eq!(out[0], context_stack(&first, 3, 2).unwrap());
    assert_eq!(out[1], context_stack(&second, 3, 2).unwrap());
}

#[test]
fn batched_single_precision() {
    let frames: Vec<Vec<f32>> = vec![
        vec![0.0, 0.0],
        vec![1.0, 1.0],
        vec![2.0, 2.0],
        vec![3.0, 3.0],
        vec![4.0, 4.0],
    ];
    let out = low_frame_rate(&vec![frames], 3, 2).unwrap();
    assert_eq!(out[0][0], vec![0.0f32, 0.0, 0.0, 0.0, 1.0, 1.0]);
    assert_eq!(out[0][1], vec![1.0f32, 1.0, 2.0, 2.0, 3.0, 3.0]);
    assert_eq!(out[0][2], vec![3.0f32, 3.0, 4.0, 4.0, 4.0, 4.0]);
}

#[test]
fn empty_batch_rejected() {
    let batches: Vec<Vec<Vec<f64>>> = Vec::new();
    assert_eq!(
        low_frame_rate(&batches, 1, 1),
        Err(TransformError::InvalidShape(FrameDim::Batch))
    );
}

#[test]
fn batched_zero_parameters_rejected() {
    let batches = vec![frames_of(&[1.0], 1)];
    assert_eq!(
        low_frame_rate(&batches, 0, 1),
        Err(TransformError::InvalidParameter(StackParam::ContextWidth))
    );
    assert_eq!(
        low_frame_rate(&batches, 1, 0),
        Err(TransformError::InvalidParameter(StackParam::Stride))
    );
}

#[test]
fn batched_mismatched_frame_counts_rejected() {
    let batches = vec![frames_of(&[1.0, 2.0], 1), frames_of(&[1.0], 1)];
    assert_eq!(
        low_frame_rate(&batches, 1, 1),
        Err(TransformError::InvalidShape(FrameDim::Time))
    );
}

#[test]
fn batched_mismatched_widths_rejected() {
    let batches = vec![frames_of(&[1.0, 2.0], 2), frames_of(&[1.0, 2.0], 3)];
    assert_eq!(
        low_frame_rate(&batches, 1, 1),
        Err(TransformError::InvalidShape(FrameDim::Hidden))
    );
}

#[test]
fn stacking_leaves_input_unchanged() {
    let frames = frames_of(&[1.0, 2.0, 3.0], 2);
    let copy = frames.clone();
    let _ = context_stack(&frames, 3, 2).unwrap();
    assert_eq!(frames, copy);
}
