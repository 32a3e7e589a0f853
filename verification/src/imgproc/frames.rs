//! The animation pipeline: resize each decoded frame to the output's
//! dimensions and encode each as a diff against its predecessor, so
//! replaying the sequence from the first full frame reproduces every
//! frame exactly while unchanged regions cost almost nothing.
use vstd::prelude::*;
use crate::cli::Filter;
use crate::cli::ResizeStrategy;
use crate::codec;
use crate::imgproc::RawImg;
use crate::imgproc::resize::ResizeOperation;
use crate::imgproc::resize::strategy_ok;
use crate::imgproc::resize::strategy_req;

verus! {

/// One decoded animation frame and how long it is shown.
pub struct Frame {
    pub img: RawImg,
    pub duration_ms: u64,
}

/// One compressed animation step: the diff from the previous frame's
/// buffer, and how long the frame is shown.
pub struct PackedFrame {
    pub diff: Vec<u8>,
    pub duration_ms: u64,
}

/// The resize operation an animation runs on every frame.
pub open spec fn anim_op(
    resize: ResizeStrategy,
    filter: Filter,
    color: [u8; 3],
    dim: (u32, u32),
) -> ResizeOperation {
    match resize {
        ResizeStrategy::No => ResizeOperation::Pad { dimensions: dim, color },
        ResizeStrategy::Crop => ResizeOperation::ResizeCrop { dimensions: dim, filter },
        ResizeStrategy::Fit => ResizeOperation::ResizeFit {
            dimensions: dim,
            filter,
            padding_color: color,
        },
    }
}

/// Resize every frame to `dim` and encode the sequence of diffs: the
/// first frame is diffed against itself (an empty, no-op diff), every
/// later frame against its immediate predecessor, each paired with its
/// display duration.  Replaying the diffs in order onto the first
/// frame's full buffer reproduces every resized frame exactly.
#[verifier::rlimit(100)]
pub fn compress_frames(
    frames: Vec<Frame>,
    dim: (u32, u32),
    filter: Filter,
    resize: ResizeStrategy,
    color: &[u8; 3],
) -> (r: Result<Vec<PackedFrame>, String>)
    requires
        forall|i: int| 0 <= i < frames@.len() ==> (#[trigger] frames@[i].img).wf(),
        4 * (dim.0 as int) * (dim.1 as int) <= usize::MAX,
    ensures
        (r is Ok) == (frames@.len() > 0 && (forall|i: int|
            0 <= i < frames@.len() ==> strategy_req(
                resize,
                (#[trigger] frames@[i].img).width as int,
                frames@[i].img.height as int,
                dim.0 as int,
                dim.1 as int,
            ))),
        r matches Ok(v) ==> {
            let op = anim_op(resize, filter, *color, dim);
            &&& v@.len() == frames@.len()
            &&& forall|i: int|
                0 <= i < v@.len() ==> (#[trigger] v@[i]).duration_ms == frames@[i].duration_ms
            &&& codec::diff_apply(v@[0].diff@, op.result_spec(frames@[0].img)) == op.result_spec(
                frames@[0].img,
            )
            &&& forall|i: int|
                0 <= i < v@.len() ==> codec::diff_wf(
                    (#[trigger] v@[i]).diff@,
                    op.result_spec(frames@[0].img).len() as int,
                )
            &&& forall|i: int|
                1 <= i < v@.len() ==> codec::diff_apply(
                    (#[trigger] v@[i]).diff@,
                    op.result_spec(frames@[i - 1].img),
                ) == op.result_spec(frames@[i].img)
        },
{
    let n = frames.len();
    if n == 0 {
        return Err(String::from_str("the animation has no frames"));
    }
    let mut i: usize = 0;
    while i < n
        invariant
            i <= n,
            n == frames@.len(),
            4 * (dim.0 as int) * (dim.1 as int) <= usize::MAX,
            forall|q: int| 0 <= q < n ==> (#[trigger] frames@[q].img).wf(),
            forall|q: int|
                0 <= q < i ==> strategy_req(
                    resize,
                    (#[trigger] frames@[q].img).width as int,
                    frames@[q].img.height as int,
                    dim.0 as int,
                    dim.1 as int,
                ),
        decreases n - i,
    {
        let ok = strategy_ok(
            resize,
            frames[i].img.width,
            frames[i].img.height,
            dim.0,
            dim.1,
        );
        if !ok {
            return Err(
                String::from_str("failed to resize an animation frame to the output's dimensions"),
            );
        }
        i = i + 1;
    }
    let op = match resize {
        ResizeStrategy::No => ResizeOperation::Pad { dimensions: dim, color: *color },
        ResizeStrategy::Crop => ResizeOperation::ResizeCrop { dimensions: dim, filter },
        ResizeStrategy::Fit => ResizeOperation::ResizeFit {
            dimensions: dim,
            filter,
            padding_color: *color,
        },
    };
    proof {
        assert(op == anim_op(resize, filter, *color, dim));
    }
    let copy0 = frames[0].img.duplicate();
    let ghost copy0v = copy0;
    let first = match op.resize(copy0) {
        Ok(v) => v,
        Err(_) => unreached(),
    };
    proof {
        crate::imgproc::resize::lemma_result_len(op, copy0v);
        crate::imgproc::resize::lemma_result_spec_views(op, copy0v, frames@[0].img);
    }
    let mut out: Vec<PackedFrame> = Vec::new();
    let d0 = codec::encode(&first, &first);
    out.push(PackedFrame { diff: d0, duration_ms: frames[0].duration_ms });
    let mut prev = first;
    let mut k: usize = 1;
    while k < n
        invariant
            1 <= k <= n,
            n == frames@.len(),
            4 * (dim.0 as int) * (dim.1 as int) <= usize::MAX,
            op == anim_op(resize, filter, *color, dim),
            forall|q: int| 0 <= q < n ==> (#[trigger] frames@[q].img).wf(),
            forall|q: int|
                0 <= q < n ==> strategy_req(
                    resize,
                    (#[trigger] frames@[q].img).width as int,
                    frames@[q].img.height as int,
                    dim.0 as int,
                    dim.1 as int,
                ),
            out@.len() == k,
            prev@ == op.result_spec(frames@[k - 1].img),
            prev@.len() == op.result_spec(frames@[0].img).len(),
            forall|q: int|
                0 <= q < k ==> (#[trigger] out@[q]).duration_ms == frames@[q].duration_ms,
            codec::diff_apply(out@[0].diff@, op.result_spec(frames@[0].img)) == op.result_spec(
                frames@[0].img,
            ),
            forall|q: int|
                0 <= q < k ==> codec::diff_wf(
                    (#[trigger] out@[q]).diff@,
                    op.result_spec(frames@[0].img).len() as int,
                ),
            forall|q: int|
                1 <= q < k ==> codec::diff_apply(
                    (#[trigger] out@[q]).diff@,
                    op.result_spec(frames@[q - 1].img),
                ) == op.result_spec(frames@[q].img),
        decreases n - k,
    {
        let copyk = frames[k].img.duplicate();
        let ghost copykv = copyk;
        let cur = match op.resize(copyk) {
            Ok(v) => v,
            Err(_) => unreached(),
        };
        proof {
            crate::imgproc::resize::lemma_result_len(op, copykv);
            crate::imgproc::resize::lemma_result_spec_views(op, copykv, frames@[k as int].img);
            crate::imgproc::resize::lemma_result_len(op, frames@[k as int].img);
            crate::imgproc::resize::lemma_result_len(op, frames@[0].img);
        }
        let d = codec::encode(&prev, &cur);
        out.push(PackedFrame { diff: d, duration_ms: frames[k].duration_ms });
        prev = cur;
        k = k + 1;
    }
    Ok(out)
}

} // verus!
