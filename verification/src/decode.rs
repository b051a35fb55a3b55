use vstd::prelude::*;

use crate::conf::DynConf;
use crate::geometry::{
    clamp0, clamp0_spec, div_scaled, div_scaled_spec, half, rect_bounded, tdiv, Bbox, BboxV, Rect,
    RectV,
};
use crate::nms::{cand_bounded, cands_view, Candidate, CandidateV};
use crate::results::{cells_bounded, opt_names_view, Keypoint, KeypointV};
use crate::task::Task;
use crate::{CELL_BOUND, MAX_DIM, SCALE};

verus! {

/// Everything one anchor-decoding call depends on, at the spec level.
pub ghost struct DecodeParams {
    /// The image's prediction slab, row-major.
    pub slab: Seq<i64>,
    /// Number of anchors.
    pub na: int,
    /// Number of attributes per anchor.
    pub stride: int,
    /// Layout: anchors-first `[na, stride]`, else `[stride, na]`.
    pub anchors_first: bool,
    pub nc: int,
    pub nk: int,
    pub nm: int,
    pub task: Task,
    pub confs: Seq<i64>,
    pub kconfs: Seq<i64>,
    /// The letterbox scale ratio, fixed-point, positive.
    pub ratio: int,
    /// Original image width and height, fixed-point.
    pub w0s: int,
    pub h0s: int,
    pub names: Option<Seq<Seq<char>>>,
}

pub open spec fn params_wf(p: DecodeParams) -> bool {
    &&& p.slab.len() == p.na * p.stride
    &&& cells_bounded(p.slab)
    &&& 0 <= p.na
    &&& 4 + p.nc <= p.stride
    &&& 1 <= p.nc
    &&& 0 <= p.nk && 0 <= p.nm
    &&& (p.task is Pose ==> 3 * p.nk <= p.stride)
    &&& (p.task is Segment ==> p.nm <= p.stride)
    &&& p.confs.len() == p.nc
    &&& p.kconfs.len() == p.nk
    &&& 1 <= p.ratio
    &&& 0 <= p.w0s <= MAX_DIM * SCALE
    &&& 0 <= p.h0s <= MAX_DIM * SCALE
    &&& (p.names matches Some(ns) ==> ns.len() == p.nc)
}

/// The attribute `j` of anchor `a` in the slab.
pub open spec fn pred_at(p: DecodeParams, a: int, j: int) -> i64 {
    if p.anchors_first {
        p.slab[a * p.stride + j]
    } else {
        p.slab[j * p.na + a]
    }
}

/// The class scores of anchor `a`.
pub open spec fn scores_of(p: DecodeParams, a: int) -> Seq<i64> {
    Seq::new(p.nc as nat, |k: int| pred_at(p, a, 4 + k))
}

/// The index of the first maximum: ties go to the earliest class.
pub open spec fn argmax_idx(s: Seq<i64>) -> int
    decreases s.len(),
{
    if s.len() <= 1 {
        0
    } else {
        let r = argmax_idx(s.drop_last());
        if s.last() > s[r] {
            s.len() - 1
        } else {
            r
        }
    }
}

pub proof fn lemma_argmax_in_range(s: Seq<i64>)
    requires
        s.len() >= 1,
    ensures
        0 <= argmax_idx(s) < s.len(),
    decreases s.len(),
{
    if s.len() > 1 {
        lemma_argmax_in_range(s.drop_last());
    }
}

/// The argmax really is a stable maximum: no score is larger, and every
/// earlier score is strictly smaller.
pub proof fn lemma_argmax_is_first_max(s: Seq<i64>)
    requires
        s.len() >= 1,
    ensures
        0 <= argmax_idx(s) < s.len(),
        forall|j: int| 0 <= j < s.len() ==> #[trigger] s[j] <= s[argmax_idx(s)],
        forall|j: int| 0 <= j < argmax_idx(s) ==> #[trigger] s[j] < s[argmax_idx(s)],
    decreases s.len(),
{
    lemma_argmax_in_range(s);
    if s.len() > 1 {
        lemma_argmax_is_first_max(s.drop_last());
        assert(forall|j: int| 0 <= j < s.len() - 1 ==> s[j] == s.drop_last()[j]);
    }
}

/// Whether anchor `a` passes the per-class confidence filter.
pub open spec fn anchor_passes(p: DecodeParams, a: int) -> bool {
    let s = scores_of(p, a);
    s[argmax_idx(s)] >= p.confs[argmax_idx(s)]
}

/// The rescaled, origin-clamped rectangle of anchor `a`: divide the raw
/// center/extent values by the ratio, convert to corner form, clamp the
/// origin into the original image (extents are not clamped).
pub open spec fn decoded_rect(p: DecodeParams, a: int) -> RectV {
    let cx = div_scaled_spec(pred_at(p, a, 0) as int, p.ratio);
    let cy = div_scaled_spec(pred_at(p, a, 1) as int, p.ratio);
    let w = div_scaled_spec(pred_at(p, a, 2) as int, p.ratio);
    let h = div_scaled_spec(pred_at(p, a, 3) as int, p.ratio);
    RectV {
        x: clamp0_spec(cx - tdiv(w, 2), p.w0s),
        y: clamp0_spec(cy - tdiv(h, 2), p.h0s),
        w: w,
        h: h,
    }
}

/// Keypoint `i` of anchor `a`: rescaled and clamped like a box origin, or
/// the zeroed default when its confidence is under the keypoint threshold.
pub open spec fn decoded_kpt(p: DecodeParams, a: int, i: int) -> KeypointV {
    let base = p.stride - 3 * p.nk;
    let kc = pred_at(p, a, base + 3 * i + 2);
    if kc < p.kconfs[i] {
        KeypointV { x: 0, y: 0, confidence: 0 }
    } else {
        let kx = div_scaled_spec(pred_at(p, a, base + 3 * i) as int, p.ratio);
        let ky = div_scaled_spec(pred_at(p, a, base + 3 * i + 1) as int, p.ratio);
        KeypointV {
            x: clamp0_spec(kx, p.w0s),
            y: clamp0_spec(ky, p.h0s),
            confidence: kc as int,
        }
    }
}

pub open spec fn decoded_kpts(p: DecodeParams, a: int) -> Seq<KeypointV> {
    Seq::new(p.nk as nat, |i: int| decoded_kpt(p, a, i))
}

pub open spec fn decoded_coefs(p: DecodeParams, a: int) -> Seq<i64> {
    Seq::new(p.nm as nat, |i: int| pred_at(p, a, p.stride - p.nm + i))
}

/// The candidate emitted for anchor `a` (when it passes the filter).
pub open spec fn candidate_spec(p: DecodeParams, a: int) -> CandidateV {
    let s = scores_of(p, a);
    let id = argmax_idx(s);
    CandidateV {
        bbox: BboxV {
            rect: decoded_rect(p, a),
            id: id,
            confidence: s[id] as int,
            name: match p.names {
                Option::Some(ns) => Option::Some(ns[id]),
                Option::None => Option::None,
            },
        },
        keypoints: if p.task is Pose {
            Option::Some(decoded_kpts(p, a))
        } else {
            Option::None
        },
        coefs: if p.task is Segment {
            Option::Some(decoded_coefs(p, a))
        } else {
            Option::None
        },
    }
}

/// The candidates of the first `a` anchors, in anchor order.
pub open spec fn decode_spec(p: DecodeParams, a: int) -> Seq<CandidateV>
    decreases a,
{
    if a <= 0 {
        Seq::empty()
    } else if anchor_passes(p, a - 1) {
        decode_spec(p, a - 1).push(candidate_spec(p, a - 1))
    } else {
        decode_spec(p, a - 1)
    }
}

/// What the decoder guarantees of every candidate it emits: the origin is
/// clamped into the original image, the confidence is at or above the class
/// threshold, and the keypoint/coefficient payloads match the task.
pub open spec fn candidate_valid(p: DecodeParams, c: CandidateV) -> bool {
    &&& 0 <= c.bbox.rect.x <= p.w0s
    &&& 0 <= c.bbox.rect.y <= p.h0s
    &&& 0 <= c.bbox.id < p.nc
    &&& c.bbox.confidence >= p.confs[c.bbox.id]
    &&& (c.keypoints is Some <==> p.task is Pose)
    &&& (c.keypoints matches Some(ks) ==> ks.len() == p.nk)
    &&& (c.coefs is Some <==> p.task is Segment)
    &&& (c.coefs matches Some(cs) ==> cs.len() == p.nm && cells_bounded(cs))
    &&& cand_bounded(c)
}

pub proof fn lemma_div_scaled_bound(a: int, r: int)
    requires
        -CELL_BOUND <= a <= CELL_BOUND,
        1 <= r,
    ensures
        -CELL_BOUND * SCALE <= div_scaled_spec(a, r) <= CELL_BOUND * SCALE,
{
    if a >= 0 {
        assert(0 <= (a * SCALE) / r <= a * SCALE) by (nonlinear_arith)
            requires
                a >= 0,
                r >= 1,
        ;
        assert(a * SCALE <= CELL_BOUND * SCALE) by (nonlinear_arith)
            requires
                a <= CELL_BOUND,
        ;
    } else {
        assert(0 <= ((-a) * SCALE) / r <= (-a) * SCALE) by (nonlinear_arith)
            requires
                -a >= 0,
                r >= 1,
        ;
        assert((-a) * SCALE <= CELL_BOUND * SCALE) by (nonlinear_arith)
            requires
                -a <= CELL_BOUND,
        ;
        assert(-(a * SCALE) == (-a) * SCALE) by (nonlinear_arith);
    }
}

/// Every candidate the decoder emits is valid: within the image, above its
/// class threshold, with task-matching payloads.
pub proof fn lemma_decode_valid(p: DecodeParams, a: int)
    requires
        params_wf(p),
        0 <= a <= p.na,
    ensures
        forall|i: int|
            0 <= i < decode_spec(p, a).len() ==> candidate_valid(p, #[trigger] decode_spec(p, a)[i]),
    decreases a,
{
    if a > 0 {
        lemma_decode_valid(p, a - 1);
        if anchor_passes(p, a - 1) {
            let c = candidate_spec(p, a - 1);
            let s = scores_of(p, a - 1);
            lemma_argmax_in_range(s);
            lemma_pred_at_bounded(p, a - 1, 2);
            lemma_pred_at_bounded(p, a - 1, 3);
            lemma_div_scaled_bound(pred_at(p, a - 1, 2) as int, p.ratio);
            lemma_div_scaled_bound(pred_at(p, a - 1, 3) as int, p.ratio);
            if p.task is Segment {
                assert forall|i: int| 0 <= i < p.nm implies -CELL_BOUND <= #[trigger] decoded_coefs(
                    p,
                    a - 1,
                )[i] <= CELL_BOUND by {
                    lemma_pred_at_bounded(p, a - 1, p.stride - p.nm + i);
                }
            }
            assert(candidate_valid(p, c));
            assert forall|i: int| 0 <= i < decode_spec(p, a).len() implies candidate_valid(
                p,
                #[trigger] decode_spec(p, a)[i],
            ) by {
                if i < decode_spec(p, a).len() - 1 {
                    assert(decode_spec(p, a)[i] == decode_spec(p, a - 1)[i]);
                } else {
                    assert(decode_spec(p, a)[i] == c);
                }
            }
        } else {
            assert(decode_spec(p, a) == decode_spec(p, a - 1));
        }
    }
}

pub proof fn lemma_pred_at_bounded(p: DecodeParams, a: int, j: int)
    requires
        params_wf(p),
        0 <= a < p.na,
        0 <= j < p.stride,
    ensures
        -CELL_BOUND <= pred_at(p, a, j) <= CELL_BOUND,
{
    if p.anchors_first {
        assert(0 <= a * p.stride + j < p.na * p.stride) by (nonlinear_arith)
            requires
                0 <= a < p.na,
                0 <= j < p.stride,
        ;
        assert(-CELL_BOUND <= p.slab[a * p.stride + j] <= CELL_BOUND);
    } else {
        assert(0 <= j * p.na + a < p.na * p.stride) by (nonlinear_arith)
            requires
                0 <= a < p.na,
                0 <= j < p.stride,
        ;
        assert(-CELL_BOUND <= p.slab[j * p.na + a] <= CELL_BOUND);
    }
}

/// Read attribute `j` of anchor `a`.
fn cell(
    slab: &Vec<i64>,
    na: usize,
    stride: usize,
    anchors_first: bool,
    a: usize,
    j: usize,
    Ghost(p): Ghost<DecodeParams>,
) -> (r: i64)
    requires
        params_wf(p),
        p.slab == slab@,
        p.na == na as int,
        p.stride == stride as int,
        p.anchors_first == anchors_first,
        slab@.len() == na * stride,
        cells_bounded(slab@),
        a < na,
        j < stride,
    ensures
        r == pred_at(p, a as int, j as int),
        -CELL_BOUND <= r <= CELL_BOUND,
{
    let n = slab.len();
    if anchors_first {
        proof {
            assert(a * stride <= na * stride && a * stride + j < na * stride)
                by (nonlinear_arith)
                requires
                    a < na,
                    j < stride,
                    a >= 0,
                    j >= 0,
                    stride >= 1,
            ;
            lemma_pred_at_bounded(p, a as int, j as int);
        }
        slab[a * stride + j]
    } else {
        proof {
            assert(j * na <= na * stride && j * na + a < na * stride) by (nonlinear_arith)
                requires
                    a < na,
                    j < stride,
                    a >= 0,
                    j >= 0,
                    na >= 1,
            ;
            lemma_pred_at_bounded(p, a as int, j as int);
        }
        slab[j * na + a]
    }
}

/// The Anchor Decoder: slice each anchor into box, class scores and optional
/// keypoint/mask-coefficient blocks, select the best class (stable argmax),
/// drop anchors under the class threshold, rescale boxes (and keypoints) by
/// the letterbox ratio, and clamp origins into the original image.
#[verifier::rlimit(30)]
pub fn decode_anchors(
    slab: &Vec<i64>,
    na: usize,
    stride: usize,
    anchors_first: bool,
    nc: usize,
    nk: usize,
    nm: usize,
    task: Task,
    confs: &DynConf,
    kconfs: &DynConf,
    ratio: i64,
    width0: u32,
    height0: u32,
    names: &Option<Vec<String>>,
) -> (r: Vec<Candidate>)
    requires
        slab@.len() == na * stride,
        cells_bounded(slab@),
        4 + nc <= stride,
        1 <= nc,
        task is Pose ==> 3 * nk <= stride,
        task is Segment ==> nm <= stride,
        confs@.len() == nc,
        kconfs@.len() == nk,
        1 <= ratio,
        width0 <= MAX_DIM,
        height0 <= MAX_DIM,
        (names matches Some(ns) ==> ns@.len() == nc),
    ensures
        cands_view(r@) == decode_spec(
            (DecodeParams {
                slab: slab@,
                na: na as int,
                stride: stride as int,
                anchors_first: anchors_first,
                nc: nc as int,
                nk: nk as int,
                nm: nm as int,
                task: task,
                confs: confs@,
                kconfs: kconfs@,
                ratio: ratio as int,
                w0s: width0 as int * SCALE,
                h0s: height0 as int * SCALE,
                names: opt_names_view(*names),
            }),
            na as int,
        ),
{
    let ghost p = DecodeParams {
        slab: slab@,
        na: na as int,
        stride: stride as int,
        anchors_first: anchors_first,
        nc: nc as int,
        nk: nk as int,
        nm: nm as int,
        task: task,
        confs: confs@,
        kconfs: kconfs@,
        ratio: ratio as int,
        w0s: width0 as int * SCALE,
        h0s: height0 as int * SCALE,
        names: opt_names_view(*names),
    };
    let w0s: i64 = (width0 as i64) * SCALE;
    let h0s: i64 = (height0 as i64) * SCALE;
    let mut out: Vec<Candidate> = Vec::new();
    let mut a: usize = 0;
    while a < na
        invariant
            params_wf(p),
            p.slab == slab@,
            p.na == na as int,
            p.stride == stride as int,
            p.anchors_first == anchors_first,
            p.nc == nc as int,
            p.nk == nk as int,
            p.nm == nm as int,
            p.task == task,
            p.confs == confs@,
            p.kconfs == kconfs@,
            p.ratio == ratio as int,
            p.w0s == w0s as int,
            p.h0s == h0s as int,
            p.names == opt_names_view(*names),
            slab@.len() == na * stride,
            cells_bounded(slab@),
            4 + nc <= stride,
            1 <= nc,
            task is Pose ==> 3 * nk <= stride,
            task is Segment ==> nm <= stride,
            confs@.len() == nc,
            kconfs@.len() == nk,
            1 <= ratio,
            w0s == width0 as int * SCALE,
            h0s == height0 as int * SCALE,
            0 <= w0s <= MAX_DIM * SCALE,
            0 <= h0s <= MAX_DIM * SCALE,
            (names matches Some(ns) ==> ns@.len() == nc),
            a <= na,
            cands_view(out@) =~= decode_spec(p, a as int),
        decreases na - a,
    {
        let ghost s = scores_of(p, a as int);
        // stable argmax over the class scores
        let mut best: usize = 0;
        let mut best_val: i64 = cell(slab, na, stride, anchors_first, a, 4, Ghost(p));
        proof {
            assert(s.take(1).len() == 1);
            assert(s.take(1)[0] == s[0]);
            assert(argmax_idx(s.take(1)) == 0);
        }
        let mut k: usize = 1;
        while k < nc
            invariant
                params_wf(p),
                p.slab == slab@,
                p.na == na as int,
                p.stride == stride as int,
                p.anchors_first == anchors_first,
                p.nc == nc as int,
                slab@.len() == na * stride,
                cells_bounded(slab@),
                4 + nc <= stride,
                1 <= nc,
                a < na,
                1 <= k <= nc,
                s == scores_of(p, a as int),
                best < k,
                best as int == argmax_idx(s.take(k as int)),
                best_val == s[best as int],
            decreases nc - k,
        {
            let sc = cell(slab, na, stride, anchors_first, a, 4 + k, Ghost(p));
            proof {
                assert(sc == s[k as int]);
                assert(s.take(k as int + 1).drop_last() =~= s.take(k as int));
                assert(s.take(k as int + 1).last() == s[k as int]);
                lemma_argmax_in_range(s.take(k as int));
                assert(forall|m: int|
                    0 <= m < k ==> s.take(k as int + 1)[m] == s.take(k as int)[m]);
            }
            if sc > best_val {
                best = k;
                best_val = sc;
            }
            k = k + 1;
        }
        proof {
            assert(s.take(nc as int) =~= s);
        }
        let thr = confs.get(best);
        if best_val >= thr {
            // bbox rescale and clamp
            let cx = div_scaled(cell(slab, na, stride, anchors_first, a, 0, Ghost(p)), ratio);
            let cy = div_scaled(cell(slab, na, stride, anchors_first, a, 1, Ghost(p)), ratio);
            let w = div_scaled(cell(slab, na, stride, anchors_first, a, 2, Ghost(p)), ratio);
            let h = div_scaled(cell(slab, na, stride, anchors_first, a, 3, Ghost(p)), ratio);
            let x = clamp0(cx - half(w), w0s);
            let y = clamp0(cy - half(h), h0s);
            let rect = Rect { x, y, w, h };
            let name: Option<String> = match names {
                Some(ns) => Some(ns[best].clone()),
                None => None,
            };
            let bbox = Bbox { rect, id: best, confidence: best_val, name };
            let keypoints: Option<Vec<Keypoint>> = if let Task::Pose = task {
                let base = stride - 3 * nk;
                let mut ks: Vec<Keypoint> = Vec::new();
                let mut i: usize = 0;
                while i < nk
                    invariant
                        params_wf(p),
                        p.slab == slab@,
                        p.na == na as int,
                        p.stride == stride as int,
                        p.anchors_first == anchors_first,
                        p.nk == nk as int,
                        p.kconfs == kconfs@,
                        p.ratio == ratio as int,
                        p.w0s == w0s as int,
                        p.h0s == h0s as int,
                        slab@.len() == na * stride,
                        cells_bounded(slab@),
                        a < na,
                        3 * nk <= stride,
                        base == stride - 3 * nk,
                        kconfs@.len() == nk,
                        1 <= ratio,
                        0 <= w0s,
                        0 <= h0s,
                        i <= nk,
                        ks@.map_values(|q: Keypoint| q@) =~= decoded_kpts(p, a as int).take(
                            i as int,
                        ),
                    decreases nk - i,
                {
                    proof {
                        assert(base + 3 * i + 2 < stride) by (nonlinear_arith)
                            requires
                                base == stride - 3 * nk,
                                0 <= i < nk,
                        ;
                    }
                    let kc = cell(slab, na, stride, anchors_first, a, base + 3 * i + 2, Ghost(p));
                    let kp: Keypoint = if kc < kconfs.get(i) {
                        Keypoint { x: 0, y: 0, confidence: 0 }
                    } else {
                        let kx = div_scaled(
                            cell(slab, na, stride, anchors_first, a, base + 3 * i, Ghost(p)),
                            ratio,
                        );
                        let ky = div_scaled(
                            cell(slab, na, stride, anchors_first, a, base + 3 * i + 1, Ghost(p)),
                            ratio,
                        );
                        Keypoint { x: clamp0(kx, w0s), y: clamp0(ky, h0s), confidence: kc }
                    };
                    let ghost ks0 = ks@;
                    ks.push(kp);
                    proof {
                        assert(kp@ == decoded_kpt(p, a as int, i as int));
                        assert(ks@.map_values(|q: Keypoint| q@) =~= ks0.map_values(
                            |q: Keypoint| q@,
                        ).push(kp@));
                        assert(decoded_kpts(p, a as int).take(i as int + 1) =~= decoded_kpts(
                            p,
                            a as int,
                        ).take(i as int).push(decoded_kpt(p, a as int, i as int)));
                    }
                    i = i + 1;
                }
                proof {
                    assert(decoded_kpts(p, a as int).take(nk as int) =~= decoded_kpts(
                        p,
                        a as int,
                    ));
                }
                Some(ks)
            } else {
                None
            };
            let coefs: Option<Vec<i64>> = if let Task::Segment = task {
                let base = stride - nm;
                let mut cs: Vec<i64> = Vec::new();
                let mut i: usize = 0;
                while i < nm
                    invariant
                        params_wf(p),
                        p.slab == slab@,
                        p.na == na as int,
                        p.stride == stride as int,
                        p.anchors_first == anchors_first,
                        p.nm == nm as int,
                        slab@.len() == na * stride,
                        cells_bounded(slab@),
                        a < na,
                        nm <= stride,
                        base == stride - nm,
                        i <= nm,
                        cs@ =~= decoded_coefs(p, a as int).take(i as int),
                    decreases nm - i,
                {
                    let v = cell(slab, na, stride, anchors_first, a, base + i, Ghost(p));
                    cs.push(v);
                    proof {
                        assert(cs@ =~= decoded_coefs(p, a as int).take(i as int + 1));
                    }
                    i = i + 1;
                }
                proof {
                    assert(decoded_coefs(p, a as int).take(nm as int) =~= decoded_coefs(
                        p,
                        a as int,
                    ));
                }
                Some(cs)
            } else {
                None
            };
            let c = Candidate { bbox, keypoints, coefs };
            let ghost out0 = out@;
            out.push(c);
            proof {
                assert(anchor_passes(p, a as int));
                assert(c@ == candidate_spec(p, a as int));
                assert(cands_view(out@) =~= cands_view(out0).push(c@));
            }
        } else {
            proof {
                assert(!anchor_passes(p, a as int));
            }
        }
        a = a + 1;
    }
    proof {
        assert(cands_view(out@) =~= decode_spec(p, na as int));
    }
    out
}

} // verus!
