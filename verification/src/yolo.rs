use vstd::prelude::*;

use crate::conf::DynConf;
use crate::error::YoloError;
use crate::min_opt_max::MinOptMax;
use crate::names::{first_kpt, names_of, parse_class_names, parse_kpt_shape};
use crate::results::{opt_names_view, strs_view};
use crate::task::Task;
use crate::decode::{
    candidate_valid, decode_anchors, decode_spec, lemma_decode_valid, params_wf, DecodeParams,
};
use crate::geometry::{div_scaled, tdiv};
use crate::mask::{decode_mask, instance_mask_spec};
use crate::nms::{
    cands_view, lemma_nms_preserves_all, nms_spec, non_max_suppression, Candidate, CandidateV,
};
use crate::results::{
    bbox_views, cells_bounded, dims_product, kpt_list_view, kpt_lists_view, masks_view,
    results_view, vec_slice_i64, Embedding, EmbeddingV, Results, ResultsV, Tensor,
};
use crate::{CELL_BOUND, MAX_DIM, SCALE};
use vstd::string::StringExecFnsIsAscii;

verus! {

/// The caller-facing configuration of the postprocessing pipeline.
pub struct Options {
    /// Explicit class count, overriding model metadata.
    pub nc: Option<usize>,
    /// Explicit class names, overriding model metadata.
    pub names: Option<Vec<String>>,
    /// Per-class confidence thresholds (fixed-point), broadcastable from one.
    pub confs: Vec<i64>,
    /// Per-keypoint confidence thresholds (fixed-point).
    pub kconfs: Vec<i64>,
    /// IoU threshold for suppression (fixed-point, in `[0, SCALE]`).
    pub iou: i64,
    pub apply_nms: bool,
    /// Tensor layout: anchors along the first per-image axis.
    pub anchors_first: bool,
}

/// What the inference engine reports about the model: fixed input geometry
/// and opaque metadata strings looked up by key.
pub struct ModelMeta {
    pub batch: MinOptMax,
    pub height: MinOptMax,
    pub width: MinOptMax,
    /// The `task` metadata value, when present.
    pub task: Option<String>,
    /// The `kpt_shape` metadata value, when present.
    pub kpt_shape: Option<String>,
    /// The `names` metadata value, when present.
    pub names: Option<String>,
    /// The engine's output shapes; for segmentation the second output's
    /// second dimension is the mask-coefficient count.
    pub oshapes: Vec<Vec<isize>>,
}

/// The decimal digits of `n`, most significant first.
pub open spec fn dec_chars(n: int) -> Seq<char>
    decreases n,
{
    if n < 0 {
        Seq::empty()
    } else if n < 10 {
        seq![digit_char(n)]
    } else {
        dec_chars(n / 10).push(digit_char(n % 10))
    }
}

pub open spec fn digit_char(d: int) -> char {
    if d == 0 {
        '0'
    } else if d == 1 {
        '1'
    } else if d == 2 {
        '2'
    } else if d == 3 {
        '3'
    } else if d == 4 {
        '4'
    } else if d == 5 {
        '5'
    } else if d == 6 {
        '6'
    } else if d == 7 {
        '7'
    } else if d == 8 {
        '8'
    } else {
        '9'
    }
}

fn digit_str(d: usize) -> (r: &'static str)
    requires
        d < 10,
    ensures
        r@ == seq![digit_char(d as int)],
{
    proof {
        reveal_strlit("0");
        reveal_strlit("1");
        reveal_strlit("2");
        reveal_strlit("3");
        reveal_strlit("4");
        reveal_strlit("5");
        reveal_strlit("6");
        reveal_strlit("7");
        reveal_strlit("8");
        reveal_strlit("9");
    }
    match d {
        0 => "0",
        1 => "1",
        2 => "2",
        3 => "3",
        4 => "4",
        5 => "5",
        6 => "6",
        7 => "7",
        8 => "8",
        _ => "9",
    }
}

/// Format `n` in decimal.
fn dec_string(n: usize) -> (r: String)
    ensures
        r@ == dec_chars(n as int),
    decreases n,
{
    if n < 10 {
        digit_str(n).to_owned()
    } else {
        let mut s = dec_string(n / 10);
        s.append(digit_str(n % 10));
        s
    }
}

/// The generated label list for `nc` unnamed classes: "0", "1", ...
pub open spec fn gen_names(nc: int) -> Seq<Seq<char>> {
    Seq::new(nc as nat, |i: int| dec_chars(i))
}

fn gen_names_exec(nc: usize) -> (r: Vec<String>)
    ensures
        strs_view(r@) == gen_names(nc as int),
{
    let mut r: Vec<String> = Vec::new();
    let mut i: usize = 0;
    while i < nc
        invariant
            i <= nc,
            strs_view(r@) =~= gen_names(nc as int).take(i as int),
        decreases nc - i,
    {
        let s = dec_string(i);
        let ghost r0 = r@;
        r.push(s);
        proof {
            assert(r@ == r0.push(s));
            assert(strs_view(r0).len() == gen_names(nc as int).take(i as int).len());
            assert(r0.len() == i);
            assert(r@.len() == i + 1);
            assert(strs_view(r@).len() == i + 1);
            assert forall|j: int| 0 <= j < i + 1 implies strs_view(r@)[j] == gen_names(
                nc as int,
            ).take(i as int + 1)[j] by {
                if j < i {
                    assert(strs_view(r@)[j] == r0[j]@);
                    assert(strs_view(r0)[j] == r0[j]@);
                    assert(strs_view(r0)[j] == gen_names(nc as int).take(i as int)[j]);
                } else {
                    assert(strs_view(r@)[j] == s@);
                }
            }
            assert(strs_view(r@) =~= gen_names(nc as int).take(i as int + 1));
        }
        i = i + 1;
    }
    proof {
        assert(gen_names(nc as int).take(nc as int) =~= gen_names(nc as int));
    }
    r
}

/// Copy an optional name list, preserving every name's characters.
pub fn clone_names(o: &Option<Vec<String>>) -> (r: Option<Vec<String>>)
    ensures
        opt_names_view(r) == opt_names_view(*o),
{
    match o {
        None => None,
        Some(ns) => {
            let mut out: Vec<String> = Vec::new();
            let mut i: usize = 0;
            while i < ns.len()
                invariant
                    i <= ns@.len(),
                    strs_view(out@) =~= strs_view(ns@).take(i as int),
                decreases ns@.len() - i,
            {
                let ghost o0 = out@;
                let c = ns[i].clone();
                proof {
                    assert(c@ == ns@[i as int]@);
                    assert(strs_view(ns@)[i as int] == ns@[i as int]@);
                }
                out.push(c);
                proof {
                    assert(out@ == o0.push(c));
                    assert(strs_view(o0).len() == strs_view(ns@).take(i as int).len());
                    assert(o0.len() == i);
                    assert(strs_view(out@).len() == i + 1);
                    assert forall|j: int| 0 <= j < i + 1 implies strs_view(out@)[j] == strs_view(
                        ns@,
                    ).take(i as int + 1)[j] by {
                        if j < i {
                            assert(strs_view(out@)[j] == o0[j]@);
                            assert(strs_view(o0)[j] == o0[j]@);
                            assert(strs_view(o0)[j] == strs_view(ns@).take(i as int)[j]);
                        } else {
                            assert(strs_view(out@)[j] == c@);
                        }
                    }
                    assert(strs_view(out@) =~= strs_view(ns@).take(i as int + 1));
                }
                i = i + 1;
            }
            proof {
                assert(strs_view(ns@).take(ns@.len() as int) =~= strs_view(ns@));
                assert(opt_names_view(Some(out)) == opt_names_view(*o));
            }
            Some(out)
        },
    }
}

/// The task the model was built for, from its metadata: absent metadata
/// falls back to detection; an unknown string is rejected.
pub open spec fn task_of_meta(t: Option<Seq<char>>) -> Result<Task, YoloError> {
    match t {
        Option::None => Result::Ok(Task::Detect),
        Option::Some(s) => {
            if s == "classify"@ {
                Result::Ok(Task::Classify)
            } else if s == "detect"@ {
                Result::Ok(Task::Detect)
            } else if s == "pose"@ {
                Result::Ok(Task::Pose)
            } else if s == "segment"@ {
                Result::Ok(Task::Segment)
            } else {
                Result::Err(YoloError::UnsupportedTask)
            }
        },
    }
}

/// The names available before the class count is settled: explicit options
/// first, parsed metadata second.
pub open spec fn avail_names(
    onames: Option<Seq<Seq<char>>>,
    mnames: Option<Seq<char>>,
) -> Option<Seq<Seq<char>>> {
    match onames {
        Option::Some(ns) => Option::Some(ns),
        Option::None => match mnames {
            Option::Some(s) => Option::Some(names_of(s)),
            Option::None => Option::None,
        },
    }
}

/// Whether a threshold list can cover `n` slots: empty tables need nothing,
/// a single value broadcasts, and a longer list must reach `n`.
pub open spec fn covers(confs: Seq<i64>, n: int) -> bool {
    n == 0 || confs.len() == 1 || confs.len() >= n
}

/// The class count the configuration settles on.
pub open spec fn resolved_nc(o_nc: Option<usize>, names: Option<Seq<Seq<char>>>) -> int {
    match names {
        Option::Some(ns) => match o_nc {
            Option::Some(n) => n as int,
            Option::None => ns.len() as int,
        },
        Option::None => match o_nc {
            Option::Some(n) => n as int,
            Option::None => 0,
        },
    }
}

/// The keypoint count the metadata settles on.
pub open spec fn resolved_nk(kpt: Option<Seq<char>>) -> int {
    match kpt {
        Option::Some(s) => match first_kpt(s, 0) {
            Option::Some(v) => v,
            Option::None => 0,
        },
        Option::None => 0,
    }
}

/// Exactly when construction succeeds: a known task, a class count that can
/// be settled and agrees with the names, a readable `kpt_shape`, a usable
/// segmentation output shape, and threshold lists that cover their slots.
pub open spec fn new_accepts(o: Options, m: ModelMeta) -> bool {
    let names = avail_names(opt_names_view(o.names), crate::geometry::opt_str_view(m.names));
    let nc = resolved_nc(o.nc, names);
    let nk = resolved_nk(crate::geometry::opt_str_view(m.kpt_shape));
    let task_r = task_of_meta(crate::geometry::opt_str_view(m.task));
    &&& task_r is Ok
    &&& (names is None ==> o.nc is Some)
    &&& (match names {
        Option::Some(ns) => (o.nc matches Some(n) ==> ns.len() == n),
        Option::None => true,
    })
    &&& (match crate::geometry::opt_str_view(m.kpt_shape) {
        Option::Some(s) => (first_kpt(s, 0) matches Some(v) && v <= u32::MAX),
        Option::None => true,
    })
    &&& (task_r == Result::<Task, YoloError>::Ok(Task::Segment) ==> m.oshapes@.len() >= 2
        && m.oshapes@[1]@.len() >= 2 && 0 <= m.oshapes@[1]@[1])
    &&& covers(o.confs@, nc)
    &&& covers(o.kconfs@, nk)
}

/// The postprocessing pipeline's configuration: class/keypoint/mask counts,
/// model input geometry, task kind, thresholds and layout flags.
pub struct YOLO {
    pub nc: usize,
    pub nk: usize,
    pub nm: usize,
    pub height: MinOptMax,
    pub width: MinOptMax,
    pub batch: MinOptMax,
    pub task: Task,
    pub confs: DynConf,
    pub kconfs: DynConf,
    pub iou: i64,
    pub names: Option<Vec<String>>,
    pub apply_nms: bool,
    pub anchors_first: bool,
}

impl YOLO {
    /// Build the pipeline from caller options and model metadata, rejecting
    /// inconsistent configuration up front: an unknown task string, a class
    /// count that disagrees with the name list, a missing class count with no
    /// derivable names, an unreadable `kpt_shape`, a missing segmentation
    /// output shape, or a threshold list that cannot cover the classes.
    pub fn new(options: &Options, meta: &ModelMeta) -> (r: Result<YOLO, YoloError>)
        ensures
            (r matches Ok(y) ==> {
                &&& Result::<Task, YoloError>::Ok(y.task) == task_of_meta(crate::geometry::opt_str_view(meta.task))
                &&& y.batch == meta.batch && y.height == meta.height && y.width == meta.width
                &&& y.iou == options.iou && y.apply_nms == options.apply_nms && y.anchors_first
                    == options.anchors_first
                &&& (match avail_names(
                    opt_names_view(options.names),
                    crate::geometry::opt_str_view(meta.names),
                ) {
                    Option::Some(ns) => {
                        &&& (options.nc matches Some(n) ==> y.nc == n && ns.len() == n)
                        &&& (options.nc is None ==> y.nc == ns.len())
                        &&& opt_names_view(y.names) == Option::Some(ns)
                    },
                    Option::None => {
                        &&& options.nc matches Some(n) && y.nc == n
                        &&& opt_names_view(y.names) == Option::Some(gen_names(y.nc as int))
                    },
                })
                &&& (match crate::geometry::opt_str_view(meta.kpt_shape) {
                    Option::Some(s) => (first_kpt(s, 0) matches Some(v) && y.nk == v),
                    Option::None => y.nk == 0,
                })
                &&& (y.task is Segment ==> meta.oshapes@.len() >= 2 && meta.oshapes@[1]@.len()
                    >= 2 && y.nm == meta.oshapes@[1]@[1])
                &&& (!(y.task is Segment) ==> y.nm == 0)
                &&& y.confs@.len() == y.nc
                &&& y.kconfs@.len() == y.nk
                &&& (options.confs@.len() == 1 ==> y.confs@ == Seq::new(
                    y.nc as nat,
                    |i: int| options.confs@[0],
                ))
                &&& (y.nc > 0 && options.confs@.len() != 1 ==> y.confs@ == options.confs@.take(
                    y.nc as int,
                ))
                &&& (options.kconfs@.len() == 1 ==> y.kconfs@ == Seq::new(
                    y.nk as nat,
                    |i: int| options.kconfs@[0],
                ))
                &&& (y.nk > 0 && options.kconfs@.len() != 1 ==> y.kconfs@
                    == options.kconfs@.take(y.nk as int))
            }),
            (task_of_meta(crate::geometry::opt_str_view(meta.task)) matches Err(e) ==> r
                == Err::<YOLO, YoloError>(e)),
            (task_of_meta(crate::geometry::opt_str_view(meta.task)) is Ok && options.nc is None
                && avail_names(
                opt_names_view(options.names),
                crate::geometry::opt_str_view(meta.names),
            ) is None ==> r == Err::<YOLO, YoloError>(YoloError::Configuration)),
            r is Ok <==> new_accepts(*options, *meta),
    {
        let task = match &meta.task {
            Some(s) => {
                match Task::from_name(s.as_str()) {
                    Ok(t) => t,
                    Err(e) => {
                        return Err(e);
                    },
                }
            },
            None => Task::Detect,
        };
        // class names: explicit options first, then model metadata
        let mut names: Option<Vec<String>> = match &options.names {
            Some(ns) => clone_names(&Some(ns.clone())),
            None => {
                match &meta.names {
                    Some(s) => Some(parse_class_names(s.as_str())),
                    None => None,
                }
            },
        };
        proof {
            assert(opt_names_view(names) == avail_names(
                opt_names_view(options.names),
                crate::geometry::opt_str_view(meta.names),
            ));
        }
        let nc: usize = match options.nc {
            Some(nc) => {
                match &names {
                    None => {
                        names = Some(gen_names_exec(nc));
                        nc
                    },
                    Some(ns) => {
                        if nc != ns.len() {
                            return Err(YoloError::Configuration);
                        }
                        nc
                    },
                }
            },
            None => {
                match &names {
                    Some(ns) => ns.len(),
                    None => {
                        return Err(YoloError::Configuration);
                    },
                }
            },
        };
        let nk: usize = match &meta.kpt_shape {
            Some(s) => {
                match parse_kpt_shape(s.as_str()) {
                    Some(v) => v,
                    None => {
                        return Err(YoloError::Configuration);
                    },
                }
            },
            None => 0,
        };
        let nm: usize = if let Task::Segment = task {
            if meta.oshapes.len() < 2 {
                return Err(YoloError::Configuration);
            }
            let row = &meta.oshapes[1];
            if row.len() < 2 {
                return Err(YoloError::Configuration);
            }
            let v = row[1];
            if v < 0 {
                return Err(YoloError::Configuration);
            }
            v as usize
        } else {
            0
        };
        let confs = match DynConf::new(&options.confs, nc) {
            Ok(c) => c,
            Err(e) => {
                return Err(e);
            },
        };
        let kconfs = match DynConf::new(&options.kconfs, nk) {
            Ok(c) => c,
            Err(e) => {
                return Err(e);
            },
        };
        Ok(
            YOLO {
                nc,
                nk,
                nm,
                height: meta.height,
                width: meta.width,
                batch: meta.batch,
                task,
                confs,
                kconfs,
                iou: options.iou,
                names,
                apply_nms: options.apply_nms,
                anchors_first: options.anchors_first,
            },
        )
    }

    /// Everything the decode path needs of the configuration: threshold
    /// tables covering the classes and keypoints, a sane IoU threshold, and
    /// model input dimensions in range.
    pub open spec fn wf(&self) -> bool {
        &&& self.confs@.len() == self.nc
        &&& self.kconfs@.len() == self.nk
        &&& 1 <= self.nc
        &&& 0 <= self.iou <= SCALE
        &&& 1 <= self.width.opt <= MAX_DIM
        &&& 1 <= self.height.opt <= MAX_DIM
        &&& (self.names matches Some(ns) ==> ns@.len() == self.nc)
    }


    /// The Task Dispatcher / Result Assembler: for classification, wrap each
    /// batch item's feature vector; otherwise decode each image's anchors,
    /// suppress overlaps (when enabled), reconstruct instance masks (for
    /// segmentation) and assemble the per-image results. A present list is
    /// never empty: absence signals "no output of this kind".
    #[verifier::rlimit(100)]
    pub fn postprocess(&self, xs: &Vec<Tensor>, xs0: &Vec<(u32, u32)>) -> (r: Result<
        Vec<Results>,
        YoloError,
    >)
        requires
            self.wf(),
            xs@.len() >= 1,
            self.task is Classify ==> xs@[0].wf() && xs@[0].shape@.len() >= 1,
            !(self.task is Classify) ==> detect_input_wf(*self, xs@, xs0@),
        ensures
            self.task is Classify ==> (r matches Ok(rs) && rs@.len() == xs@[0].shape@[0] && (
            forall|b: int|
                0 <= b < rs@.len() ==> results_view(rs@)[b] == classify_result_spec(
                    xs@[0].data@,
                    dims_product(xs@[0].shape@.drop_first()),
                    opt_names_view(self.names),
                    b,
                ))),
            !(self.task is Classify) && self.task is Segment && self.nm != xs@[1 - preds_index(
                xs@,
            )].shape@[1] ==> r == Err::<Vec<Results>, YoloError>(YoloError::Shape),
            !(self.task is Classify) && (self.task is Segment ==> self.nm == xs@[1 - preds_index(
                xs@,
            )].shape@[1]) ==> (r matches Ok(rs) && rs@.len() == xs0@.len() && (forall|idx: int|
                0 <= idx < rs@.len() ==> results_view(rs@)[idx] == image_result_spec(
                    *self,
                    xs@,
                    xs0@,
                    idx,
                ))),
    {
        if let Task::Classify = self.task {
            let t = &xs[0];
            let b_count = t.dim(0);
            proof {
                assert(dims_product(t.shape@) == t.shape@[0] * dims_product(
                    t.shape@.drop_first(),
                ));
                crate::results::lemma_dims_product_nonneg(t.shape@.drop_first());
            }
            let rest: usize = if b_count == 0 {
                0
            } else {
                let dl = t.data.len();
                proof {
                    vstd::arithmetic::div_mod::lemma_div_multiples_vanish(
                        dims_product(t.shape@.drop_first()),
                        b_count as int,
                    );
                    assert(dims_product(t.shape@.drop_first()) <= dl) by (nonlinear_arith)
                        requires
                            dl == b_count as int * dims_product(t.shape@.drop_first()),
                            b_count >= 1,
                            dims_product(t.shape@.drop_first()) >= 0,
                    ;
                }
                dl / b_count
            };
            let ghost rest_s = dims_product(t.shape@.drop_first());
            let mut ys: Vec<Results> = Vec::new();
            if b_count == 0 {
                return Ok(ys);
            }
            let mut b: usize = 0;
            while b < b_count
                invariant
                    t == xs@[0],
                    t.wf(),
                    t.shape@.len() >= 1,
                    b_count == t.shape@[0],
                    b_count >= 1,
                    rest == rest_s,
                    rest_s == dims_product(t.shape@.drop_first()),
                    t.data@.len() == b_count as int * rest_s,
                    b <= b_count,
                    ys@.len() == b,
                    forall|j: int|
                        0 <= j < b ==> results_view(ys@)[j] == classify_result_spec(
                            t.data@,
                            rest_s,
                            opt_names_view(self.names),
                            j,
                        ),
                decreases b_count - b,
            {
                let dl2 = t.data.len();
                proof {
                    assert(b as int * rest as int + rest as int <= b_count as int * rest as int)
                        by (nonlinear_arith)
                        requires
                            0 <= b,
                            b as int + 1 <= b_count as int,
                            rest >= 0,
                    ;
                    assert(0 <= b as int * rest as int) by (nonlinear_arith)
                        requires
                            b >= 0,
                            rest >= 0,
                    ;
                    assert(dl2 <= usize::MAX);
                }
                let lo: usize = b * rest;
                let emb_data = vec_slice_i64(&t.data, lo, lo + rest);
                let emb = Embedding::new(emb_data, clone_names(&self.names));
                let y = Results::new(Some(emb), None, None, None);
                let ghost ys0 = ys@;
                ys.push(y);
                proof {
                    assert(results_view(ys@).len() == b + 1);
                    assert forall|j: int| 0 <= j < b + 1 implies results_view(ys@)[j]
                        == classify_result_spec(
                        t.data@,
                        rest_s,
                        opt_names_view(self.names),
                        j,
                    ) by {
                        if j < b {
                            assert(results_view(ys@)[j] == ys0[j]@);
                            assert(results_view(ys0)[j] == ys0[j]@);
                        } else {
                            assert(results_view(ys@)[j] == y@);
                            assert((b as int + 1) * rest_s == b as int * rest_s + rest_s)
                                by (nonlinear_arith);
                        }
                    }
                }
                b = b + 1;
            }
            return Ok(ys);
        }
        // pick the prediction tensor (three dimensions) and the prototypes
        let two = xs.len() == 2;
        let preds: &Tensor = if two {
            if xs[0].ndim() == 3 {
                &xs[0]
            } else {
                &xs[1]
            }
        } else {
            &xs[0]
        };
        proof {
            assert(preds == xs@[preds_index(xs@)]);
        }
        let b_count = preds.dim(0);
        let d1 = preds.dim(1);
        let d2 = preds.dim(2);
        // segmentation: the prototype channel count must match the declared nm
        let mut ph: usize = 0;
        let mut pw: usize = 0;
        if let Task::Segment = self.task {
            let pt: &Tensor = if xs[0].ndim() == 3 {
                &xs[1]
            } else {
                &xs[0]
            };
            proof {
                assert(pt == xs@[1 - preds_index(xs@)]);
            }
            if self.nm != pt.dim(1) {
                return Err(YoloError::Shape);
            }
            ph = pt.dim(2);
            pw = pt.dim(3);
        }
        let mut ys: Vec<Results> = Vec::new();
        if b_count == 0 {
            return Ok(ys);
        }
        let dl0 = preds.data.len();
        proof {
            lemma_dims_product3(preds.shape@);
            assert(d1 as int * d2 as int <= preds.data@.len()) by (nonlinear_arith)
                requires
                    preds.data@.len() == b_count as int * (d1 as int * d2 as int),
                    b_count >= 1,
                    d1 >= 0,
                    d2 >= 0,
            ;
            assert(dl0 <= usize::MAX);
        }
        let plane: usize = d1 * d2;
        let mut idx: usize = 0;
        while idx < b_count
            invariant
                self.wf(),
                !(self.task is Classify),
                detect_input_wf(*self, xs@, xs0@),
                self.task is Segment ==> self.nm == xs@[1 - preds_index(xs@)].shape@[1] && ph
                    == xs@[1 - preds_index(xs@)].shape@[2] && pw == xs@[1 - preds_index(
                    xs@,
                )].shape@[3],
                preds == xs@[preds_index(xs@)],
                b_count == preds.shape@[0],
                d1 == preds.shape@[1],
                d2 == preds.shape@[2],
                plane == d1 as int * d2 as int,
                preds.data@.len() == b_count as int * plane as int,
                b_count >= 1,
                idx <= b_count,
                xs0@.len() == b_count,
                ys@.len() == idx,
                forall|j: int|
                    0 <= j < idx ==> results_view(ys@)[j] == image_result_spec(
                        *self,
                        xs@,
                        xs0@,
                        j,
                    ),
            decreases b_count - idx,
        {
            let w0 = xs0[idx].0;
            let h0 = xs0[idx].1;
            let rw = div_scaled(self.width.opt as i64, w0 as i64);
            let rh = div_scaled(self.height.opt as i64, h0 as i64);
            let ratio: i64 = if rw < rh {
                rw
            } else {
                rh
            };
            proof {
                assert(ratio as int == ratio_spec(
                    self.width.opt as int,
                    self.height.opt as int,
                    w0 as int,
                    h0 as int,
                ));
                assert(idx as int * plane as int + plane as int <= b_count as int * plane as int)
                    by (nonlinear_arith)
                    requires
                        0 <= idx,
                        idx as int + 1 <= b_count as int,
                        plane >= 0,
                ;
                assert(0 <= idx as int * plane as int) by (nonlinear_arith)
                    requires
                        idx >= 0,
                        plane >= 0,
                ;
            }
            let dlp = preds.data.len();
            proof {
                assert(dlp <= usize::MAX);
            }
            let lo: usize = idx * plane;
            let slab = vec_slice_i64(&preds.data, lo, lo + plane);
            let na: usize = if self.anchors_first {
                d1
            } else {
                d2
            };
            let stride: usize = if self.anchors_first {
                d2
            } else {
                d1
            };
            let ghost p = image_params(*self, xs@, xs0@, idx as int);
            proof {
                assert(cells_bounded(slab@)) by {
                    assert forall|i: int|
                        0 <= i < slab@.len() implies -CELL_BOUND <= #[trigger] slab@[i]
                        <= CELL_BOUND by {
                        assert(slab@[i] == preds.data@[lo + i]);
                    }
                }
                assert(na as int * stride as int == plane as int) by (nonlinear_arith)
                    requires
                        plane == d1 as int * d2 as int,
                        na as int == if self.anchors_first {
                            d1 as int
                        } else {
                            d2 as int
                        },
                        stride as int == if self.anchors_first {
                            d2 as int
                        } else {
                            d1 as int
                        },
                ;
                assert((idx as int + 1) * (plane as int) == idx as int * plane as int
                    + plane as int) by (nonlinear_arith);
                assert(p.slab =~= slab@);
            }
            let mut cands = decode_anchors(
                &slab,
                na,
                stride,
                self.anchors_first,
                self.nc,
                self.nk,
                self.nm,
                self.task,
                &self.confs,
                &self.kconfs,
                ratio,
                w0,
                h0,
                &self.names,
            );
            proof {
                assert(cands_view(cands@) == decode_spec(p, p.na));
                assert(params_wf(p));
                lemma_decode_valid(p, p.na);
                assert forall|i: int|
                    0 <= i < cands_view(cands@).len() implies crate::nms::cand_bounded(
                    #[trigger] cands_view(cands@)[i],
                ) by {
                    assert(candidate_valid(p, cands_view(cands@)[i]));
                }
            }
            if self.apply_nms {
                non_max_suppression(&mut cands, self.iou);
                proof {
                    lemma_nms_preserves_all(
                        decode_spec(p, p.na),
                        self.iou as int,
                        |c: CandidateV| candidate_valid(p, c),
                    );
                }
            }
            let ghost full = cands_view(cands@);
            proof {
                assert(full == survivors_spec(*self, xs@, xs0@, idx as int));
                assert(forall|i: int|
                    0 <= i < full.len() ==> candidate_valid(p, #[trigger] full[i]));
            }
            let mut y_bboxes: Vec<crate::geometry::Bbox> = Vec::new();
            let mut y_kpts: Vec<Vec<crate::results::Keypoint>> = Vec::new();
            let mut y_masks: Vec<Vec<u8>> = Vec::new();
            let ghost mut k: int = 0;
            while cands.len() > 0
                invariant
                    self.wf(),
                    detect_input_wf(*self, xs@, xs0@),
                    self.task is Segment ==> self.nm == xs@[1 - preds_index(xs@)].shape@[1] && ph
                        == xs@[1 - preds_index(xs@)].shape@[2] && pw == xs@[1 - preds_index(
                        xs@,
                    )].shape@[3],
                    preds == xs@[preds_index(xs@)],
                    b_count == preds.shape@[0],
                    b_count >= 1,
                    idx < b_count,
                    xs0@.len() == b_count,
                    w0 == xs0@[idx as int].0,
                    h0 == xs0@[idx as int].1,
                    0 <= k <= full.len(),
                    cands_view(cands@) =~= full.skip(k),
                    forall|i: int| 0 <= i < full.len() ==> candidate_valid(p, #[trigger] full[i]),
                    p == image_params(*self, xs@, xs0@, idx as int),
                    bbox_views(y_bboxes@) =~= cand_bboxes(full.take(k)),
                    kpt_lists_view(y_kpts@) =~= kpts_lists(full.take(k)),
                    self.task is Segment ==> masks_view(y_masks@) =~= masks_lists(
                        full.take(k),
                        proto_plane(xs@, idx as int),
                        ph as int,
                        pw as int,
                        w0 as int,
                        h0 as int,
                    ),
                    !(self.task is Segment) ==> y_masks@.len() == 0,
                decreases cands@.len(),
            {
                let ghost cv0 = cands_view(cands@);
                let c = cands.remove(0);
                proof {
                    assert(cv0 =~= full.skip(k));
                    assert(cv0.len() > 0);
                    assert(full.skip(k)[0] == full[k]);
                    assert(c@ == cv0[0]);
                    assert(cv0[0] == full[k]);
                    assert(cands_view(cands@) =~= cv0.drop_first());
                    assert(cv0.drop_first() =~= full.skip(k + 1));
                    assert(candidate_valid(p, full[k]));
                    assert(full.take(k + 1).drop_last() =~= full.take(k));
                    assert(full.take(k + 1).last() == full[k]);
                }
                let Candidate { bbox, keypoints, coefs } = c;
                let ghost kv0 = kpt_lists_view(y_kpts@);
                match keypoints {
                    Some(ks) => {
                        y_kpts.push(ks);
                        proof {
                            assert(kpt_lists_view(y_kpts@) =~= kv0.push(kpt_list_view(ks@)));
                        }
                    },
                    None => {},
                }
                let ghost mv0 = masks_view(y_masks@);
                match coefs {
                    Some(cs) => {
                        let pt: &Tensor = if xs[0].ndim() == 3 {
                            &xs[1]
                        } else {
                            &xs[0]
                        };
                        proof {
                            assert(pt == xs@[1 - preds_index(xs@)]);
                            lemma_dims_product4(pt.shape@);
                            assert(self.nm as int * (ph as int * pw as int) <= pt.data@.len())
                                by (nonlinear_arith)
                                requires
                                    pt.data@.len() == b_count as int * (self.nm as int * (
                                    ph as int * pw as int)),
                                    b_count >= 1,
                                    self.nm >= 0,
                                    ph >= 0,
                                    pw >= 0,
                            ;
                            assert(ph as int * pw as int <= self.nm as int * (ph as int
                                * pw as int)) by (nonlinear_arith)
                                requires
                                    self.nm >= 1,
                                    ph >= 0,
                                    pw >= 0,
                            ;
                        }
                        let ptl = pt.data.len();
                        proof {
                            assert(ptl <= usize::MAX);
                        }
                        let pplane: usize = self.nm * (ph * pw);
                        proof {
                            assert(idx as int * pplane as int + pplane as int <= b_count as int
                                * pplane as int) by (nonlinear_arith)
                                requires
                                    0 <= idx,
                                    idx as int + 1 <= b_count as int,
                                    pplane >= 0,
                            ;
                            assert(0 <= idx as int * pplane as int) by (nonlinear_arith)
                                requires
                                    idx >= 0,
                                    pplane >= 0,
                            ;
                        }
                        let plo: usize = idx * pplane;
                        let pslab = vec_slice_i64(&pt.data, plo, plo + pplane);
                        proof {
                            assert((idx as int + 1) * (pplane as int) == idx as int
                                * pplane as int + pplane as int) by (nonlinear_arith);
                            assert(pslab@ =~= proto_plane(xs@, idx as int));
                            assert(cells_bounded(pslab@)) by {
                                assert forall|i: int|
                                    0 <= i < pslab@.len() implies -CELL_BOUND
                                    <= #[trigger] pslab@[i] <= CELL_BOUND by {
                                    assert(pslab@[i] == pt.data@[plo + i]);
                                }
                            }
                        }
                        let m = decode_mask(
                            &cs,
                            &pslab,
                            self.nm,
                            ph as u32,
                            pw as u32,
                            w0,
                            h0,
                            &bbox.rect,
                        );
                        y_masks.push(m);
                        proof {
                            assert(masks_view(y_masks@) =~= mv0.push(
                                instance_mask_spec(
                                    cs@,
                                    proto_plane(xs@, idx as int),
                                    ph as int,
                                    pw as int,
                                    w0 as int,
                                    h0 as int,
                                    bbox.rect@,
                                ),
                            ));
                        }
                    },
                    None => {},
                }
                let ghost bv0 = bbox_views(y_bboxes@);
                y_bboxes.push(bbox);
                proof {
                    assert(bbox_views(y_bboxes@) =~= bv0.push(full[k].bbox));
                    assert(cand_bboxes(full.take(k + 1)) =~= cand_bboxes(full.take(k)).push(
                        full[k].bbox,
                    ));
                    k = k + 1;
                }
            }
            proof {
                assert(full.take(k) =~= full);
            }
            let y = Results::new(
                None,
                if y_bboxes.len() > 0 {
                    Some(y_bboxes)
                } else {
                    None
                },
                if y_kpts.len() > 0 {
                    Some(y_kpts)
                } else {
                    None
                },
                if y_masks.len() > 0 {
                    Some(y_masks)
                } else {
                    None
                },
            );
            proof {
                assert(y@ == image_result_spec(*self, xs@, xs0@, idx as int));
            }
            let ghost ys0 = ys@;
            ys.push(y);
            proof {
                assert(results_view(ys@).len() == idx + 1);
                assert forall|j: int| 0 <= j < idx + 1 implies results_view(ys@)[j]
                    == image_result_spec(*self, xs@, xs0@, j) by {
                    if j < idx {
                        assert(results_view(ys@)[j] == ys0[j]@);
                        assert(results_view(ys0)[j] == ys0[j]@);
                    } else {
                        assert(results_view(ys@)[j] == y@);
                    }
                }
            }
            idx = idx + 1;
        }
        Ok(ys)
    }

    pub fn batch(&self) -> (r: isize)
        ensures
            r == self.batch.opt,
    {
        self.batch.opt
    }

    pub fn width(&self) -> (r: isize)
        ensures
            r == self.width.opt,
    {
        self.width.opt
    }

    pub fn height(&self) -> (r: isize)
        ensures
            r == self.height.opt,
    {
        self.height.opt
    }
}

/// The inverse-letterbox scale ratio in fixed point:
/// `min(model_w / w0, model_h / h0)`.
pub open spec fn ratio_spec(mw: int, mh: int, w0: int, h0: int) -> int {
    let rw = tdiv(mw * SCALE, w0);
    let rh = tdiv(mh * SCALE, h0);
    if rw < rh {
        rw
    } else {
        rh
    }
}

/// Which tensor holds the predictions: with two outputs, the one with three
/// dimensions; alone, the first.
pub open spec fn preds_index(xs: Seq<Tensor>) -> int {
    if xs.len() == 2 {
        if xs[0].shape@.len() == 3 {
            0
        } else {
            1
        }
    } else {
        0
    }
}

/// The spec-level decode parameters of image `idx`.
pub open spec fn image_params(y: YOLO, xs: Seq<Tensor>, xs0: Seq<(u32, u32)>, idx: int) -> DecodeParams {
    let t = xs[preds_index(xs)];
    let d1 = t.shape@[1] as int;
    let d2 = t.shape@[2] as int;
    let plane = d1 * d2;
    DecodeParams {
        slab: t.data@.subrange(idx * plane, (idx + 1) * plane),
        na: if y.anchors_first {
            d1
        } else {
            d2
        },
        stride: if y.anchors_first {
            d2
        } else {
            d1
        },
        anchors_first: y.anchors_first,
        nc: y.nc as int,
        nk: y.nk as int,
        nm: y.nm as int,
        task: y.task,
        confs: y.confs@,
        kconfs: y.kconfs@,
        ratio: ratio_spec(
            y.width.opt as int,
            y.height.opt as int,
            xs0[idx].0 as int,
            xs0[idx].1 as int,
        ),
        w0s: xs0[idx].0 as int * SCALE,
        h0s: xs0[idx].1 as int * SCALE,
        names: opt_names_view(y.names),
    }
}

/// The candidates of image `idx` that survive suppression (or all of them,
/// when suppression is disabled).
pub open spec fn survivors_spec(y: YOLO, xs: Seq<Tensor>, xs0: Seq<(u32, u32)>, idx: int) -> Seq<
    CandidateV,
> {
    let p = image_params(y, xs, xs0, idx);
    let cands = decode_spec(p, p.na);
    if y.apply_nms {
        nms_spec(cands, y.iou as int)
    } else {
        cands
    }
}

/// The keypoint lists of the surviving candidates, in order.
pub open spec fn kpts_lists(ss: Seq<CandidateV>) -> Seq<Seq<crate::results::KeypointV>>
    decreases ss.len(),
{
    if ss.len() == 0 {
        Seq::empty()
    } else {
        let rest = kpts_lists(ss.drop_last());
        match ss.last().keypoints {
            Option::Some(ks) => rest.push(ks),
            Option::None => rest,
        }
    }
}

/// The instance masks of the surviving candidates with coefficients, in order.
pub open spec fn masks_lists(
    ss: Seq<CandidateV>,
    proto: Seq<i64>,
    ph: int,
    pw: int,
    w0: int,
    h0: int,
) -> Seq<Seq<u8>>
    decreases ss.len(),
{
    if ss.len() == 0 {
        Seq::empty()
    } else {
        let rest = masks_lists(ss.drop_last(), proto, ph, pw, w0, h0);
        match ss.last().coefs {
            Option::Some(cs) => rest.push(
                instance_mask_spec(cs, proto, ph, pw, w0, h0, ss.last().bbox.rect),
            ),
            Option::None => rest,
        }
    }
}

pub open spec fn cand_bboxes(ss: Seq<CandidateV>) -> Seq<crate::geometry::BboxV> {
    ss.map_values(|c: CandidateV| c.bbox)
}

/// The prototype plane of image `idx`: `nm` planes of `ph * pw` cells.
pub open spec fn proto_plane(xs: Seq<Tensor>, idx: int) -> Seq<i64> {
    let pt = xs[1 - preds_index(xs)];
    let plane = pt.shape@[1] as int * (pt.shape@[2] as int * pt.shape@[3] as int);
    pt.data@.subrange(idx * plane, (idx + 1) * plane)
}

/// The per-image result of a detect / pose / segment decode.
pub open spec fn image_result_spec(y: YOLO, xs: Seq<Tensor>, xs0: Seq<(u32, u32)>, idx: int) -> ResultsV {
    let ss = survivors_spec(y, xs, xs0, idx);
    let ks = kpts_lists(ss);
    let pt = xs[1 - preds_index(xs)];
    let ms = if y.task is Segment {
        masks_lists(
            ss,
            proto_plane(xs, idx),
            pt.shape@[2] as int,
            pt.shape@[3] as int,
            xs0[idx].0 as int,
            xs0[idx].1 as int,
        )
    } else {
        Seq::empty()
    };
    ResultsV {
        probs: Option::None,
        bboxes: if ss.len() > 0 {
            Option::Some(cand_bboxes(ss))
        } else {
            Option::None
        },
        keypoints: if ks.len() > 0 {
            Option::Some(ks)
        } else {
            Option::None
        },
        masks: if ms.len() > 0 {
            Option::Some(ms)
        } else {
            Option::None
        },
    }
}

/// The per-image result of a classification decode: only the embedding.
pub open spec fn classify_result_spec(
    data: Seq<i64>,
    rest: int,
    names: Option<Seq<Seq<char>>>,
    b: int,
) -> ResultsV {
    ResultsV {
        probs: Option::Some(
            EmbeddingV { data: data.subrange(b * rest, (b + 1) * rest), names },
        ),
        bboxes: Option::None,
        keypoints: Option::None,
        masks: Option::None,
    }
}

/// What the detect / pose / segment path asks of its inputs: a well-formed
/// three-dimensional prediction tensor, one original size per image, anchors
/// wide enough for the configured slices, a positive fixed-point ratio, and
/// (for segmentation) a well-formed four-dimensional prototype tensor.
pub open spec fn detect_input_wf(y: YOLO, xs: Seq<Tensor>, xs0: Seq<(u32, u32)>) -> bool {
    let t = xs[preds_index(xs)];
    let stride = if y.anchors_first {
        t.shape@[2] as int
    } else {
        t.shape@[1] as int
    };
    &&& (xs.len() == 1 || xs.len() == 2)
    &&& (forall|i: int| 0 <= i < xs.len() ==> (#[trigger] xs[i]).wf())
    &&& t.shape@.len() == 3
    &&& xs0.len() == t.shape@[0]
    &&& (forall|i: int|
        0 <= i < xs0.len() ==> 1 <= (#[trigger] xs0[i]).0 <= MAX_DIM && 1 <= xs0[i].1 <= MAX_DIM)
    &&& (forall|i: int|
        0 <= i < xs0.len() ==> 1 <= ratio_spec(
            y.width.opt as int,
            y.height.opt as int,
            (#[trigger] xs0[i]).0 as int,
            xs0[i].1 as int,
        ))
    &&& 4 + y.nc <= stride
    &&& (y.task is Pose ==> 3 * y.nk <= stride)
    &&& (y.task is Segment ==> {
        let pt = xs[1 - preds_index(xs)];
        &&& y.nm <= stride
        &&& 1 <= y.nm
        &&& xs.len() == 2
        &&& pt.shape@.len() == 4
        &&& pt.shape@[0] == t.shape@[0]
        &&& pt.shape@[2] <= MAX_DIM
        &&& pt.shape@[3] <= MAX_DIM
    })
}

pub proof fn lemma_dims_product3(s: Seq<usize>)
    requires
        s.len() == 3,
    ensures
        dims_product(s) == s[0] as int * (s[1] as int * s[2] as int),
{
    let s1 = s.drop_first();
    let s2 = s1.drop_first();
    let s3 = s2.drop_first();
    assert(s3 =~= Seq::<usize>::empty());
    assert(dims_product(s2) == s2[0] * dims_product(s3));
    assert(dims_product(s1) == s1[0] * dims_product(s2));
    assert(s1[0] == s[1] && s2[0] == s[2]);
    assert(dims_product(s2) == s[2] as int * 1);
}

pub proof fn lemma_dims_product4(s: Seq<usize>)
    requires
        s.len() == 4,
    ensures
        dims_product(s) == s[0] as int * (s[1] as int * (s[2] as int * s[3] as int)),
{
    let s1 = s.drop_first();
    lemma_dims_product3(s1);
    assert(s1[0] == s[1] && s1[1] == s[2] && s1[2] == s[3]);
}

/// Lists that a task produces are index-aligned with the detections: when
/// every surviving candidate carries a payload of a kind, that kind's list
/// has exactly one entry per detection, in the same order.
pub proof fn lemma_kpts_aligned(ss: Seq<CandidateV>)
    requires
        forall|i: int| 0 <= i < ss.len() ==> (#[trigger] ss[i]).keypoints is Some,
    ensures
        kpts_lists(ss).len() == ss.len(),
        forall|i: int|
            0 <= i < ss.len() ==> kpts_lists(ss)[i] == (#[trigger] ss[i]).keypoints.unwrap(),
    decreases ss.len(),
{
    if ss.len() > 0 {
        assert(forall|i: int|
            0 <= i < ss.drop_last().len() ==> (#[trigger] ss.drop_last()[i]).keypoints is Some);
        lemma_kpts_aligned(ss.drop_last());
        assert forall|i: int| 0 <= i < ss.len() implies kpts_lists(ss)[i] == (
        #[trigger] ss[i]).keypoints.unwrap() by {
            if i < ss.len() - 1 {
                assert(ss.drop_last()[i] == ss[i]);
            }
        }
    }
}

/// The same alignment for instance masks.
pub proof fn lemma_masks_aligned(
    ss: Seq<CandidateV>,
    proto: Seq<i64>,
    ph: int,
    pw: int,
    w0: int,
    h0: int,
)
    requires
        forall|i: int| 0 <= i < ss.len() ==> (#[trigger] ss[i]).coefs is Some,
    ensures
        masks_lists(ss, proto, ph, pw, w0, h0).len() == ss.len(),
    decreases ss.len(),
{
    if ss.len() > 0 {
        assert(forall|i: int|
            0 <= i < ss.drop_last().len() ==> (#[trigger] ss.drop_last()[i]).coefs is Some);
        lemma_masks_aligned(ss.drop_last(), proto, ph, pw, w0, h0);
    }
}

/// Every detection that survives an image's decode-and-suppress pipeline is
/// geometry-correct and filtered: its origin is clamped into the original
/// image, its confidence is at or above its class threshold, its class index
/// is in range, and its keypoint and coefficient payloads match the task —
/// so for pose and segment tasks the keypoint and mask lists are
/// index-aligned with the detections.
pub proof fn lemma_survivors_valid(y: YOLO, xs: Seq<Tensor>, xs0: Seq<(u32, u32)>, idx: int)
    requires
        y.wf(),
        !(y.task is Classify),
        detect_input_wf(y, xs, xs0),
        0 <= idx < xs0.len(),
    ensures
        forall|i: int|
            0 <= i < survivors_spec(y, xs, xs0, idx).len() ==> candidate_valid(
                image_params(y, xs, xs0, idx),
                #[trigger] survivors_spec(y, xs, xs0, idx)[i],
            ),
        y.task is Pose ==> kpts_lists(survivors_spec(y, xs, xs0, idx)).len() == survivors_spec(
            y,
            xs,
            xs0,
            idx,
        ).len(),
        y.task is Segment ==> masks_lists(
            survivors_spec(y, xs, xs0, idx),
            proto_plane(xs, idx),
            xs[1 - preds_index(xs)].shape@[2] as int,
            xs[1 - preds_index(xs)].shape@[3] as int,
            xs0[idx].0 as int,
            xs0[idx].1 as int,
        ).len() == survivors_spec(y, xs, xs0, idx).len(),
{
    let p = image_params(y, xs, xs0, idx);
    let t = xs[preds_index(xs)];
    assert(params_wf(p)) by {
        lemma_dims_product3(t.shape@);
        assert(t.data@.len() == t.shape@[0] as int * (t.shape@[1] as int * t.shape@[2] as int));
        assert(idx as int * (t.shape@[1] as int * t.shape@[2] as int) + (t.shape@[1] as int
            * t.shape@[2] as int) <= t.data@.len()) by (nonlinear_arith)
            requires
                t.data@.len() == t.shape@[0] as int * (t.shape@[1] as int * t.shape@[2] as int),
                0 <= idx < t.shape@[0] as int,
                t.shape@[1] as int * t.shape@[2] as int >= 0,
        ;
        assert(0 <= idx * (t.shape@[1] as int * t.shape@[2] as int)) by (nonlinear_arith)
            requires
                idx >= 0,
                t.shape@[1] as int * t.shape@[2] as int >= 0,
        ;
        assert((idx + 1) * (t.shape@[1] as int * t.shape@[2] as int) == idx * (t.shape@[1] as int
            * t.shape@[2] as int) + t.shape@[1] as int * t.shape@[2] as int) by (nonlinear_arith);
        assert(p.slab.len() == t.shape@[1] as int * t.shape@[2] as int);
        assert(p.na * p.stride == t.shape@[1] as int * t.shape@[2] as int) by (nonlinear_arith)
            requires
                p.na == if y.anchors_first {
                    t.shape@[1] as int
                } else {
                    t.shape@[2] as int
                },
                p.stride == if y.anchors_first {
                    t.shape@[2] as int
                } else {
                    t.shape@[1] as int
                },
        ;
        assert(cells_bounded(p.slab)) by {
            assert forall|i: int|
                0 <= i < p.slab.len() implies -CELL_BOUND <= #[trigger] p.slab[i] <= CELL_BOUND by {
                assert(p.slab[i] == t.data@[idx * (t.shape@[1] as int * t.shape@[2] as int) + i]);
            }
        }
    }
    lemma_decode_valid(p, p.na);
    if y.apply_nms {
        lemma_nms_preserves_all(
            decode_spec(p, p.na),
            y.iou as int,
            |c: CandidateV| candidate_valid(p, c),
        );
    }
    let ss = survivors_spec(y, xs, xs0, idx);
    assert(forall|i: int| 0 <= i < ss.len() ==> candidate_valid(p, #[trigger] ss[i]));
    if y.task is Pose {
        assert(forall|i: int| 0 <= i < ss.len() ==> (#[trigger] ss[i]).keypoints is Some);
        lemma_kpts_aligned(ss);
    }
    if y.task is Segment {
        assert(forall|i: int| 0 <= i < ss.len() ==> (#[trigger] ss[i]).coefs is Some);
        lemma_masks_aligned(
            ss,
            proto_plane(xs, idx),
            xs[1 - preds_index(xs)].shape@[2] as int,
            xs[1 - preds_index(xs)].shape@[3] as int,
            xs0[idx].0 as int,
            xs0[idx].1 as int,
        );
    }
}

} // verus!
