//! Postprocessing for a multi-task object-perception model: anchor decoding,
//! confidence filtering, non-maximum suppression, inverse-letterbox coordinate
//! remapping, keypoint decoding and instance-mask reconstruction.
//!
//! All model scores and coordinates are carried as fixed-point integers:
//! a real value `v` is represented by `round(v * SCALE)`. Every function here
//! states its exact behaviour over those integers.

use vstd::prelude::*;

pub mod conf;
pub mod decode;
pub mod error;
pub mod geometry;
pub mod mask;
pub mod min_opt_max;
pub mod names;
pub mod nms;
pub mod results;
pub mod task;
pub mod yolo;

pub use conf::DynConf;
pub use decode::{decode_anchors, decode_spec, lemma_decode_valid, DecodeParams};
pub use error::YoloError;
pub use geometry::{Bbox, BboxV, Rect, RectV};
pub use mask::{decode_mask, instance_mask_spec, scale_wh, InstanceMask};
pub use min_opt_max::MinOptMax;
pub use names::{first_kpt, names_of, parse_class_names, parse_kpt_shape};
pub use nms::{lemma_nms_idempotent, lemma_nms_preserves_all, non_max_suppression, nms_spec, Candidate, CandidateV};
pub use results::{Embedding, EmbeddingV, Keypoint, KeypointV, Results, ResultsV, Tensor};
pub use task::Task;
pub use yolo::{clone_names, ModelMeta, Options, YOLO};

verus! {

/// Fixed-point scale: the integer `v` stands for the real number `v / SCALE`.
pub const SCALE: i64 = 4096;

/// Every tensor cell handed to the decoder lies in `[-CELL_BOUND, CELL_BOUND]`,
/// which keeps all intermediate products inside `i128`.
pub const CELL_BOUND: i64 = 0x8000_0000;

/// Image dimensions (pixels) accepted by the pipeline.
pub const MAX_DIM: u32 = 0x100000;

} // verus!
