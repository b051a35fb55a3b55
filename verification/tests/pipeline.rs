use yolo_post::{
    decode_anchors, decode_mask, non_max_suppression, parse_class_names, parse_kpt_shape,
    scale_wh, Bbox, Candidate, DynConf, Keypoint, MinOptMax, ModelMeta, Options, Rect,
    Task, Tensor, YoloError, YOLO,
};

const S: i64 = 4096;

fn detect_yolo(nc: usize, model_w: isize, model_h: isize, thr: i64) -> YOLO {
    YOLO {
        nc,
        nk: 0,
        nm: 0,
        height: MinOptMax::new(model_h),
        width: MinOptMax::new(model_w),
        batch: MinOptMax::new(1),
        task: Task::Detect,
        confs: DynConf::new(&vec![thr], nc).unwrap(),
        kconfs: DynConf::new(&vec![], 0).unwrap(),
        iou: S / 2,
        names: None,
        apply_nms: true,
        anchors_first: true,
    }
}

#[test]
fn min_opt_max_new_and_default() {
    let m = MinOptMax::new(7);
    assert_eq!((m.min, m.opt, m.max), (7, 7, 7));
    let d = MinOptMax::default();
    assert_eq!((d.min, d.opt, d.max), (-1, -1, -1));
}

#[test]
fn min_opt_max_from_orders_bounds() {
    let m = MinOptMax::from((3, 1, 2));
    assert_eq!((m.min, m.opt, m.max), (1, 1, 2));
    let m = MinOptMax::from([5, 2, 1]);
    assert_eq!((m.min, m.opt, m.max), (2, 2, 2));
}

#[test]
fn task_parsing() {
    assert_eq!(Task::from_name("segment"), Ok(Task::Segment));
    assert_eq!(Task::from_name("classify"), Ok(Task::Classify));
    assert_eq!(Task::from_name("obb"), Err(YoloError::UnsupportedTask));
}

#[test]
fn dynconf_broadcast_and_error() {
    let c = DynConf::new(&vec![100], 3).unwrap();
    assert_eq!(c.len(), 3);
    assert_eq!(c.get(0), 100);
    assert_eq!(c.get(2), 100);
    let c = DynConf::new(&vec![1, 2, 3, 4], 2).unwrap();
    assert_eq!((c.get(0), c.get(1)), (1, 2));
    assert!(matches!(DynConf::new(&vec![1, 2], 5), Err(YoloError::Configuration)));
}

#[test]
fn class_names_from_metadata() {
    let meta = "{0: 'person', 1: 'bicycle', 2: 'sports ball', 27: \"yellow_lady's_slipper\"}";
    let names = parse_class_names(meta);
    assert_eq!(
        names,
        vec![
            "person".to_string(),
            "bicycle".to_string(),
            "sports ball".to_string(),
            "yellow_lady's_slipper".to_string()
        ]
    );
    assert_eq!(parse_class_names("no quotes here"), Vec::<String>::new());
}

#[test]
fn kpt_shape_parsing() {
    assert_eq!(parse_kpt_shape("[17, 3]"), Some(17));
    assert_eq!(parse_kpt_shape("kpt_shape: 21, 2 done"), Some(21));
    assert_eq!(parse_kpt_shape("nothing"), None);
    assert_eq!(parse_kpt_shape("17,3"), None);
}

#[test]
fn decode_scenario_640x480() {
    // a 640x480 image in a 640x640 model: ratio = min(640/640, 640/480) = 1
    // anchor bbox (320, 240, 100, 80), top class 2 at 0.9, threshold 0.25:
    // the detection is x=270, y=200, w=100, h=80.
    let slab = vec![320 * S, 240 * S, 100 * S, 80 * S, 0, 0, (9 * S) / 10];
    let confs = DynConf::new(&vec![S / 4], 3).unwrap();
    let kconfs = DynConf::new(&vec![], 0).unwrap();
    let cands = decode_anchors(
        &slab, 1, 7, true, 3, 0, 0, Task::Detect, &confs, &kconfs, S, 640, 480, &None,
    );
    assert_eq!(cands.len(), 1);
    let c = &cands[0];
    assert_eq!(c.bbox.rect.x, 270 * S);
    assert_eq!(c.bbox.rect.y, 200 * S);
    assert_eq!(c.bbox.rect.w, 100 * S);
    assert_eq!(c.bbox.rect.h, 80 * S);
    assert_eq!(c.bbox.id, 2);
    assert_eq!(c.bbox.confidence, (9 * S) / 10);
    assert!(c.keypoints.is_none());
    assert!(c.coefs.is_none());
}

#[test]
fn decode_rejects_below_threshold() {
    // top class confidence 0.2 < threshold 0.25: no candidate
    let slab = vec![320 * S, 240 * S, 100 * S, 80 * S, 0, 0, S / 5];
    let confs = DynConf::new(&vec![S / 4], 3).unwrap();
    let kconfs = DynConf::new(&vec![], 0).unwrap();
    let cands = decode_anchors(
        &slab, 1, 7, true, 3, 0, 0, Task::Detect, &confs, &kconfs, S, 640, 480, &None,
    );
    assert_eq!(cands.len(), 0);
}

#[test]
fn decode_stable_argmax_tie() {
    // classes 0 and 2 tie: the first maximum wins
    let slab = vec![10 * S, 10 * S, 4 * S, 4 * S, 2048, 1000, 2048];
    let confs = DynConf::new(&vec![1024], 3).unwrap();
    let kconfs = DynConf::new(&vec![], 0).unwrap();
    let cands = decode_anchors(
        &slab, 1, 7, true, 3, 0, 0, Task::Detect, &confs, &kconfs, S, 640, 480, &None,
    );
    assert_eq!(cands.len(), 1);
    assert_eq!(cands[0].bbox.id, 0);
}

fn plain_candidate(x: i64, y: i64, w: i64, h: i64, conf: i64) -> Candidate {
    Candidate {
        bbox: Bbox::new(Rect::from_xywh(x, y, w, h), 0, conf, None),
        keypoints: None,
        coefs: None,
    }
}

#[test]
fn nms_suppresses_above_threshold() {
    // boxes (0,0,100,100) and (0,25,100,100): IoU = 7500/12500 = 0.6.
    // at threshold 0.5 only the higher-confidence one survives.
    let mut cands = vec![
        plain_candidate(0, 25 * S, 100 * S, 100 * S, 2048),
        plain_candidate(0, 0, 100 * S, 100 * S, 3686),
    ];
    non_max_suppression(&mut cands, 2048);
    assert_eq!(cands.len(), 1);
    assert_eq!(cands[0].bbox.confidence, 3686);
    assert_eq!(cands[0].bbox.rect.y, 0);
}

#[test]
fn nms_keeps_both_below_threshold() {
    // the same boxes at threshold 0.7: both survive, best first
    let mut cands = vec![
        plain_candidate(0, 25 * S, 100 * S, 100 * S, 2048),
        plain_candidate(0, 0, 100 * S, 100 * S, 3686),
    ];
    non_max_suppression(&mut cands, 2867);
    assert_eq!(cands.len(), 2);
    assert_eq!(cands[0].bbox.confidence, 3686);
    assert_eq!(cands[1].bbox.confidence, 2048);
}

#[test]
fn nms_idempotent_on_its_output() {
    let mut cands = vec![
        plain_candidate(0, 25 * S, 100 * S, 100 * S, 2048),
        plain_candidate(0, 0, 100 * S, 100 * S, 3686),
        plain_candidate(500 * S, 500 * S, 10 * S, 10 * S, 3000),
    ];
    non_max_suppression(&mut cands, 2048);
    let snapshot: Vec<(i64, i64, i64)> =
        cands.iter().map(|c| (c.bbox.rect.x, c.bbox.rect.y, c.bbox.confidence)).collect();
    non_max_suppression(&mut cands, 2048);
    let again: Vec<(i64, i64, i64)> =
        cands.iter().map(|c| (c.bbox.rect.x, c.bbox.rect.y, c.bbox.confidence)).collect();
    assert_eq!(snapshot, again);
}

#[test]
fn postprocess_detect_scenario() {
    let y = detect_yolo(3, 640, 640, S / 4);
    let slab = vec![320 * S, 240 * S, 100 * S, 80 * S, 0, 0, 3686];
    let xs = vec![Tensor::new(vec![1, 1, 7], slab).unwrap()];
    let rs = y.postprocess(&xs, &vec![(640, 480)]).unwrap();
    assert_eq!(rs.len(), 1);
    let r = &rs[0];
    assert!(r.probs.is_none());
    assert!(r.keypoints.is_none());
    assert!(r.masks.is_none());
    let boxes = r.bboxes.as_ref().unwrap();
    assert_eq!(boxes.len(), 1);
    assert_eq!(boxes[0].rect.x, 270 * S);
    assert_eq!(boxes[0].rect.y, 200 * S);
    assert_eq!(boxes[0].id, 2);
}

#[test]
fn postprocess_detect_empty_gives_absent_lists() {
    // a single anchor under threshold: bboxes are absent, not empty
    let y = detect_yolo(3, 640, 640, S / 4);
    let slab = vec![320 * S, 240 * S, 100 * S, 80 * S, 0, 0, 100];
    let xs = vec![Tensor::new(vec![1, 1, 7], slab).unwrap()];
    let rs = y.postprocess(&xs, &vec![(640, 480)]).unwrap();
    assert_eq!(rs.len(), 1);
    assert!(rs[0].bboxes.is_none());
}

#[test]
fn postprocess_classify_wraps_embeddings() {
    let y = YOLO {
        task: Task::Classify,
        names: Some(vec!["a".to_string(), "b".to_string(), "c".to_string()]),
        ..detect_yolo(3, 640, 640, S / 4)
    };
    let xs = vec![Tensor::new(vec![2, 3], vec![1, 2, 3, 4, 5, 6]).unwrap()];
    let rs = y.postprocess(&xs, &vec![]).unwrap();
    assert_eq!(rs.len(), 2);
    for r in &rs {
        assert!(r.bboxes.is_none());
        assert!(r.keypoints.is_none());
        assert!(r.masks.is_none());
    }
    let e0 = rs[0].probs.as_ref().unwrap();
    let e1 = rs[1].probs.as_ref().unwrap();
    assert_eq!(e0.data, vec![1, 2, 3]);
    assert_eq!(e1.data, vec![4, 5, 6]);
    assert_eq!(e0.names.as_ref().unwrap()[1], "b");
}

#[test]
fn postprocess_pose_keypoints_aligned_and_thresholded() {
    // two far-apart anchors; one keypoint each. The first keypoint's
    // confidence is under its threshold, so it is zeroed; the second is kept
    // and rescaled. The keypoint list stays aligned with the detections.
    let y = YOLO {
        nc: 1,
        nk: 1,
        task: Task::Pose,
        confs: DynConf::new(&vec![1024], 1).unwrap(),
        kconfs: DynConf::new(&vec![1024], 1).unwrap(),
        ..detect_yolo(1, 640, 640, 1024)
    };
    // stride 8: cx, cy, w, h, score, kx, ky, kconf; anchors_first
    let slab = vec![
        10 * S, 10 * S, 4 * S, 4 * S, 2048, 5 * S, 6 * S, 100, // kconf 100 < 1024
        500 * S, 400 * S, 4 * S, 4 * S, 3000, 7 * S, 8 * S, 2000, // kconf 2000 kept
    ];
    let xs = vec![Tensor::new(vec![1, 2, 8], slab).unwrap()];
    let rs = y.postprocess(&xs, &vec![(640, 480)]).unwrap();
    let r = &rs[0];
    let boxes = r.bboxes.as_ref().unwrap();
    let kpts = r.keypoints.as_ref().unwrap();
    assert_eq!(boxes.len(), 2);
    assert_eq!(kpts.len(), boxes.len());
    assert_eq!(kpts.len(), 2);
    // suppression sorts by confidence: the 3000-conf anchor comes first
    assert_eq!(boxes[0].confidence, 3000);
    assert_eq!(kpts[0].len(), 1);
    assert_eq!(kpts[0][0], Keypoint { x: 7 * S, y: 8 * S, confidence: 2000 });
    assert_eq!(kpts[1][0], Keypoint { x: 0, y: 0, confidence: 0 });
}

#[test]
fn postprocess_segment_mask_dimensions_and_cropping() {
    // one anchor covering the whole 2x2 image, one mask coefficient of 1.0,
    // a 2x2 prototype of 1.0: every pixel inside the box is 255.
    let y = YOLO {
        nc: 1,
        nm: 1,
        task: Task::Segment,
        confs: DynConf::new(&vec![1024], 1).unwrap(),
        ..detect_yolo(1, 2, 2, 1024)
    };
    // column layout (anchors_first = false): stride 6 rows x 1 anchor
    let y = YOLO { anchors_first: false, ..y };
    let slab = vec![S, S, 2 * S, 2 * S, 3686, S];
    let preds = Tensor::new(vec![1, 6, 1], slab).unwrap();
    let proto = Tensor::new(vec![1, 1, 2, 2], vec![S, S, S, S]).unwrap();
    let rs = y.postprocess(&vec![preds, proto], &vec![(2, 2)]).unwrap();
    let r = &rs[0];
    let boxes = r.bboxes.as_ref().unwrap();
    let masks = r.masks.as_ref().unwrap();
    assert_eq!(boxes.len(), 1);
    assert_eq!(masks.len(), boxes.len());
    // the raster always has the original image's dimensions
    assert_eq!(masks[0].len(), 2 * 2);
    assert_eq!(masks[0], vec![255, 255, 255, 255]);
}

#[test]
fn postprocess_segment_shape_mismatch_is_fatal() {
    let y = YOLO {
        nc: 1,
        nm: 2, // disagrees with the prototype's single channel
        task: Task::Segment,
        confs: DynConf::new(&vec![1024], 1).unwrap(),
        anchors_first: false,
        ..detect_yolo(1, 2, 2, 1024)
    };
    let slab = vec![S, S, 2 * S, 2 * S, 3686, S, S];
    let preds = Tensor::new(vec![1, 7, 1], slab).unwrap();
    let proto = Tensor::new(vec![1, 1, 2, 2], vec![S, S, S, S]).unwrap();
    let r = y.postprocess(&vec![preds, proto], &vec![(2, 2)]);
    assert!(matches!(r, Err(YoloError::Shape)));
}

#[test]
fn decode_mask_output_has_original_dimensions() {
    // a 2x2 prototype upscaled to a 3x2 image: six pixels come out, however
    // small the prototype (the resize must really resample, not pass through)
    let coefs = vec![S];
    let proto = vec![S, S, S, S];
    let b = Rect::from_xywh(0, 0, 3 * S, 2 * S);
    let m = decode_mask(&coefs, &proto, 1, 2, 2, 3, 2, &b);
    assert_eq!(m.len(), 6);
    assert!(m.iter().all(|&v| v == 255));
}

#[test]
fn scale_wh_fit_region() {
    // a 640x480 image in a 160x160 canvas: ratio 0.25, fit 160x120
    assert_eq!(scale_wh(640, 480, 160, 160), (160, 120));
    // a 480x640 image in a 160x160 canvas: fit 120x160
    assert_eq!(scale_wh(480, 640, 160, 160), (120, 160));
}

#[test]
fn tensor_shape_checking() {
    assert!(Tensor::new(vec![2, 3], vec![0; 6]).is_ok());
    assert_eq!(
        Tensor::new(vec![2, 3], vec![0; 5]).err(),
        Some(YoloError::Shape)
    );
}

#[test]
fn error_descriptions() {
    assert_eq!(YoloError::Shape.describe(), "mask prototype shape mismatch");
    assert_eq!(YoloError::UnsupportedTask.describe(), "unsupported task kind");
    assert_eq!(
        YoloError::Configuration.describe(),
        "invalid or missing configuration"
    );
}

fn meta(task: &str) -> ModelMeta {
    ModelMeta {
        batch: MinOptMax::new(1),
        height: MinOptMax::new(640),
        width: MinOptMax::new(640),
        task: Some(task.to_string()),
        kpt_shape: None,
        names: None,
        oshapes: vec![],
    }
}

fn options() -> Options {
    Options {
        nc: None,
        names: None,
        confs: vec![1024],
        kconfs: vec![1024],
        iou: 2048,
        apply_nms: true,
        anchors_first: false,
    }
}

#[test]
fn new_rejects_unknown_task() {
    let r = YOLO::new(&Options { nc: Some(2), ..options() }, &meta("obb"));
    assert!(matches!(r, Err(YoloError::UnsupportedTask)));
}

#[test]
fn new_rejects_missing_classes() {
    let r = YOLO::new(&options(), &meta("detect"));
    assert!(matches!(r, Err(YoloError::Configuration)));
}

#[test]
fn new_rejects_count_name_mismatch() {
    let o = Options {
        nc: Some(2),
        names: Some(vec!["a".to_string(), "b".to_string(), "c".to_string()]),
        ..options()
    };
    let r = YOLO::new(&o, &meta("detect"));
    assert!(matches!(r, Err(YoloError::Configuration)));
}

#[test]
fn new_generates_numeric_names() {
    let y = YOLO::new(&Options { nc: Some(3), ..options() }, &meta("detect")).unwrap();
    assert_eq!(y.nc, 3);
    assert_eq!(
        y.names,
        Some(vec!["0".to_string(), "1".to_string(), "2".to_string()])
    );
    assert_eq!(y.task, Task::Detect);
    assert_eq!(y.nk, 0);
    assert_eq!(y.nm, 0);
}

#[test]
fn new_reads_metadata_names_and_kpt_shape() {
    let m = ModelMeta {
        kpt_shape: Some("[17, 3]".to_string()),
        names: Some("{0: 'cat', 1: 'dog'}".to_string()),
        ..meta("pose")
    };
    let y = YOLO::new(&options(), &m).unwrap();
    assert_eq!(y.nc, 2);
    assert_eq!(y.names, Some(vec!["cat".to_string(), "dog".to_string()]));
    assert_eq!(y.nk, 17);
    assert_eq!(y.task, Task::Pose);
    assert_eq!(y.kconfs.len(), 17);
}

#[test]
fn new_reads_segment_coefficient_count() {
    let m = ModelMeta {
        names: Some("{0: 'cat'}".to_string()),
        oshapes: vec![vec![1, 5, 8400], vec![1, 32, 160, 160]],
        ..meta("segment")
    };
    let y = YOLO::new(&options(), &m).unwrap();
    assert_eq!(y.task, Task::Segment);
    assert_eq!(y.nm, 32);
    assert_eq!(y.batch(), 1);
    assert_eq!(y.width(), 640);
    assert_eq!(y.height(), 640);
}
