use vstd::prelude::*;

use crate::geometry::{Bbox, BboxV};

verus! {

/// One decoded keypoint in original-image pixel space. A keypoint whose
/// confidence fell under its threshold is the zeroed default value.
#[derive(Clone, Copy, Debug, PartialEq, Eq, Structural)]
pub struct Keypoint {
    pub x: i64,
    pub y: i64,
    pub confidence: i64,
}

pub ghost struct KeypointV {
    pub x: int,
    pub y: int,
    pub confidence: int,
}

impl View for Keypoint {
    type V = KeypointV;

    open spec fn view(&self) -> KeypointV {
        KeypointV { x: self.x as int, y: self.y as int, confidence: self.confidence as int }
    }
}

impl Default for Keypoint {
    fn default() -> (r: Self)
        ensures
            r.x == 0 && r.y == 0 && r.confidence == 0,
    {
        Keypoint { x: 0, y: 0, confidence: 0 }
    }
}

impl Keypoint {
    pub fn new(x: i64, y: i64, confidence: i64) -> (r: Keypoint)
        ensures
            r == (Keypoint { x, y, confidence }),
    {
        Keypoint { x, y, confidence }
    }
}

/// A raw feature vector from a classification model, with an optional
/// class-name mapping.
#[derive(Clone, Debug)]
pub struct Embedding {
    pub data: Vec<i64>,
    pub names: Option<Vec<String>>,
}

pub ghost struct EmbeddingV {
    pub data: Seq<i64>,
    pub names: Option<Seq<Seq<char>>>,
}

/// The spec-level value of a name list.
pub open spec fn strs_view(s: Seq<String>) -> Seq<Seq<char>> {
    s.map_values(|t: String| t@)
}

/// The spec-level value of an optional name list.
pub open spec fn opt_names_view(o: Option<Vec<String>>) -> Option<Seq<Seq<char>>> {
    match o {
        Option::Some(ns) => Option::Some(ns@.map_values(|n: String| n@)),
        Option::None => Option::None,
    }
}

impl View for Embedding {
    type V = EmbeddingV;

    open spec fn view(&self) -> EmbeddingV {
        EmbeddingV { data: self.data@, names: opt_names_view(self.names) }
    }
}

impl Embedding {
    pub fn new(data: Vec<i64>, names: Option<Vec<String>>) -> (r: Embedding)
        ensures
            r == (Embedding { data, names }),
    {
        Embedding { data, names }
    }
}

/// The per-image aggregate. A field is `None` (absent, not empty) exactly
/// when the task produced no output of that kind.
#[derive(Clone, Debug)]
pub struct Results {
    pub probs: Option<Embedding>,
    pub bboxes: Option<Vec<Bbox>>,
    pub keypoints: Option<Vec<Vec<Keypoint>>>,
    pub masks: Option<Vec<Vec<u8>>>,
}

pub ghost struct ResultsV {
    pub probs: Option<EmbeddingV>,
    pub bboxes: Option<Seq<BboxV>>,
    pub keypoints: Option<Seq<Seq<KeypointV>>>,
    pub masks: Option<Seq<Seq<u8>>>,
}

impl View for Results {
    type V = ResultsV;

    open spec fn view(&self) -> ResultsV {
        ResultsV {
            probs: match self.probs {
                Option::Some(e) => Option::Some(e@),
                Option::None => Option::None,
            },
            bboxes: match self.bboxes {
                Option::Some(b) => Option::Some(bbox_views(b@)),
                Option::None => Option::None,
            },
            keypoints: match self.keypoints {
                Option::Some(k) => Option::Some(kpt_lists_view(k@)),
                Option::None => Option::None,
            },
            masks: match self.masks {
                Option::Some(m) => Option::Some(masks_view(m@)),
                Option::None => Option::None,
            },
        }
    }
}

impl Results {
    pub fn new(
        probs: Option<Embedding>,
        bboxes: Option<Vec<Bbox>>,
        keypoints: Option<Vec<Vec<Keypoint>>>,
        masks: Option<Vec<Vec<u8>>>,
    ) -> (r: Results)
        ensures
            r == (Results { probs, bboxes, keypoints, masks }),
    {
        Results { probs, bboxes, keypoints, masks }
    }
}

pub open spec fn results_view(s: Seq<Results>) -> Seq<ResultsV> {
    s.map_values(|x: Results| x@)
}

pub open spec fn bbox_views(s: Seq<Bbox>) -> Seq<BboxV> {
    s.map_values(|b: Bbox| b@)
}

pub open spec fn kpt_list_view(v: Seq<Keypoint>) -> Seq<KeypointV> {
    v.map_values(|k: Keypoint| k@)
}

pub open spec fn kpt_lists_view(s: Seq<Vec<Keypoint>>) -> Seq<Seq<KeypointV>> {
    s.map_values(|v: Vec<Keypoint>| kpt_list_view(v@))
}

pub open spec fn masks_view(s: Seq<Vec<u8>>) -> Seq<Seq<u8>> {
    s.map_values(|v: Vec<u8>| v@)
}

/// The number of cells a shape describes: the product of its dimensions.
pub open spec fn dims_product(s: Seq<usize>) -> int
    decreases s.len(),
{
    if s.len() == 0 {
        1
    } else {
        s[0] * dims_product(s.drop_first())
    }
}

/// Every cell of a well-formed tensor is bounded, so that the fixed-point
/// arithmetic of the decoders stays exact.
pub open spec fn cells_bounded(data: Seq<i64>) -> bool {
    forall|i: int|
        0 <= i < data.len() ==> -crate::CELL_BOUND <= #[trigger] data[i] <= crate::CELL_BOUND
}

/// A numeric tensor in row-major order: a shape and the flat cell data.
#[derive(Clone, Debug)]
pub struct Tensor {
    pub shape: Vec<usize>,
    pub data: Vec<i64>,
}

impl Tensor {
    pub open spec fn wf(&self) -> bool {
        &&& dims_product(self.shape@) == self.data@.len()
        &&& cells_bounded(self.data@)
    }

    /// Build a tensor, checking that the shape matches the amount of data
    /// and that every cell is within `CELL_BOUND`.
    pub fn new(shape: Vec<usize>, data: Vec<i64>) -> (r: Result<Tensor, crate::YoloError>)
        ensures
            (r matches Ok(t) && t.shape == shape && t.data == data && t.wf()) || (r
                == Err::<Tensor, crate::YoloError>(crate::YoloError::Shape)),
            r is Err ==> !(Tensor { shape, data }).wf(),
    {
        let mut has_zero: bool = false;
        let mut i: usize = 0;
        while i < shape.len()
            invariant
                i <= shape@.len(),
                has_zero ==> exists|k: int| 0 <= k < i && shape@[k] == 0,
                !has_zero ==> forall|k: int| 0 <= k < i ==> shape@[k] >= 1,
            decreases shape@.len() - i,
        {
            if shape[i] == 0 {
                has_zero = true;
            }
            i = i + 1;
        }
        if has_zero {
            proof {
                lemma_dims_product_zero(shape@);
            }
            if data.len() != 0 {
                return Err(crate::YoloError::Shape);
            }
            return Ok(Tensor { shape, data });
        }
        let mut prod: usize = 1;
        let mut j: usize = 0;
        while j < shape.len()
            invariant
                j <= shape@.len(),
                forall|k: int| 0 <= k < shape@.len() ==> shape@[k] >= 1,
                prod == dims_product(shape@.take(j as int)),
            decreases shape@.len() - j,
        {
            proof {
                assert(shape@.take(j as int + 1).drop_last() =~= shape@.take(j as int));
                lemma_dims_product_push(shape@.take(j as int + 1));
            }
            match prod.checked_mul(shape[j]) {
                Some(p) => {
                    prod = p;
                },
                None => {
                    let n = data.len();
                    proof {
                        lemma_dims_product_suffix(shape@, j as int + 1);
                        assert(n <= usize::MAX);
                    }
                    return Err(crate::YoloError::Shape);
                },
            }
            j = j + 1;
        }
        proof {
            assert(shape@.take(shape@.len() as int) =~= shape@);
        }
        if prod != data.len() {
            return Err(crate::YoloError::Shape);
        }
        let mut c: usize = 0;
        while c < data.len()
            invariant
                c <= data@.len(),
                forall|k: int|
                    0 <= k < c ==> -crate::CELL_BOUND <= #[trigger] data@[k] <= crate::CELL_BOUND,
            decreases data@.len() - c,
        {
            let v = data[c];
            if v < -crate::CELL_BOUND || v > crate::CELL_BOUND {
                return Err(crate::YoloError::Shape);
            }
            c = c + 1;
        }
        Ok(Tensor { shape, data })
    }

    /// The dimension at axis `i`.
    pub fn dim(&self, i: usize) -> (r: usize)
        requires
            i < self.shape@.len(),
        ensures
            r == self.shape@[i as int],
    {
        self.shape[i]
    }

    pub fn ndim(&self) -> (r: usize)
        ensures
            r == self.shape@.len(),
    {
        self.shape.len()
    }
}

/// The product over a shape equals the product over all but the last axis
/// times the last axis.
pub proof fn lemma_dims_product_push(s: Seq<usize>)
    requires
        s.len() > 0,
    ensures
        dims_product(s) == dims_product(s.drop_last()) * s[s.len() - 1],
    decreases s.len(),
{
    if s.len() == 1 {
        assert(s.drop_last() =~= Seq::<usize>::empty());
        assert(dims_product(s.drop_first()) == 1);
    } else {
        lemma_dims_product_push(s.drop_first());
        assert(s.drop_first().drop_last() =~= s.drop_last().drop_first());
        assert(dims_product(s) == s[0] * dims_product(s.drop_first()));
        assert(dims_product(s.drop_last()) == s[0] * dims_product(s.drop_last().drop_first()));
        assert(s[0] * (dims_product(s.drop_first().drop_last()) * s.drop_first()[s.drop_first().len()
            - 1]) == (s[0] * dims_product(s.drop_first().drop_last())) * s.drop_first()[s.drop_first().len()
            - 1]) by (nonlinear_arith);
        assert(s.drop_first()[s.drop_first().len() - 1] == s[s.len() - 1]);
    }
}

pub proof fn lemma_dims_product_nonneg(s: Seq<usize>)
    ensures
        dims_product(s) >= 0,
    decreases s.len(),
{
    if s.len() > 0 {
        lemma_dims_product_nonneg(s.drop_first());
        assert(s[0] * dims_product(s.drop_first()) >= 0) by (nonlinear_arith)
            requires
                s[0] >= 0,
                dims_product(s.drop_first()) >= 0,
        ;
    }
}

/// A shape with a zero dimension describes no cells.
pub proof fn lemma_dims_product_zero(s: Seq<usize>)
    requires
        exists|k: int| 0 <= k < s.len() && s[k] == 0,
    ensures
        dims_product(s) == 0,
    decreases s.len(),
{
    let k = choose|k: int| 0 <= k < s.len() && s[k] == 0;
    if s[0] == 0 {
        lemma_dims_product_nonneg(s.drop_first());
        assert(0 * dims_product(s.drop_first()) == 0) by (nonlinear_arith);
    } else {
        assert(s.drop_first()[k - 1] == s[k]);
        lemma_dims_product_zero(s.drop_first());
        assert(s[0] * 0 == 0) by (nonlinear_arith);
    }
}

/// With no zero dimension, the full product is at least any prefix product.
pub proof fn lemma_dims_product_pos(s: Seq<usize>)
    requires
        forall|k: int| 0 <= k < s.len() ==> s[k] >= 1,
    ensures
        dims_product(s) >= 1,
    decreases s.len(),
{
    if s.len() > 0 {
        assert(forall|k: int| 0 <= k < s.drop_first().len() ==> s.drop_first()[k] >= 1);
        lemma_dims_product_pos(s.drop_first());
        assert(s[0] * dims_product(s.drop_first()) >= 1) by (nonlinear_arith)
            requires
                s[0] >= 1,
                dims_product(s.drop_first()) >= 1,
        ;
    }
}

/// With no zero dimension, extending a prefix can only grow the product.
pub proof fn lemma_dims_product_suffix(s: Seq<usize>, i: int)
    requires
        forall|k: int| 0 <= k < s.len() ==> s[k] >= 1,
        0 <= i <= s.len(),
    ensures
        dims_product(s) >= dims_product(s.take(i)),
    decreases s.len() - i,
{
    if i == s.len() {
        assert(s.take(i) =~= s);
    } else {
        lemma_dims_product_suffix(s, i + 1);
        assert(s.take(i + 1).drop_last() =~= s.take(i));
        lemma_dims_product_push(s.take(i + 1));
        assert(forall|k: int| 0 <= k < s.take(i).len() ==> s.take(i)[k] >= 1);
        lemma_dims_product_pos(s.take(i));
        assert(dims_product(s.take(i)) * s[i] >= dims_product(s.take(i))) by (nonlinear_arith)
            requires
                s[i] >= 1,
                dims_product(s.take(i)) >= 1,
        ;
    }
}

/// Copy out `v[from..to]`.
pub fn vec_slice_i64(v: &Vec<i64>, from: usize, to: usize) -> (r: Vec<i64>)
    requires
        from <= to <= v@.len(),
    ensures
        r@ == v@.subrange(from as int, to as int),
{
    let mut r: Vec<i64> = Vec::new();
    let mut i: usize = from;
    while i < to
        invariant
            from <= i <= to <= v@.len(),
            r@ =~= v@.subrange(from as int, i as int),
        decreases to - i,
    {
        r.push(v[i]);
        proof {
            assert(r@ =~= v@.subrange(from as int, i as int + 1));
        }
        i = i + 1;
    }
    r
}

} // verus!
