use vstd::prelude::*;

use crate::geometry::{iou_exceeds, iou_exceeds_exec, rect_bounded, Bbox, BboxV};
use crate::results::{Keypoint, KeypointV};
use crate::SCALE;

verus! {

/// One decoded anchor that passed confidence filtering: the detection, its
/// keypoints (pose tasks only) and its mask coefficients (segment tasks only).
#[derive(Clone, Debug)]
pub struct Candidate {
    pub bbox: Bbox,
    pub keypoints: Option<Vec<Keypoint>>,
    pub coefs: Option<Vec<i64>>,
}

pub ghost struct CandidateV {
    pub bbox: BboxV,
    pub keypoints: Option<Seq<KeypointV>>,
    pub coefs: Option<Seq<i64>>,
}

impl View for Candidate {
    type V = CandidateV;

    open spec fn view(&self) -> CandidateV {
        CandidateV {
            bbox: self.bbox@,
            keypoints: match self.keypoints {
                Option::Some(k) => Option::Some(crate::results::kpt_list_view(k@)),
                Option::None => Option::None,
            },
            coefs: match self.coefs {
                Option::Some(c) => Option::Some(c@),
                Option::None => Option::None,
            },
        }
    }
}

pub open spec fn cands_view(s: Seq<Candidate>) -> Seq<CandidateV> {
    s.map_values(|c: Candidate| c@)
}

pub open spec fn cand_bounded(c: CandidateV) -> bool {
    rect_bounded(c.bbox.rect)
}

pub open spec fn cands_bounded(s: Seq<CandidateV>) -> bool {
    forall|i: int| 0 <= i < s.len() ==> cand_bounded(#[trigger] s[i])
}

/// Stable insertion by confidence, descending: `c` goes in front of the first
/// element whose confidence is strictly lower, and in front of equals, since
/// every element already present came later in the original order.
pub open spec fn sorted_insert(c: CandidateV, s: Seq<CandidateV>) -> Seq<CandidateV>
    decreases s.len(),
{
    if s.len() == 0 {
        seq![c]
    } else if c.bbox.confidence >= s[0].bbox.confidence {
        seq![c] + s
    } else {
        seq![s[0]] + sorted_insert(c, s.drop_first())
    }
}

/// Stable sort by confidence, descending; ties keep their original order.
pub open spec fn sort_by_conf(s: Seq<CandidateV>) -> Seq<CandidateV>
    decreases s.len(),
{
    if s.len() == 0 {
        Seq::empty()
    } else {
        sorted_insert(s[0], sort_by_conf(s.drop_first()))
    }
}

/// A candidate is accepted when no already-kept candidate overlaps it more
/// than the threshold allows.
pub open spec fn accepts(kept: Seq<CandidateV>, c: CandidateV, thr: int) -> bool {
    forall|i: int|
        0 <= i < kept.len() ==> !iou_exceeds((#[trigger] kept[i]).bbox.rect, c.bbox.rect, thr)
}

/// Greedy suppression over a confidence-sorted candidate list.
pub open spec fn greedy_keep(s: Seq<CandidateV>, kept: Seq<CandidateV>, thr: int) -> Seq<
    CandidateV,
>
    decreases s.len(),
{
    if s.len() == 0 {
        kept
    } else if accepts(kept, s[0], thr) {
        greedy_keep(s.drop_first(), kept.push(s[0]), thr)
    } else {
        greedy_keep(s.drop_first(), kept, thr)
    }
}

/// Non-maximum suppression: sort by confidence descending (stable), then keep
/// each candidate unless it overlaps an already-kept one above the threshold.
pub open spec fn nms_spec(s: Seq<CandidateV>, thr: int) -> Seq<CandidateV> {
    greedy_keep(sort_by_conf(s), Seq::empty(), thr)
}

pub open spec fn sorted_desc(s: Seq<CandidateV>) -> bool {
    forall|i: int, j: int|
        0 <= i < j < s.len() ==> (#[trigger] s[i]).bbox.confidence >= (#[trigger] s[j]).bbox.confidence
}

/// No two elements exceed the IoU threshold against each other.
pub open spec fn pairwise_ok(s: Seq<CandidateV>, thr: int) -> bool {
    forall|i: int, j: int|
        0 <= i < j < s.len() ==> !iou_exceeds(
            (#[trigger] s[i]).bbox.rect,
            (#[trigger] s[j]).bbox.rect,
            thr,
        )
}

proof fn lemma_sorted_insert_sorted(c: CandidateV, s: Seq<CandidateV>)
    requires
        sorted_desc(s),
    ensures
        sorted_desc(sorted_insert(c, s)),
        sorted_insert(c, s).len() == s.len() + 1,
    decreases s.len(),
{
    if s.len() == 0 {
    } else if c.bbox.confidence >= s[0].bbox.confidence {
        let r = seq![c] + s;
        assert forall|i: int, j: int| 0 <= i < j < r.len() implies (#[trigger] r[i]).bbox.confidence
            >= (#[trigger] r[j]).bbox.confidence by {
            if i > 0 {
                assert(r[i] == s[i - 1]);
                assert(r[j] == s[j - 1]);
            } else {
                assert(r[j] == s[j - 1]);
                if j > 1 {
                    assert(s[0].bbox.confidence >= s[j - 1].bbox.confidence);
                }
            }
        }
    } else {
        assert(sorted_desc(s.drop_first()));
        lemma_sorted_insert_sorted(c, s.drop_first());
        let t = sorted_insert(c, s.drop_first());
        let r = seq![s[0]] + t;
        assert forall|k: int| 0 <= k < t.len() implies s[0].bbox.confidence >= (#[trigger] t[k]).bbox.confidence by {
            lemma_sorted_insert_elems(c, s.drop_first(), k);
        }
        assert forall|i: int, j: int| 0 <= i < j < r.len() implies (#[trigger] r[i]).bbox.confidence
            >= (#[trigger] r[j]).bbox.confidence by {
            if i > 0 {
                assert(r[i] == t[i - 1]);
                assert(r[j] == t[j - 1]);
            } else {
                assert(r[j] == t[j - 1]);
            }
        }
    }
}

proof fn lemma_sorted_insert_len(c: CandidateV, s: Seq<CandidateV>)
    ensures
        sorted_insert(c, s).len() == s.len() + 1,
    decreases s.len(),
{
    if s.len() == 0 {
    } else if c.bbox.confidence >= s[0].bbox.confidence {
    } else {
        lemma_sorted_insert_len(c, s.drop_first());
    }
}

/// Every element of an insertion result is the inserted element or one of the
/// originals.
proof fn lemma_sorted_insert_elems(c: CandidateV, s: Seq<CandidateV>, k: int)
    requires
        0 <= k < sorted_insert(c, s).len(),
    ensures
        sorted_insert(c, s).len() == s.len() + 1,
        sorted_insert(c, s)[k] == c || exists|m: int|
            0 <= m < s.len() && sorted_insert(c, s)[k] == s[m],
    decreases s.len(),
{
    lemma_sorted_insert_len(c, s);
    if s.len() == 0 {
    } else if c.bbox.confidence >= s[0].bbox.confidence {
        if k > 0 {
            assert(sorted_insert(c, s)[k] == s[k - 1]);
        }
    } else {
        if k == 0 {
            assert(sorted_insert(c, s)[0] == s[0]);
        } else {
            lemma_sorted_insert_elems(c, s.drop_first(), k - 1);
            assert(sorted_insert(c, s)[k] == sorted_insert(c, s.drop_first())[k - 1]);
            if sorted_insert(c, s.drop_first())[k - 1] != c {
                let m = choose|m: int|
                    0 <= m < s.drop_first().len() && sorted_insert(c, s.drop_first())[k - 1]
                        == s.drop_first()[m];
                assert(s.drop_first()[m] == s[m + 1]);
            }
        }
    }
}

proof fn lemma_sort_sorted(s: Seq<CandidateV>)
    ensures
        sorted_desc(sort_by_conf(s)),
        sort_by_conf(s).len() == s.len(),
    decreases s.len(),
{
    if s.len() > 0 {
        lemma_sort_sorted(s.drop_first());
        lemma_sorted_insert_sorted(s[0], sort_by_conf(s.drop_first()));
    }
}

/// Sorting an already-sorted list changes nothing: the stable tie-break keeps
/// equal-confidence elements in their original order.
proof fn lemma_sort_of_sorted(s: Seq<CandidateV>)
    requires
        sorted_desc(s),
    ensures
        sort_by_conf(s) =~= s,
    decreases s.len(),
{
    if s.len() > 0 {
        assert(sorted_desc(s.drop_first()));
        lemma_sort_of_sorted(s.drop_first());
        if s.len() == 1 {
            assert(sorted_insert(s[0], s.drop_first()) =~= seq![s[0]]);
            assert(sort_by_conf(s) =~= s);
        } else {
            assert(s[0].bbox.confidence >= s.drop_first()[0].bbox.confidence);
            assert(sorted_insert(s[0], s.drop_first()) =~= seq![s[0]] + s.drop_first());
            assert(seq![s[0]] + s.drop_first() =~= s);
        }
    }
}

/// Greedy suppression keeps the list sorted when the kept prefix and the
/// remaining input are sorted together.
proof fn lemma_greedy_sorted(s: Seq<CandidateV>, kept: Seq<CandidateV>, thr: int)
    requires
        sorted_desc(kept + s),
    ensures
        sorted_desc(greedy_keep(s, kept, thr)),
    decreases s.len(),
{
    if s.len() == 0 {
        assert(kept + s =~= kept);
    } else {
        if accepts(kept, s[0], thr) {
            assert(kept.push(s[0]) + s.drop_first() =~= kept + s);
            lemma_greedy_sorted(s.drop_first(), kept.push(s[0]), thr);
        } else {
            let w = kept + s.drop_first();
            let v = kept + s;
            assert forall|i: int, j: int| 0 <= i < j < w.len() implies (#[trigger] w[i]).bbox.confidence
                >= (#[trigger] w[j]).bbox.confidence by {
                let i2 = if i < kept.len() {
                    i
                } else {
                    i + 1
                };
                let j2 = if j < kept.len() {
                    j
                } else {
                    j + 1
                };
                assert(w[i] == v[i2]);
                assert(w[j] == v[j2]);
            }
            lemma_greedy_sorted(s.drop_first(), kept, thr);
        }
    }
}

/// Among the survivors of greedy suppression, no pair exceeds the threshold.
proof fn lemma_greedy_pairwise(s: Seq<CandidateV>, kept: Seq<CandidateV>, thr: int)
    requires
        pairwise_ok(kept, thr),
    ensures
        pairwise_ok(greedy_keep(s, kept, thr), thr),
    decreases s.len(),
{
    if s.len() > 0 {
        if accepts(kept, s[0], thr) {
            let k2 = kept.push(s[0]);
            assert forall|i: int, j: int| 0 <= i < j < k2.len() implies !iou_exceeds(
                (#[trigger] k2[i]).bbox.rect,
                (#[trigger] k2[j]).bbox.rect,
                thr,
            ) by {
                if j < kept.len() {
                    assert(k2[i] == kept[i]);
                    assert(k2[j] == kept[j]);
                } else {
                    assert(k2[j] == s[0]);
                    assert(k2[i] == kept[i]);
                    assert(!iou_exceeds(kept[i].bbox.rect, s[0].bbox.rect, thr));
                }
            }
            lemma_greedy_pairwise(s.drop_first(), k2, thr);
        } else {
            lemma_greedy_pairwise(s.drop_first(), kept, thr);
        }
    }
}

/// Greedy suppression keeps everything when no pair of the whole list exceeds
/// the threshold.
proof fn lemma_greedy_keeps_all(s: Seq<CandidateV>, kept: Seq<CandidateV>, thr: int)
    requires
        pairwise_ok(kept + s, thr),
    ensures
        greedy_keep(s, kept, thr) =~= kept + s,
    decreases s.len(),
{
    if s.len() == 0 {
        assert(kept + s =~= kept);
    } else {
        let v = kept + s;
        assert forall|i: int| 0 <= i < kept.len() implies !iou_exceeds(
            (#[trigger] kept[i]).bbox.rect,
            s[0].bbox.rect,
            thr,
        ) by {
            assert(v[i] == kept[i]);
            assert(v[kept.len() as int] == s[0]);
        }
        assert(accepts(kept, s[0], thr));
        assert(kept.push(s[0]) + s.drop_first() =~= kept + s);
        lemma_greedy_keeps_all(s.drop_first(), kept.push(s[0]), thr);
    }
}

/// Suppression is idempotent: running NMS on its own output returns that
/// output unchanged — no pair among the survivors still exceeds the IoU
/// threshold, and the survivors are already in sorted order.
pub proof fn lemma_nms_idempotent(s: Seq<CandidateV>, thr: int)
    ensures
        nms_spec(nms_spec(s, thr), thr) == nms_spec(s, thr),
{
    let r = nms_spec(s, thr);
    lemma_sort_sorted(s);
    assert(Seq::<CandidateV>::empty() + sort_by_conf(s) =~= sort_by_conf(s));
    lemma_greedy_sorted(sort_by_conf(s), Seq::empty(), thr);
    assert(pairwise_ok(Seq::<CandidateV>::empty(), thr));
    lemma_greedy_pairwise(sort_by_conf(s), Seq::empty(), thr);
    lemma_sort_of_sorted(r);
    assert(Seq::<CandidateV>::empty() + r =~= r);
    lemma_greedy_keeps_all(r, Seq::empty(), thr);
    assert(nms_spec(r, thr) =~= r);
}

/// Every survivor of `sorted_insert` satisfies any property all inputs satisfy.
proof fn lemma_insert_all(c: CandidateV, s: Seq<CandidateV>, f: spec_fn(CandidateV) -> bool)
    requires
        f(c),
        forall|i: int| 0 <= i < s.len() ==> f(#[trigger] s[i]),
    ensures
        forall|i: int|
            0 <= i < sorted_insert(c, s).len() ==> f(#[trigger] sorted_insert(c, s)[i]),
    decreases s.len(),
{
    assert forall|i: int| 0 <= i < sorted_insert(c, s).len() implies f(
        #[trigger] sorted_insert(c, s)[i],
    ) by {
        lemma_sorted_insert_elems(c, s, i);
    }
}

proof fn lemma_sort_all(s: Seq<CandidateV>, f: spec_fn(CandidateV) -> bool)
    requires
        forall|i: int| 0 <= i < s.len() ==> f(#[trigger] s[i]),
    ensures
        forall|i: int| 0 <= i < sort_by_conf(s).len() ==> f(#[trigger] sort_by_conf(s)[i]),
    decreases s.len(),
{
    if s.len() > 0 {
        assert(forall|i: int|
            0 <= i < s.drop_first().len() ==> f(#[trigger] s.drop_first()[i]));
        lemma_sort_all(s.drop_first(), f);
        lemma_insert_all(s[0], sort_by_conf(s.drop_first()), f);
    }
}

proof fn lemma_greedy_all(
    s: Seq<CandidateV>,
    kept: Seq<CandidateV>,
    thr: int,
    f: spec_fn(CandidateV) -> bool,
)
    requires
        forall|i: int| 0 <= i < s.len() ==> f(#[trigger] s[i]),
        forall|i: int| 0 <= i < kept.len() ==> f(#[trigger] kept[i]),
    ensures
        forall|i: int|
            0 <= i < greedy_keep(s, kept, thr).len() ==> f(#[trigger] greedy_keep(s, kept, thr)[i]),
    decreases s.len(),
{
    if s.len() > 0 {
        assert(forall|i: int|
            0 <= i < s.drop_first().len() ==> f(#[trigger] s.drop_first()[i]));
        if accepts(kept, s[0], thr) {
            assert(forall|i: int|
                0 <= i < kept.push(s[0]).len() ==> f(#[trigger] kept.push(s[0])[i]));
            lemma_greedy_all(s.drop_first(), kept.push(s[0]), thr, f);
            assert(greedy_keep(s, kept, thr) == greedy_keep(s.drop_first(), kept.push(s[0]), thr));
        } else {
            lemma_greedy_all(s.drop_first(), kept, thr, f);
            assert(greedy_keep(s, kept, thr) == greedy_keep(s.drop_first(), kept, thr));
        }
    }
}

/// Every NMS survivor satisfies any property that every input candidate
/// satisfies: the Suppression Engine only discards, never alters.
pub proof fn lemma_nms_preserves_all(s: Seq<CandidateV>, thr: int, f: spec_fn(CandidateV) -> bool)
    requires
        forall|i: int| 0 <= i < s.len() ==> f(#[trigger] s[i]),
    ensures
        forall|i: int|
            0 <= i < nms_spec(s, thr).len() ==> f(#[trigger] nms_spec(s, thr)[i]),
{
    lemma_sort_all(s, f);
    lemma_greedy_all(sort_by_conf(s), Seq::empty(), thr, f);
}

fn insert_cand(c: Candidate, s: Vec<Candidate>) -> (r: Vec<Candidate>)
    ensures
        cands_view(r@) == sorted_insert(c@, cands_view(s@)),
    decreases s@.len(),
{
    let mut s = s;
    if s.len() == 0 {
        let mut r: Vec<Candidate> = Vec::new();
        r.push(c);
        proof {
            assert(cands_view(r@) =~= sorted_insert(c@, cands_view(s@)));
        }
        r
    } else if c.bbox.confidence >= s[0].bbox.confidence {
        let ghost s0 = s@;
        proof {
            assert(cands_view(s@)[0] == s@[0]@);
        }
        s.insert(0, c);
        proof {
            assert(cands_view(s@) =~= seq![c@] + cands_view(s0));
        }
        s
    } else {
        let ghost s0 = s@;
        let h = s.remove(0);
        proof {
            assert(cands_view(s@) =~= cands_view(s0).drop_first());
        }
        let mut r = insert_cand(c, s);
        r.insert(0, h);
        proof {
            assert(cands_view(r@) =~= seq![h@] + sorted_insert(c@, cands_view(s0).drop_first()));
        }
        r
    }
}

/// Non-maximum suppression, in place: sort the candidates by confidence
/// descending (stable), then greedily keep each candidate whose box does not
/// overlap an already-kept box with IoU above `iou_threshold`.
pub fn non_max_suppression(xs: &mut Vec<Candidate>, iou_threshold: i64)
    requires
        cands_bounded(cands_view(old(xs)@)),
        0 <= iou_threshold <= SCALE,
    ensures
        cands_view(final(xs)@) == nms_spec(cands_view(old(xs)@), iou_threshold as int),
{
    let ghost orig = cands_view(xs@);
    let mut sorted: Vec<Candidate> = Vec::new();
    while xs.len() > 0
        invariant
            xs@.len() <= orig.len(),
            cands_view(xs@) =~= orig.take(xs@.len() as int),
            cands_view(sorted@) =~= sort_by_conf(orig.skip(xs@.len() as int)),
        decreases xs@.len(),
    {
        let ghost n = xs@.len() as int;
        let ghost prev = xs@;
        let c = xs.pop().unwrap();
        proof {
            assert(c == prev[n - 1]);
            assert(cands_view(prev)[n - 1] == prev[n - 1]@);
            assert(c@ == orig[n - 1]);
            assert(cands_view(xs@) =~= orig.take(n - 1));
            assert(orig.skip(n - 1)[0] == orig[n - 1]);
            assert(orig.skip(n - 1).drop_first() =~= orig.skip(n));
        }
        sorted = insert_cand(c, sorted);
    }
    proof {
        assert(orig.skip(0) =~= orig);
        lemma_sort_all(orig, |c: CandidateV| cand_bounded(c));
    }
    let mut kept: Vec<Candidate> = Vec::new();
    while sorted.len() > 0
        invariant
            0 <= iou_threshold <= SCALE,
            forall|i: int|
                0 <= i < cands_view(sorted@).len() ==> cand_bounded(#[trigger] cands_view(sorted@)[i]),
            cands_bounded(cands_view(kept@)),
            greedy_keep(cands_view(sorted@), cands_view(kept@), iou_threshold as int) == nms_spec(
                orig,
                iou_threshold as int,
            ),
        decreases sorted@.len(),
    {
        let ghost sv = cands_view(sorted@);
        let c = sorted.remove(0);
        proof {
            assert(c@ == sv[0]);
            assert(cands_view(sorted@) =~= sv.drop_first());
        }
        let mut ok = true;
        let mut j: usize = 0;
        while j < kept.len()
            invariant
                j <= kept@.len(),
                cands_bounded(cands_view(kept@)),
                cand_bounded(c@),
                0 <= iou_threshold <= SCALE,
                ok == accepts(cands_view(kept@).take(j as int), c@, iou_threshold as int),
            decreases kept@.len() - j,
        {
            proof {
                assert(cands_view(kept@)[j as int] == kept@[j as int]@);
            }
            let hit = iou_exceeds_exec(&kept[j].bbox.rect, &c.bbox.rect, iou_threshold);
            if hit {
                ok = false;
            }
            proof {
                let kv = cands_view(kept@);
                assert(kv.take(j as int + 1).drop_last() =~= kv.take(j as int));
                assert(kv.take(j as int + 1)[j as int] == kv[j as int]);
                if !hit && ok {
                    assert forall|i: int| 0 <= i < j + 1 implies !iou_exceeds(
                        (#[trigger] kv.take(j as int + 1)[i]).bbox.rect,
                        c@.bbox.rect,
                        iou_threshold as int,
                    ) by {
                        assert(kv.take(j as int + 1)[i] == kv[i]);
                        if i < j {
                            assert(kv.take(j as int)[i] == kv[i]);
                        }
                    }
                }
                if !ok {
                    if !accepts(kv.take(j as int), c@, iou_threshold as int) {
                        let w = choose|i: int|
                            0 <= i < j && iou_exceeds(
                                (#[trigger] kv.take(j as int)[i]).bbox.rect,
                                c@.bbox.rect,
                                iou_threshold as int,
                            );
                        assert(kv.take(j as int + 1)[w] == kv.take(j as int)[w]);
                    }
                }
            }
            j = j + 1;
        }
        proof {
            assert(cands_view(kept@).take(kept@.len() as int) =~= cands_view(kept@));
        }
        if ok {
            let ghost k0 = kept@;
            kept.push(c);
            proof {
                assert(cands_view(kept@) =~= cands_view(k0).push(c@));
            }
        }
    }
    proof {
        assert(cands_view(sorted@).len() == 0);
    }
    *xs = kept;
}

} // verus!
