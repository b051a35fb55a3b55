use vstd::prelude::*;

use crate::SCALE;

verus! {

/// Bound on every coordinate field of a rectangle that reaches IoU
/// computation: keeps all IoU products inside `i128`.
pub const RECT_BOUND: i64 = 0x1_0000_0000_0000;

/// Truncating division (round toward zero), for a positive divisor.
/// This is the division the fixed-point arithmetic of this crate uses.
pub open spec fn tdiv(a: int, b: int) -> int {
    if a >= 0 {
        a / b
    } else {
        -((-a) / b)
    }
}

/// `a / r` in fixed point: the integer standing for the real quotient,
/// truncated toward zero.
pub open spec fn div_scaled_spec(a: int, r: int) -> int {
    tdiv(a * SCALE, r)
}

/// `clamp(v, 0, upper)`.
pub open spec fn clamp0_spec(v: int, upper: int) -> int {
    if v < 0 {
        0
    } else if v > upper {
        upper
    } else {
        v
    }
}

pub fn clamp0(v: i64, upper: i64) -> (r: i64)
    requires
        upper >= 0,
    ensures
        r == clamp0_spec(v as int, upper as int),
{
    if v < 0 {
        0
    } else if v > upper {
        upper
    } else {
        v
    }
}

/// Fixed-point division of `a` by the positive fixed-point value `r`.
pub fn div_scaled(a: i64, r: i64) -> (q: i64)
    requires
        1 <= r,
        -crate::CELL_BOUND <= a <= crate::CELL_BOUND,
    ensures
        q == div_scaled_spec(a as int, r as int),
        -crate::CELL_BOUND * SCALE <= q <= crate::CELL_BOUND * SCALE,
{
    let rr: u128 = r as u128;
    if a >= 0 {
        let mag: u128 = (a as u128) * 4096u128;
        assert(mag / rr <= mag) by (nonlinear_arith)
            requires
                1 <= rr,
        ;
        let d: u128 = mag / rr;
        d as i64
    } else {
        let mag: u128 = ((-(a as i128)) as u128) * 4096u128;
        assert(mag / rr <= mag) by (nonlinear_arith)
            requires
                1 <= rr,
        ;
        let d: u128 = mag / rr;
        (-(d as i128)) as i64
    }
}

/// Truncating halving, as the fixed-point form of dividing an extent by two.
pub fn half(a: i64) -> (q: i64)
    ensures
        q == tdiv(a as int, 2),
{
    if a >= 0 {
        ((a as u64) / 2u64) as i64
    } else {
        let m: u128 = (-(a as i128)) as u128;
        (-((m / 2u128) as i128)) as i64
    }
}

/// An axis-aligned rectangle: top-left corner plus extents, in fixed-point
/// original-image pixel coordinates.
#[derive(Clone, Copy, Debug, PartialEq, Eq, Structural)]
pub struct Rect {
    pub x: i64,
    pub y: i64,
    pub w: i64,
    pub h: i64,
}

pub ghost struct RectV {
    pub x: int,
    pub y: int,
    pub w: int,
    pub h: int,
}

impl View for Rect {
    type V = RectV;

    open spec fn view(&self) -> RectV {
        RectV { x: self.x as int, y: self.y as int, w: self.w as int, h: self.h as int }
    }
}

impl Rect {
    pub fn from_xywh(x: i64, y: i64, w: i64, h: i64) -> (r: Rect)
        ensures
            r == (Rect { x, y, w, h }),
    {
        Rect { x, y, w, h }
    }
}

pub open spec fn rect_bounded(r: RectV) -> bool {
    &&& -RECT_BOUND <= r.x <= RECT_BOUND
    &&& -RECT_BOUND <= r.y <= RECT_BOUND
    &&& -RECT_BOUND <= r.w <= RECT_BOUND
    &&& -RECT_BOUND <= r.h <= RECT_BOUND
}

/// Length of the overlap of the segments `[a0, a0+al]` and `[b0, b0+bl]`,
/// zero when they do not meet.
pub open spec fn inter_1d(a0: int, al: int, b0: int, bl: int) -> int {
    let lo = if a0 > b0 {
        a0
    } else {
        b0
    };
    let hi = if a0 + al < b0 + bl {
        a0 + al
    } else {
        b0 + bl
    };
    if hi > lo {
        hi - lo
    } else {
        0
    }
}

pub open spec fn rect_area(r: RectV) -> int {
    r.w * r.h
}

pub open spec fn inter_area(a: RectV, b: RectV) -> int {
    inter_1d(a.x, a.w, b.x, b.w) * inter_1d(a.y, a.h, b.y, b.h)
}

pub open spec fn union_area(a: RectV, b: RectV) -> int {
    rect_area(a) + rect_area(b) - inter_area(a, b)
}

/// `IoU(a, b) > thr` in fixed point, written without a division:
/// `inter / union > thr / SCALE  <==>  inter * SCALE > union * thr`.
/// Non-overlapping rectangles have `inter == 0`, so their IoU counts as zero.
pub open spec fn iou_exceeds(a: RectV, b: RectV, thr: int) -> bool {
    inter_area(a, b) * SCALE > union_area(a, b) * thr
}

/// Exact test of `IoU(a, b) > thr`.
pub fn iou_exceeds_exec(a: &Rect, b: &Rect, thr: i64) -> (r: bool)
    requires
        rect_bounded(a@),
        rect_bounded(b@),
        0 <= thr <= SCALE,
    ensures
        r == iou_exceeds(a@, b@, thr as int),
{
    let ax: i128 = a.x as i128;
    let ay: i128 = a.y as i128;
    let aw: i128 = a.w as i128;
    let ah: i128 = a.h as i128;
    let bx: i128 = b.x as i128;
    let b_y: i128 = b.y as i128;
    let bw: i128 = b.w as i128;
    let bh: i128 = b.h as i128;
    let lo_x: i128 = if ax > bx {
        ax
    } else {
        bx
    };
    let hi_x: i128 = if (ax + aw) < (bx + bw) {
        ax + aw
    } else {
        bx + bw
    };
    let ix: i128 = if hi_x > lo_x {
        hi_x - lo_x
    } else {
        0
    };
    let lo_y: i128 = if ay > b_y {
        ay
    } else {
        b_y
    };
    let hi_y: i128 = if (ay + ah) < (b_y + bh) {
        ay + ah
    } else {
        b_y + bh
    };
    let iy: i128 = if hi_y > lo_y {
        hi_y - lo_y
    } else {
        0
    };
    assert(0 <= ix * iy <= 0x10_0000_0000_0000_0000_0000_0000) by (nonlinear_arith)
        requires
            0 <= ix <= 0x4_0000_0000_0000,
            0 <= iy <= 0x4_0000_0000_0000,
    ;
    assert(-0x10_0000_0000_0000_0000_0000_0000 <= aw * ah <= 0x10_0000_0000_0000_0000_0000_0000)
        by (nonlinear_arith)
        requires
            -0x4_0000_0000_0000 <= aw <= 0x4_0000_0000_0000,
            -0x4_0000_0000_0000 <= ah <= 0x4_0000_0000_0000,
    ;
    assert(-0x10_0000_0000_0000_0000_0000_0000 <= bw * bh <= 0x10_0000_0000_0000_0000_0000_0000)
        by (nonlinear_arith)
        requires
            -0x4_0000_0000_0000 <= bw <= 0x4_0000_0000_0000,
            -0x4_0000_0000_0000 <= bh <= 0x4_0000_0000_0000,
    ;
    let inter: i128 = ix * iy;
    let uni: i128 = aw * ah + bw * bh - inter;
    let sc: i128 = SCALE as i128;
    let th: i128 = thr as i128;
    assert(-0x4000_0000_0000_0000_0000_0000_0000_0000 <= uni * th
        <= 0x4000_0000_0000_0000_0000_0000_0000_0000) by (nonlinear_arith)
        requires
            -0x40_0000_0000_0000_0000_0000_0000 <= uni <= 0x40_0000_0000_0000_0000_0000_0000,
            0 <= th <= 4096,
    ;
    assert(0 <= inter * sc <= 0x4000_0000_0000_0000_0000_0000_0000_0000) by (nonlinear_arith)
        requires
            0 <= inter <= 0x10_0000_0000_0000_0000_0000_0000,
            0 <= sc <= 4096,
    ;
    inter * sc > uni * th
}

/// The spec-level value of an optional label.
pub open spec fn opt_str_view(o: Option<String>) -> Option<Seq<char>> {
    match o {
        Option::Some(n) => Option::Some(n@),
        Option::None => Option::None,
    }
}

/// A detection: a rectangle in original-image pixel space, the class index,
/// the class confidence, and an optional class label.
#[derive(Clone, Debug)]
pub struct Bbox {
    pub rect: Rect,
    pub id: usize,
    pub confidence: i64,
    pub name: Option<String>,
}

pub ghost struct BboxV {
    pub rect: RectV,
    pub id: int,
    pub confidence: int,
    pub name: Option<Seq<char>>,
}

impl View for Bbox {
    type V = BboxV;

    open spec fn view(&self) -> BboxV {
        BboxV {
            rect: self.rect@,
            id: self.id as int,
            confidence: self.confidence as int,
            name: opt_str_view(self.name),
        }
    }
}

impl Bbox {
    pub fn new(rect: Rect, id: usize, confidence: i64, name: Option<String>) -> (r: Bbox)
        ensures
            r == (Bbox { rect, id, confidence, name }),
    {
        Bbox { rect, id, confidence, name }
    }

    pub fn xmin(&self) -> (r: i64)
        ensures
            r == self.rect.x,
    {
        self.rect.x
    }

    pub fn ymin(&self) -> (r: i64)
        ensures
            r == self.rect.y,
    {
        self.rect.y
    }

    pub fn xmax(&self) -> (r: i64)
        requires
            rect_bounded(self.rect@),
        ensures
            r == self.rect.x + self.rect.w,
    {
        self.rect.x + self.rect.w
    }

    pub fn ymax(&self) -> (r: i64)
        requires
            rect_bounded(self.rect@),
        ensures
            r == self.rect.y + self.rect.h,
    {
        self.rect.y + self.rect.h
    }
}

} // verus!
