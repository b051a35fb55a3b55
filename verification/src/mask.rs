use vstd::prelude::*;

use crate::geometry::{clamp0_spec, rect_bounded, tdiv, Rect, RectV};
use crate::results::cells_bounded;
use crate::{CELL_BOUND, MAX_DIM, SCALE};

verus! {

/// An instance mask raster: single channel, row-major, one byte per pixel,
/// with the dimensions of the original image.
pub type InstanceMask = Vec<u8>;

/// What `image::imageops::resize` with the triangle filter returns for a
/// gray raster: a pure function of the raster and the dimensions.
pub uninterp spec fn triangle_resized(data: Seq<u8>, w: int, h: int, nw: int, nh: int) -> Seq<u8>;

/// Relies on image::imageops::resize with FilterType::Triangle: it returns a
/// raster of exactly the requested dimensions, computed from the input raster
/// and the dimensions alone.
#[verifier::external_body]
fn resize_gray(data: &Vec<u8>, w: u32, h: u32, nw: u32, nh: u32) -> (r: Vec<u8>)
    requires
        data@.len() == w as int * h as int,
        nw <= MAX_DIM,
        nh <= MAX_DIM,
    ensures
        r@.len() == nw as int * nh as int,
        r@ == triangle_resized(data@, w as int, h as int, nw as int, nh as int),
{
    let img: image::GrayImage = image::ImageBuffer::from_raw(w, h, data.clone()).unwrap();
    let out = image::imageops::resize(&img, nw, nh, image::imageops::FilterType::Triangle);
    out.into_raw()
}

/// The dot product of the first `k` mask coefficients with prototype column
/// `pix` (each prototype plane is `area` cells long).
pub open spec fn mask_dot(coefs: Seq<i64>, proto: Seq<i64>, area: int, pix: int, k: int) -> int
    decreases k,
{
    if k <= 0 {
        0
    } else {
        mask_dot(coefs, proto, area, pix, k - 1) + coefs[k - 1] * proto[(k - 1) * area + pix]
    }
}

/// Fixed-point soft-mask value to a byte: clamp into `[0, 1]` (fixed point),
/// then scale to `[0, 255]`, rounding to nearest.
pub open spec fn quantize_spec(v: int) -> int {
    (clamp0_spec(v, SCALE as int) * 255 + 2048) / 4096
}

/// The quantized soft mask of one detection over the prototype canvas.
pub open spec fn soft_mask_spec(coefs: Seq<i64>, proto: Seq<i64>, area: int) -> Seq<u8> {
    Seq::new(
        area as nat,
        |pix: int| quantize_spec(tdiv(mask_dot(coefs, proto, area, pix, coefs.len() as int), SCALE as int)) as u8,
    )
}

/// One cropped row.
pub open spec fn crop_row(data: Seq<u8>, w: int, cw: int, y: int) -> Seq<u8> {
    Seq::new(cw as nat, |x: int| data[y * w + x])
}

/// The top-left `cw` x `ch` sub-raster of a `w`-wide raster, row-major.
pub open spec fn crop_spec(data: Seq<u8>, w: int, cw: int, ch: int) -> Seq<u8>
    decreases ch,
{
    if ch <= 0 {
        Seq::empty()
    } else {
        crop_spec(data, w, cw, ch - 1) + crop_row(data, w, cw, ch - 1)
    }
}

/// The letterbox fit of a `w0` x `h0` image inside a `w1` x `h1` canvas:
/// with `r = min(w1/w0, h1/h0)`, the extents `round(w0*r)` and `round(h0*r)`.
/// On the tight axis the extent is exact; the other rounds to nearest.
pub open spec fn scale_wh_spec(w0: int, h0: int, w1: int, h1: int) -> (int, int) {
    if w1 * h0 <= h1 * w0 {
        (w1, (2 * h0 * w1 + w0) / (2 * w0))
    } else {
        ((2 * w0 * h1 + h0) / (2 * h0), h1)
    }
}

/// Multiply two small values without overflow.
fn mul_dim(a: u64, b: u64) -> (r: u64)
    requires
        a <= 0x40_0000,
        b <= 0x40_0000,
    ensures
        r == a * b,
        r <= 0x1000_0000_0000,
{
    proof {
        assert(a * b <= 0x40_0000 * 0x40_0000) by (nonlinear_arith)
            requires
                a <= 0x40_0000,
                b <= 0x40_0000,
        ;
    }
    a * b
}

/// Compute the letterbox fit region.
pub fn scale_wh(w0: u32, h0: u32, w1: u32, h1: u32) -> (r: (u32, u32))
    requires
        1 <= w0 <= MAX_DIM,
        1 <= h0 <= MAX_DIM,
        w1 <= MAX_DIM,
        h1 <= MAX_DIM,
    ensures
        (r.0 as int, r.1 as int) == scale_wh_spec(w0 as int, h0 as int, w1 as int, h1 as int),
        r.0 <= w1,
        r.1 <= h1,
{
    let a: u64 = mul_dim(w1 as u64, h0 as u64);
    let b: u64 = mul_dim(h1 as u64, w0 as u64);
    if a <= b {
        let num: u64 = mul_dim(2 * (h0 as u64), w1 as u64) + (w0 as u64);
        let den: u64 = 2 * (w0 as u64);
        let hm: u64 = num / den;
        proof {
            assert(num < ((h1 as u64) + 1) * den) by (nonlinear_arith)
                requires
                    num == (2 * (h0 as u64)) * (w1 as u64) + w0,
                    den == 2 * (w0 as u64),
                    (w1 as u64) * (h0 as u64) <= (h1 as u64) * (w0 as u64),
                    1 <= w0,
            ;
            vstd::arithmetic::div_mod::lemma_multiply_divide_lt(
                num as int,
                den as int,
                (h1 as u64) + 1,
            );
        }
        (w1, hm as u32)
    } else {
        let num: u64 = mul_dim(2 * (w0 as u64), h1 as u64) + (h0 as u64);
        let den: u64 = 2 * (h0 as u64);
        let wm: u64 = num / den;
        proof {
            assert(num < ((w1 as u64) + 1) * den) by (nonlinear_arith)
                requires
                    num == (2 * (w0 as u64)) * (h1 as u64) + h0,
                    den == 2 * (h0 as u64),
                    (h1 as u64) * (w0 as u64) < (w1 as u64) * (h0 as u64),
                    1 <= h0,
            ;
            vstd::arithmetic::div_mod::lemma_multiply_divide_lt(
                num as int,
                den as int,
                (w1 as u64) + 1,
            );
        }
        (wm as u32, h1)
    }
}

/// The pixel coordinate a fixed-point coordinate covers, saturating at zero.
pub open spec fn px_floor(v: int) -> int {
    if v < 0 {
        0
    } else {
        v / (SCALE as int)
    }
}

/// Whether the pixel `(x, y)` lies inside the detection's own box, as the
/// mask cropper reads it.
pub open spec fn mask_keep(b: RectV, x: int, y: int) -> bool {
    &&& px_floor(b.x) <= x <= px_floor(b.x + b.w)
    &&& px_floor(b.y) <= y <= px_floor(b.y + b.h)
}

/// The mask with every pixel outside the box zeroed.
pub open spec fn crop_to_box_spec(mask: Seq<u8>, w0: int, b: RectV) -> Seq<u8> {
    Seq::new(
        mask.len(),
        |i: int|
            if mask_keep(b, i % w0, i / w0) {
                mask[i]
            } else {
                0u8
            },
    )
}

/// Zero every pixel outside the detection's box.
pub fn crop_to_box(mask: &Vec<u8>, w0: u32, h0: u32, b: &Rect) -> (r: Vec<u8>)
    requires
        mask@.len() == w0 as int * h0 as int,
        1 <= w0 <= MAX_DIM,
        h0 <= MAX_DIM,
        rect_bounded(b@),
        b.x >= 0,
        b.y >= 0,
    ensures
        r@ == crop_to_box_spec(mask@, w0 as int, b@),
{
    let xmin: u64 = (b.x as u64) / 4096;
    let ymin: u64 = (b.y as u64) / 4096;
    let xmax_fx: i64 = b.x + b.w;
    let ymax_fx: i64 = b.y + b.h;
    let xmax: u64 = if xmax_fx < 0 {
        0
    } else {
        (xmax_fx as u64) / 4096
    };
    let ymax: u64 = if ymax_fx < 0 {
        0
    } else {
        (ymax_fx as u64) / 4096
    };
    let mut r: Vec<u8> = Vec::new();
    let mut y: usize = 0;
    let mut x: usize = 0;
    let mut i: usize = 0;
    while i < mask.len()
        invariant
            mask@.len() == w0 as int * h0 as int,
            1 <= w0 <= MAX_DIM,
            h0 <= MAX_DIM,
            i <= mask@.len(),
            i == y * (w0 as int) + x,
            x < w0,
            y <= h0,
            xmin == px_floor(b@.x),
            ymin == px_floor(b@.y),
            xmax == px_floor(b@.x + b@.w),
            ymax == px_floor(b@.y + b@.h),
            r@ =~= crop_to_box_spec(mask@, w0 as int, b@).take(i as int),
        decreases mask@.len() - i,
    {
        proof {
            vstd::arithmetic::div_mod::lemma_fundamental_div_mod_converse(
                i as int,
                w0 as int,
                y as int,
                x as int,
            );
        }
        let keep = xmin <= (x as u64) && (x as u64) <= xmax && ymin <= (y as u64) && (y as u64)
            <= ymax;
        let v = if keep {
            mask[i]
        } else {
            0u8
        };
        r.push(v);
        proof {
            assert(r@ =~= crop_to_box_spec(mask@, w0 as int, b@).take(i as int + 1));
        }
        i = i + 1;
        x = x + 1;
        if x == w0 as usize {
            x = 0;
            y = y + 1;
            proof {
                assert(i == y * (w0 as int)) by (nonlinear_arith)
                    requires
                        i == (y - 1) * (w0 as int) + (w0 as int),
                ;
                assert(y <= h0) by (nonlinear_arith)
                    requires
                        y * (w0 as int) <= (w0 as int) * (h0 as int),
                        w0 >= 1,
                        y >= 0,
                ;
            }
        }
    }
    proof {
        assert(crop_to_box_spec(mask@, w0 as int, b@).take(i as int) =~= crop_to_box_spec(
            mask@,
            w0 as int,
            b@,
        ));
    }
    r
}

/// Compute the quantized soft mask over the prototype canvas.
fn soft_mask(coefs: &Vec<i64>, proto: &Vec<i64>, nm: usize, area: usize) -> (r: Vec<u8>)
    requires
        coefs@.len() == nm,
        proto@.len() == nm * area,
        cells_bounded(coefs@),
        cells_bounded(proto@),
        nm >= 1,
    ensures
        r@ == soft_mask_spec(coefs@, proto@, area as int),
{
    let mut r: Vec<u8> = Vec::new();
    let mut pix: usize = 0;
    while pix < area
        invariant
            coefs@.len() == nm,
            proto@.len() == nm * area,
            cells_bounded(coefs@),
            cells_bounded(proto@),
            nm >= 1,
            pix <= area,
            r@ =~= soft_mask_spec(coefs@, proto@, area as int).take(pix as int),
        decreases area - pix,
    {
        let mut acc: i128 = 0;
        let mut k: usize = 0;
        while k < nm
            invariant
                coefs@.len() == nm,
                proto@.len() == nm * area,
                cells_bounded(coefs@),
                cells_bounded(proto@),
                pix < area,
                k <= nm,
                acc == mask_dot(coefs@, proto@, area as int, pix as int, k as int),
                -(k as int) * (CELL_BOUND as int) * (CELL_BOUND as int) <= acc <= (k as int) * (
                CELL_BOUND as int) * (CELL_BOUND as int),
            decreases nm - k,
        {
            let pl = proto.len();
            proof {
                assert(k * area + pix < nm * area && k * area <= nm * area) by (nonlinear_arith)
                    requires
                        0 <= k < nm,
                        0 <= pix < area,
                ;
                assert(pl <= usize::MAX);
            }
            let c: i128 = coefs[k] as i128;
            let pv: i128 = proto[k * area + pix] as i128;
            proof {
                assert(-(CELL_BOUND as int) * (CELL_BOUND as int) <= c * pv <= (CELL_BOUND as int)
                    * (CELL_BOUND as int)) by (nonlinear_arith)
                    requires
                        -CELL_BOUND <= c <= CELL_BOUND,
                        -CELL_BOUND <= pv <= CELL_BOUND,
                ;
                assert(((k as int) + 1) * (CELL_BOUND as int) * (CELL_BOUND as int) == (k as int)
                    * (CELL_BOUND as int) * (CELL_BOUND as int) + (CELL_BOUND as int) * (
                CELL_BOUND as int)) by (nonlinear_arith);
                assert((nm as int) * (CELL_BOUND as int) * (CELL_BOUND as int)
                    < 0x4000_0000_0000_0000_0000_0000_0000_0000) by (nonlinear_arith)
                    requires
                        nm <= usize::MAX,
                ;
                assert((k as int) + 1 <= nm as int);
                assert(((k as int) + 1) * (CELL_BOUND as int) * (CELL_BOUND as int) <= (nm as int)
                    * (CELL_BOUND as int) * (CELL_BOUND as int)) by (nonlinear_arith)
                    requires
                        (k as int) + 1 <= nm as int,
            ;
            }
            acc = acc + c * pv;
            k = k + 1;
        }
        // quantize: clamp the fixed-point value into [0, SCALE], then map to a byte
        let d: u64 = if acc <= 0 {
            0
        } else {
            let t: u128 = (acc as u128) / 4096u128;
            if t >= 4096 {
                4096
            } else {
                t as u64
            }
        };
        proof {
            let dot = mask_dot(coefs@, proto@, area as int, pix as int, nm as int);
            assert(d as int == clamp0_spec(tdiv(dot, SCALE as int), SCALE as int));
        }
        let q: u8 = ((d * 255 + 2048) / 4096) as u8;
        r.push(q);
        proof {
            assert(r@ =~= soft_mask_spec(coefs@, proto@, area as int).take(pix as int + 1));
        }
        pix = pix + 1;
    }
    proof {
        assert(soft_mask_spec(coefs@, proto@, area as int).take(area as int) =~= soft_mask_spec(
            coefs@,
            proto@,
            area as int,
        ));
    }
    r
}

/// Copy out the top-left `cw` x `ch` region of a `w`-wide raster.
fn crop_gray(data: &Vec<u8>, w: u32, h: u32, cw: u32, ch: u32) -> (r: Vec<u8>)
    requires
        data@.len() == w as int * h as int,
        cw <= w,
        ch <= h,
    ensures
        r@ == crop_spec(data@, w as int, cw as int, ch as int),
        r@.len() == cw as int * ch as int,
{
    let mut r: Vec<u8> = Vec::new();
    let mut y: usize = 0;
    while y < ch as usize
        invariant
            data@.len() == w as int * h as int,
            cw <= w,
            ch <= h,
            y <= ch,
            r@ =~= crop_spec(data@, w as int, cw as int, y as int),
            r@.len() == cw as int * y as int,
        decreases ch - y,
    {
        let mut x: usize = 0;
        let ghost r0 = r@;
        while x < cw as usize
            invariant
                data@.len() == w as int * h as int,
                cw <= w,
                ch <= h,
                y < ch,
                x <= cw,
                r@ =~= r0 + crop_row(data@, w as int, cw as int, y as int).take(x as int),
            decreases cw - x,
        {
            let dl = data.len();
            proof {
                assert(y * (w as int) + x < (w as int) * (h as int)) by (nonlinear_arith)
                    requires
                        0 <= y < h,
                        0 <= x < w,
                ;
                assert(y * (w as int) <= y * (w as int) + x);
                assert(0 <= y * (w as int)) by (nonlinear_arith)
                    requires
                        y >= 0,
                        w >= 0,
                ;
                assert(dl <= usize::MAX);
            }
            let idx: usize = y * (w as usize) + x;
            r.push(data[idx]);
            proof {
                assert(r@ =~= r0 + crop_row(data@, w as int, cw as int, y as int).take(
                    x as int + 1,
                ));
            }
            x = x + 1;
        }
        proof {
            assert(crop_row(data@, w as int, cw as int, y as int).take(cw as int) =~= crop_row(
                data@,
                w as int,
                cw as int,
                y as int,
            ));
            assert(r@ =~= crop_spec(data@, w as int, cw as int, y as int + 1));
            lemma_crop_len(data@, w as int, cw as int, y as int + 1);
        }
        y = y + 1;
    }
    r
}

pub proof fn lemma_crop_len(data: Seq<u8>, w: int, cw: int, ch: int)
    requires
        cw >= 0,
        ch >= 0,
    ensures
        crop_spec(data, w, cw, ch).len() == cw * ch,
    decreases ch,
{
    if ch > 0 {
        lemma_crop_len(data, w, cw, ch - 1);
        assert(cw * ch == cw * (ch - 1) + cw) by (nonlinear_arith);
    } else {
        assert(cw * ch == 0) by (nonlinear_arith)
            requires
                ch == 0,
        ;
    }
}

/// The full instance mask of one detection: the coefficient/prototype dot
/// product quantized over the prototype canvas, cropped to the letterbox fit
/// region, resized to the original image, and zeroed outside the box.
pub open spec fn instance_mask_spec(
    coefs: Seq<i64>,
    proto: Seq<i64>,
    nh: int,
    nw: int,
    w0: int,
    h0: int,
    b: RectV,
) -> Seq<u8> {
    let soft = soft_mask_spec(coefs, proto, nh * nw);
    let fit = scale_wh_spec(w0, h0, nw, nh);
    let cropped = crop_spec(soft, nw, fit.0, fit.1);
    let resized = triangle_resized(cropped, fit.0, fit.1, w0, h0);
    crop_to_box_spec(resized, w0, b)
}

/// The Mask Reconstructor for one detection. The result always has the
/// original image's dimensions, whatever the prototype resolution.
pub fn decode_mask(
    coefs: &Vec<i64>,
    proto: &Vec<i64>,
    nm: usize,
    nh: u32,
    nw: u32,
    width0: u32,
    height0: u32,
    b: &Rect,
) -> (r: InstanceMask)
    requires
        coefs@.len() == nm,
        proto@.len() == nm * (nh as int * nw as int),
        cells_bounded(coefs@),
        cells_bounded(proto@),
        1 <= nm,
        nh <= MAX_DIM,
        nw <= MAX_DIM,
        1 <= width0 <= MAX_DIM,
        1 <= height0 <= MAX_DIM,
        rect_bounded(b@),
        b.x >= 0,
        b.y >= 0,
    ensures
        r@ == instance_mask_spec(
            coefs@,
            proto@,
            nh as int,
            nw as int,
            width0 as int,
            height0 as int,
            b@,
        ),
        r@.len() == width0 as int * height0 as int,
{
    let pl = proto.len();
    proof {
        assert((nh as int) * (nw as int) <= nm * ((nh as int) * (nw as int))) by (nonlinear_arith)
            requires
                nm >= 1,
                nh >= 0,
                nw >= 0,
        ;
        assert(pl <= usize::MAX);
    }
    let area: usize = (nh as usize) * (nw as usize);
    let soft = soft_mask(coefs, proto, nm, area);
    let fit = scale_wh(width0, height0, nw, nh);
    proof {
        assert(soft_mask_spec(coefs@, proto@, area as int).len() == area as int);
        assert((nh as int) * (nw as int) == (nw as int) * (nh as int)) by (nonlinear_arith);
    }
    let cropped = crop_gray(&soft, nw, nh, fit.0, fit.1);
    let resized = resize_gray(&cropped, fit.0, fit.1, width0, height0);
    crop_to_box(&resized, width0, height0, b)
}

} // verus!
