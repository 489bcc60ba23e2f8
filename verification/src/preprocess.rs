use vstd::prelude::*;
use crate::error::AnalysisError;
use crate::img::{resize_rgba, resized_image, ImageData};

verus! {

/// The dimensions the preprocessor scales to, as a function of the inputs:
/// unchanged when both sides fit inside the bound, otherwise shrunk with
/// the aspect ratio preserved so that the longest side equals the bound and
/// the short side is its proportional share, floored, never below one.
pub open spec fn spec_target_dims(width: int, height: int, bound: int) -> (int, int) {
    if width <= bound && height <= bound {
        (width, height)
    } else if width >= height {
        let s = height * bound / width;
        (bound, if s < 1 { 1 } else { s })
    } else {
        let s = width * bound / height;
        ((if s < 1 { 1 } else { s }), bound)
    }
}

/// Lower edge of a blur window centred at `c`.
pub open spec fn spec_win_lo(c: int, radius: int) -> int {
    if c > radius { c - radius } else { 0 }
}

/// Upper edge of a blur window centred at `c`, clamped to `[0, limit)`.
pub open spec fn spec_win_hi(c: int, radius: int, limit: int) -> int {
    if c + radius > limit - 1 { limit - 1 } else { c + radius }
}

/// Sum of one channel over columns `x0 ..= x1` of row `y`.
pub open spec fn spec_row_sum(pix: Seq<u8>, w: int, y: int, x0: int, x1: int, ch: int) -> int
    decreases x1 - x0 + 1,
{
    if x1 < x0 {
        0
    } else {
        spec_row_sum(pix, w, y, x0, x1 - 1, ch) + pix[4 * (y * w + x1) + ch]
    }
}

/// Sum of one channel over the window `x0 ..= x1` by `y0 ..= y1`.
pub open spec fn spec_win_sum(
    pix: Seq<u8>,
    w: int,
    y0: int,
    y1: int,
    x0: int,
    x1: int,
    ch: int,
) -> int
    decreases y1 - y0 + 1,
{
    if y1 < y0 {
        0
    } else {
        spec_win_sum(pix, w, y0, y1 - 1, x0, x1, ch) + spec_row_sum(pix, w, y1, x0, x1, ch)
    }
}

/// One channel of the windowed mean at pixel `(x, y)`.
pub open spec fn spec_blur_at(
    pix: Seq<u8>,
    w: int,
    h: int,
    radius: int,
    x: int,
    y: int,
    ch: int,
) -> int {
    let y0 = spec_win_lo(y, radius);
    let y1 = spec_win_hi(y, radius, h);
    let x0 = spec_win_lo(x, radius);
    let x1 = spec_win_hi(x, radius, w);
    spec_win_sum(pix, w, y0, y1, x0, x1, ch) / ((y1 - y0 + 1) * (x1 - x0 + 1))
}

/// The blurred buffer as a function of the input buffer.
pub open spec fn spec_blurred(pix: Seq<u8>, w: int, h: int, radius: int) -> Seq<u8> {
    Seq::new(
        (4 * w * h) as nat,
        |i: int|
            {
                let p = i / 4;
                spec_blur_at(pix, w, h, radius, p % w, p / w, i % 4) as u8
            },
    )
}

/// Fetch one pixel's RGBA bytes.
pub fn pixel_at(img: &ImageData, x: u32, y: u32) -> (p: (u8, u8, u8, u8))
    requires
        img.wf(),
        x < img.width,
        y < img.height,
    ensures
        p.0 == img.pixels@[4 * ((y as int) * (img.width as int) + x as int)],
        p.1 == img.pixels@[4 * ((y as int) * (img.width as int) + x as int) + 1],
        p.2 == img.pixels@[4 * ((y as int) * (img.width as int) + x as int) + 2],
        p.3 == img.pixels@[4 * ((y as int) * (img.width as int) + x as int) + 3],
{
    proof {
        assert((y as int) * (img.width as int) + (x as int) < (img.width as int) * (
        img.height as int) && (y as int) * (img.width as int) >= 0 && 4 * ((y as int) * (
        img.width as int) + (x as int)) + 3 < 4 * ((img.width as int) * (img.height as int))
        && 4 * (img.width as int) * (img.height as int) == 4 * ((img.width as int) * (
        img.height as int))) by (nonlinear_arith)
            requires x < img.width, y < img.height;
    }
    let len: usize = img.pixels.len();
    let idx: usize = 4 * ((y as usize) * (img.width as usize) + (x as usize));
    (img.pixels[idx], img.pixels[idx + 1], img.pixels[idx + 2], img.pixels[idx + 3])
}

/// The dimensions the preprocessor scales to; see `spec_target_dims`.
pub fn target_dims(width: u32, height: u32, bound: u32) -> (r: (u32, u32))
    requires
        width >= 1,
        height >= 1,
        bound >= 1,
    ensures
        1 <= r.0 <= bound,
        1 <= r.1 <= bound,
        r.0 <= width,
        r.1 <= height,
        (r.0 as int, r.1 as int) == spec_target_dims(width as int, height as int, bound as int),
        width <= bound && height <= bound ==> r == (width, height),
        width > bound || height > bound ==> (if width >= height {
            r.0 == bound
        } else {
            r.1 == bound
        }),
{
    if width <= bound && height <= bound {
        (width, height)
    } else if width >= height {
        proof {
            assert((height as int) * (bound as int) < 0x10000000000000000) by (nonlinear_arith)
                requires height <= 0xffffffffu32, bound <= 0xffffffffu32;
        }
        let scaled: u64 = (height as u64) * (bound as u64) / (width as u64);
        proof {
            assert((height as int) * (bound as int) / (width as int) <= bound as int
                && (height as int) * (bound as int) / (width as int) <= height as int)
                by (nonlinear_arith)
                requires 1 <= height <= width, 1 <= bound < width as int;
        }
        let nh: u32 = if scaled < 1 { 1 } else { scaled as u32 };
        (bound, nh)
    } else {
        proof {
            assert((width as int) * (bound as int) < 0x10000000000000000) by (nonlinear_arith)
                requires width <= 0xffffffffu32, bound <= 0xffffffffu32;
        }
        let scaled: u64 = (width as u64) * (bound as u64) / (height as u64);
        proof {
            assert((width as int) * (bound as int) / (height as int) <= bound as int
                && (width as int) * (bound as int) / (height as int) <= width as int)
                by (nonlinear_arith)
                requires 1 <= width <= height, 1 <= bound < height as int;
        }
        let nw: u32 = if scaled < 1 { 1 } else { scaled as u32 };
        (nw, bound)
    }
}

/// Smooth the image with a windowed mean of the given radius, clamping the
/// window at the borders. A cheap integer stand-in for a Gaussian filter: it
/// suppresses compression artifacts and pixel noise that would otherwise
/// fragment superpixels. Every output channel is exactly the floored mean
/// of its window, per `spec_blurred`.
pub fn box_blur(img: &ImageData, radius: u32) -> (r: ImageData)
    requires
        img.wf(),
        img.width >= 1,
        img.height >= 1,
        radius <= 16,
    ensures
        r.wf(),
        r.width == img.width,
        r.height == img.height,
        r.pixels@ == spec_blurred(
            img.pixels@,
            img.width as int,
            img.height as int,
            radius as int,
        ),
{
    let w = img.width;
    let h = img.height;
    let ghost pix = img.pixels@;
    let ghost wi = img.width as int;
    let ghost hi = img.height as int;
    let ghost ri = radius as int;
    let mut out: Vec<u8> = Vec::new();
    let mut y: u32 = 0;
    while y < h
        invariant
            img.wf(),
            w == img.width,
            h == img.height,
            pix == img.pixels@,
            wi == w as int,
            hi == h as int,
            ri == radius as int,
            1 <= w && 1 <= h,
            radius <= 16,
            y <= h,
            out@.len() == 4 * (y as int) * (w as int),
            forall|i: int|
                0 <= i < out@.len() ==> (#[trigger] out@[i]) == spec_blurred(pix, wi, hi, ri)[i],
        decreases h - y,
    {
        let mut x: u32 = 0;
        while x < w
            invariant
                img.wf(),
                w == img.width,
                h == img.height,
                pix == img.pixels@,
                wi == w as int,
                hi == h as int,
                ri == radius as int,
                1 <= w && 1 <= h,
                radius <= 16,
                y < h,
                x <= w,
                out@.len() == 4 * (y as int) * (w as int) + 4 * (x as int),
                forall|i: int|
                    0 <= i < out@.len() ==> (#[trigger] out@[i]) == spec_blurred(
                        pix,
                        wi,
                        hi,
                        ri,
                    )[i],
            decreases w - x,
        {
            let y0: u64 = if y > radius { (y - radius) as u64 } else { 0 };
            let y1: u64 = {
                let cand = y as u64 + radius as u64;
                if cand > (h - 1) as u64 { (h - 1) as u64 } else { cand }
            };
            let x0: u64 = if x > radius { (x - radius) as u64 } else { 0 };
            let x1: u64 = {
                let cand = x as u64 + radius as u64;
                if cand > (w - 1) as u64 { (w - 1) as u64 } else { cand }
            };
            proof {
                assert(y0 as int == spec_win_lo(y as int, ri));
                assert(y1 as int == spec_win_hi(y as int, ri, hi));
                assert(x0 as int == spec_win_lo(x as int, ri));
                assert(x1 as int == spec_win_hi(x as int, ri, wi));
            }
            let mut sr: u64 = 0;
            let mut sg: u64 = 0;
            let mut sb: u64 = 0;
            let mut sa: u64 = 0;
            let mut cnt: u64 = 0;
            let mut yy: u64 = y0;
            while yy <= y1
                invariant
                    img.wf(),
                    w == img.width,
                    h == img.height,
                    pix == img.pixels@,
                    wi == w as int,
                    hi == h as int,
                    y1 < h,
                    x0 <= x1 < w,
                    y1 <= y0 + 32,
                    x1 <= x0 + 32,
                    y0 <= yy,
                    yy <= y1 + 1,
                    cnt == (yy - y0) * (x1 - x0 + 1),
                    sr == spec_win_sum(pix, wi, y0 as int, yy - 1, x0 as int, x1 as int, 0),
                    sg == spec_win_sum(pix, wi, y0 as int, yy - 1, x0 as int, x1 as int, 1),
                    sb == spec_win_sum(pix, wi, y0 as int, yy - 1, x0 as int, x1 as int, 2),
                    sa == spec_win_sum(pix, wi, y0 as int, yy - 1, x0 as int, x1 as int, 3),
                    sr <= 255 * cnt,
                    sg <= 255 * cnt,
                    sb <= 255 * cnt,
                    sa <= 255 * cnt,
                    cnt <= 1089,
                decreases y1 + 1 - yy,
            {
                let mut xx: u64 = x0;
                let row_base_r = sr;
                let row_base_g = sg;
                let row_base_b = sb;
                let row_base_a = sa;
                while xx <= x1
                    invariant
                        img.wf(),
                        w == img.width,
                        h == img.height,
                        pix == img.pixels@,
                        wi == w as int,
                        hi == h as int,
                        y1 < h,
                        y1 <= y0 + 32,
                        x1 <= x0 + 32,
                        y0 <= yy <= y1,
                        x0 <= xx,
                        xx <= x1 + 1,
                        x1 < w,
                        cnt == (yy - y0) * (x1 - x0 + 1) + (xx - x0),
                        row_base_r == spec_win_sum(pix, wi, y0 as int, yy - 1, x0 as int, x1 as int, 0),
                        row_base_g == spec_win_sum(pix, wi, y0 as int, yy - 1, x0 as int, x1 as int, 1),
                        row_base_b == spec_win_sum(pix, wi, y0 as int, yy - 1, x0 as int, x1 as int, 2),
                        row_base_a == spec_win_sum(pix, wi, y0 as int, yy - 1, x0 as int, x1 as int, 3),
                        sr == row_base_r + spec_row_sum(pix, wi, yy as int, x0 as int, xx - 1, 0),
                        sg == row_base_g + spec_row_sum(pix, wi, yy as int, x0 as int, xx - 1, 1),
                        sb == row_base_b + spec_row_sum(pix, wi, yy as int, x0 as int, xx - 1, 2),
                        sa == row_base_a + spec_row_sum(pix, wi, yy as int, x0 as int, xx - 1, 3),
                        sr <= 255 * cnt,
                        sg <= 255 * cnt,
                        sb <= 255 * cnt,
                        sa <= 255 * cnt,
                        cnt <= 1089,
                    decreases x1 + 1 - xx,
                {
                    proof {
                        assert((yy - y0) * (x1 - x0 + 1) + (xx - x0) + 1 <= 33 * 33)
                            by (nonlinear_arith)
                            requires
                                y0 <= yy <= y1,
                                x0 <= xx <= x1,
                                y1 - y0 <= 32,
                                x1 - x0 <= 32;
                    }
                    let (pr, pg, pb, pa) = pixel_at(img, xx as u32, yy as u32);
                    sr = sr + pr as u64;
                    sg = sg + pg as u64;
                    sb = sb + pb as u64;
                    sa = sa + pa as u64;
                    cnt = cnt + 1;
                    xx = xx + 1;
                }
                proof {
                    assert((yy - y0) * (x1 - x0 + 1) + (x1 + 1 - x0) == (yy + 1 - y0) * (x1 - x0
                    + 1)) by (nonlinear_arith);
                }
                yy = yy + 1;
            }
            proof {
                assert(cnt == (y1 - y0 + 1) * (x1 - x0 + 1));
                assert(cnt >= 1) by (nonlinear_arith)
                    requires cnt == (y1 - y0 + 1) * (x1 - x0 + 1), y0 <= y1, x0 <= x1;
                assert(sr / cnt <= 255 && sg / cnt <= 255 && sb / cnt <= 255 && sa / cnt <= 255)
                    by (nonlinear_arith)
                    requires
                        cnt >= 1,
                        sr <= 255 * cnt,
                        sg <= 255 * cnt,
                        sb <= 255 * cnt,
                        sa <= 255 * cnt;
                let p = (y as int) * wi + (x as int);
                assert(p % wi == x as int && p / wi == y as int && 0 <= p && p < wi * hi
                    && 4 * p + 3 < 4 * (wi * hi) && 4 * wi * hi == 4 * (wi * hi))
                    by (nonlinear_arith)
                    requires 0 <= (x as int) < wi, 0 <= (y as int) < hi, p == (y as int) * wi + (x as int);
                assert forall|ch: int| 0 <= ch < 4 implies #[trigger] ((4 * p + ch) / 4) == p
                    && (4 * p + ch) % 4 == ch by {
                    assert((4 * p + ch) / 4 == p && (4 * p + ch) % 4 == ch) by (nonlinear_arith)
                        requires 0 <= ch < 4, 0 <= p;
                }
                assert(4 * (y as int) * (w as int) + 4 * (x as int) == 4 * p) by (nonlinear_arith)
                    requires p == (y as int) * (w as int) + (x as int);
                assert(sr as int / (cnt as int) == spec_blur_at(pix, wi, hi, ri, x as int,
                y as int, 0));
                assert(sg as int / (cnt as int) == spec_blur_at(pix, wi, hi, ri, x as int,
                y as int, 1));
                assert(sb as int / (cnt as int) == spec_blur_at(pix, wi, hi, ri, x as int,
                y as int, 2));
                assert(sa as int / (cnt as int) == spec_blur_at(pix, wi, hi, ri, x as int,
                y as int, 3));
            }
            out.push((sr / cnt) as u8);
            out.push((sg / cnt) as u8);
            out.push((sb / cnt) as u8);
            out.push((sa / cnt) as u8);
            x = x + 1;
        }
        proof {
            assert(4 * (y as int) * (w as int) + 4 * (w as int) == 4 * ((y + 1) as int) * (
            w as int)) by (nonlinear_arith);
        }
        y = y + 1;
    }
    proof {
        assert(4 * (h as int) * (w as int) == 4 * (w as int) * (h as int)) by (nonlinear_arith);
        assert(out@ =~= spec_blurred(pix, wi, hi, ri));
    }
    ImageData { width: w, height: h, pixels: out }
}

/// Bound the image's size and denoise it before analysis: scale to the
/// dimensions `spec_target_dims` gives, then smooth with the given blur
/// radius (capped at sixteen). Fails exactly when the input has a zero
/// dimension; otherwise the output is pinned: the decoded pixels, the
/// resampled pixels when scaling applied, and the windowed mean of either
/// when a positive blur radius was given.
pub fn preprocess(img: &ImageData, max_dim: Option<u32>, blur_radius: Option<u32>) -> (r: Result<
    ImageData,
    AnalysisError,
>)
    requires
        img.wf(),
    ensures
        r is Err <==> (img.width == 0 || img.height == 0),
        r matches Err(e) ==> e == AnalysisError::EmptyImage,
        r matches Ok(p) ==> {
            &&& p.wf()
            &&& 1 <= p.width
            &&& 1 <= p.height
            &&& (match max_dim {
                Some(m) => (p.width as int, p.height as int) == spec_target_dims(
                    img.width as int,
                    img.height as int,
                    if m == 0 { 1 } else { m as int },
                ) && (m >= 1 ==> p.width <= m && p.height <= m),
                None => p.width == img.width && p.height == img.height,
            })
            &&& ({
                let base = if p.width == img.width && p.height == img.height {
                    img.pixels@
                } else {
                    resized_image(img.pixels@, img.width, img.height, p.width, p.height)
                };
                match blur_radius {
                    Some(rad) => if rad > 0 {
                        p.pixels@ == spec_blurred(
                            base,
                            p.width as int,
                            p.height as int,
                            if rad > 16 { 16int } else { rad as int },
                        )
                    } else {
                        p.pixels@ == base
                    },
                    None => p.pixels@ == base,
                }
            })
        },
{
    if img.width == 0 || img.height == 0 {
        return Err(AnalysisError::EmptyImage);
    }
    let (nw, nh) = match max_dim {
        Some(m) => target_dims(img.width, img.height, if m == 0 { 1 } else { m }),
        None => (img.width, img.height),
    };
    let plen = img.pixels.len();
    let scaled: ImageData = if nw == img.width && nh == img.height {
        ImageData { width: img.width, height: img.height, pixels: img.pixels.clone() }
    } else {
        proof {
            assert(4 * (nw as int) * (nh as int) <= 4 * (img.width as int) * (img.height as int)
                && (img.width as int) * (nh as int) <= (img.width as int) * (img.height as int)
                && 4 * (img.width as int) * (img.height as int) == 4 * ((img.width as int) * (
            img.height as int)) && (img.width as int) * (img.height as int) <= 4 * ((
            img.width as int) * (img.height as int))) by (nonlinear_arith)
                requires 1 <= nw <= img.width, 1 <= nh <= img.height;
        }
        let px = resize_rgba(&img.pixels, img.width, img.height, nw, nh);
        ImageData { width: nw, height: nh, pixels: px }
    };
    match blur_radius {
        Some(rad) if rad > 0 => {
            let capped = if rad > 16 { 16 } else { rad };
            Ok(box_blur(&scaled, capped))
        }
        _ => Ok(scaled),
    }
}

} // verus!
