use vstd::prelude::*;
use crate::color::{lab_dist2, srgb_to_lab, LabColor, MAX_LAB_DIST2};
use crate::img::ImageData;
use crate::util::{
    lemma_sum64_element_bound, lemma_sum64_take_full, lemma_sum64_take_step, lemma_sum64_update,
    isqrt128, sum64,
};

verus! {

/// A compact, color-coherent region of the processed image: its mean color
/// in the perceptual space, its mean color as RGB bytes, and how many
/// pixels it owns.
pub struct Superpixel {
    pub lab: LabColor,
    pub red: u8,
    pub green: u8,
    pub blue: u8,
    pub count: u64,
}

impl Superpixel {
    pub open spec fn wf(&self) -> bool {
        self.lab.wf()
    }
}

/// The pixel weights of a superpixel list.
pub open spec fn sp_counts(s: Seq<Superpixel>) -> Seq<u64> {
    s.map_values(|sp: Superpixel| sp.count)
}

/// How many of the first `upto` pixels carry label `lab`.
pub open spec fn spec_label_count(labels: Seq<usize>, upto: int, lab: int) -> int
    decreases upto,
{
    if upto <= 0 {
        0
    } else {
        spec_label_count(labels, upto - 1, lab) + if labels[upto - 1] == lab {
            1int
        } else {
            0int
        }
    }
}

/// Sum of one RGBA channel over the first `upto` pixels carrying label
/// `lab`.
pub open spec fn spec_label_sum(
    pix: Seq<u8>,
    labels: Seq<usize>,
    upto: int,
    lab: int,
    ch: int,
) -> int
    decreases upto,
{
    if upto <= 0 {
        0
    } else {
        spec_label_sum(pix, labels, upto - 1, lab, ch) + if labels[upto - 1] == lab {
            pix[4 * (upto - 1) + ch] as int
        } else {
            0int
        }
    }
}

/// A label-conditional channel sum is bounded by the label's pixel count
/// times the channel bounds.
proof fn lemma_label_sum_within(
    pix: Seq<u8>,
    labels: Seq<usize>,
    upto: int,
    lab: int,
    ch: int,
    lo: int,
    hi: int,
)
    requires
        0 <= upto,
        forall|p: int| 0 <= p < upto ==> lo <= (#[trigger] pix[4 * p + ch]) <= hi,
    ensures
        lo * spec_label_count(labels, upto, lab) <= spec_label_sum(pix, labels, upto, lab, ch)
            <= hi * spec_label_count(labels, upto, lab),
        spec_label_count(labels, upto, lab) >= 0,
    decreases upto,
{
    if upto > 0 {
        lemma_label_sum_within(pix, labels, upto - 1, lab, ch, lo, hi);
        if labels[upto - 1] == lab {
            assert(lo * (spec_label_count(labels, upto - 1, lab) + 1) == lo * spec_label_count(
                labels,
                upto - 1,
                lab,
            ) + lo && hi * (spec_label_count(labels, upto - 1, lab) + 1) == hi
                * spec_label_count(labels, upto - 1, lab) + hi) by (nonlinear_arith);
        }
    }
}

/// Channel bounds on the pixels carry over to the label-conditional means
/// that `compute_superpixels` reports: a superpixel's mean channel never
/// leaves the range its member pixels span.
pub proof fn lemma_mean_channel_within(
    pix: Seq<u8>,
    labels: Seq<usize>,
    n: int,
    lab: int,
    ch: int,
    lo: int,
    hi: int,
)
    requires
        0 <= n,
        forall|p: int| 0 <= p < n ==> lo <= (#[trigger] pix[4 * p + ch]) <= hi,
        spec_label_count(labels, n, lab) >= 1,
    ensures
        lo <= spec_label_sum(pix, labels, n, lab, ch) / spec_label_count(labels, n, lab) <= hi,
{
    lemma_label_sum_within(pix, labels, n, lab, ch, lo, hi);
    let c = spec_label_count(labels, n, lab);
    let s = spec_label_sum(pix, labels, n, lab, ch);
    assert(lo <= s / c <= hi) by (nonlinear_arith)
        requires c >= 1, lo * c <= s <= hi * c;
}

/// A moving cluster center of the segmenter: a spatial position and a
/// perceptual color.
struct Center {
    x: u64,
    y: u64,
    lab: LabColor,
}

/// Position and color of one pixel, precomputed once per run.
struct PixelInfo {
    x: u64,
    y: u64,
    lab: LabColor,
}

/// The grid the centers are seeded on, and the fixed scaling constants of
/// the combined distance.
struct Grid {
    gx: usize,
    gy: usize,
    step_x: u64,
    step_y: u64,
    /// step_x * step_y: normalizes the spatial term.
    step2: u64,
    /// compactness in fixed-point Lab units.
    m_scaled: u64,
}

impl Grid {
    spec fn wf(&self) -> bool {
        &&& 1 <= self.gx
        &&& 1 <= self.gy
        &&& 1 <= self.step_x <= 0xffffffff
        &&& 1 <= self.step_y <= 0xffffffff
        &&& self.step2 == self.step_x * self.step_y
        &&& 1 <= self.m_scaled <= 25500
        &&& self.gx * self.gy <= usize::MAX
    }
}

/// The combined assignment distance: perceptual distance normalized by the
/// grid spacing plus the compactness-weighted spatial distance. Multiplied
/// through by `step2`, so no precision is lost to division.
fn combined_dist(dc2: u64, dx: u64, dy: u64, m_scaled: u64, step2: u64) -> (r: u128)
    requires
        dc2 <= MAX_LAB_DIST2,
        dx <= 0xffffffff,
        dy <= 0xffffffff,
        m_scaled <= 25500,
        step2 <= 0xffffffffffffffff,
    ensures
        r == (dc2 as int) * (step2 as int) + (m_scaled as int) * (m_scaled as int) * ((
        dx as int) * (dx as int) + (dy as int) * (dy as int)),
{
    proof {
        assert((dc2 as int) * (step2 as int) <= 0x8000000000 * 0xffffffffffffffff
            && 0 <= (dc2 as int) * (step2 as int)
            && (dx as int) * (dx as int) + (dy as int) * (dy as int) <= 0x20000000000000000
            && 0 <= (dx as int) * (dx as int)
            && 0 <= (dy as int) * (dy as int)
            && (m_scaled as int) * (m_scaled as int) <= 25500 * 25500
            && 0 <= (m_scaled as int) * (m_scaled as int)) by (nonlinear_arith)
            requires
                dc2 <= 0x8000000000u64,
                dx <= 0xffffffffu64,
                dy <= 0xffffffffu64,
                m_scaled <= 25500u64,
                step2 <= 0xffffffffffffffffu64;
        assert((25500 * 25500) * 0x20000000000000000 < 0x100000000000000000000000000000000
            && (m_scaled as int) * (m_scaled as int) * ((dx as int) * (dx as int) + (dy as int)
            * (dy as int)) <= (25500 * 25500) * 0x20000000000000000
            && 0 <= (m_scaled as int) * (m_scaled as int) * ((dx as int) * (dx as int) + (
            dy as int) * (dy as int))) by (nonlinear_arith)
            requires
                0 <= (m_scaled as int) * (m_scaled as int) <= 25500 * 25500,
                0 <= (dx as int) * (dx as int) + (dy as int) * (dy as int)
                    <= 0x20000000000000000;
    }
    (dc2 as u128) * (step2 as u128) + ((m_scaled as u128) * (m_scaled as u128)) * ((dx as u128)
        * (dx as u128) + (dy as u128) * (dy as u128))
}

/// Absolute difference of two coordinates.
fn abs_diff(a: u64, b: u64) -> (r: u64)
    ensures
        r == if a >= b { a - b } else { b - a },
{
    if a >= b { a - b } else { b - a }
}

/// Mean of an accumulated sum, with its bound carried through the division.
pub(crate) fn mean_u128(sum: u128, cnt: u64, bound: u128) -> (r: u128)
    requires
        cnt >= 1,
        sum <= bound * cnt,
    ensures
        r <= bound,
        r == sum as int / cnt as int,
{
    proof {
        assert(sum as int / cnt as int <= bound) by (nonlinear_arith)
            requires cnt >= 1, 0 <= sum <= bound * cnt, bound >= 0;
    }
    sum / (cnt as u128)
}

/// Precompute each pixel's position and perceptual color.
fn pixel_infos(img: &ImageData, n: usize) -> (r: Vec<PixelInfo>)
    requires
        img.wf(),
        1 <= img.width,
        1 <= img.height,
        n == img.spec_pixel_count(),
    ensures
        r@.len() == n,
        forall|p: int| 0 <= p < n ==> (#[trigger] r@[p]).lab.wf(),
        forall|p: int| 0 <= p < n ==> (#[trigger] r@[p]).x < img.width && r@[p].y < img.height,
{
    let w = img.width as usize;
    let len = img.pixels.len();
    let mut out: Vec<PixelInfo> = Vec::new();
    let mut p: usize = 0;
    proof {
        assert(4 * (img.width as int) * (img.height as int) == 4 * ((img.width as int) * (
        img.height as int))) by (nonlinear_arith);
    }
    while p < n
        invariant
            img.wf(),
            1 <= img.width,
            1 <= img.height,
            w == img.width,
            n == img.spec_pixel_count(),
            img.pixels@.len() == 4 * n,
            len == img.pixels@.len(),
            p <= n,
            out@.len() == p,
            forall|q: int| 0 <= q < p ==> (#[trigger] out@[q]).lab.wf(),
            forall|q: int|
                0 <= q < p ==> (#[trigger] out@[q]).x < img.width && out@[q].y < img.height,
        decreases n - p,
    {
        let x = p % w;
        let y = p / w;
        proof {
            assert((p as int) % (w as int) < w as int && (p as int) / (w as int)
                < img.height as int && 0 <= (p as int) % (w as int) && 0 <= (p as int) / (
            w as int)) by (nonlinear_arith)
                requires 0 <= (p as int) < (w as int) * (img.height as int), w >= 1usize;
        }
        let lab = srgb_to_lab(img.pixels[4 * p], img.pixels[4 * p + 1], img.pixels[4 * p + 2]);
        out.push(PixelInfo { x: x as u64, y: y as u64, lab });
        p = p + 1;
    }
    out
}

/// Choose the seeding grid: about `s_target` cells, laid out to follow the
/// image's aspect ratio, never more than one cell per pixel.
fn make_grid(w: u32, h: u32, s_target: usize, compactness: u32) -> (g: Grid)
    requires
        1 <= w,
        1 <= h,
        1 <= s_target,
        1 <= compactness <= 100,
        (w as int) * (h as int) <= usize::MAX,
    ensures
        g.wf(),
        g.gx <= w,
        g.gy <= h,
        g.gx * g.gy <= s_target,
        g.step_x == w as int / g.gx as int,
        g.step_y == h as int / g.gy as int,
{
    proof {
        assert((s_target as int) * (w as int) < 0x100000000000000000000000000000000
            && 0 <= (s_target as int) * (w as int)) by (nonlinear_arith)
            requires s_target <= 0xffffffffffffffffu64, w <= 0xffffffffu32;
    }
    let raw: u128 = (s_target as u128) * (w as u128) / (h as u128);
    let mut gx64: u64 = isqrt128(raw);
    if gx64 < 1 {
        gx64 = 1;
    }
    if gx64 > s_target as u64 {
        gx64 = s_target as u64;
    }
    if gx64 > w as u64 {
        gx64 = w as u64;
    }
    let gx: usize = gx64 as usize;
    let mut gy: usize = s_target / gx;
    proof {
        assert(s_target as int / gx as int >= 1) by (nonlinear_arith)
            requires 1 <= gx <= s_target;
    }
    if gy > h as usize {
        gy = h as usize;
    }
    proof {
        assert(gx as int * (s_target as int / gx as int) <= s_target) by (nonlinear_arith)
            requires 1 <= gx;
        assert(gy <= s_target as int / gx as int ==> gx as int * gy as int <= gx as int * (
        s_target as int / gx as int)) by (nonlinear_arith)
            requires gx >= 1;
        assert(gx as int * gy as int <= usize::MAX) by (nonlinear_arith)
            requires
                gx as int * gy as int <= s_target,
                s_target <= usize::MAX;
    }
    let step_x: u64 = (w as u64) / (gx as u64);
    let step_y: u64 = (h as u64) / (gy as u64);
    proof {
        assert(w as int / gx as int >= 1 && w as int / gx as int <= 0xffffffff)
            by (nonlinear_arith)
            requires 1 <= gx <= w as int, w <= 0xffffffff;
        assert(h as int / gy as int >= 1 && h as int / gy as int <= 0xffffffff)
            by (nonlinear_arith)
            requires 1 <= gy <= h as int, h <= 0xffffffff;
        assert((w as int / gx as int) * (h as int / gy as int) <= 0xffffffff * 0xffffffff)
            by (nonlinear_arith)
            requires
                1 <= w as int / gx as int <= 0xffffffff,
                1 <= h as int / gy as int <= 0xffffffff;
    }
    Grid {
        gx,
        gy,
        step_x,
        step_y,
        step2: step_x * step_y,
        m_scaled: (compactness as u64) * 255,
    }
}

/// Seed one center at the middle of every grid cell, colored by the pixel
/// it lands on.
fn init_centers(px: &Vec<PixelInfo>, w: u32, h: u32, g: &Grid) -> (r: Vec<Center>)
    requires
        g.wf(),
        g.gx <= w,
        g.gy <= h,
        g.step_x == w as int / g.gx as int,
        g.step_y == h as int / g.gy as int,
        px@.len() == (w as int) * (h as int),
        forall|p: int| 0 <= p < px@.len() ==> (#[trigger] px@[p]).lab.wf(),
    ensures
        r@.len() == g.gx * g.gy,
        forall|i: int|
            0 <= i < r@.len() ==> (#[trigger] r@[i]).x < w && r@[i].y < h && r@[i].lab.wf(),
{
    let np = px.len();
    let mut out: Vec<Center> = Vec::new();
    let mut j: usize = 0;
    while j < g.gy
        invariant
            g.wf(),
            g.gx <= w,
            g.gy <= h,
            g.step_x == w as int / g.gx as int,
            g.step_y == h as int / g.gy as int,
            px@.len() == (w as int) * (h as int),
            np == px@.len(),
            forall|p: int| 0 <= p < px@.len() ==> (#[trigger] px@[p]).lab.wf(),
            j <= g.gy,
            out@.len() == j * g.gx,
            forall|i: int|
                0 <= i < out@.len() ==> (#[trigger] out@[i]).x < w && out@[i].y < h
                    && out@[i].lab.wf(),
        decreases g.gy - j,
    {
        let mut i: usize = 0;
        while i < g.gx
            invariant
                g.wf(),
                g.gx <= w,
                g.gy <= h,
                g.step_x == w as int / g.gx as int,
                g.step_y == h as int / g.gy as int,
                px@.len() == (w as int) * (h as int),
                np == px@.len(),
                forall|p: int| 0 <= p < px@.len() ==> (#[trigger] px@[p]).lab.wf(),
                j < g.gy,
                i <= g.gx,
                out@.len() == j * g.gx + i,
                forall|q: int|
                    0 <= q < out@.len() ==> (#[trigger] out@[q]).x < w && out@[q].y < h
                        && out@[q].lab.wf(),
            decreases g.gx - i,
        {
            proof {
                assert((i as int) * (g.step_x as int) + g.step_x as int / 2 < w as int
                    && (j as int) * (g.step_y as int) + g.step_y as int / 2 < h as int
                    && 0 <= (i as int) * (g.step_x as int)
                    && 0 <= (j as int) * (g.step_y as int)) by (nonlinear_arith)
                    requires
                        0 <= i < g.gx,
                        0 <= j < g.gy,
                        g.step_x == w as int / g.gx as int,
                        g.step_y == h as int / g.gy as int,
                        1 <= g.step_x,
                        1 <= g.step_y,
                        1 <= g.gx <= w,
                        1 <= g.gy <= h;
            }
            let cx: u64 = (i as u64) * g.step_x + g.step_x / 2;
            let cy: u64 = (j as u64) * g.step_y + g.step_y / 2;
            proof {
                assert(((cy as int) * (w as int) + (cx as int)) < (w as int) * (h as int)
                    && 0 <= (cy as int) * (w as int)) by (nonlinear_arith)
                    requires cx < w as int, cy < h as int;
            }
            let pidx: usize = (cy as usize) * (w as usize) + (cx as usize);
            let lab = px[pidx].lab;
            out.push(Center { x: cx, y: cy, lab });
            i = i + 1;
        }
        proof {
            assert((j as int) * (g.gx as int) + g.gx as int == ((j + 1) as int) * (
            g.gx as int)) by (nonlinear_arith);
        }
        j = j + 1;
    }
    proof {
        assert(out@.len() == (g.gy as int) * (g.gx as int) && (g.gy as int) * (g.gx as int) == (
        g.gx as int) * (g.gy as int)) by (nonlinear_arith)
            requires out@.len() == (g.gy as int) * (g.gx as int);
    }
    out
}

/// Assign every pixel to its nearest candidate center, looking only at the
/// local window of grid cells around the pixel.
fn assign_pixels(
    px: &Vec<PixelInfo>,
    w: u32,
    h: u32,
    g: &Grid,
    centers: &Vec<Center>,
    labels: &mut Vec<usize>,
)
    requires
        g.wf(),
        g.gx <= w,
        g.gy <= h,
        px@.len() == (w as int) * (h as int),
        forall|p: int| 0 <= p < px@.len() ==> (#[trigger] px@[p]).lab.wf(),
        forall|p: int| 0 <= p < px@.len() ==> (#[trigger] px@[p]).x < w && px@[p].y < h,
        centers@.len() == g.gx * g.gy,
        forall|i: int|
            0 <= i < centers@.len() ==> (#[trigger] centers@[i]).x < w && centers@[i].y < h
                && centers@[i].lab.wf(),
        old(labels)@.len() == px@.len(),
    ensures
        final(labels)@.len() == px@.len(),
        forall|p: int|
            0 <= p < final(labels)@.len() ==> (#[trigger] final(labels)@[p]) < centers@.len(),
{
    let n = px.len();
    let mut p: usize = 0;
    while p < n
        invariant
            g.wf(),
            g.gx <= w,
            g.gy <= h,
            n == px@.len(),
            px@.len() == (w as int) * (h as int),
            forall|q: int| 0 <= q < px@.len() ==> (#[trigger] px@[q]).lab.wf(),
            forall|q: int| 0 <= q < px@.len() ==> (#[trigger] px@[q]).x < w && px@[q].y < h,
            centers@.len() == g.gx * g.gy,
            forall|i: int|
                0 <= i < centers@.len() ==> (#[trigger] centers@[i]).x < w && centers@[i].y < h
                    && centers@[i].lab.wf(),
            labels@.len() == px@.len(),
            p <= n,
            forall|q: int| 0 <= q < p ==> (#[trigger] labels@[q]) < centers@.len(),
        decreases n - p,
    {
        let info_x = px[p].x;
        let info_y = px[p].y;
        let ci: usize = {
            let c = (info_x / g.step_x) as usize;
            if c >= g.gx { g.gx - 1 } else { c }
        };
        let cj: usize = {
            let c = (info_y / g.step_y) as usize;
            if c >= g.gy { g.gy - 1 } else { c }
        };
        let ilo: usize = if ci > 2 { ci - 2 } else { 0 };
        let ihi: usize = if (ci as u64) + 2 >= g.gx as u64 { g.gx - 1 } else { ci + 2 };
        let jlo: usize = if cj > 2 { cj - 2 } else { 0 };
        let jhi: usize = if (cj as u64) + 2 >= g.gy as u64 { g.gy - 1 } else { cj + 2 };
        let mut best_id: usize = 0;
        let mut best_d: u128 = 0xffffffffffffffffffffffffffffffff;
        proof {
            assert(centers@.len() >= 1) by (nonlinear_arith)
                requires
                    centers@.len() == (g.gx as int) * (g.gy as int),
                    g.gx >= 1,
                    g.gy >= 1;
        }
        let mut j: usize = jlo;
        while j <= jhi
            invariant
                g.wf(),
                n == px@.len(),
                p < n,
                forall|q: int| 0 <= q < px@.len() ==> (#[trigger] px@[q]).lab.wf(),
                forall|q: int| 0 <= q < px@.len() ==> (#[trigger] px@[q]).x < w && px@[q].y < h,
                centers@.len() == g.gx * g.gy,
                forall|i: int|
                    0 <= i < centers@.len() ==> (#[trigger] centers@[i]).x < w && centers@[i].y
                        < h && centers@[i].lab.wf(),
                centers@.len() >= 1,
                ilo <= ihi < g.gx,
                jlo <= jhi < g.gy,
                best_id < centers@.len(),
                j <= jhi + 1,
            decreases jhi + 1 - j,
        {
            let mut i: usize = ilo;
            while i <= ihi
                invariant
                    g.wf(),
                    n == px@.len(),
                    p < n,
                    forall|q: int| 0 <= q < px@.len() ==> (#[trigger] px@[q]).lab.wf(),
                    forall|q: int|
                        0 <= q < px@.len() ==> (#[trigger] px@[q]).x < w && px@[q].y < h,
                    centers@.len() == g.gx * g.gy,
                    forall|q: int|
                        0 <= q < centers@.len() ==> (#[trigger] centers@[q]).x < w
                            && centers@[q].y < h && centers@[q].lab.wf(),
                    centers@.len() >= 1,
                    ilo <= ihi < g.gx,
                    jlo <= jhi < g.gy,
                    j <= jhi,
                    best_id < centers@.len(),
                    i <= ihi + 1,
                decreases ihi + 1 - i,
            {
                proof {
                    assert(((j as int) * (g.gx as int) + (i as int)) < (g.gx as int) * (
                    g.gy as int) && 0 <= (j as int) * (g.gx as int)) by (nonlinear_arith)
                        requires 0 <= i < g.gx, 0 <= j < g.gy;
                }
                let id: usize = j * g.gx + i;
                let dc2 = lab_dist2(&px[p].lab, &centers[id].lab);
                let dx = abs_diff(px[p].x, centers[id].x);
                let dy = abs_diff(px[p].y, centers[id].y);
                let d = combined_dist(dc2, dx, dy, g.m_scaled, g.step2);
                if d < best_d {
                    best_d = d;
                    best_id = id;
                }
                i = i + 1;
            }
            j = j + 1;
        }
        labels.set(p, best_id);
        p = p + 1;
    }
}

/// Recompute every center as the mean position and color of its pixels,
/// and report the total distance the centers moved.
fn recompute_centers(
    px: &Vec<PixelInfo>,
    w: u32,
    h: u32,
    labels: &Vec<usize>,
    centers: &mut Vec<Center>,
) -> (moved: u128)
    requires
        1 <= w,
        1 <= h,
        px@.len() == (w as int) * (h as int),
        px@.len() >= 1,
        forall|p: int| 0 <= p < px@.len() ==> (#[trigger] px@[p]).lab.wf(),
        forall|p: int| 0 <= p < px@.len() ==> (#[trigger] px@[p]).x < w && px@[p].y < h,
        labels@.len() == px@.len(),
        forall|p: int| 0 <= p < labels@.len() ==> (#[trigger] labels@[p]) < old(centers)@.len(),
        old(centers)@.len() >= 1,
        forall|i: int|
            0 <= i < old(centers)@.len() ==> (#[trigger] old(centers)@[i]).x < w && old(
                centers,
            )@[i].y < h && old(centers)@[i].lab.wf(),
    ensures
        final(centers)@.len() == old(centers)@.len(),
        forall|i: int|
            0 <= i < final(centers)@.len() ==> (#[trigger] final(centers)@[i]).x < w
                && final(centers)@[i].y < h && final(centers)@[i].lab.wf(),
{
    let k = centers.len();
    let n = px.len();
    let mut acc_x: Vec<u128> = vec_zero(k);
    let mut acc_y: Vec<u128> = vec_zero(k);
    let mut acc_l: Vec<u128> = vec_zero(k);
    let mut acc_a: Vec<u128> = vec_zero(k);
    let mut acc_b: Vec<u128> = vec_zero(k);
    let mut cnt: Vec<u64> = vec_zero64(k);
    let mut p: usize = 0;
    while p < n
        invariant
            1 <= w,
            1 <= h,
            n == px@.len(),
            labels@.len() == n,
            forall|q: int| 0 <= q < n ==> (#[trigger] labels@[q]) < k,
            forall|q: int| 0 <= q < px@.len() ==> (#[trigger] px@[q]).lab.wf(),
            forall|q: int| 0 <= q < px@.len() ==> (#[trigger] px@[q]).x < w && px@[q].y < h,
            p <= n,
            acc_x@.len() == k && acc_y@.len() == k && acc_l@.len() == k && acc_a@.len() == k
                && acc_b@.len() == k && cnt@.len() == k,
            sum64(cnt@) == p,
            forall|i: int| 0 <= i < k ==> (#[trigger] cnt@[i]) <= p,
            forall|i: int|
                0 <= i < k ==> (#[trigger] acc_x@[i]) <= ((w - 1) as int) * (cnt@[i] as int),
            forall|i: int|
                0 <= i < k ==> (#[trigger] acc_y@[i]) <= ((h - 1) as int) * (cnt@[i] as int),
            forall|i: int| 0 <= i < k ==> (#[trigger] acc_l@[i]) <= 25500 * (cnt@[i] as int),
            forall|i: int| 0 <= i < k ==> (#[trigger] acc_a@[i]) <= 255000 * (cnt@[i] as int),
            forall|i: int| 0 <= i < k ==> (#[trigger] acc_b@[i]) <= 102000 * (cnt@[i] as int),
        decreases n - p,
    {
        let c = labels[p];
        proof {
            lemma_sum64_element_bound(cnt@, c as int);
            assert(((w - 1) as int) * (cnt@[c as int] as int) + (w - 1) as int == ((w
            - 1) as int) * ((cnt@[c as int] as int) + 1) && ((h - 1) as int) * (cnt@[
            c as int] as int) + (h - 1) as int == ((h - 1) as int) * ((cnt@[c as int] as int)
                + 1) && 25500 * (cnt@[c as int] as int) + 25500 == 25500 * ((cnt@[
            c as int] as int) + 1) && 255000 * (cnt@[c as int] as int) + 255000 == 255000 * ((
            cnt@[c as int] as int) + 1) && 102000 * (cnt@[c as int] as int) + 102000 == 102000
                * ((cnt@[c as int] as int) + 1)) by (nonlinear_arith);
            assert(((w - 1) as int) * ((cnt@[c as int] as int) + 1) <= 0x100000000
                * 0x10000000000000000 && ((h - 1) as int) * ((cnt@[c as int] as int) + 1)
                <= 0x100000000 * 0x10000000000000000 && 255000 * ((cnt@[c as int] as int) + 1)
                <= 255000 * 0x10000000000000000) by (nonlinear_arith)
                requires
                    w >= 1,
                    h >= 1,
                    w as int <= 0x100000000,
                    h as int <= 0x100000000,
                    (cnt@[c as int] as int) + 1 <= 0x10000000000000000;
            lemma_sum64_update(cnt@, c as int, (cnt@[c as int] + 1) as u64);
        }
        let la = px[p].lab;
        acc_x.set(c, acc_x[c] + px[p].x as u128);
        acc_y.set(c, acc_y[c] + px[p].y as u128);
        acc_l.set(c, acc_l[c] + la.l as u128);
        acc_a.set(c, acc_a[c] + (la.a + 127500) as u128);
        acc_b.set(c, acc_b[c] + (la.b + 51000) as u128);
        let cv = cnt[c];
        cnt.set(c, cv + 1);
        p = p + 1;
    }
    let mut moved: u128 = 0;
    let mut i: usize = 0;
    while i < k
        invariant
            k == centers@.len(),
            acc_x@.len() == k && acc_y@.len() == k && acc_l@.len() == k && acc_a@.len() == k
                && acc_b@.len() == k && cnt@.len() == k,
            forall|q: int|
                0 <= q < k ==> (#[trigger] centers@[q]).x < w && centers@[q].y < h
                    && centers@[q].lab.wf(),
            forall|q: int|
                0 <= q < k ==> (#[trigger] acc_x@[q]) <= ((w - 1) as int) * (cnt@[q] as int),
            forall|q: int|
                0 <= q < k ==> (#[trigger] acc_y@[q]) <= ((h - 1) as int) * (cnt@[q] as int),
            forall|q: int| 0 <= q < k ==> (#[trigger] acc_l@[q]) <= 25500 * (cnt@[q] as int),
            forall|q: int| 0 <= q < k ==> (#[trigger] acc_a@[q]) <= 255000 * (cnt@[q] as int),
            forall|q: int| 0 <= q < k ==> (#[trigger] acc_b@[q]) <= 102000 * (cnt@[q] as int),
            moved <= (i as int) * 0x300000000,
            1 <= w,
            1 <= h,
            i <= k,
        decreases k - i,
    {
        if cnt[i] > 0 {
            let c = cnt[i];
            let mx = mean_u128(acc_x[i], c, (w - 1) as u128);
            let my = mean_u128(acc_y[i], c, (h - 1) as u128);
            let ml = mean_u128(acc_l[i], c, 25500);
            let ma = mean_u128(acc_a[i], c, 255000);
            let mb = mean_u128(acc_b[i], c, 102000);
            let nlab = LabColor {
                l: ml as i32,
                a: (ma as i64 - 127500) as i32,
                b: (mb as i64 - 51000) as i32,
            };
            let old_c = &centers[i];
            let dmove = abs_diff(old_c.x, mx as u64) as u128 + abs_diff(old_c.y, my as u64) as u128
                + abs_diff(old_c.lab.l as u64, nlab.l as u64) as u128;
            proof {
                assert(moved + dmove <= ((i + 1) as int) * 0x300000000 && ((i + 1) as int)
                    * 0x300000000 < 0x100000000000000000000000000000000) by (nonlinear_arith)
                    requires
                        moved <= (i as int) * 0x300000000,
                        dmove <= 0x300000000,
                        0 <= i < 0x10000000000000000;
            }
            moved = moved + dmove;
            let newx = if (mx as u64) < w as u64 { mx as u64 } else { w as u64 - 1 };
            let newy = if (my as u64) < h as u64 { my as u64 } else { h as u64 - 1 };
            centers.set(i, Center { x: newx, y: newy, lab: nlab });
        } else {
            proof {
                assert(moved <= ((i + 1) as int) * 0x300000000) by (nonlinear_arith)
                    requires moved <= (i as int) * 0x300000000, 0 <= i < 0x10000000000000000;
            }
        }
        i = i + 1;
    }
    moved
}

/// A vector of zeros.
pub(crate) fn vec_zero(k: usize) -> (r: Vec<u128>)
    ensures
        r@.len() == k,
        forall|i: int| 0 <= i < k ==> (#[trigger] r@[i]) == 0,
{
    let mut v: Vec<u128> = Vec::new();
    let mut i: usize = 0;
    while i < k
        invariant
            i <= k,
            v@.len() == i,
            forall|q: int| 0 <= q < i ==> (#[trigger] v@[q]) == 0,
        decreases k - i,
    {
        v.push(0);
        i = i + 1;
    }
    v
}

/// A vector of zeros.
pub(crate) fn vec_zero64(k: usize) -> (r: Vec<u64>)
    ensures
        r@.len() == k,
        forall|i: int| 0 <= i < k ==> (#[trigger] r@[i]) == 0,
        sum64(r@) == 0,
{
    let mut v: Vec<u64> = Vec::new();
    let mut i: usize = 0;
    while i < k
        invariant
            i <= k,
            v@.len() == i,
            forall|q: int| 0 <= q < i ==> (#[trigger] v@[q]) == 0,
            sum64(v@) == 0,
        decreases k - i,
    {
        proof {
            crate::util::lemma_sum64_push(v@, 0);
        }
        v.push(0);
        i = i + 1;
    }
    v
}

/// Aggregate the final assignment into superpixels: mean perceptual color,
/// mean RGB color, and pixel count per label. The counts partition the
/// pixels, so they sum to the pixel count.
pub fn compute_superpixels(img: &ImageData, labels: &Vec<usize>, k: usize) -> (r: Vec<Superpixel>)
    requires
        img.wf(),
        1 <= img.width,
        1 <= img.height,
        labels@.len() == img.spec_pixel_count(),
        forall|p: int| 0 <= p < labels@.len() ==> (#[trigger] labels@[p]) < k,
        k >= 1,
    ensures
        r@.len() == k,
        forall|i: int| 0 <= i < k ==> (#[trigger] r@[i]).wf(),
        sum64(sp_counts(r@)) == img.spec_pixel_count(),
        forall|i: int|
            0 <= i < k ==> (#[trigger] r@[i]).count == spec_label_count(
                labels@,
                img.spec_pixel_count(),
                i,
            ),
        forall|i: int|
            0 <= i < k && (#[trigger] r@[i]).count > 0 ==> {
                let n = img.spec_pixel_count();
                let c = r@[i].count as int;
                &&& r@[i].red as int == spec_label_sum(img.pixels@, labels@, n, i, 0) / c
                &&& r@[i].green as int == spec_label_sum(img.pixels@, labels@, n, i, 1) / c
                &&& r@[i].blue as int == spec_label_sum(img.pixels@, labels@, n, i, 2) / c
            },
{
    let len = img.pixels.len();
    let n = len / 4;
    proof {
        assert(4 * (img.width as int) * (img.height as int) == 4 * ((img.width as int) * (
        img.height as int))) by (nonlinear_arith);
    }
    let mut acc_r: Vec<u128> = vec_zero(k);
    let mut acc_g: Vec<u128> = vec_zero(k);
    let mut acc_b: Vec<u128> = vec_zero(k);
    let mut acc_l: Vec<u128> = vec_zero(k);
    let mut acc_la: Vec<u128> = vec_zero(k);
    let mut acc_lb: Vec<u128> = vec_zero(k);
    let mut cnt: Vec<u64> = vec_zero64(k);
    let mut p: usize = 0;
    while p < n
        invariant
            img.wf(),
            n == img.spec_pixel_count(),
            img.pixels@.len() == 4 * n,
            len == img.pixels@.len(),
            labels@.len() == n,
            forall|q: int| 0 <= q < n ==> (#[trigger] labels@[q]) < k,
            p <= n,
            n <= 0x7fffffffffffffff,
            acc_r@.len() == k && acc_g@.len() == k && acc_b@.len() == k && acc_l@.len() == k
                && acc_la@.len() == k && acc_lb@.len() == k && cnt@.len() == k,
            sum64(cnt@) == p,
            forall|i: int| 0 <= i < k ==> (#[trigger] cnt@[i]) <= p,
            forall|i: int|
                0 <= i < k ==> (#[trigger] cnt@[i]) as int == spec_label_count(
                    labels@,
                    p as int,
                    i,
                ),
            forall|i: int|
                0 <= i < k ==> (#[trigger] acc_r@[i]) as int == spec_label_sum(
                    img.pixels@,
                    labels@,
                    p as int,
                    i,
                    0,
                ),
            forall|i: int|
                0 <= i < k ==> (#[trigger] acc_g@[i]) as int == spec_label_sum(
                    img.pixels@,
                    labels@,
                    p as int,
                    i,
                    1,
                ),
            forall|i: int|
                0 <= i < k ==> (#[trigger] acc_b@[i]) as int == spec_label_sum(
                    img.pixels@,
                    labels@,
                    p as int,
                    i,
                    2,
                ),
            forall|i: int| 0 <= i < k ==> (#[trigger] acc_r@[i]) <= 255 * (cnt@[i] as int),
            forall|i: int| 0 <= i < k ==> (#[trigger] acc_g@[i]) <= 255 * (cnt@[i] as int),
            forall|i: int| 0 <= i < k ==> (#[trigger] acc_b@[i]) <= 255 * (cnt@[i] as int),
            forall|i: int| 0 <= i < k ==> (#[trigger] acc_l@[i]) <= 25500 * (cnt@[i] as int),
            forall|i: int| 0 <= i < k ==> (#[trigger] acc_la@[i]) <= 255000 * (cnt@[i] as int),
            forall|i: int| 0 <= i < k ==> (#[trigger] acc_lb@[i]) <= 102000 * (cnt@[i] as int),
        decreases n - p,
    {
        let c = labels[p];
        proof {
            lemma_sum64_element_bound(cnt@, c as int);
            assert(255 * (cnt@[c as int] as int) + 255 == 255 * ((cnt@[c as int] as int) + 1)
                && 25500 * (cnt@[c as int] as int) + 25500 == 25500 * ((cnt@[
            c as int] as int) + 1) && 255000 * (cnt@[c as int] as int) + 255000 == 255000 * ((
            cnt@[c as int] as int) + 1) && 102000 * (cnt@[c as int] as int) + 102000 == 102000
                * ((cnt@[c as int] as int) + 1)) by (nonlinear_arith);
            lemma_sum64_update(cnt@, c as int, (cnt@[c as int] + 1) as u64);
        }
        let pr = img.pixels[4 * p];
        let pg = img.pixels[4 * p + 1];
        let pb = img.pixels[4 * p + 2];
        let la = srgb_to_lab(pr, pg, pb);
        acc_r.set(c, acc_r[c] + pr as u128);
        acc_g.set(c, acc_g[c] + pg as u128);
        acc_b.set(c, acc_b[c] + pb as u128);
        acc_l.set(c, acc_l[c] + la.l as u128);
        acc_la.set(c, acc_la[c] + (la.a + 127500) as u128);
        acc_lb.set(c, acc_lb[c] + (la.b + 51000) as u128);
        let cv = cnt[c];
        cnt.set(c, cv + 1);
        p = p + 1;
    }
    let mut out: Vec<Superpixel> = Vec::new();
    let mut i: usize = 0;
    while i < k
        invariant
            img.wf(),
            n == img.spec_pixel_count(),
            labels@.len() == n,
            acc_r@.len() == k && acc_g@.len() == k && acc_b@.len() == k && acc_l@.len() == k
                && acc_la@.len() == k && acc_lb@.len() == k && cnt@.len() == k,
            forall|q: int|
                0 <= q < k ==> (#[trigger] cnt@[q]) as int == spec_label_count(
                    labels@,
                    n as int,
                    q,
                ),
            forall|q: int|
                0 <= q < k ==> (#[trigger] acc_r@[q]) as int == spec_label_sum(
                    img.pixels@,
                    labels@,
                    n as int,
                    q,
                    0,
                ),
            forall|q: int|
                0 <= q < k ==> (#[trigger] acc_g@[q]) as int == spec_label_sum(
                    img.pixels@,
                    labels@,
                    n as int,
                    q,
                    1,
                ),
            forall|q: int|
                0 <= q < k ==> (#[trigger] acc_b@[q]) as int == spec_label_sum(
                    img.pixels@,
                    labels@,
                    n as int,
                    q,
                    2,
                ),
            forall|q: int| 0 <= q < k ==> (#[trigger] acc_r@[q]) <= 255 * (cnt@[q] as int),
            forall|q: int| 0 <= q < k ==> (#[trigger] acc_g@[q]) <= 255 * (cnt@[q] as int),
            forall|q: int| 0 <= q < k ==> (#[trigger] acc_b@[q]) <= 255 * (cnt@[q] as int),
            forall|q: int| 0 <= q < k ==> (#[trigger] acc_l@[q]) <= 25500 * (cnt@[q] as int),
            forall|q: int| 0 <= q < k ==> (#[trigger] acc_la@[q]) <= 255000 * (cnt@[q] as int),
            forall|q: int| 0 <= q < k ==> (#[trigger] acc_lb@[q]) <= 102000 * (cnt@[q] as int),
            i <= k,
            out@.len() == i,
            forall|q: int| 0 <= q < i ==> (#[trigger] out@[q]).wf(),
            forall|q: int|
                0 <= q < i ==> (#[trigger] out@[q]).count == cnt@[q],
            forall|q: int|
                0 <= q < i && (#[trigger] out@[q]).count > 0 ==> {
                    let c = out@[q].count as int;
                    &&& out@[q].red as int == (acc_r@[q] as int) / c
                    &&& out@[q].green as int == (acc_g@[q] as int) / c
                    &&& out@[q].blue as int == (acc_b@[q] as int) / c
                },
            sum64(sp_counts(out@)) == sum64(cnt@.take(i as int)),
        decreases k - i,
    {
        let c = cnt[i];
        let sp: Superpixel = if c > 0 {
            let mr = mean_u128(acc_r[i], c, 255);
            let mg = mean_u128(acc_g[i], c, 255);
            let mb = mean_u128(acc_b[i], c, 255);
            let ml = mean_u128(acc_l[i], c, 25500);
            let ma = mean_u128(acc_la[i], c, 255000);
            let mlb = mean_u128(acc_lb[i], c, 102000);
            Superpixel {
                lab: LabColor {
                    l: ml as i32,
                    a: (ma as i64 - 127500) as i32,
                    b: (mlb as i64 - 51000) as i32,
                },
                red: mr as u8,
                green: mg as u8,
                blue: mb as u8,
                count: c,
            }
        } else {
            Superpixel { lab: LabColor { l: 0, a: 0, b: 0 }, red: 0, green: 0, blue: 0, count: 0 }
        };
        proof {
            lemma_sum64_take_step(cnt@, i as int);
            assert(sp_counts(out@.push(sp)) =~= sp_counts(out@).push(sp.count));
            crate::util::lemma_sum64_push(sp_counts(out@), sp.count);
        }
        out.push(sp);
        i = i + 1;
    }
    proof {
        lemma_sum64_take_full(cnt@);
    }
    out
}

/// Partition the image into compact, color-coherent superpixels.
///
/// Seeds about `s_target` centers on a grid, then iterates bounded rounds
/// of local assignment and mean recomputation, stopping early once the
/// centers stop moving. Every pixel receives exactly one label, the
/// realized superpixel count never exceeds `s_target`, and the superpixel
/// weights partition the pixel count.
pub fn segment(img: &ImageData, s_target: usize, compactness: u32, iterations: u32) -> (r: (
    Vec<usize>,
    Vec<Superpixel>,
))
    requires
        img.wf(),
        1 <= img.width,
        1 <= img.height,
        1 <= s_target,
        1 <= compactness <= 100,
        1 <= iterations <= 64,
    ensures
        r.0@.len() == img.spec_pixel_count(),
        1 <= r.1@.len() <= s_target,
        forall|p: int| 0 <= p < r.0@.len() ==> (#[trigger] r.0@[p]) < r.1@.len(),
        forall|i: int| 0 <= i < r.1@.len() ==> (#[trigger] r.1@[i]).wf(),
        sum64(sp_counts(r.1@)) == img.spec_pixel_count(),
{
    let n = img.pixels.len() / 4;
    proof {
        assert(4 * (img.width as int) * (img.height as int) == 4 * ((img.width as int) * (
        img.height as int))) by (nonlinear_arith);
        assert((img.width as int) * (img.height as int) >= 1) by (nonlinear_arith)
            requires img.width >= 1, img.height >= 1;
    }
    let px = pixel_infos(img, n);
    let g = make_grid(img.width, img.height, s_target, compactness);
    let mut centers = init_centers(&px, img.width, img.height, &g);
    let mut labels: Vec<usize> = vec_zero_usize(n);
    proof {
        assert(centers@.len() >= 1) by (nonlinear_arith)
            requires centers@.len() == (g.gx as int) * (g.gy as int), g.gx >= 1, g.gy >= 1;
    }
    let mut it: u32 = 0;
    let mut done: bool = false;
    while it < iterations && !done
        invariant
            img.wf(),
            1 <= img.width,
            1 <= img.height,
            g.wf(),
            g.gx <= img.width,
            g.gy <= img.height,
            n == img.spec_pixel_count(),
            n >= 1,
            px@.len() == n,
            forall|p: int| 0 <= p < px@.len() ==> (#[trigger] px@[p]).lab.wf(),
            forall|p: int|
                0 <= p < px@.len() ==> (#[trigger] px@[p]).x < img.width && px@[p].y
                    < img.height,
            centers@.len() == g.gx * g.gy,
            centers@.len() >= 1,
            forall|i: int|
                0 <= i < centers@.len() ==> (#[trigger] centers@[i]).x < img.width
                    && centers@[i].y < img.height && centers@[i].lab.wf(),
            labels@.len() == n,
            forall|p: int| 0 <= p < labels@.len() ==> (#[trigger] labels@[p]) < centers@.len(),
        decreases iterations - it, (if done { 0int } else { 1int }),
    {
        assign_pixels(&px, img.width, img.height, &g, &centers, &mut labels);
        let moved = recompute_centers(&px, img.width, img.height, &labels, &mut centers);
        if moved == 0 {
            done = true;
        }
        it = it + 1;
    }
    assign_pixels(&px, img.width, img.height, &g, &centers, &mut labels);
    // Connectivity pass: fold any fragment smaller than a quarter grid cell
    // into its largest neighbouring region.
    proof {
        assert(g.step_x <= img.width && g.step_y <= img.height) by (nonlinear_arith)
            requires
                g.step_x == img.width as int / g.gx as int,
                g.step_y == img.height as int / g.gy as int,
                g.gx >= 1,
                g.gy >= 1,
                img.width >= 1,
                img.height >= 1;
        assert((g.step_x as int) * (g.step_y as int) <= (img.width as int) * (
        img.height as int)) by (nonlinear_arith)
            requires
                1 <= g.step_x <= img.width as int,
                1 <= g.step_y <= img.height as int;
    }
    let min_size: usize = (g.step2 / 4) as usize;
    crate::connect::enforce_connectivity(
        img.width as usize,
        img.height as usize,
        &mut labels,
        centers.len(),
        min_size,
    );
    let k = centers.len();
    let sps = compute_superpixels(img, &labels, k);
    (labels, sps)
}

/// A vector of zero labels.
pub(crate) fn vec_zero_usize(k: usize) -> (r: Vec<usize>)
    ensures
        r@.len() == k,
        forall|i: int| 0 <= i < k ==> (#[trigger] r@[i]) == 0,
{
    let mut v: Vec<usize> = Vec::new();
    let mut i: usize = 0;
    while i < k
        invariant
            i <= k,
            v@.len() == i,
            forall|q: int| 0 <= q < i ==> (#[trigger] v@[q]) == 0,
        decreases k - i,
    {
        v.push(0);
        i = i + 1;
    }
    v
}

} // verus!
