use vstd::prelude::*;

verus! {

/// A color in a perceptually uniform space: lightness plus two chroma axes,
/// held in fixed point with 255 units per Lab unit, so that squared
/// Euclidean distance on these fields approximates perceived difference.
#[derive(Debug, Clone, Copy, PartialEq, Eq, Structural)]
pub struct LabColor {
    /// Lightness, 255 units per L* unit: 0 ..= 25500.
    pub l: i32,
    /// Green-red chroma axis, 255 units per a* unit.
    pub a: i32,
    /// Blue-yellow chroma axis, 255 units per b* unit.
    pub b: i32,
}

/// Largest possible squared distance between two well-formed colors.
pub const MAX_LAB_DIST2: u64 = 133305502500;

impl LabColor {
    /// The fixed-point fields stay inside the range that the sRGB
    /// conversion can produce.
    pub open spec fn wf(&self) -> bool {
        0 <= self.l <= 25500 && -127500 <= self.a <= 127500 && -51000 <= self.b <= 51000
    }
}

/// Squared perceptual distance as a mathematical integer.
pub open spec fn spec_lab_dist2(x: LabColor, y: LabColor) -> int {
    (x.l - y.l) * (x.l - y.l) + (x.a - y.a) * (x.a - y.a) + (x.b - y.b) * (x.b - y.b)
}

/// Squared Euclidean distance between two colors of the perceptual space.
pub fn lab_dist2(x: &LabColor, y: &LabColor) -> (r: u64)
    requires
        x.wf(),
        y.wf(),
    ensures
        r == spec_lab_dist2(*x, *y),
        r <= MAX_LAB_DIST2,
{
    let dl: i64 = (x.l as i64) - (y.l as i64);
    let da: i64 = (x.a as i64) - (y.a as i64);
    let db: i64 = (x.b as i64) - (y.b as i64);
    proof {
        assert(dl * dl <= 25500 * 25500) by (nonlinear_arith)
            requires -25500 <= dl <= 25500;
        assert(da * da <= 255000 * 255000) by (nonlinear_arith)
            requires -255000 <= da <= 255000;
        assert(db * db <= 102000 * 102000) by (nonlinear_arith)
            requires -102000 <= db <= 102000;
        assert(dl * dl >= 0) by (nonlinear_arith);
        assert(da * da >= 0) by (nonlinear_arith);
        assert(db * db >= 0) by (nonlinear_arith);
    }
    ((dl * dl) + (da * da) + (db * db)) as u64
}

/// Floor of the cube root, for arguments up to 255 cubed.
pub fn icbrt255(x: u32) -> (r: u32)
    requires
        x <= 16581375,
    ensures
        r <= 255,
        (r as int) * (r as int) * (r as int) <= x as int,
        x < ((r + 1) as int) * ((r + 1) as int) * ((r + 1) as int),
{
    let mut lo: u32 = 0;
    let mut hi: u32 = 256;
    while hi - lo > 1
        invariant
            lo < hi <= 256,
            (lo as int) * (lo as int) * (lo as int) <= x as int,
            x < (hi as int) * (hi as int) * (hi as int),
        decreases hi - lo,
    {
        let mid: u32 = lo + (hi - lo) / 2;
        proof {
            assert((mid as int) * (mid as int) <= 256 * 256
                && 0 <= (mid as int) * (mid as int)
                && (mid as int) * (mid as int) * (mid as int) <= 256 * 256 * 256
                && 0 <= (mid as int) * (mid as int) * (mid as int))
                by (nonlinear_arith)
                requires 0 <= mid <= 256;
        }
        let cube: u64 = (mid as u64) * (mid as u64) * (mid as u64);
        if cube <= x as u64 {
            lo = mid;
        } else {
            hi = mid;
        }
    }
    proof {
        assert(lo <= 255);
    }
    lo
}

/// Exact mathematical description of the sRGB-to-perceptual conversion the
/// pipeline uses: a gamma-2 linearization, the standard linear-light matrix
/// normalized to the D65 white point, and a cube-root lightness curve.
pub open spec fn spec_channel_f(t: int) -> int
    recommends 0 <= t <= 65025
{
    spec_icbrt(255 * t)
}

/// Floor of the cube root as a mathematical function.
pub open spec fn spec_icbrt(x: int) -> int {
    choose|r: int| 0 <= r && #[trigger] (r * r * r) <= x < (r + 1) * (r + 1) * (r + 1)
}

proof fn lemma_icbrt_unique(x: int, r: int)
    requires
        0 <= r,
        r * r * r <= x < (r + 1) * (r + 1) * (r + 1),
    ensures
        spec_icbrt(x) == r,
{
    assert(exists|q: int| 0 <= q && #[trigger] (q * q * q) <= x < (q + 1) * (q + 1) * (q + 1)) by {
        assert(0 <= r && r * r * r <= x < (r + 1) * (r + 1) * (r + 1));
    }
    let q = spec_icbrt(x);
    assert(0 <= q && q * q * q <= x < (q + 1) * (q + 1) * (q + 1));
    assert(q == r) by (nonlinear_arith)
        requires
            0 <= r,
            0 <= q,
            r * r * r <= x < (r + 1) * (r + 1) * (r + 1),
            q * q * q <= x < (q + 1) * (q + 1) * (q + 1);
}

/// The cube-root transfer applied to one normalized tristimulus value.
fn channel_f(t: u32) -> (r: u32)
    requires
        t <= 65025,
    ensures
        r == spec_channel_f(t as int),
        r <= 255,
{
    let r = icbrt255(255 * t);
    proof {
        lemma_icbrt_unique(255 * (t as int), r as int);
    }
    r
}

/// Convert one sRGB byte triple into the fixed-point perceptual space.
///
/// The result is a pure function of the three bytes, so the whole pipeline
/// stays deterministic.
pub fn srgb_to_lab(red: u8, green: u8, blue: u8) -> (c: LabColor)
    ensures
        c.wf(),
        c == spec_srgb_to_lab(red, green, blue),
{
    proof {
        assert((red as int) * (red as int) <= 65025
            && (green as int) * (green as int) <= 65025
            && (blue as int) * (blue as int) <= 65025
            && (red as int) * (red as int) >= 0
            && (green as int) * (green as int) >= 0
            && (blue as int) * (blue as int) >= 0) by (nonlinear_arith)
            requires red <= 255 && green <= 255 && blue <= 255;
    }
    let lr: u32 = (red as u32) * (red as u32);
    let lg: u32 = (green as u32) * (green as u32);
    let lb: u32 = (blue as u32) * (blue as u32);
    let tx: u32 = (4124 * lr + 3576 * lg + 1805 * lb) / 9505;
    let ty: u32 = (2126 * lr + 7152 * lg + 722 * lb) / 10000;
    let tz: u32 = (193 * lr + 1192 * lg + 9505 * lb) / 10890;
    proof {
        assert(lr <= 65025 && lg <= 65025 && lb <= 65025);
        assert(tx <= 65025 && ty <= 65025 && tz <= 65025) by (nonlinear_arith)
            requires
                lr <= 65025 && lg <= 65025 && lb <= 65025,
                tx == (4124 * lr + 3576 * lg + 1805 * lb) / 9505,
                ty == (2126 * lr + 7152 * lg + 722 * lb) / 10000,
                tz == (193 * lr + 1192 * lg + 9505 * lb) / 10890;
    }
    let fx: u32 = channel_f(tx);
    let fy: u32 = channel_f(ty);
    let fz: u32 = channel_f(tz);
    let l_raw: i32 = 116 * (fy as i32) - 4080;
    let l: i32 = if l_raw < 0 { 0 } else { l_raw };
    let a: i32 = 500 * ((fx as i32) - (fy as i32));
    let b: i32 = 200 * ((fy as i32) - (fz as i32));
    LabColor { l, a, b }
}

/// `srgb_to_lab` as a spec-level function of the three bytes.
pub open spec fn spec_srgb_to_lab(red: u8, green: u8, blue: u8) -> LabColor {
    let lr = (red as int) * (red as int);
    let lg = (green as int) * (green as int);
    let lb = (blue as int) * (blue as int);
    let fx = spec_channel_f((4124 * lr + 3576 * lg + 1805 * lb) / 9505);
    let fy = spec_channel_f((2126 * lr + 7152 * lg + 722 * lb) / 10000);
    let fz = spec_channel_f((193 * lr + 1192 * lg + 9505 * lb) / 10890);
    let l_raw = 116 * fy - 4080;
    LabColor {
        l: (if l_raw < 0 { 0 } else { l_raw }) as i32,
        a: (500 * (fx - fy)) as i32,
        b: (200 * (fy - fz)) as i32,
    }
}

} // verus!
