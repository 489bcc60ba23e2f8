use vstd::prelude::*;
use crate::cluster::{rc_counts, RawCluster};
use crate::color::LabColor;
use crate::hex::{hex_color, spec_hex_color};
use crate::merge::sorted_desc;
use crate::util::{lemma_sum64_element_bound, lemma_sum64_push, sum64};
use crate::config::AnalysisConfig;
use crate::error::AnalysisError;
use crate::slic::Superpixel;
use vstd::string::StringExecFns;

verus! {

/// A final palette entry: representative color in the perceptual space and
/// as RGB bytes, its hex rendering, its pixel weight, and its share of the
/// processed image in units of a ten-thousandth of a percent
/// (1_000_000 == 100%).
pub struct ColorCluster {
    pub lab: LabColor,
    pub red: u8,
    pub green: u8,
    pub blue: u8,
    pub hex: String,
    pub count: u64,
    pub percentage: u32,
}

impl ColorCluster {
    pub open spec fn wf(&self) -> bool {
        &&& self.lab.wf()
        &&& self.count > 0
        &&& self.percentage <= 1000000
        &&& self.hex@ == spec_hex_color(self.red, self.green, self.blue)
    }
}

/// The share of `count` pixels out of `total`, in ten-thousandths of a
/// percent, rounded down.
pub open spec fn spec_pct(count: u64, total: u64) -> int {
    (count as int) * 1000000 / (total as int)
}

/// The percentages of a cluster list, widened for summation.
pub open spec fn cc_pcts(s: Seq<ColorCluster>) -> Seq<u64> {
    s.map_values(|c: ColorCluster| c.percentage as u64)
}

/// The pixel weights of a cluster list.
pub open spec fn cc_counts(s: Seq<ColorCluster>) -> Seq<u64> {
    s.map_values(|c: ColorCluster| c.count)
}

/// Division by a positive total preserves order.
proof fn lemma_div_mono(a: int, b: int, t: int)
    requires
        0 <= a <= b,
        t >= 1,
    ensures
        a / t <= b / t,
{
    assert(a / t <= b / t) by (nonlinear_arith)
        requires 0 <= a <= b, t >= 1;
}

/// Turn the merged clusters into the final palette entries: hex strings and
/// percentages of the total pixel count. Every percentage is the exact
/// floored share of its cluster, the order (falling weight, hence falling
/// percentage) is kept, and the percentages sum to 100% within a deficit
/// smaller than one ten-thousandth of a percent per cluster.
pub fn finalize_clusters(merged: &Vec<RawCluster>, total: u64) -> (r: Vec<ColorCluster>)
    requires
        merged@.len() >= 1,
        forall|i: int|
            0 <= i < merged@.len() ==> (#[trigger] merged@[i]).wf() && merged@[i].count > 0,
        sorted_desc(merged@),
        total >= 1,
        sum64(rc_counts(merged@)) == total,
    ensures
        r@.len() == merged@.len(),
        forall|i: int|
            0 <= i < r@.len() ==> {
                let c = #[trigger] r@[i];
                &&& c.wf()
                &&& c.lab == merged@[i].lab
                &&& c.red == merged@[i].red
                &&& c.green == merged@[i].green
                &&& c.blue == merged@[i].blue
                &&& c.count == merged@[i].count
                &&& c.percentage == spec_pct(merged@[i].count, total)
            },
        forall|p: int, q: int|
            0 <= p < q < r@.len() ==> (#[trigger] r@[p]).percentage >= (#[trigger] r@[
            q]).percentage,
        sum64(cc_pcts(r@)) <= 1000000,
        sum64(cc_pcts(r@)) > 1000000 - r@.len(),
{
    let len = merged.len();
    let mut out: Vec<ColorCluster> = Vec::new();
    let mut i: usize = 0;
    let ghost t: int = total as int;
    let ghost mut sum_c: int = 0;
    while i < len
        invariant
            len == merged@.len(),
            forall|q: int|
                0 <= q < merged@.len() ==> (#[trigger] merged@[q]).wf() && merged@[q].count > 0,
            sorted_desc(merged@),
            total >= 1,
            t == total as int,
            sum64(rc_counts(merged@)) == total,
            i <= len,
            out@.len() == i,
            sum_c == sum64(rc_counts(merged@).take(i as int)),
            forall|p: int, q: int|
                0 <= p < q < i ==> (#[trigger] out@[p]).percentage >= (#[trigger] out@[
                q]).percentage,
            forall|q: int|
                0 <= q < i ==> {
                    let c = #[trigger] out@[q];
                    &&& c.wf()
                    &&& c.lab == merged@[q].lab
                    &&& c.red == merged@[q].red
                    &&& c.green == merged@[q].green
                    &&& c.blue == merged@[q].blue
                    &&& c.count == merged@[q].count
                    &&& c.percentage == spec_pct(merged@[q].count, total)
                },
            t * sum64(cc_pcts(out@)) <= 1000000 * sum_c,
            1000000 * sum_c <= t * sum64(cc_pcts(out@)) + i * (t - 1),
        decreases len - i,
    {
        let m = &merged[i];
        proof {
            lemma_sum64_element_bound(rc_counts(merged@), i as int);
            assert(rc_counts(merged@)[i as int] == merged@[i as int].count);
            assert((m.count as int) * 1000000 <= (total as int) * 1000000) by (nonlinear_arith)
                requires m.count <= total;
        }
        let num: u128 = (m.count as u128) * 1000000;
        let p128: u128 = num / (total as u128);
        proof {
            assert(p128 <= 1000000 && (t * (p128 as int) <= (m.count as int) * 1000000) && ((
            m.count as int) * 1000000 < t * (p128 as int) + t)) by (nonlinear_arith)
                requires
                    p128 == ((m.count as int) * 1000000) / t,
                    1 <= m.count <= total,
                    t == total as int,
                    num == (m.count as int) * 1000000;
        }
        let pct: u32 = p128 as u32;
        let cl = ColorCluster {
            lab: m.lab,
            red: m.red,
            green: m.green,
            blue: m.blue,
            hex: hex_color(m.red, m.green, m.blue),
            count: m.count,
            percentage: pct,
        };
        proof {
            // Order: earlier clusters have no smaller counts, so no smaller
            // floored percentages.
            assert forall|q: int| 0 <= q < i implies (#[trigger] out@[q]).percentage
                >= cl.percentage by {
                assert(merged@[q].count >= merged@[i as int].count);
                assert((merged@[i as int].count as int) * 1000000 <= (merged@[
                q].count as int) * 1000000) by (nonlinear_arith)
                    requires merged@[i as int].count <= merged@[q].count;
                lemma_div_mono(
                    (merged@[i as int].count as int) * 1000000,
                    (merged@[q].count as int) * 1000000,
                    t,
                );
            }
            assert(cc_pcts(out@.push(cl)) =~= cc_pcts(out@).push(cl.percentage as u64));
            lemma_sum64_push(cc_pcts(out@), cl.percentage as u64);
            assert(t * (sum64(cc_pcts(out@)) + (pct as int)) == t * sum64(cc_pcts(out@)) + t * (
            pct as int)) by (nonlinear_arith);
            crate::util::lemma_sum64_take_step(rc_counts(merged@), i as int);
            sum_c = sum_c + merged@[i as int].count;
            assert(1000000 * (sum_c - merged@[i as int].count) + 1000000 * (merged@[
            i as int].count as int) == 1000000 * sum_c) by (nonlinear_arith);
            assert((i as int) * (t - 1) + (t - 1) == ((i + 1) as int) * (t - 1))
                by (nonlinear_arith);
        }
        out.push(cl);
        i = i + 1;
    }
    proof {
        crate::util::lemma_sum64_take_full(rc_counts(merged@));
        crate::util::lemma_sum64_nonneg(cc_pcts(out@));
        let sp = sum64(cc_pcts(out@));
        assert(sp <= 1000000 && sp > 1000000 - len) by (nonlinear_arith)
            requires
                t * sp <= 1000000 * (t as int),
                1000000 * (t as int) <= t * sp + (len as int) * (t - 1),
                t >= 1,
                len >= 1,
                sp >= 0;
    }
    out
}

/// Compose per-pixel superpixel labels with the superpixel-to-cluster
/// assignment and the merge map into the final per-pixel cluster ids.
/// Every output entry indexes a valid final cluster.
pub fn compose_map(
    labels: &Vec<usize>,
    assign: &Vec<usize>,
    remap: &Vec<usize>,
    k_final: usize,
) -> (r: Vec<u32>)
    requires
        forall|p: int| 0 <= p < labels@.len() ==> (#[trigger] labels@[p]) < assign@.len(),
        forall|p: int| 0 <= p < assign@.len() ==> (#[trigger] assign@[p]) < remap@.len(),
        forall|p: int| 0 <= p < remap@.len() ==> (#[trigger] remap@[p]) < k_final,
        1 <= k_final <= 256,
    ensures
        r@.len() == labels@.len(),
        forall|p: int| 0 <= p < r@.len() ==> (#[trigger] r@[p]) < k_final,
        forall|p: int|
            0 <= p < r@.len() ==> (#[trigger] r@[p]) == remap@[assign@[labels@[p] as int] as int] as u32,
{
    let n = labels.len();
    let mut out: Vec<u32> = Vec::new();
    let mut p: usize = 0;
    while p < n
        invariant
            n == labels@.len(),
            forall|q: int| 0 <= q < labels@.len() ==> (#[trigger] labels@[q]) < assign@.len(),
            forall|q: int| 0 <= q < assign@.len() ==> (#[trigger] assign@[q]) < remap@.len(),
            forall|q: int| 0 <= q < remap@.len() ==> (#[trigger] remap@[q]) < k_final,
            k_final <= 256,
            p <= n,
            out@.len() == p,
            forall|q: int| 0 <= q < p ==> (#[trigger] out@[q]) < k_final,
            forall|q: int|
                0 <= q < p ==> (#[trigger] out@[q]) == remap@[assign@[labels@[q] as int] as int] as u32,
        decreases n - p,
    {
        let id = remap[assign[labels[p]]];
        out.push(id as u32);
        p = p + 1;
    }
    out
}


/// The complete outcome of one analysis: the processed dimensions, the
/// final palette ordered by falling percentage, and the per-pixel map from
/// pixels to palette entries.
pub struct AnalysisResult {
    pub width: u32,
    pub height: u32,
    pub clusters: Vec<ColorCluster>,
    pub segmentation_map: Vec<u32>,
}

impl AnalysisResult {
    /// The data-model invariants: at least one and at most 256 clusters,
    /// each with positive weight; a map entry per processed pixel, every
    /// entry indexing an existing cluster; clusters ordered by falling
    /// percentage; percentages that sum to 100% within a deficit smaller
    /// than one ten-thousandth of a percent per cluster; and weights that
    /// partition the processed pixels. Every weight is positive, but a
    /// floored fixed-point share can be zero: a cluster owning less than
    /// one ten-thousandth of a percent of a very large image rounds down
    /// to a zero percentage.
    pub open spec fn wf(&self) -> bool {
        &&& 1 <= self.width
        &&& 1 <= self.height
        &&& 1 <= self.clusters@.len() <= 256
        &&& self.segmentation_map@.len() == (self.width as int) * (self.height as int)
        &&& forall|p: int|
            0 <= p < self.segmentation_map@.len() ==> (#[trigger] self.segmentation_map@[p])
                < self.clusters@.len()
        &&& forall|i: int| 0 <= i < self.clusters@.len() ==> (#[trigger] self.clusters@[i]).wf()
        &&& forall|p: int, q: int|
            0 <= p < q < self.clusters@.len() ==> (#[trigger] self.clusters@[p]).percentage >= (
            #[trigger] self.clusters@[q]).percentage
        &&& sum64(cc_pcts(self.clusters@)) <= 1000000
        &&& sum64(cc_pcts(self.clusters@)) > 1000000 - self.clusters@.len()
        &&& sum64(cc_counts(self.clusters@)) == (self.width as int) * (self.height as int)
    }
}

/// A progress report surfaced between pipeline stages: either a short
/// status line or an encoded intermediate visualization. Purely
/// observational; the terminal result travels separately, after every
/// event.
#[derive(Debug)]
pub enum AnalysisEvent {
    Status(String),
    IntermediateImage(Vec<u8>),
}

/// True when the pipeline owes the caller a complete result: the palette
/// size is representable and the bytes decode to a nonempty image.
pub open spec fn spec_analyzable(bytes: Seq<u8>, k: u32) -> bool {
    &&& 1 <= k <= 256
    &&& match crate::img::decoded_image(bytes) {
        Some(t) => t.0 >= 1 && t.1 >= 1,
        None => false,
    }
}

/// Recolor every pixel with its final cluster's representative color.
fn render_map(seg: &Vec<u32>, clusters: &Vec<ColorCluster>) -> (buf: Vec<u8>)
    requires
        forall|p: int| 0 <= p < seg@.len() ==> (#[trigger] seg@[p]) < clusters@.len(),
    ensures
        buf@ =~= spec_render(seg@, clusters@),
        buf@.len() == 4 * seg@.len(),
{
    let n = seg.len();
    let mut out: Vec<u8> = Vec::new();
    let mut p: usize = 0;
    while p < n
        invariant
            n == seg@.len(),
            forall|q: int| 0 <= q < seg@.len() ==> (#[trigger] seg@[q]) < clusters@.len(),
            p <= n,
            out@.len() == 4 * p,
            forall|q: int|
                0 <= q < out@.len() ==> (#[trigger] out@[q]) == spec_render(seg@, clusters@)[q],
        decreases n - p,
    {
        let c = &clusters[seg[p] as usize];
        out.push(c.red);
        out.push(c.green);
        out.push(c.blue);
        out.push(255);
        p = p + 1;
    }
    proof {
        assert(out@ =~= spec_render(seg@, clusters@));
    }
    out
}

/// The recolored RGBA buffer as a mathematical function of the map and the
/// palette.
pub open spec fn spec_render(seg: Seq<u32>, clusters: Seq<ColorCluster>) -> Seq<u8> {
    Seq::new(
        4 * seg.len(),
        |i: int|
            {
                let c = clusters[seg[i / 4] as int];
                if i % 4 == 0 {
                    c.red
                } else if i % 4 == 1 {
                    c.green
                } else if i % 4 == 2 {
                    c.blue
                } else {
                    255u8
                }
            },
    )
}

/// Render the analysis result as a flat-color PNG where every pixel shows
/// its cluster's representative color. An encoding failure is fatal for
/// this call only: the result it was given stays intact.
pub fn visualize(res: &AnalysisResult) -> (r: Result<Vec<u8>, AnalysisError>)
    requires
        res.wf(),
    ensures
        r is Ok <==> crate::img::png_encoding(
            spec_render(res.segmentation_map@, res.clusters@),
            res.width,
            res.height,
        ) is Some,
        r matches Ok(b) ==> Some(b@) == crate::img::png_encoding(
            spec_render(res.segmentation_map@, res.clusters@),
            res.width,
            res.height,
        ),
        r matches Err(e) ==> e == AnalysisError::Encoding,
{
    let buf = render_map(&res.segmentation_map, &res.clusters);
    proof {
        assert(4 * ((res.width as int) * (res.height as int)) == 4 * (res.width as int) * (
        res.height as int)) by (nonlinear_arith);
    }
    crate::img::encode_png(&buf, res.width, res.height)
}

/// Recolor every pixel with its superpixel's mean color, for intermediate
/// progress snapshots.
fn render_superpixels(labels: &Vec<usize>, sps: &Vec<Superpixel>) -> (buf: Vec<u8>)
    requires
        forall|p: int| 0 <= p < labels@.len() ==> (#[trigger] labels@[p]) < sps@.len(),
    ensures
        buf@.len() == 4 * labels@.len(),
{
    let n = labels.len();
    let mut out: Vec<u8> = Vec::new();
    let mut p: usize = 0;
    while p < n
        invariant
            n == labels@.len(),
            forall|q: int| 0 <= q < labels@.len() ==> (#[trigger] labels@[q]) < sps@.len(),
            p <= n,
            out@.len() == 4 * p,
        decreases n - p,
    {
        let sp = &sps[labels[p]];
        out.push(sp.red);
        out.push(sp.green);
        out.push(sp.blue);
        out.push(255);
        p = p + 1;
    }
    out
}

/// Run the full pipeline and collect the progress events it would surface:
/// preprocessing, superpixel segmentation, perceptual clustering, merging,
/// and map construction. The events carry status lines and, when asked
/// for, an intermediate visualization; the result is identical to the one
/// `analyze` returns, since the events are only observed, never consulted.
pub fn analyze_with_events(
    bytes: &Vec<u8>,
    k: u32,
    max_dim: Option<u32>,
    blur_radius: Option<u32>,
    cfg: &AnalysisConfig,
) -> (r: Result<(Vec<AnalysisEvent>, AnalysisResult), AnalysisError>)
    ensures
        r is Ok <==> spec_analyzable(bytes@, k),
        !(1 <= k <= 256) ==> (r matches Err(e) && e == AnalysisError::PaletteSize),
        1 <= k <= 256 && crate::img::decoded_image(bytes@) is None ==> (r matches Err(e) && e
            == AnalysisError::Decode),
        1 <= k <= 256 && (match crate::img::decoded_image(bytes@) {
            Some(t) => t.0 == 0 || t.1 == 0,
            None => false,
        }) ==> (r matches Err(e) && e == AnalysisError::EmptyImage),
        r matches Ok(pair) ==> {
            let t = crate::img::decoded_image(bytes@)->Some_0;
            &&& pair.1.wf()
            &&& pair.1.clusters@.len() <= k
            &&& (match max_dim {
                Some(m) => (pair.1.width as int, pair.1.height as int)
                    == crate::preprocess::spec_target_dims(
                    t.0 as int,
                    t.1 as int,
                    if m == 0 { 1int } else { m as int },
                ) && (m >= 1 ==> pair.1.width <= m && pair.1.height <= m),
                None => crate::img::decoded_image(bytes@) == Some(
                    (pair.1.width, pair.1.height, t.2),
                ),
            })
            &&& forall|i: int|
                0 <= i < pair.1.clusters@.len() ==> (#[trigger] pair.1.clusters@[
                i]).percentage as int == (pair.1.clusters@[i].count as int) * 1000000 / ((
                pair.1.width as int) * (pair.1.height as int))
        },
        r matches Ok(pair) ==> {
            &&& pair.0@.len() >= 4
            &&& (pair.0@[0] matches AnalysisEvent::Status(s) && s@ == "preprocessing complete"@)
        },
        r matches Ok(pair) ==> !cfg.emit_intermediate ==> {
            &&& pair.0@.len() == 4
            &&& (pair.0@[1] matches AnalysisEvent::Status(s) && s@ == "segmentation complete"@)
            &&& (pair.0@[2] matches AnalysisEvent::Status(s) && s@ == "clustering complete"@)
            &&& (pair.0@[3] matches AnalysisEvent::Status(s) && s@ == "merging complete"@)
        },
{
    let cfg = cfg.normalized();
    if k == 0 || k > 256 {
        return Err(AnalysisError::PaletteSize);
    }
    let decoded = match crate::img::decode_rgba(bytes) {
        Ok(img) => img,
        Err(e) => {
            return Err(e);
        }
    };
    let mut events: Vec<AnalysisEvent> = Vec::new();
    let img = match crate::preprocess::preprocess(&decoded, max_dim, blur_radius) {
        Ok(img) => img,
        Err(e) => {
            return Err(e);
        }
    };
    events.push(AnalysisEvent::Status("preprocessing complete".to_owned()));
    let len = img.pixels.len();
    let n = len / 4;
    proof {
        assert(4 * (img.width as int) * (img.height as int) == 4 * ((img.width as int) * (
        img.height as int))) by (nonlinear_arith);
        assert((img.width as int) * (img.height as int) >= 1) by (nonlinear_arith)
            requires img.width >= 1, img.height >= 1;
    }
    let ku: usize = k as usize;
    proof {
        assert(1 <= (ku as int) * (cfg.superpixel_multiplier as int) <= 256 * 1024)
            by (nonlinear_arith)
            requires 1 <= ku <= 256, 1 <= cfg.superpixel_multiplier <= 1024;
    }
    let s_target: usize = ku * (cfg.superpixel_multiplier as usize);
    let (labels, sps) = crate::slic::segment(&img, s_target, cfg.compactness, cfg.slic_iterations);
    events.push(AnalysisEvent::Status("segmentation complete".to_owned()));
    if cfg.emit_intermediate {
        let buf = render_superpixels(&labels, &sps);
        proof {
            assert(4 * ((img.width as int) * (img.height as int)) == 4 * (img.width as int) * (
            img.height as int)) by (nonlinear_arith);
        }
        match crate::img::encode_png(&buf, img.width, img.height) {
            Ok(png) => {
                events.push(AnalysisEvent::IntermediateImage(png));
            }
            Err(_) => {
                // A failed snapshot never aborts the analysis: the events
                // are observational only.
            }
        }
    }
    let (assign, raw) = crate::cluster::cluster_superpixels(&sps, ku, cfg.cluster_iterations);
    events.push(AnalysisEvent::Status("clustering complete".to_owned()));
    let (finals, remap) = crate::merge::merge_clusters(raw, cfg.merge_threshold);
    events.push(AnalysisEvent::Status("merging complete".to_owned()));
    let clusters = finalize_clusters(&finals, n as u64);
    let seg = compose_map(&labels, &assign, &remap, finals.len());
    proof {
        assert(cc_counts(clusters@) =~= rc_counts(finals@));
    }
    let result = AnalysisResult {
        width: img.width,
        height: img.height,
        clusters,
        segmentation_map: seg,
    };
    Ok((events, result))
}

/// Run the full pipeline without observing progress: image bytes in, a
/// complete result or a single typed failure out.
pub fn analyze(
    bytes: &Vec<u8>,
    k: u32,
    max_dim: Option<u32>,
    blur_radius: Option<u32>,
    cfg: &AnalysisConfig,
) -> (r: Result<AnalysisResult, AnalysisError>)
    ensures
        r is Ok <==> spec_analyzable(bytes@, k),
        !(1 <= k <= 256) ==> (r matches Err(e) && e == AnalysisError::PaletteSize),
        1 <= k <= 256 && crate::img::decoded_image(bytes@) is None ==> (r matches Err(e) && e
            == AnalysisError::Decode),
        1 <= k <= 256 && (match crate::img::decoded_image(bytes@) {
            Some(t) => t.0 == 0 || t.1 == 0,
            None => false,
        }) ==> (r matches Err(e) && e == AnalysisError::EmptyImage),
        r matches Ok(res) ==> {
            let t = crate::img::decoded_image(bytes@)->Some_0;
            &&& res.wf()
            &&& res.clusters@.len() <= k
            &&& (match max_dim {
                Some(m) => (res.width as int, res.height as int)
                    == crate::preprocess::spec_target_dims(
                    t.0 as int,
                    t.1 as int,
                    if m == 0 { 1int } else { m as int },
                ) && (m >= 1 ==> res.width <= m && res.height <= m),
                None => crate::img::decoded_image(bytes@) == Some(
                    (res.width, res.height, t.2),
                ),
            })
            &&& forall|i: int|
                0 <= i < res.clusters@.len() ==> (#[trigger] res.clusters@[i]).percentage as int
                    == (res.clusters@[i].count as int) * 1000000 / ((res.width as int) * (
                res.height as int))
        },
{
    match analyze_with_events(bytes, k, max_dim, blur_radius, cfg) {
        Ok(pair) => Ok(pair.1),
        Err(e) => Err(e),
    }
}

/// Narrow the per-pixel cluster ids to single bytes for transport. An
/// explicit, validated narrowing: it fails, rather than wrapping, exactly
/// when some id does not fit in a byte.
pub fn segmentation_map_u8(res: &AnalysisResult) -> (r: Result<Vec<u8>, AnalysisError>)
    ensures
        r is Ok <==> (forall|p: int|
            0 <= p < res.segmentation_map@.len() ==> (#[trigger] res.segmentation_map@[p])
                < 256),
        r matches Ok(v) ==> {
            &&& v@.len() == res.segmentation_map@.len()
            &&& forall|p: int|
                0 <= p < v@.len() ==> (#[trigger] v@[p]) == res.segmentation_map@[p] as u8
        },
        r matches Err(e) ==> e == AnalysisError::PaletteSize,
{
    let n = res.segmentation_map.len();
    let mut out: Vec<u8> = Vec::new();
    let mut p: usize = 0;
    while p < n
        invariant
            n == res.segmentation_map@.len(),
            p <= n,
            out@.len() == p,
            forall|q: int|
                0 <= q < p ==> (#[trigger] res.segmentation_map@[q]) < 256 && out@[q]
                    == res.segmentation_map@[q] as u8,
        decreases n - p,
    {
        let v = res.segmentation_map[p];
        if v >= 256 {
            return Err(AnalysisError::PaletteSize);
        }
        out.push(v as u8);
        p = p + 1;
    }
    Ok(out)
}

} // verus!
