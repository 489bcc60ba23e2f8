use vstd::prelude::*;
use crate::error::AnalysisError;
use crate::hex::{hex_color, spec_hex_color};
use crate::img::decode_rgba;
use crate::rule::ColorData;

verus! {

#[verifier::external_type_specification]
#[verifier::external_body]
pub struct ExNeuQuant(color_quant::NeuQuant);

/// What the trained quantizer maps one RGBA pixel to: a pure function of
/// the training parameters, the training pixels and the pixel itself.
pub uninterp spec fn nq_mapped(
    samplefac: int,
    colors: int,
    training: Seq<u8>,
    red: u8,
    green: u8,
    blue: u8,
    alpha: u8,
) -> (u8, u8, u8, u8);

/// The quantized color of pixel `p` of an RGBA buffer, under the fixed
/// training parameters the dominant-color summary uses.
pub open spec fn spec_quantized_at(pix: Seq<u8>, p: int) -> (u8, u8, u8, u8) {
    nq_mapped(10, 256, pix, pix[4 * p], pix[4 * p + 1], pix[4 * p + 2], pix[4 * p + 3])
}

/// How many of the first `upto` pixels quantize to color `c`.
pub open spec fn spec_quant_count(pix: Seq<u8>, upto: int, c: (u8, u8, u8, u8)) -> int
    decreases upto,
{
    if upto <= 0 {
        0
    } else {
        spec_quant_count(pix, upto - 1, c) + if spec_quantized_at(pix, upto - 1) == c {
            1int
        } else {
            0int
        }
    }
}

/// Whether pixel `p` is the first with its quantized color.
pub open spec fn spec_first_occurrence(pix: Seq<u8>, p: int) -> bool {
    forall|q: int|
        0 <= q < p ==> (#[trigger] spec_quantized_at(pix, q)) != spec_quantized_at(pix, p)
}

/// The number of distinct quantized colors among the first `upto` pixels.
pub open spec fn spec_distinct_count(pix: Seq<u8>, upto: int) -> int
    decreases upto,
{
    if upto <= 0 {
        0
    } else {
        spec_distinct_count(pix, upto - 1) + if spec_first_occurrence(pix, upto - 1) {
            1int
        } else {
            0int
        }
    }
}

/// A reported entry is honest: some pixel quantizes to a color whose hex
/// rendering and exact whole-image share the entry carries.
pub open spec fn spec_entry_matches(pix: Seq<u8>, n: int, d: ColorData) -> bool {
    exists|p: int|
        0 <= p < n && {
            let c = #[trigger] spec_quantized_at(pix, p);
            &&& d.hex@ == spec_hex_color(c.0, c.1, c.2)
            &&& d.percentage as int == spec_quant_count(pix, n, c) * 1000000 / n
        }
}

/// A positive count means the color was seen, and the other way round.
proof fn lemma_count_pos_iff_seen(pix: Seq<u8>, upto: int, c: (u8, u8, u8, u8))
    requires
        upto >= 0,
    ensures
        spec_quant_count(pix, upto, c) > 0 <==> exists|q: int|
            0 <= q < upto && (#[trigger] spec_quantized_at(pix, q)) == c,
        spec_quant_count(pix, upto, c) >= 0,
    decreases upto,
{
    if upto > 0 {
        lemma_count_pos_iff_seen(pix, upto - 1, c);
        if spec_quantized_at(pix, upto - 1) == c {
            assert(0 <= upto - 1 < upto && spec_quantized_at(pix, upto - 1) == c);
        }
    }
}

/// A trained quantizer together with what it was trained on.
pub struct Quantizer {
    inner: color_quant::NeuQuant,
    samplefac: Ghost<int>,
    colors: Ghost<int>,
    training: Ghost<Seq<u8>>,
}

impl Quantizer {
    pub closed spec fn spec_samplefac(&self) -> int {
        self.samplefac@
    }

    pub closed spec fn spec_colors(&self) -> int {
        self.colors@
    }

    pub closed spec fn spec_training(&self) -> Seq<u8> {
        self.training@
    }
}

/// Relies on `color_quant::NeuQuant::new`: trains a palette network from
/// the RGBA sample deterministically. The argument ranges follow its
/// documentation (samplefac in [1, 30], a network of 64 to 256 colors, a
/// nonempty whole number of RGBA pixels), under which training does not
/// panic.
#[verifier::external_body]
fn nq_new(samplefac: i32, colors: usize, pixels: &Vec<u8>) -> (r: color_quant::NeuQuant)
    requires
        1 <= samplefac <= 30,
        64 <= colors <= 256,
        pixels@.len() >= 4,
        pixels@.len() % 4 == 0,
{
    color_quant::NeuQuant::new(samplefac, colors, pixels.as_slice())
}

/// Train a quantizer and record, as ghost state, what it was trained on:
/// this pairing is what lets `quantizer_map` name its results.
fn quantizer_new(samplefac: i32, colors: usize, pixels: &Vec<u8>) -> (r: Quantizer)
    requires
        1 <= samplefac <= 30,
        64 <= colors <= 256,
        pixels@.len() >= 4,
        pixels@.len() % 4 == 0,
    ensures
        r.spec_samplefac() == samplefac as int,
        r.spec_colors() == colors as int,
        r.spec_training() == pixels@,
{
    Quantizer {
        inner: nq_new(samplefac, colors, pixels),
        samplefac: Ghost(samplefac as int),
        colors: Ghost(colors as int),
        training: Ghost(pixels@),
    }
}

/// Relies on `color_quant::NeuQuant::map_pixel`: replaces a four-byte RGBA
/// pixel with the best-matching entry of the trained color map, a pure
/// function of the trained state and the pixel.
#[verifier::external_body]
fn quantizer_map(q: &Quantizer, red: u8, green: u8, blue: u8, alpha: u8) -> (r: (u8, u8, u8, u8))
    ensures
        r == nq_mapped(
            q.spec_samplefac(),
            q.spec_colors(),
            q.spec_training(),
            red,
            green,
            blue,
            alpha,
        ),
{
    let mut px = [red, green, blue, alpha];
    q.inner.map_pixel(&mut px);
    (px[0], px[1], px[2], px[3])
}

/// One distinct quantized color and how many pixels mapped to it.
struct QEntry {
    red: u8,
    green: u8,
    blue: u8,
    alpha: u8,
    count: u64,
}

/// The quantized color an entry stands for.
spec fn qtuple(e: QEntry) -> (u8, u8, u8, u8) {
    (e.red, e.green, e.blue, e.alpha)
}

/// The pixel counts of the entry list.
spec fn qcounts(s: Seq<QEntry>) -> Seq<u64> {
    s.map_values(|e: QEntry| e.count)
}

/// The shares of a reported color list, widened for summation.
pub open spec fn cd_pcts(s: Seq<ColorData>) -> Seq<u64> {
    s.map_values(|d: ColorData| d.percentage as u64)
}

/// A standalone dominant-color summary: quantize the image to a small
/// learned palette, count how many pixels land on each quantized color,
/// and report the top five as hex strings with their shares (in
/// ten-thousandths of a percent). Fails exactly when the bytes do not
/// decode or the decoded image is empty; otherwise the list holds the top
/// min(5, distinct quantized colors) entries, ordered by falling share,
/// each carrying the hex rendering of a quantized pixel color and its
/// exact floored share of the image. A floored share can round down to
/// zero for a color under one ten-thousandth of a percent of a very
/// large image.
#[verifier::rlimit(100)]
pub fn analyze_image_in_memory(image_bytes: &Vec<u8>) -> (r: Result<Vec<ColorData>, AnalysisError>)
    ensures
        r is Ok <==> (match crate::img::decoded_image(image_bytes@) {
            Some(t) => t.0 >= 1 && t.1 >= 1,
            None => false,
        }),
        r matches Ok(v) ==> (match crate::img::decoded_image(image_bytes@) {
            Some(t) => {
                let pix = t.2;
                let n = (t.0 as int) * (t.1 as int);
                &&& 1 <= v@.len() <= 5
                &&& v@.len() == (if spec_distinct_count(pix, n) < 5 {
                    spec_distinct_count(pix, n)
                } else {
                    5int
                })
                &&& crate::util::sum64(cd_pcts(v@)) <= 1000000
                &&& forall|i: int| 0 <= i < v@.len() ==> spec_entry_matches(pix, n, #[trigger] v@[i])
                &&& forall|i: int| 0 <= i < v@.len() ==> (#[trigger] v@[i]).percentage <= 1000000
                &&& forall|p: int, q: int|
                    0 <= p < q < v@.len() ==> (#[trigger] v@[p]).percentage >= (#[trigger] v@[
                    q]).percentage
            },
            None => false,
        }),
        crate::img::decoded_image(image_bytes@) is None ==> (r matches Err(e) && e
            == AnalysisError::Decode),
        (match crate::img::decoded_image(image_bytes@) {
            Some(t) => t.0 == 0 || t.1 == 0,
            None => false,
        }) ==> (r matches Err(e) && e == AnalysisError::EmptyImage),
{
    let img = match decode_rgba(image_bytes) {
        Ok(img) => img,
        Err(e) => {
            return Err(e);
        }
    };
    if img.width == 0 || img.height == 0 {
        return Err(AnalysisError::EmptyImage);
    }
    let len = img.pixels.len();
    let n = len / 4;
    let ghost pix = img.pixels@;
    proof {
        assert(4 * (img.width as int) * (img.height as int) == 4 * ((img.width as int) * (
        img.height as int))) by (nonlinear_arith);
        assert((img.width as int) * (img.height as int) >= 1) by (nonlinear_arith)
            requires img.width >= 1, img.height >= 1;
    }
    let q = quantizer_new(10, 256, &img.pixels);
    let mut entries: Vec<QEntry> = Vec::new();
    let mut p: usize = 0;
    while p < n
        invariant
            img.pixels@.len() == 4 * n,
            len == img.pixels@.len(),
            pix == img.pixels@,
            q.spec_samplefac() == 10,
            q.spec_colors() == 256,
            q.spec_training() == pix,
            p <= n,
            p >= 1 ==> entries@.len() >= 1,
            entries@.len() == spec_distinct_count(pix, p as int),
            crate::util::sum64(qcounts(entries@)) == p,
            forall|e1: int, e2: int|
                0 <= e1 < e2 < entries@.len() ==> qtuple(#[trigger] entries@[e1]) != qtuple(
                    #[trigger] entries@[e2],
                ),
            forall|e: int|
                0 <= e < entries@.len() ==> (#[trigger] entries@[e]).count as int
                    == spec_quant_count(pix, p as int, qtuple(entries@[e])),
            forall|pp: int|
                0 <= pp < p ==> exists|e: int|
                    0 <= e < entries@.len() && qtuple(#[trigger] entries@[e]) == (
                    #[trigger] spec_quantized_at(pix, pp)),
            forall|e: int| 0 <= e < entries@.len() ==> (#[trigger] entries@[e]).count <= p,
            forall|e: int| 0 <= e < entries@.len() ==> (#[trigger] entries@[e]).count >= 1,
        decreases n - p,
    {
        let pr = img.pixels[4 * p];
        let pg = img.pixels[4 * p + 1];
        let pb = img.pixels[4 * p + 2];
        let pa = img.pixels[4 * p + 3];
        let (qr, qg, qb, qa) = quantizer_map(&q, pr, pg, pb, pa);
        proof {
            assert((qr, qg, qb, qa) == spec_quantized_at(pix, p as int));
        }
        let mut found = false;
        let mut e: usize = 0;
        while e < entries.len() && !found
            invariant
                e <= entries@.len(),
                (qr, qg, qb, qa) == spec_quantized_at(pix, p as int),
                forall|t: int|
                    0 <= t < e ==> qtuple(#[trigger] entries@[t]) != (qr, qg, qb, qa),
                found ==> e < entries@.len() && qtuple(entries@[e as int]) == (qr, qg, qb, qa),
            decreases entries@.len() - e, (if found { 0int } else { 1int }),
        {
            if entries[e].red == qr && entries[e].green == qg && entries[e].blue == qb
                && entries[e].alpha == qa {
                found = true;
            } else {
                e = e + 1;
            }
        }
        if found {
            let c = entries[e].count;
            let old_e = QEntry {
                red: entries[e].red,
                green: entries[e].green,
                blue: entries[e].blue,
                alpha: entries[e].alpha,
                count: c + 1,
            };
            proof {
                // The color was counted before, so this pixel is no first
                // occurrence and only the matching entry's count grows.
                lemma_count_pos_iff_seen(pix, p as int, (qr, qg, qb, qa));
                assert(spec_quant_count(pix, p as int, (qr, qg, qb, qa)) >= 1);
                assert(!spec_first_occurrence(pix, p as int));
                crate::util::lemma_sum64_update(qcounts(entries@), e as int, (entries@[
                e as int].count + 1) as u64);
            }
            let ghost pre = entries@;
            entries.set(e, old_e);
            proof {
                assert(qcounts(entries@) =~= qcounts(pre).update(e as int, (pre[
                e as int].count + 1) as u64));
                assert forall|pp: int| 0 <= pp <= p as int implies exists|t: int|
                    0 <= t < entries@.len() && qtuple(#[trigger] entries@[t]) == (
                    #[trigger] spec_quantized_at(pix, pp)) by {
                    if pp == p as int {
                        assert(qtuple(entries@[e as int]) == spec_quantized_at(pix, pp));
                    } else {
                        let t0 = choose|t: int|
                            0 <= t < pre.len() && qtuple(#[trigger] pre[t])
                                == spec_quantized_at(pix, pp);
                        assert(qtuple(entries@[t0]) == spec_quantized_at(pix, pp));
                    }
                }
            }
        } else {
            proof {
                // No entry matches, so no earlier pixel quantized to this
                // color and its running count is still zero.
                assert forall|pp: int| 0 <= pp < p implies (#[trigger] spec_quantized_at(
                    pix,
                    pp,
                )) != (qr, qg, qb, qa) by {
                    if spec_quantized_at(pix, pp) == (qr, qg, qb, qa) {
                        assert(exists|t: int|
                            0 <= t < entries@.len() && qtuple(#[trigger] entries@[t])
                                == spec_quantized_at(pix, pp));
                    }
                }
                lemma_count_pos_iff_seen(pix, p as int, (qr, qg, qb, qa));
                assert(spec_quant_count(pix, p as int, (qr, qg, qb, qa)) == 0);
                assert(spec_first_occurrence(pix, p as int));
                crate::util::lemma_sum64_push(qcounts(entries@), 1);
            }
            let ghost pre = entries@;
            entries.push(QEntry { red: qr, green: qg, blue: qb, alpha: qa, count: 1 });
            proof {
                assert(qcounts(entries@) =~= qcounts(pre).push(1u64));
                assert forall|pp: int| 0 <= pp <= p as int implies exists|t: int|
                    0 <= t < entries@.len() && qtuple(#[trigger] entries@[t]) == (
                    #[trigger] spec_quantized_at(pix, pp)) by {
                    if pp == p as int {
                        assert(qtuple(entries@[pre.len() as int]) == spec_quantized_at(
                            pix,
                            pp,
                        ));
                    } else {
                        let t0 = choose|t: int|
                            0 <= t < pre.len() && qtuple(#[trigger] pre[t])
                                == spec_quantized_at(pix, pp);
                        assert(qtuple(entries@[t0]) == spec_quantized_at(pix, pp));
                    }
                }
            }
        }
        p = p + 1;
    }
    // Order by falling count.
    let m = entries.len();
    let mut i: usize = 0;
    while i < m
        invariant
            m == entries@.len(),
            m >= 1,
            m == spec_distinct_count(pix, n as int),
            crate::util::sum64(qcounts(entries@)) == n,
            forall|e: int|
                0 <= e < entries@.len() ==> (#[trigger] entries@[e]).count as int
                    == spec_quant_count(pix, n as int, qtuple(entries@[e])),
            forall|t: int| 0 <= t < entries@.len() ==> (#[trigger] entries@[t]).count <= n,
            forall|t: int| 0 <= t < entries@.len() ==> (#[trigger] entries@[t]).count >= 1,
            i <= m,
            forall|p0: int, q0: int|
                0 <= p0 < q0 < i ==> (#[trigger] entries@[p0]).count >= (#[trigger] entries@[
                q0]).count,
            forall|p0: int, q0: int|
                0 <= p0 < i && i <= q0 < m ==> (#[trigger] entries@[p0]).count >= (
                #[trigger] entries@[q0]).count,
        decreases m - i,
    {
        let mut mx: usize = i;
        let mut j: usize = i + 1;
        while j < m
            invariant
                m == entries@.len(),
                i < m,
                i <= mx < m,
                i + 1 <= j,
                forall|t: int|
                    i <= t < j && t < m ==> (#[trigger] entries@[mx as int]).count
                        >= entries@[t].count,
            decreases m - j,
        {
            if entries[j].count > entries[mx].count {
                mx = j;
            }
            j = j + 1;
        }
        if mx != i {
            let tmp_i = QEntry {
                red: entries[i].red,
                green: entries[i].green,
                blue: entries[i].blue,
                alpha: entries[i].alpha,
                count: entries[i].count,
            };
            let tmp_m = QEntry {
                red: entries[mx].red,
                green: entries[mx].green,
                blue: entries[mx].blue,
                alpha: entries[mx].alpha,
                count: entries[mx].count,
            };
            let ghost pre = entries@;
            proof {
                crate::util::lemma_sum64_update(qcounts(pre), i as int, tmp_m.count);
            }
            entries.set(i, tmp_m);
            proof {
                assert(qcounts(entries@) =~= qcounts(pre).update(i as int, tmp_m.count));
                crate::util::lemma_sum64_update(qcounts(entries@), mx as int, tmp_i.count);
            }
            let ghost mid = entries@;
            entries.set(mx, tmp_i);
            proof {
                assert(qcounts(entries@) =~= qcounts(mid).update(mx as int, tmp_i.count));
            }
        }
        i = i + 1;
    }
    // Report the top five shares.
    let limit: usize = if m < 5 { m } else { 5 };
    let mut out: Vec<ColorData> = Vec::new();
    let mut i: usize = 0;
    let total: u64 = n as u64;
    let ghost tn: int = n as int;
    let ghost mut sum_c: int = 0;
    proof {
        assert(qcounts(entries@).take(0) =~= Seq::<u64>::empty());
    }
    while i < limit
        invariant
            m == entries@.len(),
            limit <= m,
            1 <= limit <= 5,
            limit as int == (if spec_distinct_count(pix, n as int) < 5 {
                spec_distinct_count(pix, n as int)
            } else {
                5int
            }),
            crate::util::sum64(qcounts(entries@)) == n,
            tn == n as int,
            sum_c == crate::util::sum64(qcounts(entries@).take(i as int)),
            tn * crate::util::sum64(cd_pcts(out@)) <= 1000000 * sum_c,
            n >= 1,
            total == n as u64,
            forall|e: int|
                0 <= e < entries@.len() ==> (#[trigger] entries@[e]).count as int
                    == spec_quant_count(pix, n as int, qtuple(entries@[e])),
            forall|t: int| 0 <= t < entries@.len() ==> (#[trigger] entries@[t]).count <= n,
            forall|t: int| 0 <= t < entries@.len() ==> (#[trigger] entries@[t]).count >= 1,
            forall|p0: int, q0: int|
                0 <= p0 < q0 < m ==> (#[trigger] entries@[p0]).count >= (#[trigger] entries@[
                q0]).count,
            i <= limit,
            out@.len() == i,
            forall|t: int| 0 <= t < i ==> spec_entry_matches(pix, n as int, #[trigger] out@[t]),
            forall|t: int| 0 <= t < i ==> (#[trigger] out@[t]).percentage <= 1000000,
            forall|t: int|
                0 <= t < i ==> (#[trigger] out@[t]).percentage == (entries@[t].count as int)
                    * 1000000 / (n as int),
            forall|p0: int, q0: int|
                0 <= p0 < q0 < i ==> (#[trigger] out@[p0]).percentage >= (#[trigger] out@[
                q0]).percentage,
        decreases limit - i,
    {
        let en = &entries[i];
        let num: u128 = (en.count as u128) * 1000000;
        let p128: u128 = num / (total as u128);
        proof {
            assert((en.count as int) * 1000000 <= (total as int) * 1000000) by (nonlinear_arith)
                requires en.count <= total;
            assert(p128 <= 1000000) by (nonlinear_arith)
                requires
                    p128 == ((en.count as int) * 1000000) / (total as int),
                    1 <= en.count <= total,
                    num == (en.count as int) * 1000000;
            assert forall|t: int| 0 <= t < i implies (#[trigger] out@[t]).percentage
                >= p128 by {
                assert(entries@[t].count >= entries@[i as int].count);
                assert((entries@[i as int].count as int) * 1000000 <= (entries@[
                t].count as int) * 1000000) by (nonlinear_arith)
                    requires entries@[i as int].count <= entries@[t].count;
                assert(
                    (entries@[i as int].count as int) * 1000000 / (n as int) <= (entries@[
                    t].count as int) * 1000000 / (n as int)) by (nonlinear_arith)
                    requires
                        0 <= (entries@[i as int].count as int) * 1000000 <= (entries@[
                        t].count as int) * 1000000,
                        n >= 1;
            }
        }
        let cd = ColorData { hex: hex_color(en.red, en.green, en.blue), percentage: p128 as u32 };
        proof {
            assert(tn * (p128 as int) <= (en.count as int) * 1000000) by (nonlinear_arith)
                requires
                    p128 == ((en.count as int) * 1000000) / tn,
                    tn >= 1,
                    en.count >= 0;
            assert(cd_pcts(out@.push(cd)) =~= cd_pcts(out@).push(cd.percentage as u64));
            crate::util::lemma_sum64_push(cd_pcts(out@), cd.percentage as u64);
            crate::util::lemma_sum64_take_step(qcounts(entries@), i as int);
            assert(qcounts(entries@)[i as int] == entries@[i as int].count);
            sum_c = sum_c + entries@[i as int].count;
            assert(1000000 * (sum_c - entries@[i as int].count) + 1000000 * (entries@[
            i as int].count as int) == 1000000 * sum_c) by (nonlinear_arith);
            assert(tn * (crate::util::sum64(cd_pcts(out@)) + (p128 as int)) == tn
                * crate::util::sum64(cd_pcts(out@)) + tn * (p128 as int)) by (nonlinear_arith);
            lemma_count_pos_iff_seen(pix, n as int, qtuple(entries@[i as int]));
            let pw = choose|pp: int|
                0 <= pp < n as int && (#[trigger] spec_quantized_at(pix, pp)) == qtuple(
                    entries@[i as int],
                );
            assert(0 <= pw < n && spec_quantized_at(pix, pw) == qtuple(entries@[i as int]));
            assert(spec_entry_matches(pix, n as int, cd));
        }
        out.push(cd);
        i = i + 1;
    }
    proof {
        crate::cluster::lemma_sum64_prefix_all(qcounts(entries@), limit as int);
        crate::util::lemma_sum64_nonneg(cd_pcts(out@));
        assert(crate::util::sum64(cd_pcts(out@)) <= 1000000) by (nonlinear_arith)
            requires
                tn * crate::util::sum64(cd_pcts(out@)) <= 1000000 * sum_c,
                sum_c <= tn,
                tn >= 1,
                crate::util::sum64(cd_pcts(out@)) >= 0;
    }
    Ok(out)
}

} // verus!
