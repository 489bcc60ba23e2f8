use vstd::prelude::*;
use crate::cluster::{rc_counts, rc_rgb_within, RawCluster};
use crate::color::{lab_dist2, LabColor};
use crate::util::{
    lemma_sum64_two_elements, lemma_sum64_remove, lemma_sum64_update, sum64,
};

verus! {

/// Clusters ordered by falling pixel weight.
pub open spec fn sorted_desc(s: Seq<RawCluster>) -> bool {
    forall|p: int, q: int| 0 <= p < q < s.len() ==> (#[trigger] s[p]).count >= (#[trigger] s[q]).count
}

/// A weighted sum of two bounded values stays within the bound times the
/// total weight.
proof fn lemma_wavg_bound(v1: int, v2: int, n1: int, n2: int, bound: int)
    requires
        0 <= v1 <= bound,
        0 <= v2 <= bound,
        n1 >= 1,
        n2 >= 1,
    ensures
        0 <= v1 * n1 + v2 * n2 <= bound * (n1 + n2),
{
    assert(0 <= v1 * n1 + v2 * n2 <= bound * (n1 + n2)) by (nonlinear_arith)
        requires 0 <= v1 <= bound, 0 <= v2 <= bound, n1 >= 1, n2 >= 1;
}

/// The pixel-weighted mean of two clusters, carrying the summed weight:
/// every perceptual and RGB channel of the result is the floored weighted
/// mean of the two inputs' channels.
fn merge_pair(a: &RawCluster, b: &RawCluster) -> (r: RawCluster)
    requires
        a.wf(),
        b.wf(),
        a.count >= 1,
        b.count >= 1,
        a.count + b.count <= 0x4000000000000000,
    ensures
        r.wf(),
        r.count == a.count + b.count,
        ({
            let n1 = a.count as int;
            let n2 = b.count as int;
            &&& r.lab.l as int == ((a.lab.l as int) * n1 + (b.lab.l as int) * n2) / (n1 + n2)
            &&& r.lab.a as int == (((a.lab.a + 127500) as int) * n1 + ((b.lab.a
                + 127500) as int) * n2) / (n1 + n2) - 127500
            &&& r.lab.b as int == (((a.lab.b + 51000) as int) * n1 + ((b.lab.b
                + 51000) as int) * n2) / (n1 + n2) - 51000
            &&& r.red as int == ((a.red as int) * n1 + (b.red as int) * n2) / (n1 + n2)
            &&& r.green as int == ((a.green as int) * n1 + (b.green as int) * n2) / (n1 + n2)
            &&& r.blue as int == ((a.blue as int) * n1 + (b.blue as int) * n2) / (n1 + n2)
        }),
{
    let n1: u128 = a.count as u128;
    let n2: u128 = b.count as u128;
    let tot: u64 = a.count + b.count;
    proof {
        lemma_wavg_bound(a.lab.l as int, b.lab.l as int, n1 as int, n2 as int, 25500);
        lemma_wavg_bound(
            (a.lab.a + 127500) as int,
            (b.lab.a + 127500) as int,
            n1 as int,
            n2 as int,
            255000,
        );
        lemma_wavg_bound(
            (a.lab.b + 51000) as int,
            (b.lab.b + 51000) as int,
            n1 as int,
            n2 as int,
            102000,
        );
        lemma_wavg_bound(a.red as int, b.red as int, n1 as int, n2 as int, 255);
        lemma_wavg_bound(a.green as int, b.green as int, n1 as int, n2 as int, 255);
        lemma_wavg_bound(a.blue as int, b.blue as int, n1 as int, n2 as int, 255);
    }
    let ml = crate::slic::mean_u128(
        (a.lab.l as u128) * n1 + (b.lab.l as u128) * n2,
        tot,
        25500,
    );
    let ma = crate::slic::mean_u128(
        ((a.lab.a + 127500) as u128) * n1 + ((b.lab.a + 127500) as u128) * n2,
        tot,
        255000,
    );
    let mb = crate::slic::mean_u128(
        ((a.lab.b + 51000) as u128) * n1 + ((b.lab.b + 51000) as u128) * n2,
        tot,
        102000,
    );
    let mr = crate::slic::mean_u128((a.red as u128) * n1 + (b.red as u128) * n2, tot, 255);
    let mg = crate::slic::mean_u128((a.green as u128) * n1 + (b.green as u128) * n2, tot, 255);
    let mbl = crate::slic::mean_u128((a.blue as u128) * n1 + (b.blue as u128) * n2, tot, 255);
    RawCluster {
        lab: LabColor {
            l: ml as i32,
            a: (ma as i64 - 127500) as i32,
            b: (mb as i64 - 51000) as i32,
        },
        red: mr as u8,
        green: mg as u8,
        blue: mbl as u8,
        count: tot,
    }
}

/// Squared perceptual distance does not depend on the order of its
/// arguments.
proof fn lemma_dist2_symmetric(x: crate::color::LabColor, y: crate::color::LabColor)
    ensures
        crate::color::spec_lab_dist2(x, y) == crate::color::spec_lab_dist2(y, x),
{
    assert((x.l - y.l) * (x.l - y.l) == (y.l - x.l) * (y.l - x.l) && (x.a - y.a) * (x.a - y.a)
        == (y.a - x.a) * (y.a - x.a) && (x.b - y.b) * (x.b - y.b) == (y.b - x.b) * (y.b
        - x.b)) by (nonlinear_arith);
}

/// All clusters of a list are pairwise at least `d2` apart in squared
/// perceptual distance.
pub open spec fn pairwise_apart(cs: Seq<RawCluster>, d2: int) -> bool {
    forall|p: int, q: int|
        0 <= p < cs.len() && 0 <= q < cs.len() && p != q ==> crate::color::spec_lab_dist2(
            (#[trigger] cs[p]).lab,
            (#[trigger] cs[q]).lab,
        ) >= d2
}

/// Collapse near-duplicate color groups: repeatedly find the closest pair
/// of clusters and, while that pair is nearer than the threshold (given in
/// Lab units), replace it by its pixel-weighted mean. The result is
/// re-sorted by falling pixel weight.
///
/// The cluster count never increases, every surviving cluster keeps a
/// positive weight, and the total represented pixel weight is exactly
/// preserved. The returned map sends each input cluster index to the index
/// of the final cluster that absorbed it.
pub fn merge_clusters(clusters: Vec<RawCluster>, threshold: u32) -> (r: (
    Vec<RawCluster>,
    Vec<usize>,
))
    requires
        clusters@.len() >= 1,
        forall|i: int|
            0 <= i < clusters@.len() ==> (#[trigger] clusters@[i]).wf() && clusters@[i].count
                > 0,
        sum64(rc_counts(clusters@)) <= 0x4000000000000000,
        threshold <= 100,
    ensures
        1 <= r.0@.len() <= clusters@.len(),
        sum64(rc_counts(r.0@)) == sum64(rc_counts(clusters@)),
        forall|i: int|
            0 <= i < r.0@.len() ==> (#[trigger] r.0@[i]).wf() && r.0@[i].count > 0,
        sorted_desc(r.0@),
        r.1@.len() == clusters@.len(),
        forall|i: int| 0 <= i < r.1@.len() ==> (#[trigger] r.1@[i]) < r.0@.len(),
        r.0@.len() == 1 || pairwise_apart(
            r.0@,
            (threshold as int) * 255 * ((threshold as int) * 255),
        ),
        forall|lo: (int, int, int), hi: (int, int, int)|
            #[trigger] rc_rgb_within(clusters@, lo, hi) ==> rc_rgb_within(r.0@, lo, hi),
{
    let n0 = clusters.len();
    let mut work = clusters;
    let mut remap: Vec<usize> = Vec::new();
    let mut i: usize = 0;
    while i < n0
        invariant
            i <= n0,
            remap@.len() == i,
            forall|q: int| 0 <= q < i ==> (#[trigger] remap@[q]) == q,
        decreases n0 - i,
    {
        remap.push(i);
        i = i + 1;
    }
    let thr255: u64 = (threshold as u64) * 255;
    proof {
        assert((thr255 as int) * (thr255 as int) <= 25500 * 25500) by (nonlinear_arith)
            requires 0 <= thr255 <= 25500;
    }
    let thr2: u64 = thr255 * thr255;
    let mut done = false;
    while !done
        invariant
            1 <= work@.len() <= n0,
            forall|q: int|
                0 <= q < work@.len() ==> (#[trigger] work@[q]).wf() && work@[q].count > 0,
            sum64(rc_counts(work@)) == sum64(rc_counts(clusters@)),
            sum64(rc_counts(clusters@)) <= 0x4000000000000000,
            remap@.len() == n0,
            forall|q: int| 0 <= q < n0 ==> (#[trigger] remap@[q]) < work@.len(),
            thr255 == (threshold as u64) * 255,
            thr2 == thr255 * thr255,
            forall|lo: (int, int, int), hi: (int, int, int)|
                #[trigger] rc_rgb_within(clusters@, lo, hi) ==> rc_rgb_within(work@, lo, hi),
            done ==> work@.len() == 1 || pairwise_apart(work@, thr2 as int),
        decreases work@.len(), (if done { 0int } else { 1int }),
    {
        if work.len() <= 1 {
            done = true;
        } else {
            // Locate the closest pair.
            let mut bi: usize = 0;
            let mut bj: usize = 1;
            let mut bd: u64 = lab_dist2(&work[0].lab, &work[1].lab);
            let mut a: usize = 0;
            while a < work.len()
                invariant
                    2 <= work@.len(),
                    forall|q: int| 0 <= q < work@.len() ==> (#[trigger] work@[q]).wf(),
                    bi < bj < work@.len(),
                    a <= work@.len(),
                    forall|p: int, q: int|
                        0 <= p < a && p < q < work@.len() ==> crate::color::spec_lab_dist2(
                            (#[trigger] work@[p]).lab,
                            (#[trigger] work@[q]).lab,
                        ) >= bd,
                decreases work@.len() - a,
            {
                let mut b: usize = a + 1;
                while b < work.len()
                    invariant
                        2 <= work@.len(),
                        forall|q: int| 0 <= q < work@.len() ==> (#[trigger] work@[q]).wf(),
                        bi < bj < work@.len(),
                        a < work@.len(),
                        a + 1 <= b,
                        forall|p: int, q: int|
                            0 <= p < a && p < q < work@.len() ==> crate::color::spec_lab_dist2(
                                (#[trigger] work@[p]).lab,
                                (#[trigger] work@[q]).lab,
                            ) >= bd,
                        forall|q: int|
                            a < q < b ==> crate::color::spec_lab_dist2(
                                work@[a as int].lab,
                                (#[trigger] work@[q]).lab,
                            ) >= bd,
                    decreases work@.len() - b,
                {
                    let d = lab_dist2(&work[a].lab, &work[b].lab);
                    if d < bd {
                        bd = d;
                        bi = a;
                        bj = b;
                    }
                    b = b + 1;
                }
                a = a + 1;
            }
            if bd < thr2 {
                proof {
                    lemma_sum64_two_elements(rc_counts(work@), bi as int, bj as int);
                    assert(rc_counts(work@)[bi as int] == work@[bi as int].count);
                    assert(rc_counts(work@)[bj as int] == work@[bj as int].count);
                }
                let ghost wa = work@[bi as int];
                let ghost wb = work@[bj as int];
                let ghost wpre = work@;
                let merged = merge_pair(&work[bi], &work[bj]);
                proof {
                    lemma_sum64_update(rc_counts(work@), bi as int, merged.count);
                    assert(rc_counts(work@.update(bi as int, merged)) =~= rc_counts(
                        work@,
                    ).update(bi as int, merged.count));
                }
                work.set(bi, merged);
                proof {
                    lemma_sum64_remove(rc_counts(work@), bj as int);
                    assert(rc_counts(work@.remove(bj as int)) =~= rc_counts(work@).remove(
                        bj as int,
                    ));
                }
                work.remove(bj);
                proof {
                    assert forall|lo: (int, int, int), hi: (int, int, int)|
                        #[trigger] rc_rgb_within(clusters@, lo, hi) implies rc_rgb_within(
                        work@,
                        lo,
                        hi,
                    ) by {
                        assert(rc_rgb_within(wpre, lo, hi));
                        assert forall|c: int| 0 <= c < work@.len() implies lo.0 <= (
                        #[trigger] work@[c]).red <= hi.0 && lo.1 <= work@[c].green <= hi.1
                            && lo.2 <= work@[c].blue <= hi.2 by {
                            if c == bi as int {
                                assert(work@.len() == wpre.len() - 1);
                                assert(work@[c] == wpre.update(bi as int, merged)[c]);
                                assert(work@[c] == merged);
                            }
                            if c != bi {
                                if c < bj {
                                    assert(work@[c] == wpre[c]);
                                    assert(lo.0 <= wpre[c].red <= hi.0 && lo.1 <= wpre[c].green
                                        <= hi.1 && lo.2 <= wpre[c].blue <= hi.2);
                                } else {
                                    assert(work@[c] == wpre[c + 1]);
                                    assert(lo.0 <= wpre[c + 1].red <= hi.0 && lo.1 <= wpre[c
                                        + 1].green <= hi.1 && lo.2 <= wpre[c + 1].blue <= hi.2);
                                }
                            }
                            if work@[c] == merged {
                                assert(lo.0 <= ((wa.red as int) * (wa.count as int) + (
                                wb.red as int) * (wb.count as int)) / ((wa.count as int) + (
                                wb.count as int)) <= hi.0) by (nonlinear_arith)
                                    requires
                                        lo.0 <= wa.red as int <= hi.0,
                                        lo.0 <= wb.red as int <= hi.0,
                                        wa.count >= 1,
                                        wb.count >= 1;
                                assert(lo.1 <= ((wa.green as int) * (wa.count as int) + (
                                wb.green as int) * (wb.count as int)) / ((wa.count as int) + (
                                wb.count as int)) <= hi.1) by (nonlinear_arith)
                                    requires
                                        lo.1 <= wa.green as int <= hi.1,
                                        lo.1 <= wb.green as int <= hi.1,
                                        wa.count >= 1,
                                        wb.count >= 1;
                                assert(lo.2 <= ((wa.blue as int) * (wa.count as int) + (
                                wb.blue as int) * (wb.count as int)) / ((wa.count as int) + (
                                wb.count as int)) <= hi.2) by (nonlinear_arith)
                                    requires
                                        lo.2 <= wa.blue as int <= hi.2,
                                        lo.2 <= wb.blue as int <= hi.2,
                                        wa.count >= 1,
                                        wb.count >= 1;
                            }
                        }
                    }
                }
                let mut q: usize = 0;
                while q < remap.len()
                    invariant
                        remap@.len() == n0,
                        work@.len() >= 1,
                        bi < work@.len() + 1,
                        bj < work@.len() + 1,
                        bi < bj,
                        q <= n0,
                        forall|t: int|
                            0 <= t < q ==> (#[trigger] remap@[t]) < work@.len(),
                        forall|t: int|
                            q <= t < n0 ==> (#[trigger] remap@[t]) < work@.len() + 1,
                    decreases n0 - q,
                {
                    let v = remap[q];
                    if v == bj {
                        remap.set(q, bi);
                    } else if v > bj {
                        remap.set(q, v - 1);
                    }
                    q = q + 1;
                }
            } else {
                proof {
                    assert forall|p: int, q: int|
                        0 <= p < work@.len() && 0 <= q < work@.len() && p
                            != q implies crate::color::spec_lab_dist2(
                        (#[trigger] work@[p]).lab,
                        (#[trigger] work@[q]).lab,
                    ) >= thr2 as int by {
                        if p > q {
                            lemma_dist2_symmetric(work@[p].lab, work@[q].lab);
                        }
                    }
                }
                done = true;
            }
        }
    }
    // Re-sort by falling weight, keeping the remap consistent.
    let len = work.len();
    let mut i: usize = 0;
    while i < len
        invariant
            len == work@.len(),
            1 <= len <= n0,
            forall|q: int|
                0 <= q < work@.len() ==> (#[trigger] work@[q]).wf() && work@[q].count > 0,
            sum64(rc_counts(work@)) == sum64(rc_counts(clusters@)),
            remap@.len() == n0,
            forall|q: int| 0 <= q < n0 ==> (#[trigger] remap@[q]) < work@.len(),
            thr255 == (threshold as u64) * 255,
            thr2 == thr255 * thr255,
            forall|lo: (int, int, int), hi: (int, int, int)|
                #[trigger] rc_rgb_within(clusters@, lo, hi) ==> rc_rgb_within(work@, lo, hi),
            work@.len() == 1 || pairwise_apart(work@, thr2 as int),
            i <= len,
            forall|p: int, q: int|
                0 <= p < q < i ==> (#[trigger] work@[p]).count >= (#[trigger] work@[q]).count,
            forall|p: int, q: int|
                0 <= p < i && i <= q < len ==> (#[trigger] work@[p]).count >= (
                #[trigger] work@[q]).count,
        decreases len - i,
    {
        let mut mx: usize = i;
        let mut j: usize = i + 1;
        while j < len
            invariant
                len == work@.len(),
                i < len,
                i <= mx < len,
                i + 1 <= j,
                forall|q: int| i <= q < j && q < len ==> (#[trigger] work@[mx as int]).count
                    >= work@[q].count,
            decreases len - j,
        {
            if work[j].count > work[mx].count {
                mx = j;
            }
            j = j + 1;
        }
        if mx != i {
            let tmp_i = work[i];
            let tmp_m = work[mx];
            let ghost spre = work@;
            proof {
                lemma_sum64_update(rc_counts(work@), i as int, tmp_m.count);
                assert(rc_counts(work@.update(i as int, tmp_m)) =~= rc_counts(work@).update(
                    i as int,
                    tmp_m.count,
                ));
            }
            work.set(i, tmp_m);
            proof {
                lemma_sum64_update(rc_counts(work@), mx as int, tmp_i.count);
                assert(rc_counts(work@.update(mx as int, tmp_i)) =~= rc_counts(work@).update(
                    mx as int,
                    tmp_i.count,
                ));
            }
            work.set(mx, tmp_i);
            proof {
                // A swap permutes values, so pointwise channel bounds and
                // pairwise distances survive it.
                assert forall|c: int| 0 <= c < work@.len() implies work@[c] == spre[c] || (
                #[trigger] work@[c]) == spre[i as int] || work@[c] == spre[mx as int] by {}
                assert forall|lo: (int, int, int), hi: (int, int, int)|
                    #[trigger] rc_rgb_within(clusters@, lo, hi) implies rc_rgb_within(
                    work@,
                    lo,
                    hi,
                ) by {
                    assert(rc_rgb_within(spre, lo, hi));
                    assert forall|c: int| 0 <= c < work@.len() implies lo.0 <= (
                    #[trigger] work@[c]).red <= hi.0 && lo.1 <= work@[c].green <= hi.1 && lo.2
                        <= work@[c].blue <= hi.2 by {
                        if c == i as int {
                            assert(lo.0 <= spre[mx as int].red <= hi.0 && lo.1 <= spre[
                            mx as int].green <= hi.1 && lo.2 <= spre[mx as int].blue <= hi.2);
                        } else if c == mx as int {
                            assert(lo.0 <= spre[i as int].red <= hi.0 && lo.1 <= spre[
                            i as int].green <= hi.1 && lo.2 <= spre[i as int].blue <= hi.2);
                        } else {
                            assert(lo.0 <= spre[c].red <= hi.0 && lo.1 <= spre[c].green <= hi.1
                                && lo.2 <= spre[c].blue <= hi.2);
                        }
                    }
                }
                if work@.len() != 1 {
                    assert forall|p: int, q: int|
                        0 <= p < work@.len() && 0 <= q < work@.len() && p
                            != q implies crate::color::spec_lab_dist2(
                        (#[trigger] work@[p]).lab,
                        (#[trigger] work@[q]).lab,
                    ) >= thr2 as int by {
                        let p0 = if p == i as int { mx as int } else if p == mx as int {
                            i as int
                        } else {
                            p
                        };
                        let q0 = if q == i as int { mx as int } else if q == mx as int {
                            i as int
                        } else {
                            q
                        };
                        assert(work@[p] == spre[p0] && work@[q] == spre[q0] && p0 != q0);
                        assert(crate::color::spec_lab_dist2(spre[p0].lab, spre[q0].lab)
                            >= thr2 as int);
                    }
                }
            }
            // Swap the two targets inside the remap as well.
            let mut q: usize = 0;
            while q < remap.len()
                invariant
                    remap@.len() == n0,
                    i < work@.len(),
                    mx < work@.len(),
                    q <= n0,
                    forall|t: int| 0 <= t < n0 ==> (#[trigger] remap@[t]) < work@.len(),
                decreases n0 - q,
            {
                let v = remap[q];
                if v == i {
                    remap.set(q, mx);
                } else if v == mx {
                    remap.set(q, i);
                }
                q = q + 1;
            }
        }
        i = i + 1;
    }
    proof {
        assert(thr2 as int == (threshold as int) * 255 * ((threshold as int) * 255))
            by (nonlinear_arith)
            requires
                thr255 == (threshold as u64) * 255,
                thr2 == thr255 * thr255,
                threshold <= 100;
    }
    (work, remap)
}

} // verus!
