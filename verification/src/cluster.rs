use vstd::prelude::*;
use crate::color::{lab_dist2, LabColor, MAX_LAB_DIST2};
use crate::slic::{sp_counts, Superpixel};
use crate::util::{
    lemma_sum64_element_bound, lemma_sum64_push, lemma_sum64_take_full, lemma_sum64_take_step,
    lemma_sum64_update, sum64,
};

verus! {

/// A perceptual color group aggregated from superpixels: centroid color,
/// representative RGB bytes, and total pixel weight.
#[derive(Clone, Copy)]
pub struct RawCluster {
    pub lab: LabColor,
    pub red: u8,
    pub green: u8,
    pub blue: u8,
    pub count: u64,
}

impl RawCluster {
    pub open spec fn wf(&self) -> bool {
        self.lab.wf()
    }
}

/// The pixel weights of a cluster list.
pub open spec fn rc_counts(s: Seq<RawCluster>) -> Seq<u64> {
    s.map_values(|c: RawCluster| c.count)
}

/// Every superpixel that owns pixels has its RGB channels inside the given
/// per-channel bounds.
pub open spec fn sp_rgb_within(sps: Seq<Superpixel>, lo: (int, int, int), hi: (int, int, int)) -> bool {
    forall|s: int|
        0 <= s < sps.len() && (#[trigger] sps[s]).count > 0 ==> lo.0 <= sps[s].red <= hi.0
            && lo.1 <= sps[s].green <= hi.1 && lo.2 <= sps[s].blue <= hi.2
}

/// Every cluster has its RGB channels inside the given per-channel bounds.
pub open spec fn rc_rgb_within(cs: Seq<RawCluster>, lo: (int, int, int), hi: (int, int, int)) -> bool {
    forall|c: int|
        0 <= c < cs.len() ==> lo.0 <= (#[trigger] cs[c]).red <= hi.0 && lo.1 <= cs[c].green
            <= hi.1 && lo.2 <= cs[c].blue <= hi.2
}

/// Total weight of the first `upto` superpixels assigned to cluster `c`.
pub open spec fn spec_assigned_weight(
    sps: Seq<Superpixel>,
    assign: Seq<usize>,
    upto: int,
    c: int,
) -> int
    decreases upto,
{
    if upto <= 0 {
        0
    } else {
        spec_assigned_weight(sps, assign, upto - 1, c) + if assign[upto - 1] == c {
            sps[upto - 1].count as int
        } else {
            0int
        }
    }
}

/// One RGB channel of a superpixel: 0 is red, 1 green, 2 blue.
pub open spec fn spec_sp_channel(sp: Superpixel, ch: int) -> int {
    if ch == 0 {
        sp.red as int
    } else if ch == 1 {
        sp.green as int
    } else {
        sp.blue as int
    }
}

/// Weighted channel sum of the first `upto` superpixels assigned to `c`.
pub open spec fn spec_assigned_wsum(
    sps: Seq<Superpixel>,
    assign: Seq<usize>,
    upto: int,
    c: int,
    ch: int,
) -> int
    decreases upto,
{
    if upto <= 0 {
        0
    } else {
        spec_assigned_wsum(sps, assign, upto - 1, c, ch) + if assign[upto - 1] == c {
            spec_sp_channel(sps[upto - 1], ch) * (sps[upto - 1].count as int)
        } else {
            0int
        }
    }
}

/// A weighted channel sum of bounded superpixels stays within the bounds
/// scaled by the assigned weight.
proof fn lemma_wsum_within(
    sps: Seq<Superpixel>,
    assign: Seq<usize>,
    upto: int,
    c: int,
    ch: int,
    lo: (int, int, int),
    hi: (int, int, int),
)
    requires
        0 <= upto <= sps.len(),
        upto <= assign.len(),
        sp_rgb_within(sps, lo, hi),
        0 <= ch < 3,
    ensures
        ({
            let b_lo = if ch == 0 { lo.0 } else if ch == 1 { lo.1 } else { lo.2 };
            let b_hi = if ch == 0 { hi.0 } else if ch == 1 { hi.1 } else { hi.2 };
            b_lo * spec_assigned_weight(sps, assign, upto, c) <= spec_assigned_wsum(
                sps,
                assign,
                upto,
                c,
                ch,
            ) <= b_hi * spec_assigned_weight(sps, assign, upto, c)
        }),
        spec_assigned_weight(sps, assign, upto, c) >= 0,
    decreases upto,
{
    if upto > 0 {
        lemma_wsum_within(sps, assign, upto - 1, c, ch, lo, hi);
        let b_lo = if ch == 0 { lo.0 } else if ch == 1 { lo.1 } else { lo.2 };
        let b_hi = if ch == 0 { hi.0 } else if ch == 1 { hi.1 } else { hi.2 };
        if assign[upto - 1] == c {
            let sp = sps[upto - 1];
            if sp.count > 0 {
                assert(b_lo <= spec_sp_channel(sp, ch) <= b_hi);
            }
            assert(b_lo * (sp.count as int) <= spec_sp_channel(sp, ch) * (sp.count as int)
                <= b_hi * (sp.count as int) && b_lo * (spec_assigned_weight(sps, assign, upto
                - 1, c) + sp.count as int) == b_lo * spec_assigned_weight(sps, assign, upto - 1, c)
                + b_lo * (sp.count as int) && b_hi * (spec_assigned_weight(sps, assign, upto - 1,
            c) + sp.count as int) == b_hi * spec_assigned_weight(sps, assign, upto - 1, c) + b_hi
                * (sp.count as int)) by (nonlinear_arith)
                requires
                    sp.count == 0 || b_lo <= spec_sp_channel(sp, ch) <= b_hi,
                    sp.count >= 0;
        }
    }
}

/// Weight times squared distance, the spread-out seeding score.
fn weighted_score(count: u64, d2: u64) -> (r: u128)
    requires
        d2 <= MAX_LAB_DIST2,
    ensures
        r == (count as int) * (d2 as int),
{
    proof {
        assert(0 <= (count as int) * (d2 as int)
            && (count as int) * (d2 as int) < 0x100000000000000000000000000000000)
            by (nonlinear_arith)
            requires count <= 0xffffffffffffffffu64, d2 <= 0x8000000000u64;
    }
    (count as u128) * (d2 as u128)
}

/// The smallest squared distance from a color to any current center.
fn min_dist_to(centers: &Vec<LabColor>, lab: &LabColor) -> (r: u64)
    requires
        centers@.len() >= 1,
        forall|i: int| 0 <= i < centers@.len() ==> (#[trigger] centers@[i]).wf(),
        lab.wf(),
    ensures
        r <= MAX_LAB_DIST2,
{
    let mut best: u64 = lab_dist2(lab, &centers[0]);
    let mut i: usize = 1;
    while i < centers.len()
        invariant
            forall|q: int| 0 <= q < centers@.len() ==> (#[trigger] centers@[q]).wf(),
            lab.wf(),
            best <= MAX_LAB_DIST2,
            i <= centers@.len(),
        decreases centers@.len() - i,
    {
        let d = lab_dist2(lab, &centers[i]);
        if d < best {
            best = d;
        }
        i = i + 1;
    }
    best
}

/// The superpixel with the largest weighted distance from every current
/// center: where a new or starved center is (re)seeded.
fn best_candidate(sps: &Vec<Superpixel>, centers: &Vec<LabColor>) -> (r: usize)
    requires
        sps@.len() >= 1,
        forall|i: int| 0 <= i < sps@.len() ==> (#[trigger] sps@[i]).wf(),
        centers@.len() >= 1,
        forall|i: int| 0 <= i < centers@.len() ==> (#[trigger] centers@[i]).wf(),
    ensures
        r < sps@.len(),
{
    let mut best: usize = 0;
    let d0 = min_dist_to(centers, &sps[0].lab);
    let mut best_score: u128 = weighted_score(sps[0].count, d0);
    let mut j: usize = 1;
    while j < sps.len()
        invariant
            sps@.len() >= 1,
            forall|q: int| 0 <= q < sps@.len() ==> (#[trigger] sps@[q]).wf(),
            centers@.len() >= 1,
            forall|q: int| 0 <= q < centers@.len() ==> (#[trigger] centers@[q]).wf(),
            best < sps@.len(),
            j <= sps@.len(),
        decreases sps@.len() - j,
    {
        let d = min_dist_to(centers, &sps[j].lab);
        let score = weighted_score(sps[j].count, d);
        if score > best_score {
            best_score = score;
            best = j;
        }
        j = j + 1;
    }
    best
}

/// Seed the first center at the heaviest superpixel, then each further
/// center at the superpixel farthest (weighted) from those already chosen.
fn seed_centers(sps: &Vec<Superpixel>, keff: usize) -> (r: Vec<LabColor>)
    requires
        sps@.len() >= 1,
        forall|i: int| 0 <= i < sps@.len() ==> (#[trigger] sps@[i]).wf(),
        1 <= keff <= sps@.len(),
    ensures
        r@.len() == keff,
        forall|i: int| 0 <= i < keff ==> (#[trigger] r@[i]).wf(),
{
    let mut heaviest: usize = 0;
    let mut j: usize = 1;
    while j < sps.len()
        invariant
            sps@.len() >= 1,
            heaviest < sps@.len(),
            j <= sps@.len(),
        decreases sps@.len() - j,
    {
        if sps[j].count > sps[heaviest].count {
            heaviest = j;
        }
        j = j + 1;
    }
    let mut centers: Vec<LabColor> = Vec::new();
    centers.push(sps[heaviest].lab);
    while centers.len() < keff
        invariant
            sps@.len() >= 1,
            forall|q: int| 0 <= q < sps@.len() ==> (#[trigger] sps@[q]).wf(),
            1 <= centers@.len() <= keff,
            forall|q: int| 0 <= q < centers@.len() ==> (#[trigger] centers@[q]).wf(),
        decreases keff - centers@.len(),
    {
        let c = best_candidate(sps, &centers);
        centers.push(sps[c].lab);
    }
    centers
}

/// Assign every superpixel to its nearest center by perceptual distance.
fn assign_sps(sps: &Vec<Superpixel>, centers: &Vec<LabColor>, assign: &mut Vec<usize>)
    requires
        sps@.len() >= 1,
        forall|i: int| 0 <= i < sps@.len() ==> (#[trigger] sps@[i]).wf(),
        centers@.len() >= 1,
        forall|i: int| 0 <= i < centers@.len() ==> (#[trigger] centers@[i]).wf(),
        old(assign)@.len() == sps@.len(),
    ensures
        final(assign)@.len() == sps@.len(),
        forall|p: int|
            0 <= p < final(assign)@.len() ==> (#[trigger] final(assign)@[p]) < centers@.len(),
{
    let n = sps.len();
    let mut p: usize = 0;
    while p < n
        invariant
            n == sps@.len(),
            forall|q: int| 0 <= q < sps@.len() ==> (#[trigger] sps@[q]).wf(),
            centers@.len() >= 1,
            forall|q: int| 0 <= q < centers@.len() ==> (#[trigger] centers@[q]).wf(),
            assign@.len() == n,
            p <= n,
            forall|q: int| 0 <= q < p ==> (#[trigger] assign@[q]) < centers@.len(),
        decreases n - p,
    {
        let mut best: usize = 0;
        let mut best_d: u64 = lab_dist2(&sps[p].lab, &centers[0]);
        let mut c: usize = 1;
        while c < centers.len()
            invariant
                n == sps@.len(),
                p < n,
                forall|q: int| 0 <= q < sps@.len() ==> (#[trigger] sps@[q]).wf(),
                centers@.len() >= 1,
                forall|q: int| 0 <= q < centers@.len() ==> (#[trigger] centers@[q]).wf(),
                best < centers@.len(),
                c <= centers@.len(),
            decreases centers@.len() - c,
        {
            let d = lab_dist2(&sps[p].lab, &centers[c]);
            if d < best_d {
                best_d = d;
                best = c;
            }
            c = c + 1;
        }
        assign.set(p, best);
        p = p + 1;
    }
}

/// Recompute each center as the pixel-weighted mean color of its assigned
/// superpixels, leaving starved centers where they were; also report each
/// center's assigned weight.
fn recompute_cluster_centers(
    sps: &Vec<Superpixel>,
    assign: &Vec<usize>,
    centers: &mut Vec<LabColor>,
) -> (weights: Vec<u64>)
    requires
        sps@.len() >= 1,
        forall|i: int| 0 <= i < sps@.len() ==> (#[trigger] sps@[i]).wf(),
        sum64(sp_counts(sps@)) <= 0x4000000000000000,
        assign@.len() == sps@.len(),
        old(centers)@.len() >= 1,
        forall|i: int| 0 <= i < old(centers)@.len() ==> (#[trigger] old(centers)@[i]).wf(),
        forall|p: int| 0 <= p < assign@.len() ==> (#[trigger] assign@[p]) < old(centers)@.len(),
    ensures
        final(centers)@.len() == old(centers)@.len(),
        forall|i: int|
            0 <= i < final(centers)@.len() ==> (#[trigger] final(centers)@[i]).wf(),
        weights@.len() == old(centers)@.len(),
        sum64(weights@) == sum64(sp_counts(sps@)),
{
    let k = centers.len();
    let n = sps.len();
    let mut acc_l: Vec<u128> = crate::slic::vec_zero(k);
    let mut acc_a: Vec<u128> = crate::slic::vec_zero(k);
    let mut acc_b: Vec<u128> = crate::slic::vec_zero(k);
    let mut wsum: Vec<u64> = crate::slic::vec_zero64(k);
    let mut p: usize = 0;
    proof {
        assert(sp_counts(sps@).take(0) =~= Seq::<u64>::empty());
        crate::util::lemma_sum64_nonneg(sp_counts(sps@));
    }
    while p < n
        invariant
            n == sps@.len(),
            forall|q: int| 0 <= q < sps@.len() ==> (#[trigger] sps@[q]).wf(),
            sum64(sp_counts(sps@)) <= 0x4000000000000000,
            assign@.len() == n,
            forall|q: int| 0 <= q < n ==> (#[trigger] assign@[q]) < k,
            p <= n,
            acc_l@.len() == k && acc_a@.len() == k && acc_b@.len() == k && wsum@.len() == k,
            sum64(wsum@) == sum64(sp_counts(sps@).take(p as int)),
            sum64(sp_counts(sps@).take(p as int)) <= sum64(sp_counts(sps@)),
            forall|i: int| 0 <= i < k ==> (#[trigger] acc_l@[i]) <= 25500 * (wsum@[i] as int),
            forall|i: int| 0 <= i < k ==> (#[trigger] acc_a@[i]) <= 255000 * (wsum@[i] as int),
            forall|i: int| 0 <= i < k ==> (#[trigger] acc_b@[i]) <= 102000 * (wsum@[i] as int),
        decreases n - p,
    {
        let c = assign[p];
        let sp = &sps[p];
        let wt = sp.count as u128;
        proof {
            lemma_sum64_element_bound(wsum@, c as int);
            lemma_sum64_take_step(sp_counts(sps@), p as int);
            lemma_sum64_prefix_all(sp_counts(sps@), p as int + 1);
            assert(sp_counts(sps@)[p as int] == sps@[p as int].count);
            assert(25500 * (wsum@[c as int] as int) + 25500 * (sps@[p as int].count as int)
                == 25500 * ((wsum@[c as int] as int) + (sps@[p as int].count as int)) && 255000
                * (wsum@[c as int] as int) + 255000 * (sps@[p as int].count as int) == 255000 * ((
            wsum@[c as int] as int) + (sps@[p as int].count as int)) && 102000 * (wsum@[
            c as int] as int) + 102000 * (sps@[p as int].count as int) == 102000 * ((wsum@[
            c as int] as int) + (sps@[p as int].count as int))) by (nonlinear_arith);
            assert(0 <= (sp.lab.l as int) * (sps@[p as int].count as int) <= 25500 * (sps@[
            p as int].count as int) && 0 <= ((sp.lab.a + 127500) as int) * (sps@[
            p as int].count as int) <= 255000 * (sps@[p as int].count as int) && 0 <= ((sp.lab.b
                + 51000) as int) * (sps@[p as int].count as int) <= 102000 * (sps@[
            p as int].count as int)) by (nonlinear_arith)
                requires
                    0 <= sp.lab.l <= 25500,
                    -127500 <= sp.lab.a <= 127500,
                    -51000 <= sp.lab.b <= 51000,
                    sps@[p as int].count >= 0;
            assert(25500 * ((wsum@[c as int] as int) + (sps@[p as int].count as int)) <= 25500
                * 0x8000000000000000 && 255000 * ((wsum@[c as int] as int) + (sps@[
            p as int].count as int)) <= 255000 * 0x8000000000000000 && 102000 * ((wsum@[
            c as int] as int) + (sps@[p as int].count as int)) <= 102000 * 0x8000000000000000)
                by (nonlinear_arith)
                requires
                    (wsum@[c as int] as int) + (sps@[p as int].count as int)
                        <= 0x8000000000000000;
            lemma_sum64_update(wsum@, c as int, (wsum@[c as int] + sps@[p as int].count) as u64);
        }
        acc_l.set(c, acc_l[c] + (sp.lab.l as u128) * wt);
        acc_a.set(c, acc_a[c] + ((sp.lab.a + 127500) as u128) * wt);
        acc_b.set(c, acc_b[c] + ((sp.lab.b + 51000) as u128) * wt);
        let cur = wsum[c];
        wsum.set(c, cur + sp.count);
        p = p + 1;
    }
    proof {
        lemma_sum64_take_full(sp_counts(sps@));
    }
    let mut i: usize = 0;
    while i < k
        invariant
            k == centers@.len(),
            acc_l@.len() == k && acc_a@.len() == k && acc_b@.len() == k && wsum@.len() == k,
            forall|q: int| 0 <= q < k ==> (#[trigger] centers@[q]).wf(),
            forall|q: int| 0 <= q < k ==> (#[trigger] acc_l@[q]) <= 25500 * (wsum@[q] as int),
            forall|q: int| 0 <= q < k ==> (#[trigger] acc_a@[q]) <= 255000 * (wsum@[q] as int),
            forall|q: int| 0 <= q < k ==> (#[trigger] acc_b@[q]) <= 102000 * (wsum@[q] as int),
            i <= k,
        decreases k - i,
    {
        let cw = wsum[i];
        if cw > 0 {
            let ml = crate::slic::mean_u128(acc_l[i], cw, 25500);
            let ma = crate::slic::mean_u128(acc_a[i], cw, 255000);
            let mb = crate::slic::mean_u128(acc_b[i], cw, 102000);
            centers.set(
                i,
                LabColor {
                    l: ml as i32,
                    a: (ma as i64 - 127500) as i32,
                    b: (mb as i64 - 51000) as i32,
                },
            );
        }
        i = i + 1;
    }
    wsum
}

/// A prefix sum never exceeds the whole sum.
pub proof fn lemma_sum64_prefix_all(s: Seq<u64>, i: int)
    requires
        0 <= i <= s.len(),
    ensures
        sum64(s.take(i)) <= sum64(s),
    decreases s.len() - i,
{
    if i == s.len() {
        lemma_sum64_take_full(s);
    } else {
        lemma_sum64_take_step(s, i);
        lemma_sum64_prefix_all(s, i + 1);
    }
}

/// Group the superpixels into at most `k` perceptual color clusters by
/// weighted iterative clustering with deterministic, spread-out seeding.
///
/// Returns the superpixel-to-cluster assignment and the clusters. Every
/// returned cluster has positive pixel weight, there are never more than
/// `k` of them (nor more than there are superpixels), and their weights sum
/// to the total superpixel weight.
pub fn cluster_superpixels(sps: &Vec<Superpixel>, k: usize, iterations: u32) -> (r: (
    Vec<usize>,
    Vec<RawCluster>,
))
    requires
        sps@.len() >= 1,
        forall|i: int| 0 <= i < sps@.len() ==> (#[trigger] sps@[i]).wf(),
        1 <= sum64(sp_counts(sps@)) <= 0x4000000000000000,
        k >= 1,
        1 <= iterations <= 64,
    ensures
        r.0@.len() == sps@.len(),
        forall|p: int| 0 <= p < r.0@.len() ==> (#[trigger] r.0@[p]) < r.1@.len(),
        1 <= r.1@.len(),
        r.1@.len() <= k,
        r.1@.len() <= sps@.len(),
        forall|i: int|
            0 <= i < r.1@.len() ==> (#[trigger] r.1@[i]).wf() && r.1@[i].count > 0,
        sum64(rc_counts(r.1@)) == sum64(sp_counts(sps@)),
        forall|lo: (int, int, int), hi: (int, int, int)|
            #[trigger] sp_rgb_within(sps@, lo, hi) ==> rc_rgb_within(r.1@, lo, hi),
{
    let n = sps.len();
    let keff: usize = if k < n { k } else { n };
    let mut centers = seed_centers(sps, keff);
    let mut assign: Vec<usize> = crate::slic::vec_zero_usize(n);
    proof {
        assert(forall|p: int| 0 <= p < assign@.len() ==> (#[trigger] assign@[p]) < keff);
    }
    let mut it: u32 = 0;
    let mut done = false;
    while it < iterations && !done
        invariant
            n == sps@.len(),
            n >= 1,
            forall|q: int| 0 <= q < sps@.len() ==> (#[trigger] sps@[q]).wf(),
            1 <= sum64(sp_counts(sps@)) <= 0x4000000000000000,
            1 <= keff <= n,
            centers@.len() == keff,
            forall|q: int| 0 <= q < centers@.len() ==> (#[trigger] centers@[q]).wf(),
            assign@.len() == n,
            forall|q: int| 0 <= q < assign@.len() ==> (#[trigger] assign@[q]) < keff,
        decreases iterations - it, (if done { 0int } else { 1int }),
    {
        let old_centers = centers.clone();
        assign_sps(sps, &centers, &mut assign);
        let w = recompute_cluster_centers(sps, &assign, &mut centers);
        // Reseed any center that ended the round with no assigned weight at
        // the superpixel farthest from all current centers.
        let mut i: usize = 0;
        while i < centers.len()
            invariant
                n == sps@.len(),
                n >= 1,
                forall|q: int| 0 <= q < sps@.len() ==> (#[trigger] sps@[q]).wf(),
                centers@.len() == keff,
                1 <= keff,
                forall|q: int| 0 <= q < centers@.len() ==> (#[trigger] centers@[q]).wf(),
                w@.len() == keff,
                i <= keff,
            decreases keff - i,
        {
            if w[i] == 0 {
                let cidx = best_candidate(sps, &centers);
                centers.set(i, sps[cidx].lab);
            }
            i = i + 1;
        }
        if eq_centers(&old_centers, &centers) {
            done = true;
        }
        it = it + 1;
    }
    assign_sps(sps, &centers, &mut assign);
    let (weights2, acc_r, acc_g, acc_bb) = tally(sps, &assign, keff);
    // Keep only centers that own pixels, remapping the assignment.
    let mut out: Vec<RawCluster> = Vec::new();
    let mut remap: Vec<usize> = Vec::new();
    let mut i: usize = 0;
    while i < keff
        invariant
            centers@.len() == keff,
            forall|q: int| 0 <= q < centers@.len() ==> (#[trigger] centers@[q]).wf(),
            weights2@.len() == keff && acc_r@.len() == keff && acc_g@.len() == keff
                && acc_bb@.len() == keff,
            forall|q: int| 0 <= q < keff ==> (#[trigger] acc_r@[q]) <= 255 * (weights2@[q] as int),
            forall|q: int| 0 <= q < keff ==> (#[trigger] acc_g@[q]) <= 255 * (weights2@[q] as int),
            forall|q: int|
                0 <= q < keff ==> (#[trigger] acc_bb@[q]) <= 255 * (weights2@[q] as int),
            n == sps@.len(),
            assign@.len() == n,
            forall|q: int| 0 <= q < keff ==> (#[trigger] weights2@[q]) as int
                == spec_assigned_weight(sps@, assign@, n as int, q),
            forall|q: int| 0 <= q < keff ==> (#[trigger] acc_r@[q]) as int
                == spec_assigned_wsum(sps@, assign@, n as int, q, 0),
            forall|q: int| 0 <= q < keff ==> (#[trigger] acc_g@[q]) as int
                == spec_assigned_wsum(sps@, assign@, n as int, q, 1),
            forall|q: int| 0 <= q < keff ==> (#[trigger] acc_bb@[q]) as int
                == spec_assigned_wsum(sps@, assign@, n as int, q, 2),
            i <= keff,
            remap@.len() == i,
            out@.len() <= i,
            forall|q: int|
                0 <= q < i ==> (#[trigger] remap@[q]) < out@.len() || remap@[q] == 0,
            forall|q: int|
                0 <= q < out@.len() ==> (#[trigger] out@[q]).wf() && out@[q].count > 0,
            forall|q: int|
                0 <= q < out@.len() ==> exists|c: int|
                    0 <= c < keff && (#[trigger] out@[q]).count as int == spec_assigned_weight(
                        sps@,
                        assign@,
                        n as int,
                        c,
                    ) && out@[q].count > 0 && out@[q].red as int == spec_assigned_wsum(
                        sps@,
                        assign@,
                        n as int,
                        c,
                        0,
                    ) / (out@[q].count as int) && out@[q].green as int == spec_assigned_wsum(
                        sps@,
                        assign@,
                        n as int,
                        c,
                        1,
                    ) / (out@[q].count as int) && out@[q].blue as int == spec_assigned_wsum(
                        sps@,
                        assign@,
                        n as int,
                        c,
                        2,
                    ) / (out@[q].count as int),
            sum64(rc_counts(out@)) == sum64(weights2@.take(i as int)),
        decreases keff - i,
    {
        proof {
            lemma_sum64_take_step(weights2@, i as int);
        }
        if weights2[i] > 0 {
            let cw = weights2[i];
            let mr = crate::slic::mean_u128(acc_r[i], cw, 255);
            let mg = crate::slic::mean_u128(acc_g[i], cw, 255);
            let mb = crate::slic::mean_u128(acc_bb[i], cw, 255);
            let cl = RawCluster {
                lab: centers[i],
                red: mr as u8,
                green: mg as u8,
                blue: mb as u8,
                count: cw,
            };
            proof {
                assert(rc_counts(out@.push(cl)) =~= rc_counts(out@).push(cl.count));
                lemma_sum64_push(rc_counts(out@), cl.count);
            }
            remap.push(out.len());
            out.push(cl);
        } else {
            remap.push(0);
        }
        i = i + 1;
    }
    proof {
        lemma_sum64_take_full(weights2@);
        assert(sum64(rc_counts(out@)) == sum64(sp_counts(sps@)));
        if out@.len() == 0 {
            assert(rc_counts(out@) =~= Seq::<u64>::empty());
            assert(sum64(rc_counts(out@)) == 0);
            assert(false);
        }
        // Every cluster's color is a weighted mean of assigned superpixels,
        // so channel bounds on the superpixels carry over.
        assert forall|lo: (int, int, int), hi: (int, int, int)|
            #[trigger] sp_rgb_within(sps@, lo, hi) implies rc_rgb_within(out@, lo, hi) by {
            assert forall|q: int| 0 <= q < out@.len() implies lo.0 <= (#[trigger] out@[q]).red
                <= hi.0 && lo.1 <= out@[q].green <= hi.1 && lo.2 <= out@[q].blue <= hi.2 by {
                let c = choose|c: int|
                    0 <= c < keff && (#[trigger] out@[q]).count as int == spec_assigned_weight(
                        sps@,
                        assign@,
                        n as int,
                        c,
                    ) && out@[q].count > 0 && out@[q].red as int == spec_assigned_wsum(
                        sps@,
                        assign@,
                        n as int,
                        c,
                        0,
                    ) / (out@[q].count as int) && out@[q].green as int == spec_assigned_wsum(
                        sps@,
                        assign@,
                        n as int,
                        c,
                        1,
                    ) / (out@[q].count as int) && out@[q].blue as int == spec_assigned_wsum(
                        sps@,
                        assign@,
                        n as int,
                        c,
                        2,
                    ) / (out@[q].count as int);
                lemma_wsum_within(sps@, assign@, n as int, c, 0, lo, hi);
                lemma_wsum_within(sps@, assign@, n as int, c, 1, lo, hi);
                lemma_wsum_within(sps@, assign@, n as int, c, 2, lo, hi);
                let wgt = out@[q].count as int;
                assert(lo.0 * wgt <= spec_assigned_wsum(sps@, assign@, n as int, c, 0) <= hi.0
                    * wgt ==> lo.0 <= spec_assigned_wsum(sps@, assign@, n as int, c, 0) / wgt
                    <= hi.0) by (nonlinear_arith)
                    requires wgt >= 1;
                assert(lo.1 * wgt <= spec_assigned_wsum(sps@, assign@, n as int, c, 1) <= hi.1
                    * wgt ==> lo.1 <= spec_assigned_wsum(sps@, assign@, n as int, c, 1) / wgt
                    <= hi.1) by (nonlinear_arith)
                    requires wgt >= 1;
                assert(lo.2 * wgt <= spec_assigned_wsum(sps@, assign@, n as int, c, 2) <= hi.2
                    * wgt ==> lo.2 <= spec_assigned_wsum(sps@, assign@, n as int, c, 2) / wgt
                    <= hi.2) by (nonlinear_arith)
                    requires wgt >= 1;
            }
        }
    }
    let mut final_assign: Vec<usize> = crate::slic::vec_zero_usize(n);
    let mut p: usize = 0;
    while p < n
        invariant
            n == assign@.len(),
            remap@.len() == keff,
            forall|q: int| 0 <= q < assign@.len() ==> (#[trigger] assign@[q]) < keff,
            out@.len() >= 1,
            forall|q: int|
                0 <= q < keff ==> (#[trigger] remap@[q]) < out@.len() || remap@[q] == 0,
            final_assign@.len() == n,
            p <= n,
            forall|q: int| 0 <= q < p ==> (#[trigger] final_assign@[q]) < out@.len(),
        decreases n - p,
    {
        final_assign.set(p, remap[assign[p]]);
        p = p + 1;
    }
    (final_assign, out)
}

/// Compare two center lists field for field.
fn eq_centers(a: &Vec<LabColor>, b: &Vec<LabColor>) -> (r: bool)
    requires
        a@.len() == b@.len(),
{
    let mut i: usize = 0;
    while i < a.len()
        invariant
            a@.len() == b@.len(),
            i <= a@.len(),
        decreases a@.len() - i,
    {
        if a[i].l != b[i].l || a[i].a != b[i].a || a[i].b != b[i].b {
            return false;
        }
        i = i + 1;
    }
    true
}

/// Total assigned weight per cluster, with weighted RGB accumulators for
/// the representative colors.
fn tally(sps: &Vec<Superpixel>, assign: &Vec<usize>, k: usize) -> (r: (
    Vec<u64>,
    Vec<u128>,
    Vec<u128>,
    Vec<u128>,
))
    requires
        sps@.len() >= 1,
        sum64(sp_counts(sps@)) <= 0x4000000000000000,
        assign@.len() == sps@.len(),
        k >= 1,
        forall|p: int| 0 <= p < assign@.len() ==> (#[trigger] assign@[p]) < k,
    ensures
        r.0@.len() == k && r.1@.len() == k && r.2@.len() == k && r.3@.len() == k,
        sum64(r.0@) == sum64(sp_counts(sps@)),
        forall|q: int|
            0 <= q < k ==> (#[trigger] r.0@[q]) as int == spec_assigned_weight(
                sps@,
                assign@,
                sps@.len() as int,
                q,
            ),
        forall|q: int|
            0 <= q < k ==> (#[trigger] r.1@[q]) as int == spec_assigned_wsum(
                sps@,
                assign@,
                sps@.len() as int,
                q,
                0,
            ),
        forall|q: int|
            0 <= q < k ==> (#[trigger] r.2@[q]) as int == spec_assigned_wsum(
                sps@,
                assign@,
                sps@.len() as int,
                q,
                1,
            ),
        forall|q: int|
            0 <= q < k ==> (#[trigger] r.3@[q]) as int == spec_assigned_wsum(
                sps@,
                assign@,
                sps@.len() as int,
                q,
                2,
            ),
        forall|q: int| 0 <= q < k ==> (#[trigger] r.1@[q]) <= 255 * (r.0@[q] as int),
        forall|q: int| 0 <= q < k ==> (#[trigger] r.2@[q]) <= 255 * (r.0@[q] as int),
        forall|q: int| 0 <= q < k ==> (#[trigger] r.3@[q]) <= 255 * (r.0@[q] as int),
{
    let n = sps.len();
    let mut acc_r: Vec<u128> = crate::slic::vec_zero(k);
    let mut acc_g: Vec<u128> = crate::slic::vec_zero(k);
    let mut acc_b: Vec<u128> = crate::slic::vec_zero(k);
    let mut wsum: Vec<u64> = crate::slic::vec_zero64(k);
    let mut p: usize = 0;
    proof {
        assert(sp_counts(sps@).take(0) =~= Seq::<u64>::empty());
        crate::util::lemma_sum64_nonneg(sp_counts(sps@));
    }
    while p < n
        invariant
            n == sps@.len(),
            sum64(sp_counts(sps@)) <= 0x4000000000000000,
            assign@.len() == n,
            forall|q: int| 0 <= q < n ==> (#[trigger] assign@[q]) < k,
            p <= n,
            acc_r@.len() == k && acc_g@.len() == k && acc_b@.len() == k && wsum@.len() == k,
            sum64(wsum@) == sum64(sp_counts(sps@).take(p as int)),
            sum64(sp_counts(sps@).take(p as int)) <= sum64(sp_counts(sps@)),
            forall|q: int|
                0 <= q < k ==> (#[trigger] wsum@[q]) as int == spec_assigned_weight(
                    sps@,
                    assign@,
                    p as int,
                    q,
                ),
            forall|q: int|
                0 <= q < k ==> (#[trigger] acc_r@[q]) as int == spec_assigned_wsum(
                    sps@,
                    assign@,
                    p as int,
                    q,
                    0,
                ),
            forall|q: int|
                0 <= q < k ==> (#[trigger] acc_g@[q]) as int == spec_assigned_wsum(
                    sps@,
                    assign@,
                    p as int,
                    q,
                    1,
                ),
            forall|q: int|
                0 <= q < k ==> (#[trigger] acc_b@[q]) as int == spec_assigned_wsum(
                    sps@,
                    assign@,
                    p as int,
                    q,
                    2,
                ),
            forall|q: int| 0 <= q < k ==> (#[trigger] acc_r@[q]) <= 255 * (wsum@[q] as int),
            forall|q: int| 0 <= q < k ==> (#[trigger] acc_g@[q]) <= 255 * (wsum@[q] as int),
            forall|q: int| 0 <= q < k ==> (#[trigger] acc_b@[q]) <= 255 * (wsum@[q] as int),
        decreases n - p,
    {
        let c = assign[p];
        let sp = &sps[p];
        let wt = sp.count as u128;
        proof {
            lemma_sum64_element_bound(wsum@, c as int);
            lemma_sum64_take_step(sp_counts(sps@), p as int);
            lemma_sum64_prefix_all(sp_counts(sps@), p as int + 1);
            assert(sp_counts(sps@)[p as int] == sps@[p as int].count);
            assert(0 <= (sp.red as int) * (sps@[p as int].count as int) <= 255 * (sps@[
            p as int].count as int) && 0 <= (sp.green as int) * (sps@[p as int].count as int)
                <= 255 * (sps@[p as int].count as int) && 0 <= (sp.blue as int) * (sps@[
            p as int].count as int) <= 255 * (sps@[p as int].count as int))
                by (nonlinear_arith)
                requires
                    sp.red <= 255u8,
                    sp.green <= 255u8,
                    sp.blue <= 255u8,
                    sps@[p as int].count >= 0;
            assert(255 * (wsum@[c as int] as int) + 255 * (sps@[p as int].count as int) == 255
                * ((wsum@[c as int] as int) + (sps@[p as int].count as int)))
                by (nonlinear_arith);
            assert(255 * ((wsum@[c as int] as int) + (sps@[p as int].count as int)) <= 255
                * 0x8000000000000000) by (nonlinear_arith)
                requires
                    (wsum@[c as int] as int) + (sps@[p as int].count as int)
                        <= 0x8000000000000000;
            lemma_sum64_update(wsum@, c as int, (wsum@[c as int] + sps@[p as int].count) as u64);
        }
        acc_r.set(c, acc_r[c] + (sp.red as u128) * wt);
        acc_g.set(c, acc_g[c] + (sp.green as u128) * wt);
        acc_b.set(c, acc_b[c] + (sp.blue as u128) * wt);
        let cur = wsum[c];
        wsum.set(c, cur + sp.count);
        p = p + 1;
    }
    proof {
        lemma_sum64_take_full(sp_counts(sps@));
    }
    (wsum, acc_r, acc_g, acc_b)
}

} // verus!
