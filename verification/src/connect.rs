use vstd::prelude::*;
use crate::util::{count_false, lemma_count_false_nonneg, lemma_count_false_set};

verus! {

/// Index bounds for a pixel's four neighbours in a row-major grid.
proof fn lemma_neighbor_bounds(p: int, w: int, h: int)
    requires
        w >= 1,
        h >= 1,
        0 <= p < w * h,
    ensures
        0 <= p % w < w,
        0 <= p / w < h,
        p % w > 0 ==> p - 1 >= 0,
        p % w < w - 1 ==> p + 1 < w * h,
        p / w > 0 ==> p - w >= 0,
        p / w < h - 1 ==> p + w < w * h,
{
    assert(0 <= p % w < w && 0 <= p / w < h && p == (p / w) * w + p % w && (p % w > 0 ==> p - 1
        >= 0) && (p % w < w - 1 ==> p + 1 < w * h) && (p / w > 0 ==> p - w >= 0) && (p / w < h
        - 1 ==> p + w < w * h)) by (nonlinear_arith)
        requires w >= 1, h >= 1, 0 <= p < w * h;
}

/// Flood-fill one connected region of equally labelled pixels, marking the
/// pixels visited, stamping them with the region's id, and returning its
/// members.
fn collect_component(
    labels: &Vec<usize>,
    w: usize,
    h: usize,
    start: usize,
    visited: &mut Vec<bool>,
    comp_of: &mut Vec<usize>,
    comp_id: usize,
) -> (members: Vec<usize>)
    requires
        w >= 1,
        h >= 1,
        labels@.len() == w * h,
        old(visited)@.len() == labels@.len(),
        old(comp_of)@.len() == labels@.len(),
        start < labels@.len(),
        !old(visited)@[start as int],
        forall|q: int|
            0 <= q < old(visited)@.len() && old(visited)@[q] ==> (#[trigger] old(comp_of)@[q])
                < comp_id,
    ensures
        final(visited)@.len() == old(visited)@.len(),
        final(comp_of)@.len() == old(comp_of)@.len(),
        forall|q: int|
            0 <= q < old(visited)@.len() && old(visited)@[q] ==> (#[trigger] final(visited)@[q]),
        forall|q: int|
            0 <= q < old(visited)@.len() && (#[trigger] final(visited)@[q])
                ==> final(comp_of)@[q] <= comp_id,
        final(visited)@[start as int],
        members@.len() >= 1,
        forall|j: int| 0 <= j < members@.len() ==> (#[trigger] members@[j]) < labels@.len(),
        count_false(final(visited)@) < count_false(old(visited)@),
{
    let n = labels.len();
    let lab0 = labels[start];
    let mut members: Vec<usize> = Vec::new();
    let mut stack: Vec<usize> = Vec::new();
    proof {
        lemma_count_false_set(visited@, start as int);
    }
    visited.set(start, true);
    comp_of.set(start, comp_id);
    stack.push(start);
    proof {
        lemma_count_false_nonneg(visited@);
    }
    while stack.len() > 0
        invariant
            w >= 1,
            h >= 1,
            n == labels@.len(),
            labels@.len() == w * h,
            visited@.len() == n,
            comp_of@.len() == n,
            start < n,
            forall|q: int| 0 <= q < n && old(visited)@[q] ==> (#[trigger] visited@[q]),
            forall|q: int|
                0 <= q < n && (#[trigger] visited@[q]) ==> comp_of@[q] <= comp_id,
            visited@[start as int],
            forall|j: int| 0 <= j < stack@.len() ==> (#[trigger] stack@[j]) < n,
            forall|j: int| 0 <= j < members@.len() ==> (#[trigger] members@[j]) < n,
            members@.len() + stack@.len() >= 1,
            count_false(visited@) <= count_false(old(visited)@) - 1,
            count_false(visited@) >= 0,
        decreases count_false(visited@) * 5 + stack@.len(),
    {
        let cur = match stack.pop() {
            Some(v) => v,
            None => {
                proof {
                    assert(false);
                }
                0
            }
        };
        members.push(cur);
        proof {
            lemma_neighbor_bounds(cur as int, w as int, h as int);
        }
        let x = cur % w;
        let y = cur / w;
        if x > 0 {
            let q = cur - 1;
            if labels[q] == lab0 && !visited[q] {
                proof {
                    lemma_count_false_set(visited@, q as int);
                }
                visited.set(q, true);
                comp_of.set(q, comp_id);
                stack.push(q);
            }
        }
        if x < w - 1 {
            let q = cur + 1;
            if labels[q] == lab0 && !visited[q] {
                proof {
                    lemma_count_false_set(visited@, q as int);
                }
                visited.set(q, true);
                comp_of.set(q, comp_id);
                stack.push(q);
            }
        }
        if y > 0 {
            let q = cur - w;
            if labels[q] == lab0 && !visited[q] {
                proof {
                    lemma_count_false_set(visited@, q as int);
                }
                visited.set(q, true);
                comp_of.set(q, comp_id);
                stack.push(q);
            }
        }
        if y < h - 1 {
            let q = cur + w;
            if labels[q] == lab0 && !visited[q] {
                proof {
                    lemma_count_false_set(visited@, q as int);
                }
                visited.set(q, true);
                comp_of.set(q, comp_id);
                stack.push(q);
            }
        }
        proof {
            lemma_count_false_nonneg(visited@);
        }
    }
    members
}

/// A vector of unset flags.
fn vec_false(k: usize) -> (r: Vec<bool>)
    ensures
        r@.len() == k,
        forall|i: int| 0 <= i < k ==> !(#[trigger] r@[i]),
{
    let mut v: Vec<bool> = Vec::new();
    let mut i: usize = 0;
    while i < k
        invariant
            i <= k,
            v@.len() == i,
            forall|q: int| 0 <= q < i ==> !(#[trigger] v@[q]),
        decreases k - i,
    {
        v.push(false);
        i = i + 1;
    }
    v
}

/// The connectivity pass: find every connected region of equally labelled
/// pixels, and relabel each region smaller than `min_size` to the label of
/// its largest neighbouring region, so no speckle of stray pixels survives
/// as its own superpixel. Labels stay within `[0, k)`.
pub(crate) fn enforce_connectivity(
    w: usize,
    h: usize,
    labels: &mut Vec<usize>,
    k: usize,
    min_size: usize,
)
    requires
        w >= 1,
        h >= 1,
        k >= 1,
        old(labels)@.len() == w * h,
        forall|p: int| 0 <= p < old(labels)@.len() ==> (#[trigger] old(labels)@[p]) < k,
    ensures
        final(labels)@.len() == old(labels)@.len(),
        forall|p: int| 0 <= p < final(labels)@.len() ==> (#[trigger] final(labels)@[p]) < k,
{
    let n = labels.len();
    let mut visited = vec_false(n);
    let mut comp_of = crate::slic::vec_zero_usize(n);
    let mut comp_members: Vec<Vec<usize>> = Vec::new();
    let mut comp_sizes: Vec<usize> = Vec::new();
    let mut comp_label: Vec<usize> = Vec::new();
    // First pass: component analysis.
    let mut p: usize = 0;
    while p < n
        invariant
            w >= 1,
            h >= 1,
            k >= 1,
            n == labels@.len(),
            labels@.len() == w * h,
            forall|q: int| 0 <= q < n ==> (#[trigger] labels@[q]) < k,
            visited@.len() == n,
            comp_of@.len() == n,
            p <= n,
            forall|q: int| 0 <= q < p ==> (#[trigger] visited@[q]),
            forall|q: int|
                0 <= q < n && (#[trigger] visited@[q]) ==> comp_of@[q] < comp_members@.len(),
            comp_members@.len() == comp_sizes@.len(),
            comp_members@.len() == comp_label@.len(),
            forall|c: int| 0 <= c < comp_label@.len() ==> (#[trigger] comp_label@[c]) < k,
            forall|c: int, j: int|
                0 <= c < comp_members@.len() && 0 <= j < comp_members@[c].len() ==> (
                #[trigger] comp_members@[c][j]) < n,
        decreases n - p,
    {
        if !visited[p] {
            let comp_id = comp_members.len();
            let members = collect_component(labels, w, h, p, &mut visited, &mut comp_of, comp_id);
            comp_sizes.push(members.len());
            comp_label.push(labels[p]);
            comp_members.push(members);
            proof {
                assert forall|q: int|
                    0 <= q < n && (#[trigger] visited@[q]) implies comp_of@[q]
                    < comp_members@.len() by {
                    assert(comp_of@[q] <= comp_id);
                }
            }
        }
        p = p + 1;
    }
    // Second pass: fold undersized regions into their largest neighbour.
    let ncomp = comp_members.len();
    proof {
        assert forall|q: int| 0 <= q < n implies (#[trigger] comp_of@[q]) < ncomp by {
            assert(visited@[q]);
        }
    }
    let mut c: usize = 0;
    while c < ncomp
        invariant
            w >= 1,
            h >= 1,
            k >= 1,
            n == labels@.len(),
            labels@.len() == w * h,
            forall|q: int| 0 <= q < n ==> (#[trigger] labels@[q]) < k,
            visited@.len() == n,
            comp_of@.len() == n,
            forall|q: int| 0 <= q < n ==> (#[trigger] comp_of@[q]) < ncomp,
            ncomp == comp_members@.len(),
            ncomp == comp_sizes@.len(),
            ncomp == comp_label@.len(),
            forall|t: int| 0 <= t < comp_label@.len() ==> (#[trigger] comp_label@[t]) < k,
            forall|t: int, j: int|
                0 <= t < comp_members@.len() && 0 <= j < comp_members@[t].len() ==> (
                #[trigger] comp_members@[t][j]) < n,
            c <= ncomp,
        decreases ncomp - c,
    {
        if comp_sizes[c] < min_size {
            // Find the neighbouring region with the most pixels.
            let mut best: usize = 0;
            let mut best_size: usize = 0;
            let mut found = false;
            let members = &comp_members[c];
            let mut j: usize = 0;
            while j < members.len()
                invariant
                    w >= 1,
                    h >= 1,
                    n == labels@.len(),
                    labels@.len() == w * h,
                    visited@.len() == n,
                    comp_of@.len() == n,
                    forall|q: int| 0 <= q < n ==> (#[trigger] comp_of@[q]) < ncomp,
                    ncomp == comp_sizes@.len(),
                    members@.len() == comp_members@[c as int].len(),
                    forall|t: int|
                        0 <= t < members@.len() ==> (#[trigger] members@[t]) < n,
                    c < ncomp,
                    found ==> best < ncomp,
                    j <= members@.len(),
                decreases members@.len() - j,
            {
                let m = members[j];
                proof {
                    lemma_neighbor_bounds(m as int, w as int, h as int);
                }
                let x = m % w;
                let y = m / w;
                if x > 0 {
                    let d = comp_of[m - 1];
                    if d != c && (!found || comp_sizes[d] > best_size) {
                        best = d;
                        best_size = comp_sizes[d];
                        found = true;
                    }
                }
                if x < w - 1 {
                    let d = comp_of[m + 1];
                    if d != c && (!found || comp_sizes[d] > best_size) {
                        best = d;
                        best_size = comp_sizes[d];
                        found = true;
                    }
                }
                if y > 0 {
                    let d = comp_of[m - w];
                    if d != c && (!found || comp_sizes[d] > best_size) {
                        best = d;
                        best_size = comp_sizes[d];
                        found = true;
                    }
                }
                if y < h - 1 {
                    let d = comp_of[m + w];
                    if d != c && (!found || comp_sizes[d] > best_size) {
                        best = d;
                        best_size = comp_sizes[d];
                        found = true;
                    }
                }
                j = j + 1;
            }
            if found {
                let new_label = comp_label[best];
                let members2 = &comp_members[c];
                let mut j2: usize = 0;
                while j2 < members2.len()
                    invariant
                        n == labels@.len(),
                        forall|q: int| 0 <= q < n ==> (#[trigger] labels@[q]) < k,
                        members2@.len() == comp_members@[c as int].len(),
                        forall|t: int|
                            0 <= t < members2@.len() ==> (#[trigger] members2@[t]) < n,
                        c < ncomp,
                        new_label < k,
                        j2 <= members2@.len(),
                    decreases members2@.len() - j2,
                {
                    labels.set(members2[j2], new_label);
                    j2 = j2 + 1;
                }
            }
        }
        c = c + 1;
    }
}

} // verus!
