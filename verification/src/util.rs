use vstd::prelude::*;

verus! {

/// Sum of a sequence of pixel weights, as a mathematical integer.
pub open spec fn sum64(s: Seq<u64>) -> int
    decreases s.len(),
{
    if s.len() == 0 {
        0
    } else {
        s[0] + sum64(s.skip(1))
    }
}

/// Floor of the square root.
pub fn isqrt128(x: u128) -> (r: u64)
    ensures
        (r as int) * (r as int) <= x as int,
        x < ((r as int) + 1) * ((r as int) + 1),
{
    if x >= 0xffffffffffffffff * 0xffffffffffffffff {
        proof {
            assert((0xffffffffffffffffu64 as int) * (0xffffffffffffffffu64 as int) <= x as int
                && x < ((0xffffffffffffffffu64 as int) + 1) * ((0xffffffffffffffffu64 as int)
                + 1)) by (nonlinear_arith)
                requires x >= 0xffffffffffffffff * 0xffffffffffffffff, x < 0x100000000000000000000000000000000;
        }
        return 0xffffffffffffffff;
    }
    let mut lo: u128 = 0;
    let mut hi: u128 = 0xffffffffffffffff;
    while hi - lo > 1
        invariant
            lo < hi <= 0xffffffffffffffff,
            (lo as int) * (lo as int) <= x as int,
            x < (hi as int) * (hi as int),
        decreases hi - lo,
    {
        let mid: u128 = lo + (hi - lo) / 2;
        proof {
            assert((mid as int) * (mid as int) < 0x100000000000000000000000000000000
                && 0 <= (mid as int) * (mid as int)) by (nonlinear_arith)
                requires 0 <= mid <= 0xffffffffffffffff;
        }
        if mid * mid <= x {
            lo = mid;
        } else {
            hi = mid;
        }
    }
    lo as u64
}

/// How many entries of a flag sequence are still unset.
pub open spec fn count_false(s: Seq<bool>) -> int
    decreases s.len(),
{
    if s.len() == 0 {
        0
    } else {
        (if s[0] {
            0int
        } else {
            1int
        }) + count_false(s.skip(1))
    }
}

pub proof fn lemma_count_false_nonneg(s: Seq<bool>)
    ensures
        count_false(s) >= 0,
    decreases s.len(),
{
    if s.len() > 0 {
        lemma_count_false_nonneg(s.skip(1));
    }
}

pub proof fn lemma_count_false_set(s: Seq<bool>, i: int)
    requires
        0 <= i < s.len(),
        !s[i],
    ensures
        count_false(s.update(i, true)) == count_false(s) - 1,
    decreases s.len(),
{
    if i == 0 {
        assert(s.update(0, true).skip(1) =~= s.skip(1));
    } else {
        assert(s.update(i, true).skip(1) =~= s.skip(1).update(i - 1, true));
        lemma_count_false_set(s.skip(1), i - 1);
    }
}

pub proof fn lemma_sum64_nonneg(s: Seq<u64>)
    ensures
        sum64(s) >= 0,
    decreases s.len(),
{
    if s.len() > 0 {
        lemma_sum64_nonneg(s.skip(1));
    }
}

pub proof fn lemma_sum64_update(s: Seq<u64>, i: int, v: u64)
    requires
        0 <= i < s.len(),
    ensures
        sum64(s.update(i, v)) == sum64(s) - s[i] + v,
    decreases s.len(),
{
    if i == 0 {
        assert(s.update(0, v).skip(1) =~= s.skip(1));
    } else {
        assert(s.update(i, v).skip(1) =~= s.skip(1).update(i - 1, v));
        lemma_sum64_update(s.skip(1), i - 1, v);
    }
}

pub proof fn lemma_sum64_push(s: Seq<u64>, v: u64)
    ensures
        sum64(s.push(v)) == sum64(s) + v,
    decreases s.len(),
{
    if s.len() == 0 {
        assert(s.push(v).skip(1) =~= Seq::<u64>::empty());
        assert(s.push(v)[0] == v);
        assert(sum64(s.push(v)) == v + sum64(Seq::<u64>::empty()));
    } else {
        assert(s.push(v).skip(1) =~= s.skip(1).push(v));
        lemma_sum64_push(s.skip(1), v);
        assert(s.push(v)[0] == s[0]);
        assert(sum64(s.push(v)) == s[0] + sum64(s.skip(1).push(v)));
    }
}

pub proof fn lemma_sum64_remove(s: Seq<u64>, i: int)
    requires
        0 <= i < s.len(),
    ensures
        sum64(s.remove(i)) == sum64(s) - s[i],
    decreases s.len(),
{
    if i == 0 {
        assert(s.remove(0) =~= s.skip(1));
    } else {
        assert(s.remove(i).skip(1) =~= s.skip(1).remove(i - 1));
        lemma_sum64_remove(s.skip(1), i - 1);
    }
}

pub proof fn lemma_sum64_element_bound(s: Seq<u64>, i: int)
    requires
        0 <= i < s.len(),
    ensures
        s[i] <= sum64(s),
    decreases s.len(),
{
    lemma_sum64_nonneg(s.skip(1));
    if i > 0 {
        lemma_sum64_element_bound(s.skip(1), i - 1);
    }
}

pub proof fn lemma_sum64_two_elements(s: Seq<u64>, i: int, j: int)
    requires
        0 <= i < j < s.len(),
    ensures
        s[i] + s[j] <= sum64(s),
{
    lemma_sum64_remove(s, j);
    assert(s.remove(j)[i] == s[i]);
    lemma_sum64_element_bound(s.remove(j), i);
}

pub proof fn lemma_sum64_take_step(s: Seq<u64>, i: int)
    requires
        0 <= i < s.len(),
    ensures
        sum64(s.take(i + 1)) == sum64(s.take(i)) + s[i],
{
    assert(s.take(i + 1) =~= s.take(i).push(s[i]));
    lemma_sum64_push(s.take(i), s[i]);
}

pub proof fn lemma_sum64_take_full(s: Seq<u64>)
    ensures
        sum64(s.take(s.len() as int)) == sum64(s),
{
    assert(s.take(s.len() as int) =~= s);
}

} // verus!
