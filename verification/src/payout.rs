//! Exact proportional division of a bounty.
use vstd::prelude::*;

verus! {

/// `floor(v * b / t)` computed exactly although `v * b` may not fit in
/// 128 bits: the bits of `b` are taken from the top, keeping quotient and
/// remainder of `v` times the bits seen so far.
pub fn mul_div(v: u128, b: u128, t: u128) -> (q: u128)
    requires
        v <= t,
        t > 0,
    ensures
        q == (v * b) / (t as int),
        q <= b,
{
    let mut q: u128 = 0;
    let mut r: u128 = 0;
    let mut k: u32 = 128;
    let ghost mut pre: int = 0;
    while k > 0
        invariant
            k <= 128,
            v <= t,
            t > 0,
            k == 128 ==> pre == 0,
            k < 128 ==> pre == (b >> k),
            0 <= pre <= b,
            k >= 1 ==> pre <= 0x7fff_ffff_ffff_ffff_ffff_ffff_ffff_ffff,
            v * pre == q * t + r,
            r < t,
            q <= pre,
        decreases k,
    {
        let k2 = k - 1;
        let bit = (b >> k2) & 1;
        proof {
            if k2 < 127 {
                assert((b >> k2) == 2 * (b >> ((k2 + 1) as u32)) + ((b >> k2) & 1)) by (bit_vector)
                    requires
                        k2 < 127,
                ;
            } else {
                assert((b >> k2) == ((b >> k2) & 1)) by (bit_vector)
                    requires
                        k2 == 127,
                ;
            }
            assert(bit <= 1) by (bit_vector)
                requires
                    bit == (b >> k2) & 1,
            ;
            assert((b >> k2) <= b) by (bit_vector);
            if k2 >= 1 {
                assert((b >> k2) <= 0x7fff_ffff_ffff_ffff_ffff_ffff_ffff_ffffu128) by (bit_vector)
                    requires
                        k2 >= 1,
                ;
            }
        }
        let ghost pre2: int = 2 * pre + bit;
        assert(pre2 == (b >> k2));
        let ghost q0 = q;
        let ghost r0 = r;
        if r >= t - r {
            q = 2 * q + 1;
            r = r - (t - r);
        } else {
            q = 2 * q;
            r = r + r;
        }
        assert((q == 2 * q0 + 1 && 2 * r0 == t + r) || (q == 2 * q0 && 2 * r0 == r));
        assert(v * (2 * pre) == q * t + r) by (nonlinear_arith)
            requires
                v * pre == q0 * t + r0,
                (q == 2 * q0 + 1 && 2 * r0 == t + r) || (q == 2 * q0 && 2 * r0 == r),
        ;
        assert(q <= 2 * pre) by (nonlinear_arith)
            requires
                v * (2 * pre) == q * t + r,
                v <= t,
                t > 0,
                r >= 0,
                pre >= 0,
                q >= 0,
        ;
        let ghost q1 = q;
        let ghost r1 = r;
        if bit == 1 {
            if r >= t - v {
                q = q + 1;
                r = r - (t - v);
            } else {
                r = r + v;
            }
        }
        assert(bit == 0 ==> q == q1 && r == r1);
        assert(bit == 1 ==> (q == q1 + 1 && r1 + v == t + r) || (q == q1 && r1 + v == r));
        assert(bit * v + r1 == (q - q1) * t + r) by (nonlinear_arith)
            requires
                bit == 0 || bit == 1,
                bit == 0 ==> q == q1 && r == r1,
                bit == 1 ==> (q == q1 + 1 && r1 + v == t + r) || (q == q1 && r1 + v == r),
        ;
        assert(v * pre2 == q * t + r) by (nonlinear_arith)
            requires
                pre2 == 2 * pre + bit,
                v * (2 * pre) == q1 * t + r1,
                bit * v + r1 == (q - q1) * t + r,
        ;
        assert(q <= pre2) by (nonlinear_arith)
            requires
                v * pre2 == q * t + r,
                v <= t,
                t > 0,
                r >= 0,
                pre2 >= 0,
                q >= 0,
        ;
        proof {
            pre = pre2;
        }
        k = k2;
    }
    assert((b >> 0u32) == b) by (bit_vector);
    proof {
        vstd::arithmetic::div_mod::lemma_fundamental_div_mod_converse_div((v * b) as int, t as int, q as int, r as int);
    }
    q
}

/// The sum of a list of weights.
pub open spec fn weight_sum(w: Seq<u128>) -> int
    decreases w.len(),
{
    if w.len() == 0 {
        0
    } else {
        weight_sum(w.drop_last()) + w.last()
    }
}

/// The sum of a list of amounts.
pub open spec fn amount_sum(a: Seq<u64>) -> int
    decreases a.len(),
{
    if a.len() == 0 {
        0
    } else {
        amount_sum(a.drop_last()) + a.last()
    }
}

/// Each weight's part of `bounty`: `w[i] * bounty / total` rounded down,
/// or, when the weights are all zero, `bounty / w.len()` each.
pub open spec fn proportional(w: Seq<u128>, bounty: u64) -> Seq<u64> {
    let total = weight_sum(w);
    Seq::new(w.len(), |i: int| if total == 0 { ((bounty as int) / (w.len() as int)) as u64 } else { ((w[i] * bounty) / total) as u64 })
}

/// The parts of `bounty` in proportion to `w`, the rounding remainder given
/// to the first.
pub open spec fn distribution(w: Seq<u128>, bounty: u64) -> Seq<u64> {
    let p = proportional(w, bounty);
    if p.len() == 0 {
        p
    } else {
        p.update(0, (p[0] + (bounty - amount_sum(p))) as u64)
    }
}

/// Rounding each part down gives at most the rounded sum.
proof fn lemma_floor_sum(w: Seq<u128>, b: u64, total: int)
    requires
        total > 0,
        forall|i: int| 0 <= i < w.len() ==> #[trigger] w[i] <= total,
    ensures
        amount_sum(Seq::new(w.len(), |i: int| ((w[i] * b) / total) as u64)) * total <= weight_sum(w) * b,
    decreases w.len(),
{
    let f = Seq::new(w.len(), |i: int| ((w[i] * b) / total) as u64);
    if w.len() > 0 {
        let w2 = w.drop_last();
        let f2 = Seq::new(w2.len(), |i: int| ((w2[i] * b) / total) as u64);
        assert forall|i: int| 0 <= i < w2.len() implies #[trigger] w2[i] <= total by {
            assert(w2[i] == w[i]);
        }
        lemma_floor_sum(w2, b, total);
        assert(w[w.len() - 1] <= total);
        assert(f.drop_last() =~= f2);
        let x = w.last() * b;
        let q = x / total;
        assert(q * total <= x) by (nonlinear_arith)
            requires
                q == x / total,
                total > 0,
                x >= 0;
        assert(q >= 0) by (nonlinear_arith)
            requires q == x / total, total > 0, x >= 0;
        assert(q <= u64::MAX) by (nonlinear_arith)
            requires q == x / total, total > 0, x >= 0, total >= w.last(), w.last() >= 0, x == w.last() * b, b <= u64::MAX;
        assert(f.last() == q as u64);
        assert(amount_sum(f) * total == amount_sum(f2) * total + q * total) by (nonlinear_arith)
            requires amount_sum(f) == amount_sum(f2) + q;
        assert(weight_sum(w) * b == weight_sum(w2) * b + x) by (nonlinear_arith)
            requires weight_sum(w) == weight_sum(w2) + w.last(), x == w.last() * b;
    }
}

/// Weights are never negative, nor their sum.
proof fn lemma_weight_sum_bounds(w: Seq<u128>)
    ensures
        weight_sum(w) >= 0,
        forall|i: int| 0 <= i < w.len() ==> #[trigger] w[i] <= weight_sum(w),
    decreases w.len(),
{
    if w.len() > 0 {
        lemma_weight_sum_bounds(w.drop_last());
        assert forall|i: int| 0 <= i < w.len() implies #[trigger] w[i] <= weight_sum(w) by {
            if i < w.len() - 1 {
                assert(w[i] == w.drop_last()[i]);
            }
        }
    }
}

/// Equal shares add up to at most the bounty.
proof fn lemma_equal_sum(n: nat, b: u64)
    requires
        n > 0,
    ensures
        amount_sum(Seq::new(n, |i: int| ((b as int) / (n as int)) as u64)) == n * ((b as int) / (n as int)),
    decreases n,
{
    let f = Seq::new(n, |i: int| ((b as int) / (n as int)) as u64);
    lemma_equal_prefix(n, b, n);
    assert(f.take(n as int) =~= f);
}

/// The first `k` equal shares add up to `k` shares.
proof fn lemma_equal_prefix(n: nat, b: u64, k: nat)
    requires
        n > 0,
        k <= n,
    ensures
        amount_sum(Seq::new(n, |i: int| ((b as int) / (n as int)) as u64).take(k as int)) == k * ((b as int) / (n as int)),
    decreases k,
{
    let f = Seq::new(n, |i: int| ((b as int) / (n as int)) as u64);
    let d = (b as int) / (n as int);
    assert(0 <= d <= u64::MAX) by (nonlinear_arith) requires n > 0, b <= u64::MAX, d == (b as int) / (n as int), b >= 0;
    if k > 0 {
        lemma_equal_prefix(n, b, (k - 1) as nat);
        assert(f.take(k as int).drop_last() =~= f.take(k - 1));
        assert(f.take(k as int).last() == d);
        assert((k - 1) * d + d == k * d) by (nonlinear_arith);
    } else {
        assert(k * d == 0) by (nonlinear_arith) requires k == 0;
    }
}

/// The proportional parts never add up to more than the bounty, so the
/// remainder is never negative.
pub proof fn law_proportional_within_bounty(w: Seq<u128>, bounty: u64)
    requires
        w.len() > 0,
    ensures
        0 <= amount_sum(proportional(w, bounty)) <= bounty,
    decreases w.len(),
{
    let total = weight_sum(w);
    lemma_weight_sum_bounds(w);
    lemma_amount_sum_nonneg(proportional(w, bounty));
    if total == 0 {
        lemma_equal_sum(w.len(), bounty);
        assert(proportional(w, bounty) =~= Seq::new(w.len(), |i: int| ((bounty as int) / (w.len() as int)) as u64));
        let n = w.len() as int;
        assert(n * ((bounty as int) / n) <= bounty) by (nonlinear_arith) requires n > 0, bounty >= 0;
    } else {
        assert forall|i: int| 0 <= i < w.len() implies #[trigger] w[i] <= total by {}
        lemma_floor_sum(w, bounty, total);
        assert(proportional(w, bounty) =~= Seq::new(w.len(), |i: int| ((w[i] * bounty) / total) as u64));
        let s = amount_sum(proportional(w, bounty));
        assert(s <= bounty) by (nonlinear_arith)
            requires
                s * total <= total * bounty,
                total > 0;
    }
}

/// Amounts are never negative in sum.
proof fn lemma_amount_sum_nonneg(a: Seq<u64>)
    ensures
        amount_sum(a) >= 0,
    decreases a.len(),
{
    if a.len() > 0 {
        lemma_amount_sum_nonneg(a.drop_last());
    }
}

/// Updating one amount changes the sum by the difference.
proof fn lemma_amount_sum_update(a: Seq<u64>, i: int, x: u64)
    requires
        0 <= i < a.len(),
    ensures
        amount_sum(a.update(i, x)) == amount_sum(a) - a[i] + x,
    decreases a.len(),
{
    if i < a.len() - 1 {
        lemma_amount_sum_update(a.drop_last(), i, x);
        assert(a.update(i, x).drop_last() =~= a.drop_last().update(i, x));
    } else {
        assert(a.update(i, x).drop_last() =~= a.drop_last());
    }
}

/// The distribution hands out exactly the bounty, whenever there is anyone
/// to hand it to.
pub proof fn law_distribution_sums_to_bounty(w: Seq<u128>, bounty: u64)
    requires
        w.len() > 0,
    ensures
        amount_sum(distribution(w, bounty)) == bounty,
{
    let p = proportional(w, bounty);
    law_proportional_within_bounty(w, bounty);
    lemma_amount_sum_nonneg(p);
    assert(p[0] <= amount_sum(p)) by {
        lemma_amount_prefix_le(p, 0);
    }
    lemma_amount_sum_update(p, 0, (p[0] + (bounty - amount_sum(p))) as u64);
}

/// Each amount is at most the sum.
proof fn lemma_amount_prefix_le(a: Seq<u64>, i: int)
    requires
        0 <= i < a.len(),
    ensures
        a[i] <= amount_sum(a),
    decreases a.len(),
{
    lemma_amount_sum_nonneg(a.drop_last());
    if i < a.len() - 1 {
        lemma_amount_prefix_le(a.drop_last(), i);
    }
}

/// Splits `bounty` in proportion to the weights `w` (see `distribution`):
/// each gets its part rounded down, and what rounding leaves goes to the
/// first.
pub fn distribute(w: &Vec<u128>, bounty: u64) -> (r: Vec<u64>)
    requires
        weight_sum(w@) <= u128::MAX,
    ensures
        r@ == distribution(w@, bounty),
{
    let mut total: u128 = 0;
    let mut i: usize = 0;
    while i < w.len()
        invariant
            i <= w@.len(),
            total == weight_sum(w@.take(i as int)),
            weight_sum(w@) <= u128::MAX,
        decreases w.len() - i,
    {
        proof {
            assert(w@.take(i + 1).drop_last() =~= w@.take(i as int));
            lemma_weight_sum_prefix_le(w@, i + 1);
        }
        total = total + w[i];
        i = i + 1;
    }
    assert(w@.take(i as int) =~= w@);
    proof {
        lemma_weight_sum_bounds(w@);
    }
    let n = w.len();
    let mut out: Vec<u64> = Vec::new();
    let mut sum: u64 = 0;
    let ghost p = proportional(w@, bounty);
    proof {
        if n > 0 {
            law_proportional_within_bounty(w@, bounty);
        }
    }
    let mut j: usize = 0;
    while j < n
        invariant
            j <= n,
            n == w@.len(),
            p == proportional(w@, bounty),
            total == weight_sum(w@),
            forall|k: int| 0 <= k < w@.len() ==> #[trigger] w@[k] <= total,
            out@ == p.take(j as int),
            sum == amount_sum(p.take(j as int)),
            n > 0 ==> amount_sum(p) <= bounty,
        decreases n - j,
    {
        proof {
            if n > 0 {
                law_proportional_within_bounty(w@, bounty);
            }
        }
        let part: u64 = if total == 0 {
            bounty / (n as u64)
        } else {
            mul_div(w[j], bounty as u128, total) as u64
        };
        proof {
            assert(p.take(j + 1).drop_last() =~= p.take(j as int));
            assert(p[j as int] == part);
            lemma_amount_prefix_sum_le(p, j + 1);
            lemma_amount_sum_nonneg(p.take(j as int));
        }
        out.push(part);
        sum = sum + part;
        j = j + 1;
    }
    assert(p.take(j as int) =~= p);
    if n > 0 {
        proof {
            lemma_amount_prefix_le(p, 0);
        }
        let first = out[0] + (bounty - sum);
        out.set(0, first);
    }
    out
}

/// Prefix sums of weights stay below the whole sum.
proof fn lemma_weight_sum_prefix_le(w: Seq<u128>, k: int)
    requires
        0 <= k <= w.len(),
    ensures
        weight_sum(w.take(k)) <= weight_sum(w),
    decreases w.len(),
{
    lemma_weight_sum_bounds(w);
    if k < w.len() {
        assert(w.drop_last().take(k) =~= w.take(k));
        lemma_weight_sum_prefix_le(w.drop_last(), k);
        lemma_weight_sum_bounds(w.drop_last());
    } else {
        assert(w.take(k) =~= w);
    }
}

/// Prefix sums of amounts stay below the whole sum.
proof fn lemma_amount_prefix_sum_le(a: Seq<u64>, k: int)
    requires
        0 <= k <= a.len(),
    ensures
        amount_sum(a.take(k)) <= amount_sum(a),
    decreases a.len(),
{
    if k < a.len() {
        assert(a.drop_last().take(k) =~= a.take(k));
        lemma_amount_prefix_sum_le(a.drop_last(), k);
        lemma_amount_sum_nonneg(a.drop_last());
    } else {
        assert(a.take(k) =~= a);
    }
}

} // verus!
