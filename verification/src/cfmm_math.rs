//! Pricing arithmetic of the constant-product market maker (x * y = k).
use vstd::prelude::*;

verus! {

/// Division rounding up: the least `q` with `q * y >= x`.
pub open spec fn ceil_div(x: int, y: int) -> int {
    (x + y - 1) / y
}

/// Division rounding up, written as `(x + y - 1) / y`.
pub fn roundup_div(x: u128, y: u128) -> (q: u128)
    requires
        y > 0,
        x + y <= u128::MAX,
    ensures
        q == ceil_div(x as int, y as int),
{
    (x + y - 1) / y
}

/// `ceil_div` is the least multiple bound: `q * y >= x > (q - 1) * y`.
pub proof fn lemma_ceil_div_bounds(x: int, y: int)
    requires
        x >= 0,
        y > 0,
    ensures
        ceil_div(x, y) * y >= x,
        (ceil_div(x, y) - 1) * y < x || x == 0,
        ceil_div(x, y) >= 0,
        x == 0 ==> ceil_div(x, y) == 0,
        x > 0 ==> ceil_div(x, y) > 0,
{
    let q = ceil_div(x, y);
    let r = (x + y - 1) % y;
    vstd::arithmetic::div_mod::lemma_fundamental_div_mod(x + y - 1, y);
    assert(x + y - 1 == y * q + r);
    assert(0 <= r < y);
    assert(q * y >= x) by (nonlinear_arith)
        requires
            x + y - 1 == y * q + r,
            r < y,
    ;
    assert(q >= 0) by (nonlinear_arith)
        requires
            x + y - 1 == y * q + r,
            r < y,
            x >= 0,
            y > 0,
            r >= 0,
    ;
    if x > 0 {
        assert((q - 1) * y < x) by (nonlinear_arith)
            requires
                x + y - 1 == y * q + r,
                r >= 0,
        ;
        assert(q > 0) by (nonlinear_arith)
            requires
                q * y >= x,
                x > 0,
                y > 0,
        ;
    } else {
        assert(q == 0) by (nonlinear_arith)
            requires
                x + y - 1 == y * q + r,
                x == 0,
                0 <= r < y,
        ;
    }
}

/// `ceil_div(x, y) <= z` exactly when `x <= z * y`.
pub proof fn lemma_ceil_div_le(x: int, y: int, z: int)
    requires
        x >= 0,
        y > 0,
        z >= 0,
    ensures
        ceil_div(x, y) <= z <==> x <= z * y,
{
    lemma_ceil_div_bounds(x, y);
    let q = ceil_div(x, y);
    if q <= z {
        assert(x <= z * y) by (nonlinear_arith)
            requires
                q * y >= x,
                q <= z,
                y > 0,
                x >= 0,
                (q - 1) * y < x || x == 0,
        {
            if x == 0 {
                assert(z * y >= 0);
            } else {
                assert((q - 1) * y < x);
                assert(q * y - y < x);
                assert(z * y >= q * y);
            }
        }
    } else {
        if x > 0 {
            assert((q - 1) * y >= z * y) by (nonlinear_arith)
                requires
                    q - 1 >= z,
                    y > 0,
            ;
            assert(x > z * y);
        }
    }
}

/// Where a sell quote can be computed without overflow or division by zero:
/// `s` and `b` are the market's holdings of the sold and the bought asset and
/// `x` the amount sold.
pub open spec fn sell_quote_defined(s: u128, b: u128, x: u128) -> bool {
    let k = s * b;
    &&& k <= u128::MAX
    &&& s + x <= u128::MAX
    &&& s + x > 0
    &&& k + (s + x) <= u128::MAX
    &&& k > 0
    &&& k + ceil_div(k, s + x) <= u128::MAX
}

/// The amount bought when `x` is sold into a market holding `s` of the sold
/// asset and `b` of the bought asset.
pub open spec fn sell_quote_buy(s: u128, b: u128, x: u128) -> int {
    b - ceil_div(s * b, s + x)
}

/// The amount actually charged for that purchase.
pub open spec fn sell_quote_sell(s: u128, b: u128, x: u128) -> int {
    ceil_div(s * b, b - sell_quote_buy(s, b, x)) - s
}

/// Where a buy quote can be computed without overflow or division by zero:
/// `y` is the amount bought, at most the market's holding `b`.
pub open spec fn buy_quote_defined(s: u128, b: u128, y: u128) -> bool {
    let k = s * b;
    &&& y < b
    &&& k <= u128::MAX
    &&& k > 0
    &&& k + (b - y) <= u128::MAX
    &&& k + ceil_div(k, b - y) <= u128::MAX
}

/// The amount charged for buying `y`.
pub open spec fn buy_quote_sell(s: u128, b: u128, y: u128) -> int {
    ceil_div(s * b, b - y) - s
}

/// The amount actually delivered for that charge.
pub open spec fn buy_quote_buy(s: u128, b: u128, y: u128) -> int {
    b - ceil_div(s * b, s + buy_quote_sell(s, b, y))
}

/// Facts about a sell quote: the amounts fit, the buyer never pays more than
/// offered and never receives more than the market holds, and the product of
/// the market's holdings does not decrease.
pub proof fn law_sell_quote(s: u128, b: u128, x: u128)
    requires
        sell_quote_defined(s, b, x),
    ensures
        0 <= sell_quote_buy(s, b, x) < b,
        0 <= sell_quote_sell(s, b, x) <= x,
        (s + sell_quote_sell(s, b, x)) * (b - sell_quote_buy(s, b, x)) >= s * b,
{
    let k = (s * b) as int;
    let d1 = (s + x) as int;
    lemma_ceil_div_bounds(k, d1);
    let c1 = ceil_div(k, d1);
    // c1 <= b because k = s * b <= b * (s + x)
    assert(k <= b * d1) by (nonlinear_arith)
        requires
            k == s * b,
            d1 == s + x,
            x >= 0,
            b >= 0,
    ;
    lemma_ceil_div_le(k, d1, b as int);
    assert(c1 > 0);
    lemma_ceil_div_bounds(k, c1);
    let c2 = ceil_div(k, c1);
    // c2 <= s + x because k <= (s + x) * c1
    assert(k <= d1 * c1) by (nonlinear_arith)
        requires
            c1 * d1 >= k,
    ;
    lemma_ceil_div_le(k, c1, d1);
    // c2 >= s because s * c1 <= s * b = k
    assert(s * c1 <= k) by (nonlinear_arith)
        requires
            c1 <= b,
            k == s * b,
            s >= 0,
    ;
    if c2 < s {
        lemma_ceil_div_le(k, c1, c2);
        assert(k <= c2 * c1);
        assert(c2 * c1 < s * c1) by (nonlinear_arith)
            requires
                c2 < s,
                c1 > 0,
        ;
        assert(false);
    }
    assert(sell_quote_buy(s, b, x) == b - c1);
    assert(b - sell_quote_buy(s, b, x) == c1);
    assert(sell_quote_sell(s, b, x) == c2 - s);
    assert(c2 * c1 >= k);
}

/// Facts about a buy quote: the amounts fit, the buyer receives at least the
/// amount asked for and less than the market holds, and the product of the
/// market's holdings does not decrease.
pub proof fn law_buy_quote(s: u128, b: u128, y: u128)
    requires
        buy_quote_defined(s, b, y),
    ensures
        y <= buy_quote_buy(s, b, y) < b,
        0 <= buy_quote_sell(s, b, y),
        s + buy_quote_sell(s, b, y) == ceil_div(s * b, b - y),
        s + buy_quote_sell(s, b, y) > 0,
        (s + buy_quote_sell(s, b, y)) * (b - buy_quote_buy(s, b, y)) >= s * b,
{
    let k = (s * b) as int;
    let d = (b - y) as int;
    lemma_ceil_div_bounds(k, d);
    let c = ceil_div(k, d);
    // c >= s since s * d <= s * b = k
    assert(s * d <= k) by (nonlinear_arith)
        requires
            d <= b,
            k == s * b,
            s >= 0,
    ;
    if c < s {
        lemma_ceil_div_le(k, d, c);
        assert(c * d < s * d) by (nonlinear_arith)
            requires
                c < s,
                d > 0,
        ;
        assert(false);
    }
    assert(c > 0);
    lemma_ceil_div_bounds(k, c);
    let c2 = ceil_div(k, c);
    // c2 <= d because k <= d * c
    assert(k <= d * c) by (nonlinear_arith)
        requires
            c * d >= k,
    ;
    lemma_ceil_div_le(k, c, d);
    assert(c2 > 0);
    assert(buy_quote_sell(s, b, y) == c - s);
    assert(buy_quote_buy(s, b, y) == b - c2);
    assert(c * c2 >= k) by (nonlinear_arith)
        requires
            c2 * c >= k,
    ;
}

/// Computes a sell quote: `(amount bought, amount charged)` for selling `x`.
pub fn quote_sell(s: u128, b: u128, x: u128) -> (r: (u128, u128))
    requires
        sell_quote_defined(s, b, x),
    ensures
        r.0 == sell_quote_buy(s, b, x),
        r.1 == sell_quote_sell(s, b, x),
{
    proof {
        law_sell_quote(s, b, x);
        lemma_ceil_div_bounds((s * b) as int, (s + x) as int);
    }
    let k = s * b;
    let buy_amt = b - roundup_div(k, s + x);
    let sell_amt = roundup_div(k, b - buy_amt) - s;
    (buy_amt, sell_amt)
}

/// Computes a buy quote: `(amount delivered, amount charged)` for buying `y`.
pub fn quote_buy(s: u128, b: u128, y: u128) -> (r: (u128, u128))
    requires
        buy_quote_defined(s, b, y),
    ensures
        r.0 == buy_quote_buy(s, b, y),
        r.1 == buy_quote_sell(s, b, y),
{
    proof {
        law_buy_quote(s, b, y);
        lemma_ceil_div_bounds((s * b) as int, (b - y) as int);
    }
    let k = s * b;
    let sell_amt = roundup_div(k, b - y) - s;
    let buy_amt = b - roundup_div(k, s + sell_amt);
    (buy_amt, sell_amt)
}

} // verus!
