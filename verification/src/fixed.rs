use vstd::prelude::*;

verus! {

/// Fixed-point step: world coordinates, velocities and radii are held in
/// `i64` thousandths of a world unit, so `SCALE` stands for 1.0.
pub const SCALE: i64 = 1000;

/// Truncating (round-toward-zero) division for a positive divisor, the
/// way Rust's `/` computes it on machine integers. The spec-level `/`
/// of ghost code is Euclidean, so the negative case is spelled out.
pub open spec fn tdiv(a: int, b: int) -> int {
    if a >= 0 {
        a / b
    } else {
        -((-a) / b)
    }
}

/// Floor of the square root of a non-negative integer.
pub open spec fn sqrt_val(n: int) -> int
    decreases n,
{
    if n < 1 {
        0
    } else if (sqrt_val(n - 1) + 1) * (sqrt_val(n - 1) + 1) <= n {
        sqrt_val(n - 1) + 1
    } else {
        sqrt_val(n - 1)
    }
}

/// `sqrt_val(n)` really is the floor of the square root of `n`.
pub proof fn lemma_sqrt_val(n: int)
    requires
        n >= 0,
    ensures
        0 <= sqrt_val(n),
        sqrt_val(n) * sqrt_val(n) <= n,
        n < (sqrt_val(n) + 1) * (sqrt_val(n) + 1),
    decreases n,
{
    if n < 1 {
    } else {
        lemma_sqrt_val(n - 1);
        let r = sqrt_val(n - 1);
        if (r + 1) * (r + 1) <= n {
            assert(n <= (r + 1) * (r + 1)) by (nonlinear_arith)
                requires
                    n - 1 < (r + 1) * (r + 1),
            ;
            assert((r + 1 + 1) * (r + 1 + 1) > (r + 1) * (r + 1)) by (nonlinear_arith)
                requires
                    r >= 0,
            ;
        }
    }
}

/// The floor square root is the only `r >= 0` with `r^2 <= n < (r+1)^2`.
pub proof fn lemma_sqrt_unique(n: int, r: int)
    requires
        0 <= r,
        r * r <= n,
        n < (r + 1) * (r + 1),
    ensures
        r == sqrt_val(n),
{
    lemma_sqrt_val(n);
    let s = sqrt_val(n);
    if r < s {
        assert((r + 1) * (r + 1) <= s * s) by (nonlinear_arith)
            requires
                0 <= r,
                r + 1 <= s,
            ;
    } else if s < r {
        assert((s + 1) * (s + 1) <= r * r) by (nonlinear_arith)
            requires
                0 <= s,
                s + 1 <= r,
            ;
    }
}

/// Magnitude bound for truncating division: the quotient never exceeds
/// the dividend's magnitude when the divisor is at least one.
pub proof fn lemma_tdiv_magnitude(a: int, b: int)
    requires
        b >= 1,
    ensures
        a >= 0 ==> 0 <= tdiv(a, b) <= a,
        a < 0 ==> a <= tdiv(a, b) <= 0,
{
    if a >= 0 {
        lemma_div_le(a, b);
    } else {
        lemma_div_le(-a, b);
    }
}

/// For `0 <= a` and `b >= 1`, Euclidean division shrinks: `a / b <= a`.
proof fn lemma_div_le(a: int, b: int)
    requires
        a >= 0,
        b >= 1,
    ensures
        0 <= a / b <= a,
{
    vstd::arithmetic::div_mod::lemma_fundamental_div_mod(a, b);
    let q = a / b;
    let m = a % b;
    vstd::arithmetic::div_mod::lemma_mod_bound(a, b);
    assert(a == b * q + m);
    assert(q >= 0 && q <= b * q) by (nonlinear_arith)
        requires
            b >= 1,
            0 <= m < b,
            a == b * q + m,
            a >= 0,
    ;
}

/// Scaling by a fixed-point factor of magnitude at most `s` never grows
/// the magnitude: `|tdiv(a * n, s)| <= |a|`.
pub proof fn lemma_tdiv_scale_bound(a: int, n: int, s: int)
    requires
        s >= 1,
        -s <= n <= s,
    ensures
        -abs_i(a) <= tdiv(a * n, s) <= abs_i(a),
{
    let p = a * n;
    assert(-(abs_i(a) * s) <= p <= abs_i(a) * s) by (nonlinear_arith)
        requires
            -s <= n <= s,
            p == a * n,
            s >= 1,
    ;
    lemma_tdiv_magnitude(p, s);
    if p >= 0 {
        lemma_div_below(p, abs_i(a), s);
    } else {
        lemma_div_below(-p, abs_i(a), s);
    }
}

/// If `0 <= p <= m * s` with `s >= 1`, then `p / s <= m`.
proof fn lemma_div_below(p: int, m: int, s: int)
    requires
        s >= 1,
        0 <= p,
        p <= m * s,
    ensures
        p / s <= m,
{
    vstd::arithmetic::div_mod::lemma_fundamental_div_mod(p, s);
    vstd::arithmetic::div_mod::lemma_mod_bound(p, s);
    let q = p / s;
    let r = p % s;
    assert(p == s * q + r);
    assert(q <= m) by (nonlinear_arith)
        requires
            p == s * q + r,
            0 <= r < s,
            p <= m * s,
            s >= 1,
    ;
}

/// If `|p| <= m * s` with `s >= 1`, then `|tdiv(p, s)| <= m`.
pub proof fn lemma_tdiv_bound_by(p: int, m: int, s: int)
    requires
        s >= 1,
        -(m * s) <= p <= m * s,
    ensures
        -m <= tdiv(p, s) <= m,
{
    lemma_tdiv_magnitude(p, s);
    if p >= 0 {
        lemma_div_below(p, m, s);
    } else {
        lemma_div_below(-p, m, s);
    }
}

/// Absolute value on mathematical integers.
pub open spec fn abs_i(a: int) -> int {
    if a >= 0 {
        a
    } else {
        -a
    }
}

/// Floor square root of a `u128`, by bisection.
pub fn isqrt(n: u128) -> (r: u128)
    ensures
        r == sqrt_val(n as int),
        r * r <= n,
{
    let mut lo: u128 = 0;
    let mut hi: u128 = if n < 18446744073709551615 {
        n
    } else {
        18446744073709551615
    };
    proof {
        assert((n + 1) * (n + 1) > n) by (nonlinear_arith);
        assert(
            (18446744073709551615u128 + 1) * (18446744073709551615u128 + 1) > u128::MAX as int
        ) by (nonlinear_arith);
    }
    while lo < hi
        invariant
            lo <= hi,
            hi <= 18446744073709551615,
            lo * lo <= n,
            n < (hi + 1) * (hi + 1),
        decreases hi - lo,
    {
        let mid: u128 = lo + (hi - lo + 1) / 2;
        assert(lo < mid <= hi);
        assert(mid * mid <= 18446744073709551615u128 * 18446744073709551615u128)
            by (nonlinear_arith)
            requires
                mid <= 18446744073709551615u128,
        ;
        assert(18446744073709551615u128 * 18446744073709551615u128 <= u128::MAX as int)
            by (nonlinear_arith);
        let sq: u128 = mid * mid;
        if sq <= n {
            lo = mid;
        } else {
            hi = mid - 1;
        }
    }
    proof {
        lemma_sqrt_unique(n as int, lo as int);
    }
    lo
}

/// Truncating division of an `i128` by a positive divisor, carried out
/// on magnitudes so that the result matches `tdiv`.
pub fn div_trunc(a: i128, b: i128) -> (r: i128)
    requires
        b > 0,
        a > i128::MIN,
    ensures
        r == tdiv(a as int, b as int),
{
    if a >= 0 {
        let q: u128 = (a as u128) / (b as u128);
        proof {
            lemma_div_le(a as int, b as int);
        }
        q as i128
    } else {
        let q: u128 = ((-a) as u128) / (b as u128);
        proof {
            lemma_div_le(-a as int, b as int);
        }
        -(q as i128)
    }
}

} // verus!
