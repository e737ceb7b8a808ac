//! The filled width of a bar, computed as single-precision floating point
//! computes it: `((w as f32) * (count as f32 / total as f32).clamp(0.0, 1.0))
//! as i32`, at least 0.
//!
//! Every `f32` value used here is zero, infinite, not a number, or a positive
//! normal number, which is a 24-bit significand times a power of two. An
//! operation rounds its exact result to the nearest such number, ties to the
//! even significand. The functions below state that rounding on integers.
use vstd::prelude::*;

verus! {

/// `2` to the power `k`.
pub open spec fn pow2(k: nat) -> nat
    decreases k,
{
    if k == 0 {
        1
    } else {
        2 * pow2((k - 1) as nat)
    }
}

/// `a / d` rounded to the nearest integer, ties to the even one.
pub open spec fn rne_div(a: nat, d: nat) -> nat {
    let q = a / d;
    let r = a % d;
    if 2 * r > d {
        q + 1
    } else if 2 * r < d {
        q
    } else if q % 2 == 0 {
        q
    } else {
        q + 1
    }
}

/// The least `k >= j` with `a < 2^k * 2^24` (at most 96): `2^k` is the
/// spacing of 24-bit significands around `a`.
pub open spec fn ulp_exp(a: nat, j: nat) -> nat
    decreases 96 - j,
{
    if j >= 96 || a < pow2(j) * 0x100_0000 {
        j
    } else {
        ulp_exp(a, j + 1)
    }
}

/// The number with a 24-bit significand nearest to the integer `a`.
pub open spec fn round24(a: nat) -> nat {
    let u = pow2(ulp_exp(a, 0));
    rne_div(a, u) * u
}

/// The least `k >= j` with `c * 2^k >= 2^23 * t` (at most 96): for `c < t`,
/// starting at 24, `c / t` is `rne_div(c * 2^k, t)` units of `2^-k` once
/// rounded to a 24-bit significand.
pub open spec fn share_exp(c: nat, t: nat, j: nat) -> nat
    decreases 96 - j,
{
    if j >= 96 || c * pow2(j) >= 0x80_0000 * t {
        j
    } else {
        share_exp(c, t, j + 1)
    }
}

/// The filled width of a bar `w` wide showing `count` out of `total`:
/// `count` and `total` become `f32` (`c`, `t`); their quotient is rounded and
/// clamped to `[0, 1]` (`t == 0` gives infinity, clamped to 1, or not a
/// number when `c == 0`, which ends as 0); `w` becomes `f32` (`W`), is
/// multiplied by the share and rounded; the product is cut toward zero to an
/// `i32` (saturating), and a negative width gives 0.
pub open spec fn bar_fill(w: int, count: int, total: int) -> int {
    if w <= 0 || count < 0 || total < 0 {
        0
    } else {
        let ww = round24(w as nat);
        let c = round24(count as nat);
        let t = round24(total as nat);
        if t == 0 {
            if c > 0 {
                if ww <= i32::MAX { ww as int } else { i32::MAX as int }
            } else {
                0
            }
        } else if c == 0 {
            0
        } else if c >= t {
            if ww <= i32::MAX { ww as int } else { i32::MAX as int }
        } else {
            let k = share_exp(c, t, 24);
            let m = rne_div(c * pow2(k), t);
            let p = round24(ww * m) / pow2(k);
            if p <= i32::MAX { p as int } else { i32::MAX as int }
        }
    }
}

// ---------------------------------------------------------------------------
// Facts about the rounding
// ---------------------------------------------------------------------------

proof fn lemma_rne_div_bound(a: nat, d: nat)
    requires
        d > 0,
    ensures
        rne_div(a, d) * d <= a + d,
        rne_div(a, d) <= a / d + 1,
{
    let q = a / d;
    assert(q * d <= a) by (nonlinear_arith)
        requires
            d > 0,
            q == a / d,
    ;
    assert((q + 1) * d == q * d + d) by (nonlinear_arith);
}

proof fn lemma_pow2_pos(k: nat)
    ensures
        pow2(k) >= 1,
    decreases k,
{
    if k > 0 {
        lemma_pow2_pos((k - 1) as nat);
    }
}

proof fn lemma_ulp_exp(a: nat, j: nat)
    requires
        j == 0 || a >= pow2((j - 1) as nat) * 0x100_0000,
    ensures
        j <= ulp_exp(a, j),
        ulp_exp(a, j) == 0 || a >= pow2((ulp_exp(a, j) - 1) as nat) * 0x100_0000,
    decreases 96 - j,
{
    if !(j >= 96 || a < pow2(j) * 0x100_0000) {
        lemma_ulp_exp(a, j + 1);
    }
}

/// Rounding an integer to 24 bits at most doubles it.
pub proof fn lemma_round24_le(a: nat)
    ensures
        round24(a) <= 2 * a,
{
    let k = ulp_exp(a, 0);
    let u = pow2(k);
    lemma_ulp_exp(a, 0);
    lemma_pow2_pos(k);
    lemma_rne_div_bound(a, u);
    if k == 0 {
        assert(u == 1);
        assert(a / 1 == a && a % 1 == 0);
        assert(rne_div(a, 1) == a);
        assert(round24(a) == rne_div(a, 1) * 1);
        let r1 = rne_div(a, 1);
        assert(r1 * 1 == r1) by (nonlinear_arith);
        assert(round24(a) == a);
    } else {
        assert(pow2(k) == 2 * pow2((k - 1) as nat));
        assert(u <= a) by (nonlinear_arith)
            requires
                a >= pow2((k - 1) as nat) * 0x100_0000,
                u == 2 * pow2((k - 1) as nat),
                pow2((k - 1) as nat) >= 0,
        ;
    }
}

/// The filled width is at most four times the bar's width: rounding the
/// width, and rounding the product with a share of at most one, each at most
/// double a value.
pub proof fn lemma_bar_fill_le(w: int, count: int, total: int)
    requires
        w >= 0,
    ensures
        0 <= bar_fill(w, count, total) <= 4 * w,
{
    if w > 0 && count >= 0 && total >= 0 {
        let ww = round24(w as nat);
        let c = round24(count as nat);
        let t = round24(total as nat);
        lemma_round24_le(w as nat);
        if t != 0 && c != 0 && c < t {
            let k = share_exp(c, t, 24);
            let pk = pow2(k);
            lemma_pow2_pos(k);
            let m = rne_div(c * pk, t);
            lemma_rne_div_bound(c * pk, t);
            assert((c * pk) / t < pk) by (nonlinear_arith)
                requires
                    c < t,
                    t > 0,
                    pk >= 1,
            ;
            assert(m <= pk);
            lemma_round24_le(ww * m);
            assert(ww * m <= ww * pk) by (nonlinear_arith)
                requires
                    m <= pk,
            ;
            assert(round24(ww * m) / pk <= 2 * ww) by (nonlinear_arith)
                requires
                    round24(ww * m) <= 2 * (ww * m),
                    ww * m <= ww * pk,
                    pk >= 1,
            ;
        }
    }
}

proof fn lemma_pow2_add(i: nat, j: nat)
    ensures
        pow2(i + j) == pow2(i) * pow2(j),
    decreases j,
{
    if j == 0 {
        let p = pow2(i);
        assert(p * 1 == p) by (nonlinear_arith);
    } else {
        lemma_pow2_add(i, (j - 1) as nat);
        assert(pow2(j) == 2 * pow2((j - 1) as nat));
        assert(pow2(i + j) == 2 * pow2((i + j - 1) as nat));
        assert(pow2(i) * (2 * pow2((j - 1) as nat)) == 2 * (pow2(i) * pow2((j - 1) as nat)))
            by (nonlinear_arith);
    }
}

proof fn lemma_ulp_exp_le(a: nat, i: nat, j: nat)
    requires
        i <= j <= 96,
        a < pow2(j) * 0x100_0000,
    ensures
        ulp_exp(a, i) <= j,
    decreases j - i,
{
    if i < j && !(a < pow2(i) * 0x100_0000) {
        lemma_ulp_exp_le(a, i + 1, j);
    }
}

/// Rounding to the nearest integer stays at or below an integer bound.
proof fn lemma_rne_div_le(a: nat, d: nat, n: nat)
    requires
        d > 0,
        a <= n * d,
    ensures
        rne_div(a, d) <= n,
{
    let q = a / d;
    let r = a % d;
    assert(a == q * d + r) by (nonlinear_arith)
        requires
            d > 0,
            q == a / d,
            r == a % d,
    ;
    assert(q <= n) by (nonlinear_arith)
        requires
            a == q * d + r,
            r >= 0,
            a <= n * d,
            d > 0,
    ;
    if q == n {
        assert(r == 0) by (nonlinear_arith)
            requires
                a == q * d + r,
                a <= n * d,
                q == n,
                r >= 0,
        ;
    }
}

/// Rounding to 24 bits stays at or below a multiple of `2^j` that has a
/// 24-bit significand.
proof fn lemma_round24_le_multiple(a: nat, n: nat, j: nat)
    requires
        j <= 96,
        a <= n * pow2(j),
        a < pow2(j) * 0x100_0000,
    ensures
        round24(a) <= n * pow2(j),
{
    let e = ulp_exp(a, 0);
    lemma_ulp_exp_le(a, 0, j);
    let u = pow2(e);
    lemma_pow2_pos(e);
    lemma_pow2_add(e, (j - e) as nat);
    let f = pow2((j - e) as nat);
    assert(n * pow2(j) == (n * f) * u) by (nonlinear_arith)
        requires
            pow2(j) == u * f,
    ;
    lemma_rne_div_le(a, u, n * f);
    assert(rne_div(a, u) * u <= (n * f) * u) by (nonlinear_arith)
        requires
            rne_div(a, u) <= n * f,
            u >= 1,
    ;
}

/// Law: on a bar narrower than `2^24` pixels the filled width never exceeds
/// the bar's width.
pub proof fn law_bar_fill_within(w: int, count: int, total: int)
    requires
        0 <= w < 0x100_0000,
    ensures
        0 <= bar_fill(w, count, total) <= w,
{
    if w > 0 && count >= 0 && total >= 0 {
        assert(pow2(0) == 1);
        assert(ulp_exp(w as nat, 0) == 0);
        assert(w as nat / 1 == w && w as nat % 1 == 0);
        let r1 = rne_div(w as nat, 1);
        assert(r1 * 1 == r1) by (nonlinear_arith);
        assert(round24(w as nat) == w);
        let c = round24(count as nat);
        let t = round24(total as nat);
        if t != 0 && c != 0 && c < t {
            let k = share_exp(c, t, 24);
            let pk = pow2(k);
            lemma_pow2_pos(k);
            assert(k <= 96) by {
                lemma_share_exp_le(c, t, 24);
            }
            let m = rne_div(c * pk, t);
            lemma_rne_div_bound(c * pk, t);
            assert((c * pk) / t < pk) by (nonlinear_arith)
                requires
                    c < t,
                    t > 0,
                    pk >= 1,
            ;
            assert((w as nat) * m <= (w as nat) * pk) by (nonlinear_arith)
                requires
                    m <= pk,
            ;
            let wn = w as nat;
            assert(wn * pk < pk * 0x100_0000) by (nonlinear_arith)
                requires
                    wn < 0x100_0000,
                    pk >= 1,
            ;
            lemma_round24_le_multiple((w as nat) * m, w as nat, k);
            assert(round24((w as nat) * m) / pk <= w) by (nonlinear_arith)
                requires
                    round24((w as nat) * m) <= w * pk,
                    pk >= 1,
            ;
        }
    }
}

proof fn lemma_share_exp_le(c: nat, t: nat, j: nat)
    requires
        j <= 96,
    ensures
        j <= share_exp(c, t, j) <= 96,
    decreases 96 - j,
{
    if !(j >= 96 || c * pow2(j) >= 0x80_0000 * t) {
        lemma_share_exp_le(c, t, j + 1);
    }
}

// ---------------------------------------------------------------------------
// Machine integers
// ---------------------------------------------------------------------------

fn rne_div_exec(a: u128, d: u128) -> (r: u128)
    requires
        d > 0,
        a < 0x1_0000_0000_0000_0000_0000_0000_0000,
    ensures
        r == rne_div(a as nat, d as nat),
{
    let q = a / d;
    let r = a % d;
    if r > d - r {
        q + 1
    } else if r < d - r {
        q
    } else if q % 2 == 0 {
        q
    } else {
        q + 1
    }
}

/// [`round24`] of `a`.
fn round24_exec(a: u128) -> (r: u128)
    requires
        a < 0x1_0000_0000_0000_0000_0000_0000,
    ensures
        r == round24(a as nat),
        r <= 2 * a,
{
    let mut k: u64 = 0;
    let mut u: u128 = 1;
    while k < 96 && a >= u * 0x100_0000
        invariant
            a < 0x1_0000_0000_0000_0000_0000_0000,
            k <= 96,
            u == pow2(k as nat),
            u <= 0x1_0000_0000_0000_0000_0000_0000,
            ulp_exp(a as nat, 0) == ulp_exp(a as nat, k as nat),
        decreases 96 - k,
    {
        assert(u <= 0x1_0000_0000_0000_0000_0000);
        u = u * 2;
        k = k + 1;
    }
    proof {
        lemma_pow2_pos(k as nat);
        lemma_rne_div_bound(a as nat, u as nat);
        lemma_round24_le(a as nat);
    }
    let q = rne_div_exec(a, u);
    q * u
}

/// [`bar_fill`] in machine integers.
pub fn fill_width(w: i32, count: u32, total: u32) -> (r: i32)
    ensures
        r == bar_fill(w as int, count as int, total as int),
        0 <= r,
{
    if w <= 0 {
        return 0;
    }
    let ww = round24_exec(w as u128);
    let c = round24_exec(count as u128);
    let t = round24_exec(total as u128);
    if t == 0 {
        if c > 0 {
            return if ww <= 0x7fff_ffff {
                ww as i32
            } else {
                0x7fff_ffff
            };
        } else {
            return 0;
        }
    }
    if c == 0 {
        return 0;
    }
    if c >= t {
        return if ww <= 0x7fff_ffff {
            ww as i32
        } else {
            0x7fff_ffff
        };
    }
    // c / t rounded: m units of 2^-k
    let mut k: u64 = 24;
    let mut u: u128 = 0x100_0000;
    proof {
        reveal_with_fuel(pow2, 25);
    }
    while k < 96 && c * u < 0x80_0000 * t
        invariant
            24 <= k <= 96,
            1 <= c < t <= 0x2_0000_0000,
            u == pow2(k as nat),
            1 <= u <= 0x200_0000_0000_0000,
            c * u <= 0x2_0000_0000 * 0x200_0000_0000_0000,
            share_exp(c as nat, t as nat, 24) == share_exp(c as nat, t as nat, k as nat),
        decreases 96 - k,
    {
        assert(u < 0x100_0000_0000_0000) by (nonlinear_arith)
            requires
                c >= 1,
                c * u < 0x80_0000 * t,
                t <= 0x2_0000_0000,
                u >= 1,
        ;
        u = u * 2;
        k = k + 1;
        assert(c * u <= 0x2_0000_0000 * 0x200_0000_0000_0000) by (nonlinear_arith)
            requires
                c <= 0x2_0000_0000,
                u <= 0x200_0000_0000_0000,
        ;
    }
    proof {
        lemma_rne_div_bound((c * u) as nat, t as nat);
        assert((c * u) / (t as int) <= u) by (nonlinear_arith)
            requires
                c < t,
                t > 0,
                u >= 1,
        ;
        assert(ww <= 0x1_0000_0000);
    }
    let m = rne_div_exec(c * u, t);
    proof {
        assert(ww * m <= 0x1_0000_0000 * (0x200_0000_0000_0000 + 1)) by (nonlinear_arith)
            requires
                ww <= 0x1_0000_0000,
                m <= 0x200_0000_0000_0000 + 1,
        ;
    }
    let a = round24_exec(ww * m);
    let p = a / u;
    if p <= 0x7fff_ffff {
        p as i32
    } else {
        0x7fff_ffff
    }
}

/// Law: a count of zero leaves the bar empty.
pub proof fn law_bar_fill_zero_count(w: int, total: int)
    ensures
        bar_fill(w, 0, total) == 0,
{
    assert(round24(0) == 0) by {
        assert(pow2(0) == 1);
        assert(ulp_exp(0, 0) == 0);
        assert(rne_div(0, 1) == 0);
        assert(round24(0) == rne_div(0, 1) * 1);
        let r0 = rne_div(0, 1);
        assert(r0 * 1 == r0) by (nonlinear_arith);
    }
}

/// Law: a count equal to the total fills the whole bar, for a bar narrower
/// than `2^24` pixels (wider widths are first rounded to 24 bits).
pub proof fn law_bar_fill_full(w: int, total: int)
    requires
        0 < w < 0x100_0000,
        0 < total,
    ensures
        bar_fill(w, total, total) == w,
{
    assert(pow2(0) == 1);
    assert(ulp_exp(w as nat, 0) == 0);
    assert(round24(w as nat) == w);
    let t = round24(total as nat);
    let k = ulp_exp(total as nat, 0);
    let u = pow2(k);
    lemma_pow2_pos(k);
    lemma_ulp_exp(total as nat, 0);
    if k == 0 {
        assert(total / 1 == total && total % 1 == 0);
        assert(rne_div(total as nat, 1) == total);
        assert(t == rne_div(total as nat, 1) * 1);
        let rt = rne_div(total as nat, 1);
        assert(rt * 1 == rt) by (nonlinear_arith);
    } else {
        assert(pow2(k) == 2 * pow2((k - 1) as nat));
        assert(total as nat / u >= 1) by (nonlinear_arith)
            requires
                total >= pow2((k - 1) as nat) * 0x100_0000,
                u == 2 * pow2((k - 1) as nat),
                u >= 1,
        ;
        assert(rne_div(total as nat, u) >= 1);
        assert(rne_div(total as nat, u) * u >= 1) by (nonlinear_arith)
            requires
                rne_div(total as nat, u) >= 1,
                u >= 1,
        ;
    }
    assert(t > 0);
}

} // verus!
