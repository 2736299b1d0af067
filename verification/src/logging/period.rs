//! The period of the generator behind sampling: it comes back to a state after 2^64
//! draws and not before.

use vstd::arithmetic::{div_mod, power2};
use vstd::prelude::*;

use crate::logging::sampling::{self, INCREMENT, MULTIPLIER};

verus! {

/// The state of the generator after some draws.
pub open spec fn state_after(state: u64, draws: nat) -> u64
    decreases draws,
{
    if draws == 0 {
        state
    } else {
        sampling::next_state(state_after(state, (draws - 1) as nat))
    }
}

/// The sum of the powers of the multiplier with exponents below `n`.
spec fn geometric(n: nat) -> nat
    decreases n,
{
    if n == 0 {
        0
    } else {
        MULTIPLIER as nat * geometric((n - 1) as nat) + 1
    }
}

/// How far the first draw moves a state, before it wraps.
spec fn stride(state: u64) -> int {
    (MULTIPLIER - 1) * state + INCREMENT
}

/// After some draws a state has moved by its stride, once for each term of the sum.
proof fn lemma_state_after(state: u64, n: nat)
    ensures
        state_after(state, n) == (state + geometric(n) * stride(state)) % 0x1_0000_0000_0000_0000,
    decreases n,
{
    let m = 0x1_0000_0000_0000_0000int;
    let s = state as int;
    let t = stride(state);
    let a = MULTIPLIER as int;
    if n == 0 {
        assert(geometric(0) * t == 0) by (nonlinear_arith)
            requires
                geometric(0) == 0,
        ;
        div_mod::lemma_small_mod(state as nat, m as nat);
    } else {
        let p = (n - 1) as nat;
        lemma_state_after(state, p);
        let g = geometric(p) as int;
        let x = s + g * t;
        let before = state_after(state, p) as int;
        assert(before == x % m);
        div_mod::lemma_mul_mod_noop_left(x, a, m);
        div_mod::lemma_add_mod_noop(before * a, INCREMENT as int, m);
        div_mod::lemma_add_mod_noop(x * a, INCREMENT as int, m);
        assert((before * a + INCREMENT) % m == (x * a + INCREMENT) % m);
        assert(x * a + INCREMENT == s + (a * g + 1) * t) by (nonlinear_arith)
            requires
                x == s + g * t,
                t == (a - 1) * s + INCREMENT,
        ;
        assert(geometric(n) == a * g + 1);
    }
}

/// The draws after some draws.
proof fn lemma_state_adds(state: u64, m: nat, n: nat)
    ensures
        state_after(state, m + n) == state_after(state_after(state, m), n),
    decreases n,
{
    if n > 0 {
        lemma_state_adds(state, m, (n - 1) as nat);
    }
}

/// A sum of `m + n` terms in two parts.
proof fn lemma_geometric_adds(m: nat, n: nat)
    ensures
        geometric(m + n) == geometric(m) + geometric(n) + (MULTIPLIER - 1) * geometric(m)
            * geometric(n),
    decreases n,
{
    let a = MULTIPLIER as int;
    let gm = geometric(m) as int;
    let gn = geometric(n) as int;
    if n == 0 {
        assert((a - 1) * gm * gn == 0) by (nonlinear_arith)
            requires
                gn == 0,
        ;
    } else {
        let p = (n - 1) as nat;
        lemma_geometric_adds(m, p);
        let gp = geometric(p) as int;
        assert(geometric(m + n) == a * geometric(m + p) + 1);
        assert(a * (gm + gp + (a - 1) * gm * gp) + 1 == gm + (a * gp + 1) + (a - 1) * gm * (a * gp
            + 1)) by (nonlinear_arith);
    }
}

/// The odd factor by which doubling the number of terms multiplies half the sum.
spec fn odd_factor(h: nat) -> int {
    1 + 2 * ((MULTIPLIER - 1) / 4) * geometric(h)
}

/// Twice as many terms: the sum doubles and is multiplied by an odd number.
proof fn lemma_geometric_doubles(h: nat)
    ensures
        geometric(2 * h) == 2 * (geometric(h) * odd_factor(h)),
        odd_factor(h) % 2 == 1,
        odd_factor(h) > 0,
{
    let g = geometric(h) as int;
    let q = (MULTIPLIER - 1) / 4;
    lemma_geometric_adds(h, h);
    assert(h + h == 2 * h);
    assert(g + g + (4 * q) * g * g == 2 * (g * (1 + 2 * q * g))) by (nonlinear_arith);
    assert(4 * q == MULTIPLIER - 1);
    assert(1 + 2 * q * g == 1 + 2 * (q * g)) by (nonlinear_arith);
    assert(q * g >= 0) by (nonlinear_arith)
        requires
            q >= 0,
            g >= 0,
    ;
}

/// An odd factor keeps the parity.
proof fn lemma_odd_times(a: int, g: int)
    requires
        a % 2 == 1,
    ensures
        (a * g) % 2 == g % 2,
{
    let q = a / 2;
    let w = q * g;
    assert(a * g == 2 * w + g) by (nonlinear_arith)
        requires
            a == 2 * q + 1,
            w == q * g,
    ;
}

/// The sum is even exactly where the number of its terms is.
proof fn lemma_geometric_parity(n: nat)
    ensures
        geometric(n) % 2 == n % 2,
    decreases n,
{
    if n > 0 {
        let p = (n - 1) as nat;
        lemma_geometric_parity(p);
        let g = geometric(p) as int;
        lemma_odd_times(MULTIPLIER as int, g);
        assert(geometric(n) == MULTIPLIER * g + 1);
    }
}

/// Dividing by a power of two, one factor at a time.
proof fn lemma_halved(y: int, k: nat)
    requires
        0 <= y,
        k > 0,
    ensures
        (2 * y) % (power2::pow2(k) as int) == 0 <==> y % (power2::pow2((k - 1) as nat) as int) == 0,
{
    power2::lemma_pow2_unfold(k);
    power2::lemma_pow2_pos((k - 1) as nat);
    div_mod::lemma_truncate_middle(y, 2, power2::pow2((k - 1) as nat) as int);
}

/// A multiple of a positive power of two is even.
proof fn lemma_even(x: int, k: nat)
    requires
        0 <= x,
        k > 0,
        x % (power2::pow2(k) as int) == 0,
    ensures
        x % 2 == 0,
{
    let p = power2::pow2((k - 1) as nat) as int;
    power2::lemma_pow2_unfold(k);
    power2::lemma_pow2_pos((k - 1) as nat);
    let q = x / (2 * p);
    div_mod::lemma_fundamental_div_mod(x, 2 * p);
    assert((2 * p) * q == 2 * (p * q)) by (nonlinear_arith);
}

/// An odd factor contributes nothing to a power of two that divides a product.
proof fn lemma_odd_cancels(x: int, u: int, k: nat)
    requires
        0 <= x,
        0 < u,
        u % 2 == 1,
        (x * u) % (power2::pow2(k) as int) == 0,
    ensures
        x % (power2::pow2(k) as int) == 0,
    decreases k,
{
    if k == 0 {
        power2::lemma2_to64();
    } else {
        assert(x * u >= 0) by (nonlinear_arith)
            requires
                x >= 0,
                u > 0,
        ;
        lemma_even(x * u, k);
        let y = x / 2;
        let v = u / 2;
        assert(x % 2 == 0) by {
            if x % 2 == 1 {
                assert((2 * y + 1) * (2 * v + 1) == 2 * (2 * (y * v) + y + v) + 1)
                    by (nonlinear_arith);
                assert(x == 2 * y + 1 && u == 2 * v + 1);
            }
        }
        assert((2 * y) * u == 2 * (y * u)) by (nonlinear_arith);
        assert(y * u >= 0) by (nonlinear_arith)
            requires
                y >= 0,
                u > 0,
        ;
        lemma_halved(y * u, k);
        lemma_odd_cancels(y, u, (k - 1) as nat);
        lemma_halved(y, k);
    }
}

/// A power of two that divides the sum divides the number of its terms.
proof fn lemma_divides(n: nat, k: nat)
    requires
        geometric(n) % power2::pow2(k) == 0,
    ensures
        n % power2::pow2(k) == 0,
    decreases k,
{
    if k == 0 {
        power2::lemma2_to64();
    } else {
        power2::lemma_pow2_pos(k);
        lemma_even(geometric(n) as int, k);
        lemma_geometric_parity(n);
        let h = n / 2;
        assert(n == 2 * h);
        lemma_geometric_doubles(h);
        let y = geometric(h) * odd_factor(h);
        assert(y >= 0) by (nonlinear_arith)
            requires
                y == geometric(h) * odd_factor(h),
                odd_factor(h) > 0,
        ;
        lemma_halved(y, k);
        lemma_odd_cancels(geometric(h) as int, odd_factor(h), (k - 1) as nat);
        lemma_divides(h, (k - 1) as nat);
        lemma_halved(h as int, k);
    }
}

/// A power of two divides the sum of as many terms.
proof fn lemma_full_sum(k: nat)
    ensures
        geometric(power2::pow2(k)) % power2::pow2(k) == 0,
    decreases k,
{
    if k == 0 {
        power2::lemma2_to64();
    } else {
        let p = (k - 1) as nat;
        let h = power2::pow2(p);
        lemma_full_sum(p);
        power2::lemma_pow2_unfold(k);
        power2::lemma_pow2_pos(p);
        lemma_geometric_doubles(h);
        let g = geometric(h) as int;
        let u = odd_factor(h);
        assert(g * u >= 0) by (nonlinear_arith)
            requires
                g >= 0,
                u > 0,
        ;
        div_mod::lemma_mul_mod_noop_left(g, u, h as int);
        assert(0 * u == 0) by (nonlinear_arith);
        assert((g * u) % (h as int) == 0);
        lemma_halved(g * u, k);
    }
}

/// The generator has its full period: within 2^64 draws no state comes up twice.
pub proof fn law_generator_full_period(state: u64, i: nat, j: nat)
    requires
        i < j,
        j - i < 0x1_0000_0000_0000_0000,
    ensures
        state_after(state, i) != state_after(state, j),
{
    let m = 0x1_0000_0000_0000_0000int;
    power2::lemma2_to64_rest();
    assert(power2::pow2(64) == m);
    let n = (j - i) as nat;
    let s = state_after(state, i);
    lemma_state_adds(state, i, n);
    lemma_state_after(s, n);
    lemma_stride(s);
    let t = stride(s);
    if state_after(s, n) == s {
        let x = geometric(n) * t;
        assert((s + x) % m == s);
        div_mod::lemma_fundamental_div_mod(s + x, m);
        let q = (s + x) / m;
        assert(x == m * q);
        div_mod::lemma_mod_multiples_basic(q, m);
        assert(m * q == q * m) by (nonlinear_arith);
        assert(x % m == 0);
        lemma_odd_cancels(geometric(n) as int, t, 64);
        lemma_divides(n, 64);
        div_mod::lemma_small_mod(n, m as nat);
    }
}

/// After 2^64 draws the generator is back where it was.
pub proof fn law_generator_returns(state: u64)
    ensures
        state_after(state, 0x1_0000_0000_0000_0000) == state,
{
    let m = 0x1_0000_0000_0000_0000int;
    power2::lemma2_to64_rest();
    lemma_full_sum(64);
    lemma_state_after(state, m as nat);
    let g = geometric(m as nat) as int;
    let u = stride(state);
    div_mod::lemma_mul_mod_noop_left(g, u, m);
    assert(0 * u == 0) by (nonlinear_arith);
    div_mod::lemma_add_mod_noop(state as int, g * u, m);
    div_mod::lemma_small_mod(state as nat, m as nat);
}

/// The stride is odd: the multiplier is odd and so is the increment.
proof fn lemma_stride(state: u64)
    ensures
        stride(state) % 2 == 1,
        stride(state) > 0,
{
    let q = (MULTIPLIER - 1) / 2;
    let s = state as int;
    assert((2 * q) * s == 2 * (q * s)) by (nonlinear_arith);
    assert(2 * q == MULTIPLIER - 1);
    assert(q * s >= 0) by (nonlinear_arith)
        requires
            q >= 0,
            s >= 0,
    ;
}

} // verus!
