//! Binary rounding: the nearest number of a format to a fraction.
//!
//! A format holds magnitudes of `p` significant bits. A magnitude is written as
//! one integer: its lowest `p - 1` bits are a fraction, the bits above an
//! exponent. Every number of the format is a whole multiple of its smallest
//! positive number, so a value is given here by that multiple.
use vstd::prelude::*;

verus! {

/// The powers of two.
pub open spec fn two(e: nat) -> nat
    decreases e,
{
    if e == 0 {
        1
    } else {
        2 * two((e - 1) as nat)
    }
}

/// How many binary digits `n` has.
pub open spec fn bit_len(n: nat) -> nat
    decreases n,
{
    if n == 0 {
        0
    } else {
        1 + bit_len(n / 2)
    }
}

/// The whole number nearest to `n / d`, and of two the even one.
pub open spec fn half_even(n: nat, d: nat) -> nat {
    let q = n / d;
    let r = n % d;
    if 2 * r > d || (2 * r == d && q % 2 == 1) {
        q + 1
    } else {
        q
    }
}

/// How many binary digits of `n / d` are rounded away, so that `p` are left.
pub open spec fn excess(n: nat, d: nat, p: nat) -> nat {
    let l = bit_len(n / d);
    if l > p {
        (l - p) as nat
    } else {
        0
    }
}

/// The magnitude nearest to `n / d` with `p` significant bits and an exponent
/// as large as is needed.
pub open spec fn nearest(n: nat, d: nat, p: nat) -> nat {
    let k = excess(n, d, p);
    k * two((p - 1) as nat) + half_even(n, d * two(k))
}

/// The exponent of infinity.
pub open spec fn top(p: nat) -> nat {
    if p == 24 {
        255
    } else {
        2047
    }
}

/// The magnitude of infinity.
pub open spec fn infinite(p: nat) -> nat {
    top(p) * two((p - 1) as nat)
}

/// The magnitude nearest to `n / d`, which is infinity where that is too large.
pub open spec fn rounded(n: nat, d: nat, p: nat) -> nat {
    if nearest(n, d, p) < infinite(p) {
        nearest(n, d, p)
    } else {
        infinite(p)
    }
}

/// The value of a magnitude.
pub open spec fn units(m: nat, p: nat) -> nat {
    let one = two((p - 1) as nat);
    if m < one {
        m
    } else {
        (m % one + one) * two((m / one - 1) as nat)
    }
}

pub proof fn lemma_two_pos(e: nat)
    ensures
        two(e) > 0,
    decreases e,
{
    if e > 0 {
        lemma_two_pos((e - 1) as nat);
    }
}

pub proof fn lemma_two_adds(a: nat, b: nat)
    ensures
        two(a + b) == two(a) * two(b),
    decreases a,
{
    if a > 0 {
        lemma_two_adds((a - 1) as nat, b);
        let x = two((a - 1) as nat);
        let y = two(b);
        assert(2 * (x * y) == (2 * x) * y) by (nonlinear_arith);
    } else {
        assert(1 * two(b) == two(b)) by (nonlinear_arith);
    }
}

pub proof fn lemma_two_monotonic(a: nat, b: nat)
    requires
        a <= b,
    ensures
        two(a) <= two(b),
    decreases b,
{
    if a < b {
        lemma_two_monotonic(a, (b - 1) as nat);
        lemma_two_pos((b - 1) as nat);
    }
}

/// A larger magnitude has a larger value.
pub proof fn lemma_units_monotonic(a: nat, b: nat, p: nat)
    requires
        a <= b,
        p > 0,
    ensures
        units(a, p) <= units(b, p),
    decreases b,
{
    if a < b {
        let m = (b - 1) as nat;
        lemma_units_monotonic(a, m, p);
        let one = two((p - 1) as nat);
        lemma_two_pos((p - 1) as nat);
        if b == one {
            assert(m < one);
            assert(one % one == 0 && one / one == 1) by (nonlinear_arith)
                requires
                    one > 0,
            ;
            assert(two(0) == 1);
            assert((0 + one) * 1 == one) by (nonlinear_arith);
        } else if b > one {
            let q = m / one;
            let r = m % one;
            lemma_div_bounds(m, one);
            assert(q >= 1) by (nonlinear_arith)
                requires
                    m >= one,
                    m < (q + 1) * one,
                    one > 0,
            ;
            let t = two((q - 1) as nat);
            lemma_two_pos((q - 1) as nat);
            if r + 1 < one {
                assert(q * one <= b < (q + 1) * one) by (nonlinear_arith)
                    requires
                        b == m + 1,
                        r == m - q * one,
                        r + 1 < one,
                        r >= 0,
                ;
                lemma_quotient(b, one, q);
                assert((r + one) * t <= (r + 1 + one) * t) by (nonlinear_arith)
                    requires
                        t > 0,
                ;
            } else {
                assert((q + 1) * one <= b < (q + 1 + 1) * one) by (nonlinear_arith)
                    requires
                        b == m + 1,
                        r == m - q * one,
                        r + 1 == one,
                        one > 0,
                ;
                lemma_quotient(b, one, q + 1);
                assert(two(q) == 2 * t);
                assert((r + one) * t <= (0 + one) * (2 * t)) by (nonlinear_arith)
                    requires
                        r < one,
                        t > 0,
                ;
            }
        }
    }
}

pub proof fn lemma_two_values()
    ensures
        two(0) == 1,
        two(23) == 0x80_0000,
        two(24) == 0x100_0000,
        two(52) == 0x10_0000_0000_0000,
        two(53) == 0x20_0000_0000_0000,
        two(64) == 0x1_0000_0000_0000_0000,
        two(126) == 0x4000_0000_0000_0000_0000_0000_0000_0000,
        two(128) == 0x1_0000_0000_0000_0000_0000_0000_0000_0000,
{
    assert(two(8) == 0x100 && two(4) == 0x10) by {
        reveal_with_fuel(two, 9);
    }
    lemma_two_adds(8, 8);
    assert(two(16) == 0x1_0000) by (nonlinear_arith)
        requires
            two(16) == two(8) * two(8),
            two(8) == 0x100,
            two(8) == 0x100,
    ;
    lemma_two_adds(16, 8);
    assert(two(24) == 0x100_0000) by (nonlinear_arith)
        requires
            two(24) == two(16) * two(8),
            two(16) == 0x1_0000,
            two(8) == 0x100,
    ;
    lemma_two_adds(16, 16);
    assert(two(32) == 0x1_0000_0000) by (nonlinear_arith)
        requires
            two(32) == two(16) * two(16),
            two(16) == 0x1_0000,
            two(16) == 0x1_0000,
    ;
    lemma_two_adds(32, 16);
    assert(two(48) == 0x1_0000_0000_0000) by (nonlinear_arith)
        requires
            two(48) == two(32) * two(16),
            two(32) == 0x1_0000_0000,
            two(16) == 0x1_0000,
    ;
    lemma_two_adds(48, 4);
    assert(two(52) == 0x10_0000_0000_0000) by (nonlinear_arith)
        requires
            two(52) == two(48) * two(4),
            two(48) == 0x1_0000_0000_0000,
            two(4) == 0x10,
    ;
    lemma_two_adds(32, 32);
    assert(two(64) == 0x1_0000_0000_0000_0000) by (nonlinear_arith)
        requires
            two(64) == two(32) * two(32),
            two(32) == 0x1_0000_0000,
            two(32) == 0x1_0000_0000,
    ;
    assert(two(64) == 2 * two(63));
    lemma_two_adds(63, 63);
    assert(two(126) == 0x4000_0000_0000_0000_0000_0000_0000_0000) by (nonlinear_arith)
        requires
            two(126) == two(63) * two(63),
            two(63) == 0x8000_0000_0000_0000,
            two(63) == 0x8000_0000_0000_0000,
    ;
    lemma_two_adds(64, 64);
    assert(two(128) == 0x1_0000_0000_0000_0000_0000_0000_0000_0000) by (nonlinear_arith)
        requires
            two(128) == two(64) * two(64),
            two(64) == 0x1_0000_0000_0000_0000,
            two(64) == 0x1_0000_0000_0000_0000,
    ;
    assert(two(24) == 2 * two(23));
    assert(two(53) == 2 * two(52));
}

pub proof fn lemma_bit_len(n: nat, l: nat)
    requires
        l > 0,
        two((l - 1) as nat) <= n < two(l),
    ensures
        bit_len(n) == l,
    decreases l,
{
    if l == 1 {
        assert(two(0) == 1 && two(1) == 2) by {
            reveal_with_fuel(two, 2);
        }
        assert(bit_len(1) == 1) by {
            reveal_with_fuel(bit_len, 2);
        }
    } else {
        lemma_bit_len(n / 2, (l - 1) as nat);
        lemma_two_pos((l - 1) as nat);
    }
}

pub proof fn lemma_bit_len_bounds(n: nat)
    ensures
        n < two(bit_len(n)),
        n > 0 ==> bit_len(n) > 0 && two((bit_len(n) - 1) as nat) <= n,
    decreases n,
{
    if n > 0 {
        lemma_bit_len_bounds(n / 2);
        if n == 1 {
            reveal_with_fuel(bit_len, 2);
            reveal_with_fuel(two, 2);
        } else {
            assert(bit_len(n / 2) > 0);
        }
    }
}

/// A quotient by its bounds.
pub proof fn lemma_quotient(n: nat, d: nat, q: nat)
    requires
        d > 0,
        q * d <= n < (q + 1) * d,
    ensures
        n / d == q,
        n % d == n - q * d,
{
    let r = (n - q * d) as int;
    assert(r < d) by (nonlinear_arith)
        requires
            n < (q + 1) * d,
            r == n - q * d,
    ;
    assert(q * d == d * q) by (nonlinear_arith);
    vstd::arithmetic::div_mod::lemma_fundamental_div_mod_converse(n as int, d as int, q as int, r);
}

pub proof fn lemma_div_bounds(n: nat, d: nat)
    requires
        d > 0,
    ensures
        (n / d) * d <= n < (n / d + 1) * d,
        n % d == n - (n / d) * d,
{
    vstd::arithmetic::div_mod::lemma_fundamental_div_mod(n as int, d as int);
    assert(d * (n / d) == (n / d) * d) by (nonlinear_arith);
    let q = n / d;
    assert((q + 1) * d == q * d + d) by (nonlinear_arith);
}

/// Equal fractions have the same quotient and are rounded alike.
pub proof fn lemma_same_fraction(n1: nat, d1: nat, n2: nat, d2: nat)
    requires
        d1 > 0,
        d2 > 0,
        n1 * d2 == n2 * d1,
    ensures
        n1 / d1 == n2 / d2,
        half_even(n1, d1) == half_even(n2, d2),
{
    let q = n1 / d1;
    let r1 = n1 % d1;
    lemma_div_bounds(n1, d1);
    assert(q * d2 <= n2) by (nonlinear_arith)
        requires
            q * d1 <= n1,
            n1 * d2 == n2 * d1,
            d1 > 0,
            d2 > 0,
    ;
    assert(n2 < (q + 1) * d2) by (nonlinear_arith)
        requires
            n1 < (q + 1) * d1,
            n1 * d2 == n2 * d1,
            d1 > 0,
            d2 > 0,
    ;
    lemma_quotient(n2, d2, q);
    let r2 = n2 % d2;
    assert(r1 * d2 == r2 * d1) by (nonlinear_arith)
        requires
            r1 == n1 - q * d1,
            r2 == n2 - q * d2,
            n1 * d2 == n2 * d1,
    ;
    assert(2 * r1 > d1 <==> 2 * r2 > d2) by (nonlinear_arith)
        requires
            r1 * d2 == r2 * d1,
            d1 > 0,
            d2 > 0,
    ;
    assert(2 * r1 == d1 <==> 2 * r2 == d2) by (nonlinear_arith)
        requires
            r1 * d2 == r2 * d1,
            d1 > 0,
            d2 > 0,
    ;
}

/// Rounding looks at a fraction, not at how it is written.
pub proof fn lemma_nearest_fraction(n1: nat, d1: nat, n2: nat, d2: nat, p: nat)
    requires
        d1 > 0,
        d2 > 0,
        n1 * d2 == n2 * d1,
    ensures
        nearest(n1, d1, p) == nearest(n2, d2, p),
        rounded(n1, d1, p) == rounded(n2, d2, p),
{
    lemma_same_fraction(n1, d1, n2, d2);
    let t = two(excess(n1, d1, p));
    lemma_two_pos(excess(n1, d1, p));
    assert(d1 * t > 0 && d2 * t > 0) by (nonlinear_arith)
        requires
            d1 > 0,
            d2 > 0,
            t > 0,
    ;
    assert(n1 * (d2 * t) == n2 * (d1 * t)) by (nonlinear_arith)
        requires
            n1 * d2 == n2 * d1,
    ;
    lemma_same_fraction(n1, d1 * t, n2, d2 * t);
}

/// What `s` times a power of two is as a fraction.
pub open spec fn scaled(s: nat, e: int) -> (nat, nat) {
    if e >= 0 {
        (s * two(e as nat), 1)
    } else {
        (s, two((-e) as nat))
    }
}

pub fn exec_two(t: u32) -> (r: u128)
    requires
        t <= 126,
    ensures
        r == two(t as nat),
        r > 0,
    decreases t,
{
    proof {
        lemma_two_pos(t as nat);
        lemma_two_monotonic(t as nat, 126);
        lemma_two_values();
    }
    if t == 0 {
        1
    } else {
        2 * exec_two(t - 1)
    }
}

pub fn exec_bit_len(s: u128) -> (l: u32)
    ensures
        l == bit_len(s as nat),
        l <= 128,
    decreases s,
{
    proof {
        lemma_bit_len_bounds(s as nat);
        if bit_len(s as nat) > 128 {
            lemma_two_monotonic(128, (bit_len(s as nat) - 1) as nat);
            lemma_two_values();
        }
    }
    if s == 0 {
        0
    } else {
        exec_bit_len(s / 2) + 1
    }
}

pub fn exec_one(p: u32) -> (r: u64)
    requires
        p == 24 || p == 53,
    ensures
        r == two((p - 1) as nat),
        r > 0,
{
    proof {
        lemma_two_values();
    }
    if p == 24 {
        0x80_0000
    } else {
        0x10_0000_0000_0000
    }
}

pub fn exec_infinite(p: u32) -> (r: u64)
    requires
        p == 24 || p == 53,
    ensures
        r == infinite(p as nat),
{
    proof {
        lemma_two_values();
    }
    if p == 24 {
        0x7f80_0000
    } else {
        0x7ff0_0000_0000_0000
    }
}

pub proof fn lemma_excess_scaled(s: nat, e: int, p: nat)
    requires
        p > 0,
    ensures
        excess(scaled(s, e).0, scaled(s, e).1, p) == (if bit_len(s) + e > p && s > 0 {
            bit_len(s) + e - p
        } else {
            0
        }),
{
    let l = bit_len(s);
    lemma_bit_len_bounds(s);
    if e >= 0 {
        let t = two(e as nat);
        lemma_two_pos(e as nat);
        let n = s * t;
        assert(n / 1 == n);
        if s > 0 {
            lemma_two_adds((l - 1) as nat, e as nat);
            lemma_two_adds(l, e as nat);
            assert(two((l - 1) as nat) * t <= n) by (nonlinear_arith)
                requires
                    two((l - 1) as nat) <= s,
                    n == s * t,
            ;
            assert(n < two(l) * t) by (nonlinear_arith)
                requires
                    s < two(l),
                    n == s * t,
                    t > 0,
            ;
            lemma_bit_len(n, (l + e) as nat);
        } else {
            assert(n == 0) by (nonlinear_arith)
                requires
                    s == 0,
                    n == s * t,
            ;
        }
    } else {
        let x = (-e) as nat;
        let t = two(x);
        lemma_two_pos(x);
        let q = s / t;
        lemma_div_bounds(s, t);
        if s > 0 && l > x {
            lemma_two_adds((l - 1 - x) as nat, x);
            lemma_two_adds((l - x) as nat, x);
            assert(two((l - 1 - x) as nat) <= q) by (nonlinear_arith)
                requires
                    two((l - 1 - x) as nat) * t <= s,
                    s < (q + 1) * t,
                    t > 0,
            ;
            assert(q < two((l - x) as nat)) by (nonlinear_arith)
                requires
                    s < two((l - x) as nat) * t,
                    q * t <= s,
                    t > 0,
            ;
            lemma_bit_len(q, (l - x) as nat);
        } else {
            if s > 0 {
                lemma_two_monotonic(l, x);
            }
            assert(q == 0) by (nonlinear_arith)
                requires
                    s < t,
                    q * t <= s,
                    t > 0,
            ;
        }
    }
}

/// Rounding away `k` digits of `s` times a power of two is rounding away digits
/// of `s`.
pub proof fn lemma_half_even_scaled(s: nat, e: int, k: nat)
    ensures
        half_even(scaled(s, e).0, scaled(s, e).1 * two(k)) == (if k <= e {
            s * two((e - k) as nat)
        } else {
            half_even(s, two((k - e) as nat))
        }),
{
    let n = scaled(s, e).0;
    let d = scaled(s, e).1;
    let y = two(k);
    lemma_two_pos(k);
    if k <= e {
        let x = two((e - k) as nat);
        let c = s * x;
        lemma_two_adds((e - k) as nat, k);
        assert(n == c * y) by (nonlinear_arith)
            requires
                n == s * two(e as nat),
                two(e as nat) == x * y,
                c == s * x,
        ;
        assert(d * y == y) by (nonlinear_arith)
            requires
                d == 1,
        ;
        assert(c * y < (c + 1) * y) by (nonlinear_arith)
            requires
                y > 0,
        ;
        lemma_quotient(n, y, c);
    } else {
        let t = (k - e) as nat;
        let x = two(t);
        lemma_two_pos(t);
        if e >= 0 {
            let g = two(e as nat);
            lemma_two_adds(t, e as nat);
            assert(d * y == y) by (nonlinear_arith)
                requires
                    d == 1,
            ;
            assert(n * x == s * y) by (nonlinear_arith)
                requires
                    n == s * g,
                    y == x * g,
            ;
            lemma_same_fraction(n, y, s, x);
        } else {
            lemma_two_adds(k, (-e) as nat);
            assert(d * y == x) by (nonlinear_arith)
                requires
                    x == y * d,
            ;
        }
    }
}

/// `s` without its lowest `t` binary digits, rounded.
fn round_shift(s: u128, t: u32) -> (q: u128)
    requires
        s < 0x4000_0000_0000_0000_0000_0000_0000_0000,
    ensures
        q == half_even(s as nat, two(t as nat)),
        bit_len(s as nat) > t ==> q <= two((bit_len(s as nat) - t) as nat),
        bit_len(s as nat) <= t ==> q <= 1,
{
    proof {
        lemma_two_values();
        lemma_bit_len_bounds(s as nat);
    }
    let ghost len = bit_len(s as nat);
    if t > 126 {
        proof {
            lemma_two_monotonic(127, t as nat);
            assert(two(127) == 2 * two(126));
            let x = two(t as nat);
            assert(0 * x == 0) by (nonlinear_arith);
            assert(1 * x == x) by (nonlinear_arith);
            lemma_quotient(s as nat, x, 0);
            if len > t {
                lemma_two_pos((len - t) as nat);
            }
        }
        return 0;
    }
    let x: u128 = exec_two(t);
    let low: u128 = s % x;
    let high: u128 = s / x;
    proof {
        lemma_div_bounds(s as nat, x as nat);
        if len > t {
            lemma_two_adds((len - t) as nat, t as nat);
            assert(high < two((len - t) as nat)) by (nonlinear_arith)
                requires
                    s < two((len - t) as nat) * x,
                    high * x <= s,
                    x > 0,
            ;
        } else {
            lemma_two_monotonic(len, t as nat);
            assert(high == 0) by (nonlinear_arith)
                requires
                    s < x,
                    high * x <= s,
                    x > 0,
            ;
        }
    }
    if low > x - low || (low == x - low && high % 2 == 1) {
        high + 1
    } else {
        high
    }
}

/// The rounded magnitude of `s` times two to the power `e`.
pub fn pack(s: u128, e: i32, p: u32) -> (m: u64)
    requires
        p == 24 || p == 53,
        s < 0x4000_0000_0000_0000_0000_0000_0000_0000,
        -4000 <= e <= 4000,
    ensures
        m == rounded(scaled(s as nat, e as int).0, scaled(s as nat, e as int).1, p as nat),
{
    let len: i32 = exec_bit_len(s) as i32;
    let k: i32 = if s > 0 && len + e > p as i32 {
        len + e - p as i32
    } else {
        0
    };
    let ghost n = scaled(s as nat, e as int).0;
    let ghost d = scaled(s as nat, e as int).1;
    proof {
        lemma_excess_scaled(s as nat, e as int, p as nat);
        lemma_half_even_scaled(s as nat, e as int, k as nat);
        lemma_bit_len_bounds(s as nat);
        lemma_two_values();
    }
    let limit: i32 = if p == 24 {
        255
    } else {
        2047
    };
    let top_magnitude: u64 = exec_infinite(p);
    let one: u64 = exec_one(p);
    if k >= limit {
        proof {
            assert(k * one >= limit * one) by (nonlinear_arith)
                requires
                    k >= limit,
                    one > 0,
            ;
        }
        return top_magnitude;
    }
    let q: u128;
    if k <= e {
        let shift: u32 = (e - k) as u32;
        if s == 0 {
            q = 0;
            proof {
                assert(0 * two(shift as nat) == 0) by (nonlinear_arith);
            }
        } else {
            proof {
                let x = two(shift as nat);
                lemma_two_pos(shift as nat);
                lemma_two_adds(len as nat, shift as nat);
                lemma_two_monotonic((len + shift) as nat, p as nat);
                assert(s * x < two(p as nat)) by (nonlinear_arith)
                    requires
                        s < two(len as nat),
                        two(len as nat) * x <= two(p as nat),
                        x > 0,
                ;
            }
            q = s * exec_two(shift);
        }
    } else {
        let t: u32 = (k - e) as u32;
        q = round_shift(s, t);
        proof {
            if len > t {
                lemma_two_monotonic((len - t) as nat, p as nat);
            }
        }
    }
    assert(q <= two(p as nat));
    proof {
        assert(k * one <= 2046 * 0x10_0000_0000_0000) by (nonlinear_arith)
            requires
                0 <= k <= 2046,
                0 < one <= 0x10_0000_0000_0000,
        ;
    }
    let m: u64 = k as u64 * one + q as u64;
    if m < top_magnitude {
        m
    } else {
        top_magnitude
    }
}

} // verus!
