//! Arithmetic on the magnitudes of a binary format.
use crate::rounding::{
    bit_len, excess, exec_bit_len, exec_one, exec_two, half_even, infinite, lemma_bit_len,
    lemma_bit_len_bounds, lemma_div_bounds, lemma_excess_scaled, lemma_half_even_scaled,
    lemma_nearest_fraction, lemma_quotient, lemma_same_fraction, lemma_two_adds,
    lemma_two_monotonic, lemma_two_pos, lemma_two_values, nearest, pack, rounded, scaled, top, two,
    units,
};
use vstd::prelude::*;

verus! {

/// How many halvings of one give the smallest positive number of a format.
pub open spec fn unit(p: nat) -> nat {
    if p == 24 {
        149
    } else {
        1074
    }
}

fn exec_unit(p: u32) -> (u: u32)
    requires
        p == 24 || p == 53,
    ensures
        u == unit(p as nat),
{
    if p == 24 {
        149
    } else {
        1074
    }
}

/// A larger magnitude is a larger value.
pub proof fn lemma_units_monotonic(a: nat, b: nat, p: nat)
    requires
        p > 0,
        a < b,
    ensures
        units(a, p) < units(b, p),
{
    let one = two((p - 1) as nat);
    lemma_two_pos((p - 1) as nat);
    let (ea, fa) = (a / one, a % one);
    let (eb, fb) = (b / one, b % one);
    lemma_div_bounds(a, one);
    lemma_div_bounds(b, one);
    assert(ea <= eb) by (nonlinear_arith)
        requires
            a < b,
            ea * one <= a,
            b < (eb + 1) * one,
            one > 0,
    ;
    if b < one {
        assert(units(a, p) == a);
    } else {
        assert(eb >= 1) by (nonlinear_arith)
            requires
                b >= one,
                b < (eb + 1) * one,
                one > 0,
        ;
        let tb = two((eb - 1) as nat);
        lemma_two_pos((eb - 1) as nat);
        if a < one {
            assert(one <= (fb + one) * tb) by (nonlinear_arith)
                requires
                    tb >= 1,
                    one > 0,
            ;
        } else {
            assert(ea >= 1) by (nonlinear_arith)
                requires
                    a >= one,
                    a < (ea + 1) * one,
                    one > 0,
            ;
            let ta = two((ea - 1) as nat);
            lemma_two_pos((ea - 1) as nat);
            if ea == eb {
                assert((fa + one) * ta < (fb + one) * ta) by (nonlinear_arith)
                    requires
                        fa < fb,
                        ta >= 1,
                ;
            } else {
                lemma_two_monotonic(ea, (eb - 1) as nat);
                assert(two(ea) == 2 * ta);
                assert((fa + one) * ta < (fb + one) * tb) by (nonlinear_arith)
                    requires
                        fa < one,
                        tb >= 2 * ta,
                        ta >= 1,
                        one > 0,
                ;
            }
        }
    }
}

/// The digits and the exponent of a finite magnitude.
pub fn unpack(m: u64, p: u32) -> (r: (u64, u32))
    requires
        p == 24 || p == 53,
        m < infinite(p as nat),
    ensures
        units(m as nat, p as nat) == r.0 * two(r.1 as nat),
        r.0 < two(p as nat),
        r.1 > 0 ==> r.0 >= two((p - 1) as nat),
        r.1 <= top(p as nat) - 2,
        m == r.1 * two((p - 1) as nat) + r.0,
        r.0 == 0 ==> m == 0,
{
    let one: u64 = exec_one(p);
    proof {
        lemma_two_values();
        assert(two(p as nat) == 2 * two((p - 1) as nat));
    }
    if m < one {
        proof {
            assert(two(0) == 1);
            assert(m * two(0) == m) by (nonlinear_arith)
                requires
                    two(0) == 1,
            ;
            assert(0 * two((p - 1) as nat) == 0) by (nonlinear_arith);
        }
        (m, 0)
    } else {
        let e: u64 = m / one;
        let f: u64 = m % one;
        proof {
            lemma_div_bounds(m as nat, one as nat);
            assert(1 <= e) by (nonlinear_arith)
                requires
                    m >= one,
                    m < (e + 1) * one,
                    one > 0,
            ;
            assert(e < top(p as nat)) by (nonlinear_arith)
                requires
                    m < top(p as nat) * one,
                    e * one <= m,
                    one > 0,
            ;
            assert((e - 1) * one + (f + one) == m) by (nonlinear_arith)
                requires
                    f == m - e * one,
            ;
        }
        (f + one, (e - 1) as u32)
    }
}

/// A number of `p` digits is not changed by adding less than half of its last
/// digit.
proof fn lemma_nearest_plus(q: nat, e: nat, x: nat, p: nat)
    requires
        p > 0,
        two((p - 1) as nat) <= q < two(p),
        2 * x < two(e),
    ensures
        nearest(q * two(e) + x, 1, p) == e * two((p - 1) as nat) + q,
{
    let t = two(e);
    let n = q * t + x;
    lemma_two_pos(e);
    lemma_two_adds((p - 1) as nat, e);
    lemma_two_adds(p, e);
    assert(two((p - 1) as nat) * t <= n && n < two(p) * t) by (nonlinear_arith)
        requires
            two((p - 1) as nat) <= q,
            q + 1 <= two(p),
            n == q * t + x,
            2 * x < t,
    ;
    lemma_bit_len(n, p + e);
    assert(n / 1 == n);
    assert((q + 1) * t == q * t + t) by (nonlinear_arith);
    assert(1 * t == t) by (nonlinear_arith);
    lemma_quotient(n, t, q);
}

/// A number of `p` digits is not changed by taking away less than a quarter of
/// its last digit.
proof fn lemma_nearest_minus(q: nat, e: nat, x: nat, p: nat)
    requires
        p > 1,
        e > 0,
        two((p - 1) as nat) <= q < two(p),
        0 < x,
        4 * x < two(e),
    ensures
        nearest((q * two(e) - x) as nat, 1, p) == e * two((p - 1) as nat) + q,
{
    let t = two(e);
    let one = two((p - 1) as nat);
    let n = (q * t - x) as nat;
    lemma_two_pos(e);
    lemma_two_pos((p - 1) as nat);
    assert(q * t >= t) by (nonlinear_arith)
        requires
            q >= 1,
    ;
    assert(n / 1 == n);
    if q > one {
        lemma_two_adds((p - 1) as nat, e);
        lemma_two_adds(p, e);
        assert(one * t <= n && n < two(p) * t) by (nonlinear_arith)
            requires
                one + 1 <= q,
                q + 1 <= two(p),
                n == q * t - x,
                0 < x < t,
        ;
        lemma_bit_len(n, p + e);
        let c = (q - 1) as nat;
        assert((c + 1) * t == c * t + t) by (nonlinear_arith);
        assert(c + 1 == q);
        assert(1 * t == t) by (nonlinear_arith);
        lemma_quotient(n, t, c);
    } else {
        let h = two((e - 1) as nat);
        lemma_two_pos((e - 1) as nat);
        assert(t == 2 * h);
        lemma_two_adds((p - 1) as nat, e);
        assert(two((p - 1) as nat + e) == 2 * two((p + e - 2) as nat));
        lemma_two_adds((p - 1) as nat, (e - 1) as nat);
        assert(one * h <= n) by (nonlinear_arith)
            requires
                n == one * t - x,
                t == 2 * h,
                x < h,
                one >= 1,
        ;
        assert((p - 1) as nat + (e - 1) as nat == p + e - 2);
        lemma_bit_len(n, (p + e - 1) as nat);
        let c = (2 * one - 1) as nat;
        assert(c * h + h == one * t) by (nonlinear_arith)
            requires
                c == 2 * one - 1,
                t == 2 * h,
        ;
        assert((c + 1) * h == c * h + h) by (nonlinear_arith);
        assert(1 * h == h) by (nonlinear_arith);
        lemma_quotient(n, h, c);
        assert(excess(n, 1, p) == e - 1);
        assert(half_even(n, h) == c + 1);
        assert((e - 1) * one + 2 * one == e * one + one) by (nonlinear_arith);
    }
}

/// A magnitude is the one nearest to its own value.
pub proof fn lemma_nearest_exact(q: nat, e: nat, p: nat)
    requires
        p > 0,
        q < two(p),
        e > 0 ==> q >= two((p - 1) as nat),
    ensures
        nearest(q * two(e), 1, p) == e * two((p - 1) as nat) + q,
{
    if e > 0 {
        lemma_two_pos(e);
        lemma_nearest_plus(q, e, 0, p);
    } else {
        assert(two(0) == 1);
        lemma_bit_len_bounds(q);
        if bit_len(q) > p {
            lemma_two_monotonic(p, (bit_len(q) - 1) as nat);
        }
        assert(q * two(0) == q) by (nonlinear_arith)
            requires
                two(0) == 1,
        ;
        assert(q / 1 == q);
        assert(1 * two(0) == 1);
        assert(0 * two((p - 1) as nat) == 0) by (nonlinear_arith);
    }
}

/// `b` is far below the last digit of `a`.
proof fn lemma_far(qb: nat, ea: nat, eb: nat, p: nat)
    requires
        p <= 53,
        qb < two(p),
        ea >= eb + 64,
    ensures
        4 * (qb * two(eb)) < two(ea),
{
    lemma_two_adds((ea - eb) as nat, eb);
    lemma_two_monotonic(64, (ea - eb) as nat);
    lemma_two_monotonic(p, 53);
    lemma_two_values();
    lemma_two_pos(eb);
    let g = two(eb);
    assert(4 * (qb * g) < two((ea - eb) as nat) * g) by (nonlinear_arith)
        requires
            4 * qb < two((ea - eb) as nat),
            g > 0,
    ;
}

/// The rounded sum of two finite magnitudes.
pub fn add_magnitudes(a: u64, b: u64, p: u32) -> (m: u64)
    requires
        p == 24 || p == 53,
        a < infinite(p as nat),
        b < infinite(p as nat),
    ensures
        m == rounded(units(a as nat, p as nat) + units(b as nat, p as nat), 1, p as nat),
{
    let (large, small) = if a >= b {
        (a, b)
    } else {
        (b, a)
    };
    let (qa, ea) = unpack(large, p);
    let (qb, eb) = unpack(small, p);
    let ghost ua = units(large as nat, p as nat);
    let ghost ub = units(small as nat, p as nat);
    proof {
        lemma_two_values();
        lemma_order(qa as nat, ea as nat, qb as nat, eb as nat, p as nat);
    }
    let diff: u32 = ea - eb;
    if diff <= 64 {
        proof {
            lemma_two_monotonic(diff as nat, 64);
            lemma_two_monotonic(p as nat, 53);
            assert(qa * two(diff as nat) <= 0x20_0000_0000_0000 * 0x1_0000_0000_0000_0000)
                by (nonlinear_arith)
                requires
                    qa <= 0x20_0000_0000_0000,
                    two(diff as nat) <= 0x1_0000_0000_0000_0000,
            ;
        }
        let s: u128 = qa as u128 * exec_two(diff) + qb as u128;
        proof {
            lemma_two_adds(diff as nat, eb as nat);
            let g = two(eb as nat);
            assert(s * g == ua + ub) by (nonlinear_arith)
                requires
                    s == qa * two(diff as nat) + qb,
                    ua == qa * two(ea as nat),
                    two(ea as nat) == two(diff as nat) * g,
                    ub == qb * g,
            ;
        }
        pack(s, eb as i32, p)
    } else {
        proof {
            lemma_far(qb as nat, ea as nat, eb as nat, p as nat);
            lemma_nearest_plus(qa as nat, ea as nat, ub, p as nat);
        }
        large
    }
}

/// The larger of two magnitudes has the larger exponent.
proof fn lemma_order(qa: nat, ea: nat, qb: nat, eb: nat, p: nat)
    requires
        p > 0,
        qb < two(p),
        qa < two(p),
        eb > 0 ==> qb >= two((p - 1) as nat),
        ea > 0 ==> qa >= two((p - 1) as nat),
        ea * two((p - 1) as nat) + qa >= eb * two((p - 1) as nat) + qb,
    ensures
        ea >= eb,
{
    let one = two((p - 1) as nat);
    lemma_two_pos((p - 1) as nat);
    assert(two(p) == 2 * one);
    if ea < eb {
        if ea == 0 {
            assert(eb * one >= one) by (nonlinear_arith)
                requires
                    eb >= 1,
            ;
            assert(0 * one == 0) by (nonlinear_arith);
            assert(qb >= one);
            assert(qa < 2 * one);
        } else {
            assert(eb * one >= ea * one + one) by (nonlinear_arith)
                requires
                    eb >= ea + 1,
            ;
        }
    }
}

/// The rounded difference of two finite magnitudes, the second not larger.
pub fn sub_magnitudes(a: u64, b: u64, p: u32) -> (m: u64)
    requires
        p == 24 || p == 53,
        b <= a < infinite(p as nat),
    ensures
        units(b as nat, p as nat) <= units(a as nat, p as nat),
        m == rounded(
            (units(a as nat, p as nat) - units(b as nat, p as nat)) as nat,
            1,
            p as nat,
        ),
{
    let (qa, ea) = unpack(a, p);
    let (qb, eb) = unpack(b, p);
    let ghost ua = units(a as nat, p as nat);
    let ghost ub = units(b as nat, p as nat);
    proof {
        lemma_two_values();
        lemma_order(qa as nat, ea as nat, qb as nat, eb as nat, p as nat);
        if b < a {
            lemma_units_monotonic(b as nat, a as nat, p as nat);
        }
    }
    let diff: u32 = ea - eb;
    if diff <= 64 {
        proof {
            lemma_two_monotonic(diff as nat, 64);
            lemma_two_monotonic(p as nat, 53);
            assert(qa * two(diff as nat) <= 0x20_0000_0000_0000 * 0x1_0000_0000_0000_0000)
                by (nonlinear_arith)
                requires
                    qa <= 0x20_0000_0000_0000,
                    two(diff as nat) <= 0x1_0000_0000_0000_0000,
            ;
            lemma_two_adds(diff as nat, eb as nat);
            lemma_two_pos(eb as nat);
            let g = two(eb as nat);
            let big = qa * two(diff as nat);
            assert(big * g == ua) by (nonlinear_arith)
                requires
                    ua == qa * two(ea as nat),
                    two(ea as nat) == two(diff as nat) * g,
                    big == qa * two(diff as nat),
            ;
            assert(big >= qb) by (nonlinear_arith)
                requires
                    big * g >= qb * g,
                    g > 0,
            ;
        }
        let s: u128 = qa as u128 * exec_two(diff) - qb as u128;
        proof {
            let g = two(eb as nat);
            assert(s * g == ua - ub) by (nonlinear_arith)
                requires
                    s == qa * two(diff as nat) - qb,
                    (qa * two(diff as nat)) * g == ua,
                    ub == qb * g,
            ;
        }
        pack(s, eb as i32, p)
    } else {
        proof {
            lemma_far(qb as nat, ea as nat, eb as nat, p as nat);
            if ub == 0 {
                lemma_nearest_exact(qa as nat, ea as nat, p as nat);
            } else {
                lemma_nearest_minus(qa as nat, ea as nat, ub, p as nat);
            }
        }
        a
    }
}

/// The rounded product of two finite magnitudes.
pub fn mul_magnitudes(a: u64, b: u64, p: u32) -> (m: u64)
    requires
        p == 24 || p == 53,
        a < infinite(p as nat),
        b < infinite(p as nat),
    ensures
        m == rounded(
            units(a as nat, p as nat) * units(b as nat, p as nat),
            two(unit(p as nat)),
            p as nat,
        ),
{
    let (qa, ea) = unpack(a, p);
    let (qb, eb) = unpack(b, p);
    let ghost ua = units(a as nat, p as nat);
    let ghost ub = units(b as nat, p as nat);
    proof {
        lemma_two_values();
        lemma_two_monotonic(p as nat, 53);
        assert(qa * qb <= 0x20_0000_0000_0000 * 0x20_0000_0000_0000) by (nonlinear_arith)
            requires
                qa <= 0x20_0000_0000_0000,
                qb <= 0x20_0000_0000_0000,
        ;
    }
    let s: u128 = qa as u128 * qb as u128;
    let e: i32 = ea as i32 + eb as i32 - exec_unit(p) as i32;
    proof {
        let x = (ea + eb) as nat;
        lemma_two_adds(ea as nat, eb as nat);
        assert(ua * ub == s * two(x)) by (nonlinear_arith)
            requires
                ua == qa * two(ea as nat),
                ub == qb * two(eb as nat),
                s == qa * qb,
                two(x) == two(ea as nat) * two(eb as nat),
        ;
        lemma_scaled_over(s as nat, x, unit(p as nat), p as nat);
    }
    pack(s, e, p)
}

/// A whole number times one power of two over another.
proof fn lemma_scaled_over(s: nat, x: nat, y: nat, p: nat)
    ensures
        rounded(s * two(x), two(y), p) == rounded(
            scaled(s, x - y).0,
            scaled(s, x - y).1,
            p,
        ),
{
    lemma_two_pos(y);
    let n = s * two(x);
    let (n2, d2) = scaled(s, x - y);
    if x >= y {
        lemma_two_adds((x - y) as nat, y);
        assert(n * 1 == (s * two((x - y) as nat)) * two(y)) by (nonlinear_arith)
            requires
                n == s * two(x),
                two(x) == two((x - y) as nat) * two(y),
        ;
    } else {
        lemma_two_pos((y - x) as nat);
        lemma_two_adds((y - x) as nat, x);
        assert(n * d2 == s * two(y)) by (nonlinear_arith)
            requires
                n == s * two(x),
                two(y) == d2 * two(x),
        ;
    }
    lemma_nearest_fraction(n, two(y), n2, d2, p);
}

/// The rounded magnitude of a whole number.
pub fn whole_magnitude(v: u64, p: u32) -> (m: u64)
    requires
        p == 24 || p == 53,
    ensures
        m == rounded(v as nat * two(unit(p as nat)), 1, p as nat),
{
    pack(v as u128, exec_unit(p) as i32, p)
}

/// How many units finer the wide format is than the narrow one.
pub open spec fn gap() -> nat {
    925
}

/// The wide magnitude of a narrow one, which is exact.
pub fn widen_magnitude(a: u64) -> (m: u64)
    requires
        a < infinite(24),
    ensures
        m == rounded(units(a as nat, 24) * two(gap()), 1, 53),
{
    let (q, e) = unpack(a, 24);
    proof {
        lemma_two_values();
        lemma_two_adds(e as nat, gap());
        assert((q * two(e as nat)) * two(gap()) == q * two((e + 925) as nat)) by (nonlinear_arith)
            requires
                two((e + 925) as nat) == two(e as nat) * two(gap()),
        ;
    }
    pack(q as u128, e as i32 + 925, 53)
}

/// The narrow magnitude nearest to a wide one.
pub fn narrow_magnitude(a: u64) -> (m: u64)
    requires
        a < infinite(53),
    ensures
        m == rounded(units(a as nat, 53), two(gap()), 24),
{
    let (q, e) = unpack(a, 53);
    proof {
        lemma_two_values();
        lemma_scaled_over(q as nat, e as nat, gap(), 24);
    }
    pack(q as u128, e as i32 - 925, 24)
}

/// The whole part of a finite magnitude.
pub open spec fn whole(m: nat, p: nat) -> nat {
    units(m, p) / two(unit(p))
}

/// What is left of a finite magnitude without its whole part, in units.
pub open spec fn part(m: nat, p: nat) -> nat {
    units(m, p) % two(unit(p))
}

/// The whole part, at most two to the power 64.
pub fn whole_part(m: u64, p: u32) -> (w: u128)
    requires
        p == 24 || p == 53,
        m < infinite(p as nat),
    ensures
        whole(m as nat, p as nat) < 0x1_0000_0000_0000_0000 ==> w == whole(m as nat, p as nat),
        whole(m as nat, p as nat) >= 0x1_0000_0000_0000_0000 ==> w == 0x1_0000_0000_0000_0000,
{
    let (q, e) = unpack(m, p);
    let u: u32 = exec_unit(p);
    proof {
        lemma_two_values();
        lemma_two_pos(u as nat);
        lemma_two_monotonic(p as nat, 53);
    }
    let ghost t = two(u as nat);
    let ghost n = units(m as nat, p as nat);
    if e >= u {
        let sh: u32 = e - u;
        proof {
            lemma_two_adds(sh as nat, u as nat);
            let c = q * two(sh as nat);
            assert(n == c * t) by (nonlinear_arith)
                requires
                    n == q * two(e as nat),
                    two(e as nat) == two(sh as nat) * t,
                    c == q * two(sh as nat),
            ;
            assert((c + 1) * t == c * t + t) by (nonlinear_arith);
            lemma_quotient(n, t, c as nat);
        }
        if sh > 64 {
            proof {
                lemma_two_monotonic(64, sh as nat);
                if q == 0 {
                    lemma_two_pos((p - 1) as nat);
                }
                assert(q * two(sh as nat) >= two(64)) by (nonlinear_arith)
                    requires
                        q >= 1,
                        two(sh as nat) >= two(64),
                ;
            }
            return 0x1_0000_0000_0000_0000;
        }
        proof {
            lemma_two_monotonic(sh as nat, 64);
            assert(q * two(sh as nat) <= 0x20_0000_0000_0000 * 0x1_0000_0000_0000_0000)
                by (nonlinear_arith)
                requires
                    q <= 0x20_0000_0000_0000,
                    two(sh as nat) <= 0x1_0000_0000_0000_0000,
            ;
        }
        let w: u128 = q as u128 * exec_two(sh);
        if w < 0x1_0000_0000_0000_0000 {
            w
        } else {
            0x1_0000_0000_0000_0000
        }
    } else {
        let (w, f) = split(q, e, u, Ghost(n));
        w as u128
    }
}

/// The whole part of a number below two to the power 53, and whether what is
/// left is nothing, less than a half, or at least a half.
fn split(q: u64, e: u32, u: u32, Ghost(n): Ghost<nat>) -> (r: (u64, u8))
    requires
        e < u,
        q <= 0x20_0000_0000_0000,
        n == q * two(e as nat),
    ensures
        r.0 == n / two(u as nat),
        r.0 <= q,
        r.1 == (if n % two(u as nat) == 0 {
            0u8
        } else if 2 * (n % two(u as nat)) < two(u as nat) {
            1u8
        } else {
            2u8
        }),
{
    let sh: u32 = u - e;
    let ghost t = two(u as nat);
    let ghost g = two(e as nat);
    proof {
        lemma_two_values();
        lemma_two_pos(e as nat);
        lemma_two_adds(sh as nat, e as nat);
    }
    if sh > 60 {
        proof {
            lemma_two_monotonic(61, sh as nat);
            assert(two(61) == 0x2000_0000_0000_0000) by {
                assert(two(64) == 2 * two(63));
                assert(two(63) == 2 * two(62));
                assert(two(62) == 2 * two(61));
            }
            assert(2 * n < t) by (nonlinear_arith)
                requires
                    n == q * g,
                    t == two(sh as nat) * g,
                    2 * q < two(sh as nat),
                    g > 0,
            ;
            assert(0 * t == 0 && 1 * t == t) by (nonlinear_arith);
            lemma_quotient(n, t, 0);
            assert(n == 0 <==> q == 0) by (nonlinear_arith)
                requires
                    n == q * g,
                    g > 0,
            ;
        }
        return (
            0,
            if q == 0 {
                0
            } else {
                1
            },
        );
    }
    let x: u128 = exec_two(sh);
    let w: u128 = q as u128 / x;
    let f: u128 = q as u128 % x;
    proof {
        lemma_div_bounds(q as nat, x as nat);
        lemma_two_monotonic(sh as nat, 64);
        assert(w * t <= n && n < (w + 1) * t) by (nonlinear_arith)
            requires
                n == q * g,
                t == x * g,
                w * x <= q,
                q < (w + 1) * x,
                g > 0,
        ;
        lemma_quotient(n, t, w as nat);
        assert(n % t == f * g) by (nonlinear_arith)
            requires
                n % t == n - w * t,
                n == q * g,
                t == x * g,
                f == q - w * x,
        ;
        assert(f * g == 0 <==> f == 0) by (nonlinear_arith)
            requires
                g > 0,
        ;
        assert(2 * (f * g) < t <==> 2 * f < x) by (nonlinear_arith)
            requires
                t == x * g,
                g > 0,
        ;
        assert(w <= q) by (nonlinear_arith)
            requires
                w * x <= q,
                x >= 1,
        ;
    }
    (
        w as u64,
        if f == 0 {
            0
        } else if f < x - f {
            1
        } else {
            2
        },
    )
}

/// Which way a number is made whole.
#[derive(Clone, Copy, Debug, PartialEq, Eq, Structural)]
pub enum Toward {
    /// Away what follows the point.
    Zero,
    /// Up, where anything follows the point.
    Up,
    /// To the nearest, and up from the middle.
    Nearest,
}

/// The whole number that a magnitude is made.
pub open spec fn made_whole(m: nat, p: nat, toward: Toward) -> nat {
    let w = whole(m, p);
    let f = part(m, p);
    match toward {
        Toward::Zero => w,
        Toward::Up => if f == 0 {
            w
        } else {
            w + 1
        },
        Toward::Nearest => if 2 * f < two(unit(p)) {
            w
        } else {
            w + 1
        },
    }
}

/// A finite magnitude made whole.
pub fn integral_magnitude(m: u64, p: u32, toward: Toward) -> (r: u64)
    requires
        p == 24 || p == 53,
        m < infinite(p as nat),
    ensures
        r == rounded(
            made_whole(m as nat, p as nat, toward) * two(unit(p as nat)),
            1,
            p as nat,
        ),
{
    let (q, e) = unpack(m, p);
    let u: u32 = exec_unit(p);
    proof {
        lemma_two_values();
        lemma_two_pos(u as nat);
        lemma_two_monotonic(p as nat, 53);
    }
    let ghost t = two(u as nat);
    let ghost n = units(m as nat, p as nat);
    if e >= u {
        proof {
            let sh = (e - u) as nat;
            lemma_two_adds(sh, u as nat);
            let c = q * two(sh);
            assert(n == c * t) by (nonlinear_arith)
                requires
                    n == q * two(e as nat),
                    two(e as nat) == two(sh) * t,
                    c == q * two(sh),
            ;
            assert((c + 1) * t == c * t + t) by (nonlinear_arith);
            lemma_quotient(n, t, c as nat);
            lemma_nearest_exact(q as nat, e as nat, p as nat);
        }
        m
    } else {
        let (w, f) = split(q, e, u, Ghost(n));
        let up: bool = match toward {
            Toward::Zero => false,
            Toward::Up => f != 0,
            Toward::Nearest => f == 2,
        };
        if up {
            whole_magnitude(w + 1, p)
        } else {
            whole_magnitude(w, p)
        }
    }
}

/// A quotient and a mark for what is left of it are rounded as the fraction is.
proof fn lemma_sticky(n: nat, d: nat, h: nat)
    requires
        d > 0,
        h > 0,
    ensures
        half_even(n, d * (2 * h)) == half_even(
            2 * (n / d) + (if n % d > 0 {
                1nat
            } else {
                0nat
            }),
            2 * (2 * h),
        ),
{
    let t = 2 * h;
    let a = n / d;
    let f = n % d;
    let q = a / t;
    let r = a % t;
    let mark: nat = if f > 0 {
        1
    } else {
        0
    };
    let s = 2 * a + mark;
    lemma_div_bounds(n, d);
    lemma_div_bounds(a, t);
    let low = r * d + f;
    let dt = d * t;
    assert(n == q * dt + low) by (nonlinear_arith)
        requires
            f == n - a * d,
            r == a - q * t,
            low == r * d + f,
            dt == d * t,
    ;
    assert(low < dt) by (nonlinear_arith)
        requires
            r + 1 <= t,
            f < d,
            low == r * d + f,
            dt == d * t,
    ;
    assert((q + 1) * dt == q * dt + dt) by (nonlinear_arith);
    lemma_quotient(n, dt, q);
    assert(s == q * (2 * t) + (2 * r + mark)) by (nonlinear_arith)
        requires
            s == 2 * a + mark,
            r == a - q * t,
    ;
    assert((q + 1) * (2 * t) == q * (2 * t) + 2 * t) by (nonlinear_arith);
    lemma_quotient(s, 2 * t, q);
    assert(dt == 2 * (h * d)) by (nonlinear_arith)
        requires
            dt == d * t,
            t == 2 * h,
    ;
    if r > h {
        assert(low > h * d) by (nonlinear_arith)
            requires
                r >= h + 1,
                low == r * d + f,
                d > 0,
        ;
    } else if r < h {
        assert(low < h * d) by (nonlinear_arith)
            requires
                r + 1 <= h,
                f < d,
                low == r * d + f,
        ;
    }
}

/// A fraction with a quotient of many digits is rounded as that quotient and a
/// mark for what is left of it.
proof fn lemma_nearest_quotient(num: nat, den: nat, y: int, p: nat)
    requires
        0 < p <= 53,
        den > 0,
        num / den >= two(60),
    ensures
        ({
            let mark: nat = if num % den > 0 {
                1
            } else {
                0
            };
            let s = 2 * (num / den) + mark;
            let (n1, d1) = over(num, den, y);
            let (n2, d2) = scaled(s, y - 1);
            nearest(n1, d1, p) == nearest(n2, d2, p)
        }),
{
    let quot = num / den;
    let mark: nat = if num % den > 0 {
        1
    } else {
        0
    };
    let s = 2 * quot + mark;
    let (n1, d1) = over(num, den, y);
    let (n2, d2) = scaled(s, y - 1);
    let l = bit_len(quot);
    lemma_bit_len_bounds(quot);
    lemma_two_pos(60);
    if l <= 60 {
        lemma_two_monotonic(l, 60);
    }
    assert(two(l + 1) == 2 * two(l));
    assert(two(l) == 2 * two((l - 1) as nat));
    lemma_bit_len(s, l + 1);
    lemma_excess_scaled(s, y - 1, p);
    let k = excess(n2, d2, p);
    lemma_div_bounds(num, den);
    // The same digits are rounded away on either side.
    if y >= 0 {
        let g = two(y as nat);
        lemma_two_pos(y as nat);
        let w = n1 / den;
        lemma_div_bounds(n1, den);
        lemma_two_adds((l - 1) as nat, y as nat);
        lemma_two_adds(l, y as nat);
        assert(two((l - 1) as nat) * g <= w) by (nonlinear_arith)
            requires
                n1 == num * g,
                quot * den <= num,
                two((l - 1) as nat) <= quot,
                n1 < (w + 1) * den,
                den > 0,
                g > 0,
        ;
        assert(w < two(l) * g) by (nonlinear_arith)
            requires
                n1 == num * g,
                num < (quot + 1) * den,
                quot + 1 <= two(l),
                w * den <= n1,
                den > 0,
                g > 0,
        ;
        lemma_bit_len(w, (l + y) as nat);
    } else {
        let g = two((-y) as nat);
        lemma_two_pos((-y) as nat);
        vstd::arithmetic::div_mod::lemma_div_denominator(num as int, den as int, g as int);
        lemma_excess_scaled(quot, y, p);
    }
    assert(excess(n1, d1, p) == k);
    // And what they are is seen alike.
    let t = (k - y) as nat;
    assert(t >= 7);
    let h = two((t - 1) as nat);
    lemma_two_pos((t - 1) as nat);
    assert(two(t) == 2 * h);
    assert(two(t + 1) == 2 * two(t));
    lemma_half_even_scaled(s, y - 1, k);
    assert(half_even(n2, d2 * two(k)) == half_even(s, two(t + 1)));
    lemma_sticky(num, den, h);
    let x = den * two(t);
    assert(x > 0) by (nonlinear_arith)
        requires
            den > 0,
            two(t) > 0,
            x == den * two(t),
    ;
    lemma_two_pos(k);
    let z = d1 * two(k);
    if y >= 0 {
        let g = two(y as nat);
        lemma_two_adds(t, y as nat);
        assert(z > 0) by (nonlinear_arith)
            requires
                z == den * two(k),
                den > 0,
                two(k) > 0,
        ;
        assert(n1 * x == num * z) by (nonlinear_arith)
            requires
                n1 == num * g,
                x == den * two(t),
                z == den * two(k),
                two(k) == two(t) * g,
        ;
        lemma_same_fraction(n1, z, num, x);
    } else {
        let g = two((-y) as nat);
        lemma_two_adds(k, (-y) as nat);
        assert(z == x) by (nonlinear_arith)
            requires
                z == (den * g) * two(k),
                x == den * two(t),
                two(t) == two(k) * g,
        ;
    }
}

/// `num / den` times a power of two as a fraction.
pub open spec fn over(num: nat, den: nat, y: int) -> (nat, nat) {
    if y >= 0 {
        (num * two(y as nat), den)
    } else {
        (num, den * two((-y) as nat))
    }
}

/// The rounded quotient of two finite magnitudes, the second not zero.
pub fn div_magnitudes(a: u64, b: u64, p: u32) -> (m: u64)
    requires
        p == 24 || p == 53,
        a < infinite(p as nat),
        0 < b < infinite(p as nat),
    ensures
        units(b as nat, p as nat) > 0,
        m == rounded(
            units(a as nat, p as nat) * two(unit(p as nat)),
            units(b as nat, p as nat),
            p as nat,
        ),
{
    let (qa, ea) = unpack(a, p);
    let (qb, eb) = unpack(b, p);
    let u: u32 = exec_unit(p);
    let ghost ua = units(a as nat, p as nat);
    let ghost ub = units(b as nat, p as nat);
    proof {
        lemma_two_values();
        lemma_two_monotonic(p as nat, 53);
        lemma_two_pos(eb as nat);
        assert(ub > 0) by (nonlinear_arith)
            requires
                ub == qb * two(eb as nat),
                qb > 0,
                two(eb as nat) > 0,
        ;
    }
    let len: u32 = exec_bit_len(qa as u128);
    proof {
        lemma_bit_len_bounds(qa as nat);
        if len > 53 {
            lemma_two_monotonic(53, (len - 1) as nat);
        }
    }
    if qa == 0 {
        proof {
            assert(ua * two(u as nat) == 0) by (nonlinear_arith)
                requires
                    ua == 0 * two(ea as nat),
            ;
            let d = ub;
            assert(0nat / d == 0) by {
                assert(0 * d == 0 && 1 * d == d) by (nonlinear_arith);
                lemma_quotient(0, d, 0);
            }
            lemma_two_pos((p - 1) as nat);
            assert(d * two(0) == d) by (nonlinear_arith)
                requires
                    two(0) == 1,
            ;
            assert(0 * d == 0 && 1 * d == d) by (nonlinear_arith);
            lemma_quotient(0, d, 0);
            assert(0 * two((p - 1) as nat) == 0) by (nonlinear_arith);
            assert(infinite(p as nat) > 0);
        }
        return 0;
    }
    let sh: u32 = 116 - len;
    proof {
        lemma_two_adds(len as nat, sh as nat);
        lemma_two_adds((len - 1) as nat, sh as nat);
        lemma_two_pos(sh as nat);
        lemma_two_monotonic(116, 126);
        assert(qa * two(sh as nat) < two(116)) by (nonlinear_arith)
            requires
                qa < two(len as nat),
                two(116) == two(len as nat) * two(sh as nat),
                two(sh as nat) > 0,
        ;
        assert(qa * two(sh as nat) >= two(115)) by (nonlinear_arith)
            requires
                qa >= two((len - 1) as nat),
                two(115) == two((len - 1) as nat) * two(sh as nat),
        ;
    }
    let num: u128 = qa as u128 * exec_two(sh);
    let quot: u128 = num / (qb as u128);
    let left: u128 = num % (qb as u128);
    proof {
        lemma_div_bounds(num as nat, qb as nat);
        lemma_two_adds(62, 53);
        assert(quot >= two(62)) by (nonlinear_arith)
            requires
                num >= two(62) * two(53),
                num < (quot + 1) * qb,
                qb <= two(53),
        ;
        lemma_two_monotonic(60, 62);
        assert(quot <= num) by (nonlinear_arith)
            requires
                quot * qb <= num,
                qb >= 1,
        ;
        assert(two(117) == 2 * two(116));
        lemma_two_monotonic(118, 126);
        assert(two(118) == 2 * two(117));
    }
    let s: u128 = 2 * quot + (if left > 0 {
        1
    } else {
        0
    });
    let e: i32 = ea as i32 + u as i32 - eb as i32 - sh as i32 - 1;
    proof {
        let y = e + 1;
        lemma_nearest_quotient(num as nat, qb as nat, y, p as nat);
        let (n1, d1) = over(num as nat, qb as nat, y);
        let n = ua * two(u as nat);
        let (x1, x2, x3, x4) = (two(ea as nat), two(u as nat), two(sh as nat), two(eb as nat));
        assert(n == qa * (x1 * x2)) by (nonlinear_arith)
            requires
                n == (qa * x1) * x2,
        ;
        lemma_two_adds(ea as nat, u as nat);
        lemma_two_adds(sh as nat, eb as nat);
        if y >= 0 {
            let g = two(y as nat);
            lemma_two_adds((sh + eb) as nat, y as nat);
            assert(n * d1 == n1 * ub) by (nonlinear_arith)
                requires
                    n == qa * (x1 * x2),
                    d1 == qb,
                    n1 == (qa * x3) * g,
                    ub == qb * x4,
                    x1 * x2 == (x3 * x4) * g,
            ;
        } else {
            let g = two((-y) as nat);
            lemma_two_pos((-y) as nat);
            lemma_two_adds((ea + u) as nat, (-y) as nat);
            assert(n * d1 == n1 * ub) by (nonlinear_arith)
                requires
                    n == qa * (x1 * x2),
                    d1 == qb * g,
                    n1 == qa * x3,
                    ub == qb * x4,
                    (x1 * x2) * g == x3 * x4,
            ;
            assert(d1 > 0) by (nonlinear_arith)
                requires
                    d1 == qb * g,
                    qb > 0,
                    g > 0,
            ;
        }
        lemma_nearest_fraction(n, ub, n1, d1, p as nat);
    }
    pack(s, e, p)
}

} // verus!
