//! Numbers written in decimals, with as few digits as tell them apart.
use crate::magnitude::{unit, unpack};
use crate::natural::Natural;
use crate::number::{Num, Real};
use crate::rounding::{
    bit_len, exec_infinite, exec_one, half_even, infinite, lemma_bit_len, lemma_bit_len_bounds,
    lemma_div_bounds, lemma_quotient, lemma_two_adds, lemma_two_monotonic, lemma_two_pos,
    lemma_two_values, rounded, two, units,
};
use crate::text::{chars_of, digits, push_chars, push_digits, push_text};
use vstd::prelude::*;

verus! {

/// The powers of ten.
pub open spec fn ten(e: nat) -> nat
    decreases e,
{
    if e == 0 {
        1
    } else {
        10 * ten((e - 1) as nat)
    }
}

/// How many parts a smallest unit is divided into, so that a step of the place
/// `e` is a whole number of parts.
pub open spec fn parts(e: int) -> nat {
    if e >= 0 {
        1
    } else {
        ten((-e) as nat)
    }
}

/// A step of the place `e`, in parts of a smallest unit.
pub open spec fn step(e: int) -> nat {
    if e >= 0 {
        ten(e as nat) * two(unit(53))
    } else {
        two(unit(53))
    }
}

/// Whether `c` steps of the place `e` read as a magnitude: they lie between the
/// middles to its neighbours, or on one where its last digit is even.
pub open spec fn reads(m: nat, c: nat, e: int) -> bool {
    let twice = 2 * (c * step(e));
    let below = (units((m - 1) as nat, 53) + units(m, 53)) * parts(e);
    let above = (units(m, 53) + units(m + 1, 53)) * parts(e);
    if m % 2 == 0 {
        below <= twice <= above
    } else {
        below < twice < above
    }
}

/// How far `c` steps of the place `e` are from a magnitude, in parts of a unit.
pub open spec fn distance(m: nat, c: nat, e: int) -> nat {
    let (x, y) = (c * step(e), units(m, 53) * parts(e));
    if x < y {
        (y - x) as nat
    } else {
        (x - y) as nat
    }
}

/// Whether `c` steps of the place `e` are the decimal of a magnitude: it reads as
/// the magnitude, none of a higher place does, and of its place it is the nearest,
/// and of two the larger.
pub open spec fn shortest(m: nat, c: nat, e: int) -> bool {
    &&& reads(m, c, e)
    &&& forall|b: nat, f: int| f > e ==> !#[trigger] reads(m, b, f)
    &&& forall|b: nat| #[trigger]
        reads(m, b, e) ==> distance(m, c, e) < distance(m, b, e) || (distance(m, c, e) == distance(
            m,
            b,
            e,
        ) && b <= c)
}

/// The decimal of a magnitude.
pub open spec fn shortest_decimal(m: nat) -> (nat, int) {
    choose|c: nat, e: int| shortest(m, c, e)
}

/// A magnitude has one decimal.
pub proof fn law_shortest_unique(m: nat, c: nat, e: int)
    requires
        shortest(m, c, e),
    ensures
        shortest_decimal(m) == (c, e),
{
    let (b, f) = shortest_decimal(m);
    assert(shortest(m, b, f));
    assert(reads(m, b, f) && reads(m, c, e));
}

/// A run of zeros.
pub open spec fn zeros(n: nat) -> Seq<char> {
    Seq::new(n, |i: int| '0')
}

/// The digits of `c`, with zeros before them so that there are more than `n`.
pub open spec fn filled(c: nat, n: nat) -> Seq<char> {
    let s = digits(c);
    if s.len() <= n {
        zeros((n + 1 - s.len()) as nat) + s
    } else {
        s
    }
}

/// How `c` steps of the place `e` are written.
pub open spec fn written(c: nat, e: int) -> Seq<char> {
    if e >= 0 {
        digits(c) + zeros(e as nat)
    } else {
        let s = filled(c, (-e) as nat);
        s.take(s.len() + e) + seq!['.'] + s.skip(s.len() + e)
    }
}

/// How a magnitude is written.
pub open spec fn magnitude_text(m: nat) -> Seq<char> {
    if m == infinite(53) {
        "inf"@
    } else if m == 0 {
        "0"@
    } else {
        written(shortest_decimal(m).0, shortest_decimal(m).1)
    }
}

/// How a number is written.
pub open spec fn number_text(a: Num) -> Seq<char> {
    if a.is_nan(53) {
        "NaN"@
    } else if a.neg {
        "-"@ + magnitude_text(a.mag as nat)
    } else {
        magnitude_text(a.mag as nat)
    }
}

proof fn lemma_ten_pos(e: nat)
    ensures
        ten(e) > 0,
    decreases e,
{
    if e > 0 {
        lemma_ten_pos((e - 1) as nat);
    }
}

proof fn lemma_ten_adds(a: nat, b: nat)
    ensures
        ten(a + b) == ten(a) * ten(b),
    decreases a,
{
    if a > 0 {
        lemma_ten_adds((a - 1) as nat, b);
        let (x, y) = (ten((a - 1) as nat), ten(b));
        assert(10 * (x * y) == (10 * x) * y) by (nonlinear_arith);
    } else {
        assert(1 * ten(b) == ten(b)) by (nonlinear_arith);
    }
}

proof fn lemma_ten_monotonic(a: nat, b: nat)
    requires
        a <= b,
    ensures
        ten(a) <= ten(b),
    decreases b,
{
    if a < b {
        lemma_ten_monotonic(a, (b - 1) as nat);
        lemma_ten_pos((b - 1) as nat);
    }
}

proof fn lemma_ten_over_two(k: nat)
    ensures
        ten(k) >= two(3 * k),
    decreases k,
{
    if k > 0 {
        lemma_ten_over_two((k - 1) as nat);
        let n = 3 * k;
        assert(two(n) == 2 * two((n - 1) as nat));
        assert(two((n - 1) as nat) == 2 * two((n - 2) as nat));
        assert(two((n - 2) as nat) == 2 * two((n - 3) as nat));
    }
}

/// The value of a magnitude by its digits and its exponent.
proof fn lemma_units_at(q: nat, e: nat)
    requires
        q < 2 * two(52),
        e > 0 ==> q >= two(52),
    ensures
        units(e * two(52) + q, 53) == q * two(e),
{
    let one = two(52);
    lemma_two_values();
    let m = e * one + q;
    if q < one {
        assert(0 * one == 0) by (nonlinear_arith);
        assert(q * two(0) == q) by (nonlinear_arith)
            requires
                two(0) == 1,
        ;
    } else {
        assert((e + 1) * one <= m < (e + 1 + 1) * one && m - (e + 1) * one == q - one)
            by (nonlinear_arith)
            requires
                m == e * one + q,
                one <= q < 2 * one,
        ;
        lemma_quotient(m, one, e + 1);
        assert(m >= one) by (nonlinear_arith)
            requires
                m == e * one + q,
                q >= one,
        ;
    }
}

/// How far the neighbours of a magnitude are.
proof fn lemma_neighbours(m: nat, q: nat, e: nat)
    requires
        m == e * two(52) + q,
        0 < q < two(53),
        e > 0 ==> q >= two(52),
    ensures
        units(m, 53) == q * two(e),
        units(m + 1, 53) - units(m, 53) == two(e),
        units(m, 53) - units((m - 1) as nat, 53) == (if q == two(52) && e > 0 {
            two((e - 1) as nat)
        } else {
            two(e)
        }),
{
    let one = two(52);
    let t = two(e);
    lemma_two_values();
    lemma_units_at(q, e);
    if q + 1 < 2 * one {
        lemma_units_at(q + 1, e);
        assert((q + 1) * t == q * t + t) by (nonlinear_arith);
    } else {
        lemma_units_at(one, e + 1);
        assert((e + 1) * one + one == e * one + (2 * one - 1) + 1) by (nonlinear_arith);
        assert(one * (2 * t) == (2 * one - 1) * t + t) by (nonlinear_arith);
        assert(two(e + 1) == 2 * t);
    }
    if q == one && e > 0 {
        let h = two((e - 1) as nat);
        let c = (2 * one - 1) as nat;
        lemma_units_at(c, (e - 1) as nat);
        assert((e - 1) * one + c == e * one + one - 1) by (nonlinear_arith)
            requires
                c == 2 * one - 1,
        ;
        assert(one * (2 * h) - c * h == h) by (nonlinear_arith)
            requires
                c == 2 * one - 1,
        ;
    } else {
        let c = (q - 1) as nat;
        lemma_units_at(c, e);
        assert(q * t - c * t == t) by (nonlinear_arith)
            requires
                c == q - 1,
        ;
    }
}

/// A fraction within half of a whole number is rounded to it.
proof fn lemma_half_even_near(n: nat, d: nat, q: nat)
    requires
        d > 0,
        (2 * q - 1) * d <= 2 * n <= (2 * q + 1) * d,
        2 * n == (2 * q - 1) * d || 2 * n == (2 * q + 1) * d ==> q % 2 == 0,
    ensures
        half_even(n, d) == q,
{
    assert((2 * q + 1) * d == 2 * (q * d) + d) by (nonlinear_arith);
    assert((2 * q - 1) * d == 2 * (q * d) - d) by (nonlinear_arith);
    assert((q + 1) * d == q * d + d) by (nonlinear_arith);
    if n >= q * d {
        lemma_quotient(n, d, q);
    } else {
        assert(q > 0) by (nonlinear_arith)
            requires
                0 <= n < q * d,
                q >= 0,
                d > 0,
        ;
        let c = (q - 1) as nat;
        assert(c * d == q * d - d) by (nonlinear_arith)
            requires
                c == q - 1,
        ;
        assert(c + 1 == q);
        lemma_quotient(n, d, c);
    }
}

/// What reads as a magnitude is rounded to it.
pub proof fn law_reads_back(m: nat, c: nat, e: int)
    requires
        0 < m < infinite(53),
        reads(m, c, e),
    ensures
        rounded(c * step(e), parts(e), 53) == m,
{
    let one = two(52);
    lemma_two_values();
    let k = if m < one {
        0
    } else {
        (m / one - 1) as nat
    };
    let q = (m - k * one) as nat;
    lemma_div_bounds(m, one);
    let g = m / one;
    if m >= one {
        assert(g >= 1) by (nonlinear_arith)
            requires
                m >= one,
                m < (g + 1) * one,
                one > 0,
        ;
        assert(k * one == g * one - one) by (nonlinear_arith)
            requires
                k == g - 1,
        ;
    } else {
        assert(0 * one == 0) by (nonlinear_arith);
    }
    lemma_neighbours(m, q, k);
    assert(q % 2 == m % 2) by (nonlinear_arith)
        requires
            m == k * one + q,
            one == 0x10_0000_0000_0000,
    ;
    let t = two(k);
    lemma_two_pos(k);
    let d = parts(e);
    if e < 0 {
        lemma_ten_pos((-e) as nat);
    }
    let n = c * step(e);
    let u = units(m, 53);
    let lo = units((m - 1) as nat, 53);
    let hi = units(m + 1, 53);
    let dt = d * t;
    assert(dt > 0) by (nonlinear_arith)
        requires
            d > 0,
            t > 0,
            dt == d * t,
    ;
    assert((u + hi) * d == (2 * q + 1) * dt) by (nonlinear_arith)
        requires
            u == q * t,
            hi == u + t,
            dt == d * t,
    ;
    assert((q + 1) * dt == q * dt + dt && (2 * q + 1) * dt == 2 * (q * dt) + dt)
        by (nonlinear_arith);
    lemma_two_adds(52, k);
    lemma_two_adds(53, k);
    let f = n / d;
    lemma_div_bounds(n, d);
    assert(f < two(53 + k)) by (nonlinear_arith)
        requires
            f * d <= n,
            n < (q + 1) * dt,
            q + 1 <= two(53),
            two(53 + k) == two(53) * t,
            dt == d * t,
            d > 0,
            t > 0,
    ;
    lemma_bit_len_bounds(f);
    if q == one && k > 0 && n < q * dt {
        let h = two((k - 1) as nat);
        lemma_two_pos((k - 1) as nat);
        let dh = d * h;
        let x = (2 * one) as nat;
        assert(dh > 0 && dt == 2 * dh) by (nonlinear_arith)
            requires
                d > 0,
                h > 0,
                dh == d * h,
                dt == d * t,
                t == 2 * h,
        ;
        assert((lo + u) * d == (2 * x - 1) * dh) by (nonlinear_arith)
            requires
                u == one * (2 * h),
                lo == u - h,
                x == 2 * one,
                dh == d * h,
        ;
        assert(2 * (q * dt) == 2 * x * dh) by (nonlinear_arith)
            requires
                dt == 2 * dh,
                x == 2 * q,
        ;
        assert((2 * x + 1) * dh == 2 * x * dh + dh) by (nonlinear_arith);
        lemma_half_even_near(n, dh, x);
        lemma_two_adds(51, k);
        lemma_two_adds(52, (k - 1) as nat);
        assert(one * t == 2 * (one * h)) by (nonlinear_arith)
            requires
                t == 2 * h,
        ;
        assert(one * h <= f) by (nonlinear_arith)
            requires
                n < (f + 1) * d,
                2 * n >= (2 * x - 1) * dh,
                x == 2 * one,
                dh == d * h,
                one >= 1,
                d > 0,
                h > 0,
        ;
        assert(f < one * t) by (nonlinear_arith)
            requires
                f * d <= n,
                n < one * dt,
                dt == d * t,
                d > 0,
        ;
        lemma_bit_len(f, 52 + k);
        assert((k - 1) * one + x == k * one + one) by (nonlinear_arith)
            requires
                x == 2 * one,
        ;
    } else {
        assert((lo + u) * d >= (2 * q - 1) * dt) by (nonlinear_arith)
            requires
                u == q * t,
                lo >= u - t,
                dt == d * t,
                d > 0,
        ;
        assert((2 * q - 1) * dt == 2 * (q * dt) - dt) by (nonlinear_arith);
        if q == one && k > 0 {
            lemma_half_even_near(n, dt, q);
        } else {
            assert((lo + u) * d == (2 * q - 1) * dt) by (nonlinear_arith)
                requires
                    u == q * t,
                    lo == u - t,
                    dt == d * t,
            ;
            lemma_half_even_near(n, dt, q);
        }
        if k > 0 {
            assert(n >= one * dt) by {
                if q > one {
                    assert(2 * (q * dt) - dt >= 2 * (one * dt)) by (nonlinear_arith)
                        requires
                            q >= one + 1,
                            dt > 0,
                    ;
                }
            }
            assert(one * t <= f) by (nonlinear_arith)
                requires
                    n < (f + 1) * d,
                    n >= one * dt,
                    dt == d * t,
                    d > 0,
            ;
            lemma_bit_len(f, 53 + k);
        } else {
            if bit_len(f) > 53 {
                lemma_two_monotonic(53, (bit_len(f) - 1) as nat);
            }
        }
    }
}

/// The highest place that is looked at.
spec fn height() -> nat {
    342
}

/// A step of the highest place, in halves of a unit.
spec fn full() -> nat {
    2 * (ten(height()) * two(unit(53)))
}

/// Every place divides the highest one.
proof fn lemma_places(j: nat)
    ensures
        2 * step(height() - j) * ten(j) == parts(height() - j) * full(),
        parts(height() - j) > 0,
        ten(j) > 0,
{
    let e = height() - j;
    let k = ten(height());
    let p = two(unit(53));
    let t = ten(j);
    lemma_ten_pos(j);
    if e >= 0 {
        let x = ten(e as nat);
        lemma_ten_adds(e as nat, j);
        assert(2 * (x * p) * t == 1 * (2 * (k * p))) by (nonlinear_arith)
            requires
                k == x * t,
        ;
    } else {
        let d = ten((-e) as nat);
        lemma_ten_pos((-e) as nat);
        lemma_ten_adds(height(), (-e) as nat);
        assert(2 * p * t == d * (2 * (k * p))) by (nonlinear_arith)
            requires
                t == k * d,
        ;
    }
}

/// Scaling keeps the order.
proof fn lemma_scaled_order(x: int, y: int, t: int, d: int, u: int, v: int)
    by (nonlinear_arith)
    requires
        t > 0,
        d > 0,
        x * t == d * u,
        y * t == d * v,
    ensures
        x < y <==> u < v,
        x <= y <==> u <= v,
{
}

/// What has been found of a magnitude down to a place: how many whole steps of the
/// place it has, and what is left, both in units of `full()`.
spec fn found(m: nat, j: nat, q: nat, r: nat, a: nat, b: nat) -> bool {
    let v = units(m, 53);
    &&& m > 0
    &&& 2 * v * ten(j) == q * full() + r
    &&& r < full()
    &&& a == (v - units((m - 1) as nat, 53)) * ten(j)
    &&& b == (units(m + 1, 53) - v) * ten(j)
    &&& a > 0
    &&& b > 0
}

spec fn down(m: nat, r: nat, a: nat) -> bool {
    if m % 2 == 0 {
        r <= a
    } else {
        r < a
    }
}

spec fn up(m: nat, r: nat, b: nat) -> bool {
    if m % 2 == 0 {
        full() <= r + b
    } else {
        full() < r + b
    }
}

spec fn size(x: int) -> int {
    if x < 0 {
        -x
    } else {
        x
    }
}

/// Whether a decimal reads as the magnitude, and how far it is, by what was found.
proof fn lemma_found(m: nat, j: nat, q: nat, r: nat, a: nat, b: nat, c: nat)
    requires
        found(m, j, q, r, a, b),
    ensures
        reads(m, c, height() - j) <==> (if m % 2 == 0 {
            q * full() + r - a <= c * full() <= q * full() + r + b
        } else {
            q * full() + r - a < c * full() < q * full() + r + b
        }),
        distance(m, c, height() - j) * (2 * ten(j)) == parts(height() - j) * size(
            c * full() - q * full() - r,
        ),
{
    let e = height() - j;
    let (d, w, t, s) = (parts(e) as int, step(e) as int, ten(j) as int, full() as int);
    let v = units(m, 53) as int;
    let lo = units((m - 1) as nat, 53) as int;
    let hi = units(m + 1, 53) as int;
    lemma_places(j);
    let twice = 2 * (c * w);
    let x = q * s + r;
    assert(twice * t == d * (c * s)) by (nonlinear_arith)
        requires
            2 * w * t == d * s,
            twice == 2 * (c * w),
    ;
    assert(((lo + v) * d) * t == d * (x - a)) by (nonlinear_arith)
        requires
            2 * v * t == x,
            a == (v - lo) * t,
    ;
    assert(((v + hi) * d) * t == d * (x + b)) by (nonlinear_arith)
        requires
            2 * v * t == x,
            b == (hi - v) * t,
    ;
    lemma_scaled_order((lo + v) * d, twice, t, d, x - a, c * s);
    lemma_scaled_order(twice, (v + hi) * d, t, d, c * s, x + b);
    let g = c * w - v * d;
    let h = c * s - x;
    assert((v * d) * (2 * t) == d * x) by (nonlinear_arith)
        requires
            2 * v * t == x,
    ;
    assert(g * (2 * t) == twice * t - (v * d) * (2 * t)) by (nonlinear_arith)
        requires
            g == c * w - v * d,
            twice == 2 * (c * w),
    ;
    assert(d * h == d * (c * s) - d * x) by (nonlinear_arith)
        requires
            h == c * s - x,
    ;
    assert(g < 0 <==> h < 0) by (nonlinear_arith)
        requires
            g * (2 * t) == d * h,
            t > 0,
            d > 0,
    ;
    assert((-g) * (2 * t) == d * (-h)) by (nonlinear_arith)
        requires
            g * (2 * t) == d * h,
    ;
}

/// What reads as the magnitude at a place: the steps that were found or one more,
/// if anything.
proof fn lemma_candidates(m: nat, j: nat, q: nat, r: nat, a: nat, b: nat, c: nat)
    requires
        found(m, j, q, r, a, b),
    ensures
        reads(m, q, height() - j) == down(m, r, a),
        reads(m, q + 1, height() - j) == up(m, r, b),
        reads(m, c, height() - j) && c <= q ==> down(m, r, a),
        reads(m, c, height() - j) && c > q ==> up(m, r, b),
{
    let s = full() as int;
    lemma_found(m, j, q, r, a, b, q);
    lemma_found(m, j, q, r, a, b, q + 1);
    lemma_found(m, j, q, r, a, b, c);
    assert((q + 1) * s == q * s + s) by (nonlinear_arith);
    if c <= q {
        assert(c * s <= q * s) by (nonlinear_arith)
            requires
                c <= q,
                s >= 0,
        ;
    } else {
        assert(c * s >= (q + 1) * s) by (nonlinear_arith)
            requires
                c >= q + 1,
                s >= 0,
        ;
    }
}

/// The nearer of the steps that were found and one more is the nearest of all that
/// read.
proof fn lemma_chosen(m: nat, j: nat, q: nat, r: nat, a: nat, b: nat, c: nat)
    requires
        found(m, j, q, r, a, b),
        down(m, r, a) || up(m, r, b),
        c == (if up(m, r, b) && (!down(m, r, a) || 2 * r >= full()) {
            q + 1
        } else {
            q
        }),
        forall|x: nat, f: int| f > height() - j ==> !#[trigger] reads(m, x, f),
    ensures
        shortest(m, c, height() - j),
{
    let e = height() - j;
    let s = full() as int;
    lemma_places(j);
    lemma_candidates(m, j, q, r, a, b, c);
    lemma_found(m, j, q, r, a, b, c);
    assert((q + 1) * s == q * s + s) by (nonlinear_arith);
    assert forall|x: nat| #[trigger] reads(m, x, e) implies distance(m, c, e) < distance(m, x, e)
        || (distance(m, c, e) == distance(m, x, e) && x <= c) by {
        lemma_candidates(m, j, q, r, a, b, x);
        lemma_found(m, j, q, r, a, b, x);
        let g = size(c * s - q * s - r);
        let h = size(x * s - q * s - r);
        lemma_scaled_order(
            distance(m, c, e) as int,
            distance(m, x, e) as int,
            2 * ten(j) as int,
            parts(e) as int,
            g,
            h,
        );
        lemma_scaled_order(
            distance(m, x, e) as int,
            distance(m, c, e) as int,
            2 * ten(j) as int,
            parts(e) as int,
            h,
            g,
        );
        if x < q {
            assert(x * s <= q * s - s) by (nonlinear_arith)
                requires
                    x <= q - 1,
                    s >= 0,
            ;
        } else if x > q + 1 {
            assert(x * s >= q * s + 2 * s) by (nonlinear_arith)
                requires
                    x >= q + 2,
                    s >= 0,
            ;
        }
    }
}

/// Nothing reads as a magnitude above the highest place.
proof fn lemma_start(m: nat, q: nat, e: nat)
    requires
        m == e * two(52) + q,
        0 < q < two(53),
        e > 0 ==> q >= two(52),
        e <= 2045,
    ensures
        found(
            m,
            0,
            0,
            2 * units(m, 53),
            (units(m, 53) - units((m - 1) as nat, 53)) as nat,
            (units(m + 1, 53) - units(m, 53)) as nat,
        ),
        forall|x: nat, f: int| f > height() ==> !#[trigger] reads(m, x, f),
{
    let v = units(m, 53);
    let t = two(e);
    let p = two(unit(53));
    lemma_neighbours(m, q, e);
    lemma_two_pos(e);
    if e > 0 {
        lemma_two_pos((e - 1) as nat);
    }
    lemma_two_adds(53, 2045);
    lemma_two_monotonic(e, 2045);
    lemma_two_pos(2045);
    let big = two(2098);
    assert(v < big && t <= big) by (nonlinear_arith)
        requires
            v == q * t,
            q < two(53),
            t <= two(2045),
            two(2045) > 0,
            big == two(53) * two(2045),
    ;
    lemma_ten_over_two(height());
    lemma_two_adds(1026, 1074);
    lemma_two_adds(2, 2098);
    assert(two(2) == 4) by {
        reveal_with_fuel(two, 3);
    }
    let k = ten(height());
    assert(k * p >= 4 * big) by (nonlinear_arith)
        requires
            k >= two(1026),
            two(1026) * p == 4 * big,
    ;
    assert(v * 1 == v && 2 * v * 1 == 2 * v && 0 * full() == 0) by (nonlinear_arith);
    assert(ten(0) == 1);
    let a = (v - units((m - 1) as nat, 53)) as nat;
    let b = (units(m + 1, 53) - v) as nat;
    assert(a * 1 == a && b * 1 == b) by (nonlinear_arith);
    assert forall|x: nat, f: int| f > height() implies !#[trigger] reads(m, x, f) by {
        let lo = units((m - 1) as nat, 53) + v;
        let hi = v + units(m + 1, 53);
        assert(lo * 1 == lo && hi * 1 == hi) by (nonlinear_arith);
        let w = step(f);
        if x == 0 {
            assert(0 * w == 0) by (nonlinear_arith);
        } else {
            let n = ten(f as nat);
            lemma_ten_monotonic(height(), f as nat);
            assert(x * w >= k * p) by (nonlinear_arith)
                requires
                    x >= 1,
                    w == n * p,
                    n >= k,
            ;
        }
    }
}

/// Some decimal reads as the magnitude at the lowest place that is looked at.
proof fn lemma_end(m: nat, j: nat, q: nat, r: nat, a: nat, b: nat)
    requires
        found(m, j, q, r, a, b),
        j >= 1417,
    ensures
        down(m, r, a),
{
    let g = units(m, 53) - units((m - 1) as nat, 53);
    let t = ten(j);
    let k = ten(height());
    lemma_ten_monotonic(1417, j);
    lemma_ten_adds(height(), 1075);
    lemma_ten_over_two(1075);
    lemma_two_monotonic(1075, 3225);
    assert(two(1075) == 2 * two(1074));
    let p = two(1074);
    assert(t >= 2 * (k * p)) by (nonlinear_arith)
        requires
            t >= k * ten(1075),
            ten(1075) >= 2 * p,
    ;
    assert(a >= t) by (nonlinear_arith)
        requires
            a == g * t,
            a > 0,
            t >= 0,
    ;
}

/// Before a decimal was found, few digits are known.
proof fn lemma_few(m: nat, j: nat, q: nat, r: nat, a: nat, b: nat, n: nat, e: nat)
    requires
        found(m, j, q, r, a, b),
        !up(m, r, b),
        units(m, 53) == n * two(e),
        units(m + 1, 53) - units(m, 53) == two(e),
    ensures
        q <= 2 * n,
{
    let (s, t, h) = (full(), ten(j), two(e));
    let x = h * t;
    assert(q * x <= 2 * n * x) by (nonlinear_arith)
        requires
            2 * (n * h) * t == q * s + r,
            s >= x,
            x == h * t,
            r >= 0,
            q >= 0,
    ;
    assert(q <= 2 * n) by (nonlinear_arith)
        requires
            q * x <= 2 * n * x,
            x > 0,
    ;
}

/// One place further down.
proof fn lemma_further(
    m: nat,
    j: nat,
    q: nat,
    r: nat,
    a: nat,
    b: nat,
    digit: nat,
    rest: nat,
)
    requires
        found(m, j, q, r, a, b),
        10 * r == digit * full() + rest,
        rest < full(),
    ensures
        found(m, j + 1, 10 * q + digit, rest, 10 * a, 10 * b),
{
    let (s, t) = (full(), ten(j));
    let v = units(m, 53);
    let x = v - units((m - 1) as nat, 53);
    let y = units(m + 1, 53) - v;
    assert(ten(j + 1) == 10 * t);
    assert(2 * v * (10 * t) == (10 * q + digit) * s + rest) by (nonlinear_arith)
        requires
            2 * v * t == q * s + r,
            10 * r == digit * s + rest,
    ;
    assert(x * (10 * t) == 10 * (x * t)) by (nonlinear_arith);
    assert(y * (10 * t) == 10 * (y * t)) by (nonlinear_arith);
}

/// A number times a power of ten.
fn raised(n: Natural, e: u32) -> (r: Natural)
    ensures
        r@ == n@ * ten(e as nat),
{
    let mut r = n.copied();
    let mut i: u32 = 0;
    proof {
        assert(n@ * 1 == n@) by (nonlinear_arith);
    }
    while i < e
        invariant
            i <= e,
            r@ == n@ * ten(i as nat),
        decreases e - i,
    {
        proof {
            let (v, t) = (n@, ten(i as nat));
            assert((v * t) * 10 == v * (10 * t)) by (nonlinear_arith);
        }
        r = r.times(10);
        i = i + 1;
    }
    r
}

/// The quotient and the rest of a small multiple.
fn divided(n: Natural, d: &Natural) -> (r: (u64, Natural))
    requires
        n@ < 10 * d@,
    ensures
        n@ == r.0 * d@ + r.1@,
        r.1@ < d@,
        r.0 <= 9,
{
    let mut digit: u64 = 0;
    let mut rest = n.copied();
    proof {
        assert(0 * d@ == 0) by (nonlinear_arith);
    }
    while rest.at_least(d)
        invariant
            n@ == digit * d@ + rest@,
            n@ < 10 * d@,
            digit <= 9,
        decreases rest@,
    {
        proof {
            let x = d@;
            assert((digit + 1) * x == digit * x + x) by (nonlinear_arith);
            assert(digit < 9) by (nonlinear_arith)
                requires
                    (digit + 1) * x < 10 * x,
                    x > 0,
            ;
        }
        rest = rest.minus(d);
        digit = digit + 1;
    }
    (digit, rest)
}

/// Finds the decimal of a magnitude, from the highest place down.
pub fn shortest_digits(m: u64) -> (r: (u64, i32))
    requires
        0 < m < infinite(53),
    ensures
        shortest(m as nat, r.0 as nat, r.1 as int),
        shortest_decimal(m as nat) == (r.0 as nat, r.1 as int),
        -1075 <= r.1 <= 342,
{
    let (n, e): (u64, u32) = unpack(m, 53);
    let one: u64 = exec_one(53);
    let even: bool = m % 2 == 0;
    proof {
        lemma_two_values();
        assert(n > 0);
        lemma_start(m as nat, n as nat, e as nat);
        lemma_neighbours(m as nat, n as nat, e as nat);
        let t = two(e as nat);
        assert((n * t) * 2 == 2 * (n * t) && 1 * t == t) by (nonlinear_arith);
    }
    let mut r = Natural::from_word(n).shifted(e).times(2);
    let unit = Natural::from_word(1);
    let mut a = if n == one && e > 0 {
        proof {
            let t = two((e - 1) as nat);
            assert(1 * t == t) by (nonlinear_arith);
        }
        unit.shifted(e - 1)
    } else {
        unit.shifted(e)
    };
    let mut b = unit.shifted(e);
    let s = raised(unit.shifted(1075), 342);
    proof {
        let (p, k) = (two(1074), ten(342));
        assert(two(1075) == 2 * p);
        assert((1 * (2 * p)) * k == 2 * (k * p)) by (nonlinear_arith);
    }
    let mut q: u64 = 0;
    let mut j: u32 = 0;
    loop
        invariant
            found(m as nat, j as nat, q as nat, r@, a@, b@),
            forall|x: nat, f: int| f > height() - j ==> !#[trigger] reads(m as nat, x, f),
            s@ == full(),
            even == (m % 2 == 0),
            q <= 0x280_0000_0000_0000,
            j <= 1417,
            units(m as nat, 53) == n * two(e as nat),
            units(m as nat + 1, 53) - units(m as nat, 53) == two(e as nat),
            n < 0x20_0000_0000_0000,
        decreases 1417 - j,
    {
        let under: bool = if even {
            a.at_least(&r)
        } else {
            !r.at_least(&a)
        };
        let high = r.plus(&b);
        let over: bool = if even {
            high.at_least(&s)
        } else {
            !s.at_least(&high)
        };
        proof {
            assert(under == down(m as nat, r@, a@));
            assert(over == up(m as nat, r@, b@));
        }
        if under || over {
            let c: u64 = if over && (!under || r.times(2).at_least(&s)) {
                q + 1
            } else {
                q
            };
            proof {
                assert(r@ * 2 == 2 * r@);
                lemma_chosen(m as nat, j as nat, q as nat, r@, a@, b@, c as nat);
                law_shortest_unique(m as nat, c as nat, height() - j);
            }
            return (c, 342 - j as i32);
        }
        proof {
            if j >= 1417 {
                lemma_end(m as nat, j as nat, q as nat, r@, a@, b@);
            }
            lemma_few(m as nat, j as nat, q as nat, r@, a@, b@, n as nat, e as nat);
            assert forall|x: nat, f: int| f > height() - (j + 1) implies !#[trigger] reads(
                m as nat,
                x,
                f,
            ) by {
                if f == height() - j {
                    lemma_candidates(m as nat, j as nat, q as nat, r@, a@, b@, x);
                }
            }
        }
        let (digit, rest): (u64, Natural) = divided(r.times(10), &s);
        proof {
            lemma_further(
                m as nat,
                j as nat,
                q as nat,
                r@,
                a@,
                b@,
                digit as nat,
                rest@,
            );
        }
        r = rest;
        a = a.times(10);
        b = b.times(10);
        q = 10 * q + digit;
        j = j + 1;
    }
}

fn push_zeros(out: &mut String, n: usize)
    ensures
        final(out)@ == old(out)@ + zeros(n as nat),
{
    let mut i: usize = 0;
    proof {
        assert(out@ =~= old(out)@ + zeros(0));
    }
    while i < n
        invariant
            i <= n,
            out@ == old(out)@ + zeros(i as nat),
        decreases n - i,
    {
        out.push('0');
        i = i + 1;
        proof {
            assert(out@ =~= old(out)@ + zeros(i as nat));
        }
    }
}

/// Appends `c` steps of the place `e`.
fn push_written(out: &mut String, c: u64, e: i32)
    requires
        -1075 <= e <= 342,
    ensures
        final(out)@ == old(out)@ + written(c as nat, e as int),
{
    if e >= 0 {
        push_digits(out, c);
        push_zeros(out, e as usize);
        proof {
            assert(out@ =~= old(out)@ + written(c as nat, e as int));
        }
    } else {
        let n: usize = (-e) as usize;
        let mut plain = String::new();
        push_digits(&mut plain, c);
        proof {
            assert(plain@ =~= digits(c as nat));
        }
        let count: usize = chars_of(plain.as_str()).len();
        let mut all = String::new();
        if count <= n {
            push_zeros(&mut all, n + 1 - count);
        }
        push_text(&mut all, plain.as_str());
        proof {
            assert(all@ =~= filled(c as nat, n as nat));
        }
        let chars = chars_of(all.as_str());
        let point: usize = chars.len() - n;
        push_chars(out, &chars, 0, point);
        out.push('.');
        push_chars(out, &chars, point, chars.len());
        proof {
            assert(out@ =~= old(out)@ + written(c as nat, e as int));
        }
    }
}

impl Real {
    /// The number in decimals, with as few digits as tell it apart.
    pub fn to_text(&self) -> (s: String)
        ensures
            s@ == number_text(self.num()),
    {
        let a: Num = self.exec_num();
        let infinity: u64 = exec_infinite(53);
        if a.mag > infinity {
            return "NaN".to_owned();
        }
        let mut out = String::new();
        if a.neg {
            push_text(&mut out, "-");
        }
        let ghost sign = out@;
        if a.mag == infinity {
            push_text(&mut out, "inf");
        } else if a.mag == 0 {
            push_text(&mut out, "0");
        } else {
            let (c, e): (u64, i32) = shortest_digits(a.mag);
            push_written(&mut out, c, e);
        }
        proof {
            assert(out@ == sign + magnitude_text(a.mag as nat));
            assert(out@ =~= number_text(self.num()));
        }
        out
    }
}

} // verus!
