//! The arithmetic of real numbers, held against the machine's own.
use ggfm::number::{Real, Real32};

fn num(value: f64) -> Real {
    Real { bits: value.to_bits() }
}

fn same(ours: Real, theirs: f64) -> bool {
    let ours = f64::from_bits(ours.bits);
    ours.to_bits() == theirs.to_bits() || (ours.is_nan() && theirs.is_nan())
}

fn same32(ours: Real32, theirs: f32) -> bool {
    let ours = f32::from_bits(ours.bits);
    ours.to_bits() == theirs.to_bits() || (ours.is_nan() && theirs.is_nan())
}

fn samples() -> Vec<f64> {
    let mut values = vec![
        0.0,
        -0.0,
        1.0,
        -1.0,
        0.1,
        0.3,
        1.5,
        2.5,
        -2.5,
        0.5,
        0.49999999999999994,
        3.0,
        7.0,
        1e-300,
        1e300,
        f64::MAX,
        f64::MIN_POSITIVE,
        5e-324,
        f64::INFINITY,
        f64::NEG_INFINITY,
        f64::NAN,
        9007199254740993.0,
        4503599627370497.5,
        i64::MAX as f64,
        i64::MIN as f64,
        16777217.0,
        3.4028235677973366e38,
        1e-45,
    ];
    let mut state: u64 = 0x9e37_79b9_7f4a_7c15;
    for _ in 0..60 {
        state ^= state << 13;
        state ^= state >> 7;
        state ^= state << 17;
        values.push(f64::from_bits(state));
        values.push((state >> 20) as f64 / 1024.0);
    }
    values
}

#[test]
fn sums_products_and_quotients_round_as_the_machine_does() {
    for a in samples() {
        for b in samples() {
            let (x, y) = (num(a), num(b));
            assert!(same(x.add(&y), a + b), "{a:e} + {b:e}");
            assert!(same(x.sub(&y), a - b), "{a:e} - {b:e}");
            assert!(same(x.mul(&y), a * b), "{a:e} * {b:e}");
            assert!(same(x.div(&y), a / b), "{a:e} / {b:e}");
            assert_eq!(x.less_than(&y), a < b, "{a:e} < {b:e}");
            assert_eq!(x.at_most(&y), a <= b, "{a:e} <= {b:e}");
            if !(a == 0.0 && b == 0.0) {
                assert!(same(x.max(&y), a.max(b)), "max {a:e} {b:e}");
            }
        }
    }
}

#[test]
fn whole_numbers_are_made_as_the_machine_makes_them() {
    for a in samples() {
        let x = num(a);
        assert!(same(x.ceil(), a.ceil()), "ceil {a:e}");
        assert!(same(x.round(), a.round()), "round {a:e}");
        assert!(same(x.trunc(), a.trunc()), "trunc {a:e}");
        assert_eq!(x.to_i64(), a as i64, "{a:e} as i64");
        assert_eq!(x.is_finite(), a.is_finite(), "finite {a:e}");
        assert_eq!(x.is_amount(), a.is_finite() && a >= 0.0, "amount {a:e}");
        assert!(same32(x.narrow(), a as f32), "{a:e} as f32");
        let narrow = a as f32;
        let y = Real32 { bits: narrow.to_bits() };
        assert!(same(y.widen(), f64::from(narrow)), "widen {narrow:e}");
        assert!(same32(y.trunc(), narrow.trunc()), "trunc {narrow:e}");
        for b in samples() {
            let z = Real32 { bits: (b as f32).to_bits() };
            assert!(same32(y.add(&z), narrow + b as f32), "{narrow:e} + {b:e}");
            assert!(same32(y.mul(&z), narrow * b as f32), "{narrow:e} * {b:e}");
        }
    }
    for v in [0, 1, -1, 3, i64::MAX, i64::MIN, 9007199254740993, -9007199254740995, 1 << 60] {
        assert!(same(Real::from_i64(v), v as f64), "{v} as f64");
        assert!(same32(Real32::from_i64(v), v as f32), "{v} as f32");
    }
}

#[test]
fn amounts_are_kept_within_bounds() {
    let clamp = |v: f64| f64::from_bits(num(v).clamp(&num(0.0), &num(1.0)).bits);
    assert_eq!(clamp(-1.0), 0.0);
    assert_eq!(clamp(0.25), 0.25);
    assert_eq!(clamp(7.0), 1.0);
    assert!(clamp(f64::NAN).is_nan());
}

#[test]
fn numbers_are_written_as_the_machine_writes_them() {
    let mut values = samples();
    values.extend([
        2.0,
        10.0,
        12.5,
        999.0,
        1000.0,
        123456789.0,
        0.001,
        1.0 / 3.0,
        2.0 / 3.0,
        1e15,
        1e16,
        1e21,
        1e22,
        1e23,
        9007199254740992.0,
        9007199254740994.0,
        5e-324,
        1.5e-323,
        2.2250738585072011e-308,
        f64::MIN_POSITIVE,
        f64::MIN,
        f64::EPSILON,
        4.4501477170144023e-308,
        8.98846567431158e307,
        9.5367431640625e-7,
    ]);
    for exponent in (1..2047_u64).step_by(61) {
        let power = f64::from_bits(exponent << 52);
        values.extend([power, power.next_up(), power.next_down()]);
    }
    for value in values {
        assert_eq!(num(value).to_text(), value.to_string(), "{value:e}");
        assert_eq!(num(-value).to_text(), (-value).to_string(), "{value:e}");
    }
}

#[test]
fn written_numbers_are_read_back() {
    for value in samples() {
        let text = num(value).to_text();
        assert!(same(num(text.parse().unwrap()), value), "{text}");
    }
    assert_eq!(num(0.1 + 0.2).to_text(), "0.30000000000000004");
    assert_eq!(num(1e23).to_text(), "100000000000000000000000");
    assert_eq!(num(-0.0).to_text(), "-0");
    assert_eq!(num(f64::NAN).to_text(), "NaN");
    assert_eq!(num(f64::NEG_INFINITY).to_text(), "-inf");
}
