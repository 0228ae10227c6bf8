//! The binary64 module is checked here against the hardware operations:
//! every emulated operation must reproduce the native double result bit
//! for bit, across normals, subnormals, zeroes, infinities and ties.

use pixelmatch::binary64::{
    fb_abs, fb_add, fb_div, fb_eq, fb_gt, fb_lt, fb_mul, fb_neg, fb_of_i64, fb_of_u64, fb_sub,
    fb_to_byte, fb_trunc_i64,
};

fn samples() -> Vec<f64> {
    vec![
        0.0,
        -0.0,
        1.0,
        -1.0,
        0.1,
        -0.1,
        0.5,
        2.5,
        -2.5,
        1.5,
        255.0,
        -255.0,
        35215.0,
        1.618033988749895,
        2.618033988749895,
        1.0 / 3.0,
        -1.0 / 3.0,
        1e300,
        -1e300,
        1e-300,
        1e-310,
        -1e-310,
        5e-324,
        -5e-324,
        4.9406564584124654e-324,
        1.7976931348623157e308,
        -1.7976931348623157e308,
        f64::INFINITY,
        f64::NEG_INFINITY,
        f64::NAN,
        9007199254740992.0,
        9007199254740993.0_f64,
        1.0000000000000002,
        0.9999999999999999,
        123.456,
        -98765.4321,
        3.0,
        7.0,
        -13.0,
        1024.0,
        0.0078125,
    ]
}

fn same_bits(mine: u64, native: f64) -> bool {
    if native.is_nan() {
        let e = (mine >> 52) & 0x7ff;
        e == 0x7ff && (mine & 0xfffffffffffff) != 0
    } else {
        mine == native.to_bits()
    }
}

#[test]
fn test_oracle_add_sub() {
    for &a in &samples() {
        for &b in &samples() {
            let r = fb_add(a.to_bits(), b.to_bits());
            assert!(same_bits(r, a + b), "add {a:e} {b:e}: got {r:#x}");
            let s = fb_sub(a.to_bits(), b.to_bits());
            assert!(same_bits(s, a - b), "sub {a:e} {b:e}: got {s:#x}");
        }
    }
}

#[test]
fn test_oracle_mul() {
    for &a in &samples() {
        for &b in &samples() {
            let r = fb_mul(a.to_bits(), b.to_bits());
            assert!(same_bits(r, a * b), "mul {a:e} {b:e}: got {r:#x}");
        }
    }
}

#[test]
fn test_oracle_div() {
    for &a in &samples() {
        for &b in &samples() {
            let r = fb_div(a.to_bits(), b.to_bits());
            assert!(same_bits(r, a / b), "div {a:e} {b:e}: got {r:#x}");
        }
    }
}

#[test]
fn test_oracle_compare() {
    for &a in &samples() {
        for &b in &samples() {
            assert_eq!(fb_lt(a.to_bits(), b.to_bits()), a < b, "lt {a:e} {b:e}");
            assert_eq!(fb_gt(a.to_bits(), b.to_bits()), a > b, "gt {a:e} {b:e}");
            assert_eq!(fb_eq(a.to_bits(), b.to_bits()), a == b, "eq {a:e} {b:e}");
        }
    }
}

#[test]
fn test_oracle_neg_abs() {
    for &a in &samples() {
        assert_eq!(fb_neg(a.to_bits()), (-a).to_bits(), "neg {a:e}");
        if !a.is_nan() {
            assert_eq!(fb_abs(a.to_bits()), a.abs().to_bits(), "abs {a:e}");
        }
    }
}

#[test]
fn test_oracle_from_integers() {
    let ints: Vec<u64> = vec![
        0,
        1,
        2,
        255,
        256,
        65025,
        182835,
        (1 << 52) - 1,
        1 << 52,
        (1 << 53) - 1,
        1 << 53,
        (1 << 53) + 1,
        (1 << 53) + 2,
        (1 << 53) + 3,
        u64::MAX,
        u64::MAX - 1,
        0x8000000000000400,
        0x8000000000000401,
        12345678901234567,
    ];
    for &v in &ints {
        assert_eq!(fb_of_u64(v), (v as f64).to_bits(), "of_u64 {v}");
    }
    let sints: Vec<i64> = vec![
        0,
        1,
        -1,
        255,
        -255,
        -182835,
        i64::MAX,
        i64::MIN,
        i64::MIN + 1,
        -(1 << 53) - 1,
        (1 << 53) + 1,
    ];
    for &v in &sints {
        assert_eq!(fb_of_i64(v), (v as f64).to_bits(), "of_i64 {v}");
    }
}

#[test]
fn test_oracle_trunc() {
    for &a in &samples() {
        assert_eq!(fb_trunc_i64(a.to_bits()), a as i64, "trunc_i64 {a:e}");
        assert_eq!(fb_to_byte(a.to_bits()), a as u8, "to_byte {a:e}");
    }
    // values around the i64 boundary
    for a in [9.223372036854776e18f64, -9.223372036854776e18, 9.2e18, -9.2e18, 255.9, 256.1, -0.9]
    {
        assert_eq!(fb_trunc_i64(a.to_bits()), a as i64, "trunc_i64 {a:e}");
        assert_eq!(fb_to_byte(a.to_bits()), a as u8, "to_byte {a:e}");
    }
}

#[test]
fn test_oracle_tie_rounding() {
    // additions that land exactly on a rounding tie must round to even
    let base = 1.0_f64;
    let ulp = f64::EPSILON;
    let half = ulp / 2.0;
    assert_eq!(fb_add(base.to_bits(), half.to_bits()), (base + half).to_bits());
    let b2 = base + ulp;
    assert_eq!(fb_add(b2.to_bits(), half.to_bits()), (b2 + half).to_bits());
    // a tie a hair above the midpoint must round up instead
    let above = half + half * f64::EPSILON;
    assert_eq!(fb_add(base.to_bits(), above.to_bits()), (base + above).to_bits());
}
