//! Limits, and the arithmetic on bit patterns that they rest on, against the
//! floating point of the machine.

use spe6103::double::{fixed_text, product_exceeds, product_text, within};
use spe6103::limits::{check_protect, check_va, curr_ok, power_exceeded, volt_ok, Quantity, A_MAX, P_MAX, V_MAX};

fn quantity(x: f64) -> Quantity {
    Quantity {
        bits: x.to_bits(),
        shown: format!("{x}"),
    }
}

/// The same check, with the machine's own numbers.
fn expected(volt: f64, curr: f64) -> Result<(), String> {
    if !(0.0..=60.0).contains(&volt) {
        return Err(format!("V範囲外: {volt} (0-60V)"));
    }
    if !(0.0..=10.0).contains(&curr) {
        return Err(format!("A範囲外: {curr} (0-10A)"));
    }
    if volt * curr > 300.0 + 1e-9 {
        return Err(format!(
            "電力超過: {volt}V×{curr}A={:.1}W (>300W)",
            volt * curr
        ));
    }
    Ok(())
}

fn next_random(state: &mut u64) -> u64 {
    *state = state
        .wrapping_mul(6364136223846793005)
        .wrapping_add(1442695040888963407);
    *state >> 11
}

fn unit(state: &mut u64) -> f64 {
    next_random(state) as f64 / (1u64 << 53) as f64
}

#[test]
fn patterns_of_the_limits() {
    assert_eq!(V_MAX, 60.0f64.to_bits());
    assert_eq!(A_MAX, 10.0f64.to_bits());
    assert_eq!(P_MAX as f64, (300.0 + 1e-9) * (1u64 << 44) as f64);
}

#[test]
fn settings_in_range_pass() {
    assert_eq!(check_va(&quantity(8.4), &quantity(1.25)), Ok(()));
    assert_eq!(check_va(&quantity(0.0), &quantity(0.0)), Ok(()));
    assert_eq!(check_va(&quantity(-0.0), &quantity(-0.0)), Ok(()));
    assert_eq!(check_va(&quantity(60.0), &quantity(5.0)), Ok(()));
    assert_eq!(check_va(&quantity(30.0), &quantity(10.0)), Ok(()));
    assert_eq!(check_va(&quantity(5e-324), &quantity(5e-324)), Ok(()));
}

#[test]
fn voltage_out_of_range() {
    assert_eq!(
        check_va(&quantity(61.0), &quantity(1.0)),
        Err("V範囲外: 61 (0-60V)".to_string())
    );
    assert_eq!(
        check_va(&quantity(-0.5), &quantity(1.0)),
        Err("V範囲外: -0.5 (0-60V)".to_string())
    );
    assert_eq!(
        check_va(&quantity(f64::NAN), &quantity(1.0)),
        Err("V範囲外: NaN (0-60V)".to_string())
    );
    assert_eq!(
        check_va(&quantity(f64::INFINITY), &quantity(1.0)),
        Err("V範囲外: inf (0-60V)".to_string())
    );
}

#[test]
fn current_out_of_range() {
    assert_eq!(
        check_va(&quantity(1.0), &quantity(10.001)),
        Err("A範囲外: 10.001 (0-10A)".to_string())
    );
}

#[test]
fn power_out_of_range() {
    assert_eq!(
        check_va(&quantity(60.0), &quantity(5.5)),
        Err("電力超過: 60V×5.5A=330.0W (>300W)".to_string())
    );
    assert_eq!(
        check_va(&quantity(60.0), &quantity(10.0)),
        Err("電力超過: 60V×10A=600.0W (>300W)".to_string())
    );
}

#[test]
fn protection_limits_have_no_power() {
    assert_eq!(check_protect(&quantity(60.0), &quantity(10.0)), Ok(()));
    assert_eq!(
        check_protect(&quantity(60.1), &quantity(1.0)),
        Err("OVP範囲外: 60.1 (0-60V)".to_string())
    );
    assert_eq!(
        check_protect(&quantity(1.0), &quantity(-1.0)),
        Err("OCP範囲外: -1 (0-10A)".to_string())
    );
}

#[test]
fn checks_agree_with_floating_point() {
    let mut state: u64 = 7;
    for _ in 0..20000 {
        let volt = unit(&mut state) * 66.0 - 2.0;
        let curr = unit(&mut state) * 11.0 - 0.4;
        assert_eq!(check_va(&quantity(volt), &quantity(curr)), expected(volt, curr));
    }
}

#[test]
fn checks_agree_around_the_power_limit() {
    let mut state: u64 = 11;
    let limit: f64 = 300.0 + 1e-9;
    for _ in 0..20000 {
        let curr = 5.0 + unit(&mut state) * 5.0;
        let exact = limit / curr;
        for step in 0..7u64 {
            let volt = f64::from_bits(exact.to_bits() - 3 + step);
            assert_eq!(check_va(&quantity(volt), &quantity(curr)), expected(volt, curr));
        }
    }
}

#[test]
fn checks_agree_on_any_pattern() {
    let mut state: u64 = 13;
    for _ in 0..20000 {
        let volt = f64::from_bits(next_random(&mut state) << 11 | next_random(&mut state) >> 42);
        assert_eq!(volt_ok(volt.to_bits()), (0.0..=60.0).contains(&volt));
        assert_eq!(curr_ok(volt.to_bits()), (0.0..=10.0).contains(&volt));
    }
}

#[test]
fn checks_agree_next_to_the_bounds() {
    for top in [60.0f64, 10.0] {
        for step in 0..5u64 {
            let x = f64::from_bits(top.to_bits() - 2 + step);
            assert_eq!(within(x.to_bits(), top.to_bits()), x <= top);
        }
    }
}

#[test]
fn three_digits_agree_with_formatting() {
    let mut state: u64 = 17;
    for _ in 0..20000 {
        let x = unit(&mut state) * 60.0;
        assert_eq!(fixed_text(x.to_bits()), format!("{x:.3}"));
    }
    for n in 0..=60000u32 {
        let x = n as f64 / 1000.0;
        assert_eq!(fixed_text(x.to_bits()), format!("{x:.3}"));
    }
}

#[test]
fn three_digits_agree_on_ties_and_small_numbers() {
    // Halves of a thousandth that a double holds exactly are sixteenths.
    for n in 0..960u32 {
        let x = n as f64 / 16.0;
        assert_eq!(fixed_text(x.to_bits()), format!("{x:.3}"));
    }
    for x in [0.0f64, -0.0, 5e-324, 1e-300, 1e-7, 0.0005, 0.00049999, 0.9995, 59.9995, 60.0] {
        assert_eq!(fixed_text(x.to_bits()), format!("{x:.3}"));
    }
    assert_eq!(fixed_text(8.4f64.to_bits()), "8.400");
    assert_eq!(fixed_text(1.25f64.to_bits()), "1.250");
    assert_eq!(fixed_text((-0.0f64).to_bits()), "-0.000");
}

#[test]
fn product_texts_agree_with_formatting() {
    let mut state: u64 = 19;
    for _ in 0..20000 {
        let a = 16.0 + unit(&mut state) * 44.0;
        let b = 4.0 + unit(&mut state) * 6.0;
        assert_eq!(
            product_text(a.to_bits(), b.to_bits()),
            format!("{:.1}", a * b)
        );
    }
}

#[test]
fn products_agree_with_floating_point() {
    let mut state: u64 = 23;
    let step = (1u64 << 44) as f64;
    for _ in 0..20000 {
        let a = unit(&mut state) * 60.0;
        let b = unit(&mut state) * 10.0;
        let limit = 240.0 + unit(&mut state) * 270.0;
        let steps = (limit * step) as u64;
        assert_eq!(
            product_exceeds(a.to_bits(), b.to_bits(), steps),
            a * b > steps as f64 / step
        );
    }
    assert!(power_exceeded(60.0f64.to_bits(), 5.0000001f64.to_bits()));
    assert!(!power_exceeded(60.0f64.to_bits(), 5.0f64.to_bits()));
}

#[test]
fn whatever_is_deliverable_is_sent_close_to_what_was_asked() {
    let mut state: u64 = 29;
    for _ in 0..5000 {
        let volt = unit(&mut state) * 60.0;
        let curr = unit(&mut state) * 5.0;
        if check_va(&quantity(volt), &quantity(curr)).is_ok() {
            let sent: f64 = fixed_text(volt.to_bits()).parse().unwrap();
            assert!((sent - volt).abs() <= 0.0005 + 1e-12);
            assert!(sent <= 60.0);
        }
    }
}
