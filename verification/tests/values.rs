use std::cmp::Ordering;

use gpss_vm::error::VmError;
use gpss_vm::random::RandomSource;
use gpss_vm::values::{GpssValue, Transact};

fn float(x: f32) -> GpssValue {
    GpssValue::Float(x.to_bits())
}

#[test]
fn equal_compares_values_of_one_tag() {
    assert_eq!(GpssValue::Integer(5).equal(GpssValue::Integer(5)), Ok(true));
    assert_eq!(GpssValue::Integer(5).equal(GpssValue::Integer(-5)), Ok(false));
    assert_eq!(GpssValue::Boolean(true).equal(GpssValue::Boolean(true)), Ok(true));
    assert_eq!(GpssValue::Boolean(true).equal(GpssValue::Boolean(false)), Ok(false));
    assert_eq!(GpssValue::UnsignedInteger(7).equal(GpssValue::UnsignedInteger(7)), Ok(true));
    assert_eq!(GpssValue::Facility(0).equal(GpssValue::Facility(1)), Ok(false));
    assert_eq!(float(0.5).equal(float(0.5)), Ok(true));
    assert_eq!(float(0.5).equal(float(0.25)), Ok(false));
}

#[test]
fn equal_on_floats_is_numeric() {
    assert_eq!(float(0.0).equal(float(-0.0)), Ok(true));
    assert_eq!(float(f32::NAN).equal(float(f32::NAN)), Ok(false));
    assert_ne!(float(0.0), float(-0.0));
}

#[test]
fn equal_rejects_different_tags() {
    assert_eq!(GpssValue::Integer(1).equal(GpssValue::UnsignedInteger(1)), Err(VmError::TypeMismatch));
    assert_eq!(GpssValue::Boolean(false).equal(GpssValue::Facility(0)), Err(VmError::TypeMismatch));
    assert_eq!(float(1.0).equal(GpssValue::Integer(1)), Err(VmError::TypeMismatch));
}

#[test]
fn compare_orders_values_of_one_tag() {
    assert_eq!(GpssValue::Integer(-3).compare(GpssValue::Integer(2)), Ok(Ordering::Less));
    assert_eq!(GpssValue::Integer(2).compare(GpssValue::Integer(2)), Ok(Ordering::Equal));
    assert_eq!(GpssValue::Integer(3).compare(GpssValue::Integer(2)), Ok(Ordering::Greater));
    assert_eq!(
        GpssValue::UnsignedInteger(1).compare(GpssValue::UnsignedInteger(4_000_000_000)),
        Ok(Ordering::Less)
    );
    assert_eq!(GpssValue::Facility(9).compare(GpssValue::Facility(3)), Ok(Ordering::Greater));
    assert_eq!(GpssValue::Boolean(false).compare(GpssValue::Boolean(true)), Ok(Ordering::Less));
    assert_eq!(GpssValue::Boolean(true).compare(GpssValue::Boolean(false)), Ok(Ordering::Greater));
    assert_eq!(GpssValue::Boolean(true).compare(GpssValue::Boolean(true)), Ok(Ordering::Equal));
    assert_eq!(float(-1.5).compare(float(0.25)), Ok(Ordering::Less));
    assert_eq!(float(0.0).compare(float(-0.0)), Ok(Ordering::Equal));
    assert_eq!(float(f32::INFINITY).compare(float(f32::MAX)), Ok(Ordering::Greater));
}

#[test]
fn compare_agrees_with_partial_cmp_on_floats() {
    let samples = [0.0f32, -0.0, 1.0, -1.0, 0.01, f32::MAX, f32::MIN, f32::INFINITY, f32::NAN, 1.0e-40];
    for a in samples {
        for b in samples {
            let expected = match a.partial_cmp(&b) {
                Some(o) => Ok(o),
                None => Err(VmError::TypeMismatch),
            };
            assert_eq!(float(a).compare(float(b)), expected);
        }
    }
}

#[test]
fn compare_rejects_different_tags() {
    assert_eq!(GpssValue::Integer(1).compare(GpssValue::Boolean(true)), Err(VmError::TypeMismatch));
    assert_eq!(GpssValue::Facility(1).compare(GpssValue::UnsignedInteger(1)), Err(VmError::TypeMismatch));
}

#[test]
fn coercions_accept_only_their_tag() {
    assert_eq!(GpssValue::Boolean(true).to_bool(), Ok(true));
    assert_eq!(GpssValue::Integer(1).to_bool(), Err(VmError::TypeMismatch));
    assert_eq!(GpssValue::UnsignedInteger(9).to_u32(), Ok(9));
    assert_eq!(GpssValue::Integer(9).to_u32(), Err(VmError::TypeMismatch));
    assert_eq!(GpssValue::UnsignedInteger(9).to_usize(), Ok(9usize));
    assert_eq!(GpssValue::Facility(9).to_usize(), Err(VmError::TypeMismatch));
    assert_eq!(float(2.5).to_float_bits(), Ok(2.5f32.to_bits()));
    assert_eq!(GpssValue::Boolean(false).to_float_bits(), Err(VmError::TypeMismatch));
}

#[test]
fn facility_is_busy_when_occupied() {
    assert_eq!(GpssValue::Facility(0).is_facility_busy(), Some(false));
    assert_eq!(GpssValue::Facility(1).is_facility_busy(), Some(true));
    assert_eq!(GpssValue::Facility(255).is_facility_busy(), Some(true));
    assert_eq!(GpssValue::UnsignedInteger(1).is_facility_busy(), None);
    assert_eq!(GpssValue::Boolean(true).is_facility_busy(), None);
}

#[test]
fn empty_value_is_false() {
    assert_eq!(GpssValue::empty(), GpssValue::Boolean(false));
}

#[test]
fn empty_transact_has_sixteen_empty_parameters() {
    let t = Transact::empty();
    assert_eq!(t.params.len(), 16);
    for p in t.params {
        assert_eq!(p, GpssValue::Boolean(false));
    }
}

#[test]
fn generated_transact_holds_its_number_first() {
    let t = Transact::generated(-42);
    assert_eq!(t.params[0], GpssValue::Integer(-42));
    for p in &t.params[1..] {
        assert_eq!(*p, GpssValue::Boolean(false));
    }
}

#[test]
fn new_with_rng_fills_the_first_parameter() {
    let mut source = RandomSource::seeded(7);
    let t = Transact::new_with_rng(&mut source);
    assert!(matches!(t.params[0], GpssValue::Integer(_)));
    for p in &t.params[1..] {
        assert_eq!(*p, GpssValue::Boolean(false));
    }
    let mut thread = RandomSource::thread();
    let u = Transact::new_with_rng(&mut thread);
    assert!(matches!(u.params[0], GpssValue::Integer(_)));
}

#[test]
fn seeded_sources_repeat_their_numbers() {
    let mut a = RandomSource::seeded(2024);
    let mut b = RandomSource::seeded(2024);
    let first: Vec<i32> = (0..32).map(|_| a.next_i32()).collect();
    let second: Vec<i32> = (0..32).map(|_| b.next_i32()).collect();
    assert_eq!(first, second);
    assert!(first.iter().any(|n| *n != first[0]));
    let mut c = RandomSource::seeded(2025);
    let third: Vec<i32> = (0..32).map(|_| c.next_i32()).collect();
    assert_ne!(first, third);
}
