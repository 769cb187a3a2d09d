use dsp_cat::interpret::signal::{BitWidth, FractionalBits};
use dsp_cat::sample::element::{clamp_to_i32, Sample};
use dsp_cat::sample::format::SampleFormat;

#[test]
fn zero_is_additive_identity() {
    let s = Sample::new(42);
    assert_eq!(s + Sample::zero(), s);
    assert_eq!(Sample::zero() + s, s);
}

#[test]
fn add_is_commutative() {
    let a = Sample::new(10);
    let b = Sample::new(20);
    assert_eq!(a + b, b + a);
}

#[test]
fn add_saturates_at_max() {
    let a = Sample::new(i32::MAX);
    let b = Sample::new(1);
    assert_eq!((a + b).value(), i32::MAX);
}

#[test]
fn sub_saturates_at_min() {
    let a = Sample::new(i32::MIN);
    let b = Sample::new(1);
    assert_eq!((a - b).value(), i32::MIN);
}

#[test]
fn negation_of_zero_is_zero() {
    assert_eq!(-Sample::zero(), Sample::zero());
}

#[test]
fn negation_round_trip() {
    let s = Sample::new(42);
    assert_eq!(-(-s), s);
}

#[test]
fn widening_mul_preserves_precision() {
    let a = Sample::new(1_000_000);
    let b = Sample::new(1_000_000);
    assert_eq!(a.widening_mul(b), 1_000_000_000_000_i64);
}

#[test]
fn from_i32_round_trips() {
    let v = 12345_i32;
    let s = Sample::from(v);
    assert_eq!(s.value(), v);
}

#[test]
fn display_shows_value() {
    let s = Sample::new(-7);
    let text = s.to_string();
    assert_eq!(text, "Sample(-7)");
}

#[test]
fn negation_of_min_saturates() {
    assert_eq!((-Sample::new(i32::MIN)).value(), i32::MAX);
}

#[test]
fn sub_undoes_add_without_saturation() {
    let a = Sample::new(-300);
    let b = Sample::new(1234);
    assert_eq!((a + b) - b, a);
}

#[test]
fn one_is_one() {
    assert_eq!(Sample::one().value(), 1);
    assert_eq!(Sample::one().saturating_add(Sample::one()).value(), 2);
}

#[test]
fn saturating_methods_clamp() {
    assert_eq!(Sample::new(i32::MAX).saturating_add(Sample::new(5)).value(), i32::MAX);
    assert_eq!(Sample::new(i32::MIN).saturating_sub(Sample::new(5)).value(), i32::MIN);
    assert_eq!(Sample::new(i32::MIN).saturating_neg().value(), i32::MAX);
}

#[test]
fn clamp_to_i32_cases() {
    assert_eq!(clamp_to_i32(i64::MAX), i32::MAX);
    assert_eq!(clamp_to_i32(i64::MIN), i32::MIN);
    assert_eq!(clamp_to_i32(-17), -17);
}

#[test]
fn display_of_positive_and_zero() {
    assert_eq!(Sample::new(0).to_string(), "Sample(0)");
    assert_eq!(Sample::new(i32::MIN).to_string(), "Sample(-2147483648)");
}

#[test]
fn q15_format_has_correct_integer_bits() {
    let fmt = SampleFormat::new(BitWidth::new(32), FractionalBits::new(15));
    assert_eq!(fmt.integer_bits(), 16);
}

#[test]
fn widen_adds_total_bits() {
    let fmt = SampleFormat::new(BitWidth::new(32), FractionalBits::new(15));
    let wider = fmt.widen(8);
    assert_eq!(wider.total_bits().value(), 40);
    assert_eq!(wider.fractional_bits().value(), 15);
}

#[test]
fn display_shows_q_notation() {
    let fmt = SampleFormat::new(BitWidth::new(32), FractionalBits::new(15));
    assert_eq!(fmt.to_string(), "Q16.15");
}

#[test]
fn integer_bits_floor_at_zero() {
    let fmt = SampleFormat::new(BitWidth::new(8), FractionalBits::new(8));
    assert_eq!(fmt.integer_bits(), 0);
    assert_eq!(fmt.to_string(), "Q0.8");
    let fmt = SampleFormat::new(BitWidth::new(4), FractionalBits::new(9));
    assert_eq!(fmt.integer_bits(), 0);
}
