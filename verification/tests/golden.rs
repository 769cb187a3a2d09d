use dsp_cat::error::Error;
use dsp_cat::golden::accumulator::accumulate;
use dsp_cat::golden::cic::{cic_decimate, cic_interpolate, first_difference, prefix_sum};
use dsp_cat::golden::decimator::decimate;
use dsp_cat::golden::delay::delay_line;
use dsp_cat::golden::fir::{fir_convolve, saturating_add_i64};
use dsp_cat::golden::gain::apply_gain;
use dsp_cat::golden::interpolator::interpolate;
use dsp_cat::golden::pipeline::{descriptor_shifts_in_range, golden_runs_clean, pipeline_golden};
use dsp_cat::interpret::descriptor::DspBlockDescriptor;
use dsp_cat::interpret::signal::{
    BlockIndex, CicOrder, DelayDepth, FractionalBits, GainCoefficient, RateFactor,
};
use dsp_cat::sample::element::Sample;

fn samples(values: &[i32]) -> Vec<Sample> {
    values.iter().map(|v| Sample::new(*v)).collect()
}

fn values(samples: &[Sample]) -> Vec<i32> {
    samples.iter().map(|s| s.value()).collect()
}

// ---- accumulator ----

#[test]
fn accumulator_empty_input_produces_empty() {
    let output = accumulate(&[]);
    assert!(output.is_empty());
}

#[test]
fn single_element_is_identity() {
    let output = accumulate(&[Sample::new(42)]);
    assert_eq!(output, vec![Sample::new(42)]);
}

#[test]
fn accumulates_prefix_sums() {
    let input: Vec<Sample> = (1..=4).map(Sample::new).collect();
    let output = accumulate(&input);
    assert_eq!(values(&output), vec![1, 3, 6, 10]);
}

#[test]
fn accumulate_saturates() {
    let input = vec![Sample::new(i32::MAX), Sample::new(1)];
    let output = accumulate(&input);
    assert_eq!(output[1].value(), i32::MAX);
}

#[test]
fn accumulate_saturates_at_min_then_recovers() {
    let input = samples(&[i32::MIN, -1, 5]);
    let output = accumulate(&input);
    assert_eq!(values(&output), vec![i32::MIN, i32::MIN, i32::MIN + 5]);
}

// ---- CIC ----

#[test]
fn order_zero_is_error() {
    let result = cic_decimate(&[Sample::new(1)], CicOrder::new(0), RateFactor::new(2));
    assert!(result.is_err());
}

#[test]
fn rate_factor_zero_is_error() {
    let result = cic_decimate(&[Sample::new(1)], CicOrder::new(1), RateFactor::new(0));
    assert!(result.is_err());
}

#[test]
fn order_1_rate_1_is_identity() -> Result<(), Error> {
    let input: Vec<Sample> = (1..=4).map(Sample::new).collect();
    let output = cic_decimate(&input, CicOrder::new(1), RateFactor::new(1))?;
    assert_eq!(output, input);
    Ok(())
}

#[test]
fn order_2_rate_2() -> Result<(), Error> {
    let input: Vec<Sample> = (1..=8).map(Sample::new).collect();
    let output = cic_decimate(&input, CicOrder::new(2), RateFactor::new(2))?;
    assert_eq!(output.len(), 4);
    Ok(())
}

#[test]
fn constant_input_through_cic() -> Result<(), Error> {
    let input: Vec<Sample> = std::iter::repeat_n(Sample::new(1), 16).collect();
    let output = cic_decimate(&input, CicOrder::new(1), RateFactor::new(4))?;
    assert_eq!(output.len(), 4);
    assert_eq!(output.last().map(|s| s.value()), Some(4));
    Ok(())
}

#[test]
fn cic_empty_input_produces_empty() -> Result<(), Error> {
    let output = cic_decimate(&[], CicOrder::new(1), RateFactor::new(2))?;
    assert!(output.is_empty());
    Ok(())
}

#[test]
fn prefix_sum_correctness() {
    let input: Vec<Sample> = (1..=4).map(Sample::new).collect();
    let output = prefix_sum(&input);
    assert_eq!(values(&output), vec![1, 3, 6, 10]);
}

#[test]
fn first_difference_correctness() {
    let input: Vec<Sample> = vec![1, 3, 6, 10].into_iter().map(Sample::new).collect();
    let output = first_difference(&input);
    assert_eq!(values(&output), vec![1, 2, 3, 4]);
}

#[test]
fn first_difference_undoes_prefix_sum() {
    let input = samples(&[4, -2, 7, 0, 9]);
    assert_eq!(first_difference(&prefix_sum(&input)), input);
}

#[test]
fn cic_decimate_order_2_rate_2_values() -> Result<(), Error> {
    // Integrate twice: [1,3,6,10,15,21], [1,4,10,20,35,56];
    // keep every second: [1,10,35]; difference twice: [1,9,25] then [1,8,16].
    let output = cic_decimate(&samples(&[1, 2, 3, 4, 5, 6]), CicOrder::new(2), RateFactor::new(2))?;
    assert_eq!(values(&output), vec![1, 8, 16]);
    Ok(())
}

#[test]
fn cic_interpolate_order_1_rate_2_values() -> Result<(), Error> {
    // Difference: [1,1,1]; stuff zeros: [1,0,1,0,1,0]; integrate: [1,1,2,2,3,3].
    let output = cic_interpolate(&samples(&[1, 2, 3]), CicOrder::new(1), RateFactor::new(2))?;
    assert_eq!(values(&output), vec![1, 1, 2, 2, 3, 3]);
    Ok(())
}

#[test]
fn cic_interpolate_refuses_order_zero_first() {
    let result = cic_interpolate(&samples(&[1]), CicOrder::new(0), RateFactor::new(0));
    match result {
        Err(Error::Cic(message)) => assert_eq!(message, "order must be at least 1"),
        other => panic!("unexpected result: {other:?}"),
    }
}

// ---- decimator ----

#[test]
fn decimator_factor_one_is_identity() -> Result<(), Error> {
    let input = vec![Sample::new(1), Sample::new(2), Sample::new(3)];
    let output = decimate(&input, RateFactor::new(1))?;
    assert_eq!(output, input);
    Ok(())
}

#[test]
fn factor_two_keeps_evens() -> Result<(), Error> {
    let input: Vec<Sample> = (0..6).map(Sample::new).collect();
    let output = decimate(&input, RateFactor::new(2))?;
    assert_eq!(values(&output), vec![0, 2, 4]);
    Ok(())
}

#[test]
fn decimator_factor_zero_is_error() {
    let result = decimate(&[Sample::new(1)], RateFactor::new(0));
    assert!(result.is_err());
}

#[test]
fn decimator_empty_input_produces_empty() -> Result<(), Error> {
    let output = decimate(&[], RateFactor::new(4))?;
    assert!(output.is_empty());
    Ok(())
}

#[test]
fn decimate_keeps_ceiling_of_length() -> Result<(), Error> {
    let output = decimate(&samples(&[1, 2, 3, 4, 5, 6, 7]), RateFactor::new(3))?;
    assert_eq!(values(&output), vec![1, 4, 7]);
    Ok(())
}

#[test]
fn decimate_zero_factor_reports_factor() {
    assert!(matches!(
        decimate(&samples(&[1]), RateFactor::new(0)),
        Err(Error::InvalidRateFactor { factor: 0 })
    ));
}

// ---- delay ----

#[test]
fn zero_delay_is_identity() {
    let input = vec![Sample::new(1), Sample::new(2)];
    let output = delay_line(&input, DelayDepth::new(0));
    assert_eq!(output, input);
}

#[test]
fn delay_prepends_zeros() {
    let input = vec![Sample::new(10)];
    let output = delay_line(&input, DelayDepth::new(3));
    assert_eq!(output.len(), 4);
    assert_eq!(output[0], Sample::zero());
    assert_eq!(output[1], Sample::zero());
    assert_eq!(output[2], Sample::zero());
    assert_eq!(output[3], Sample::new(10));
}

#[test]
fn empty_input_produces_only_zeros() {
    let output = delay_line(&[], DelayDepth::new(2));
    assert_eq!(output, vec![Sample::zero(), Sample::zero()]);
}

// ---- FIR ----

#[test]
fn empty_coefficients_is_error() {
    let result = fir_convolve(&[Sample::new(1)], &[], FractionalBits::new(0));
    assert!(result.is_err());
}

#[test]
fn identity_filter_is_passthrough() -> Result<(), Error> {
    let input = vec![Sample::new(10), Sample::new(20), Sample::new(30)];
    let coeffs = vec![Sample::new(1)];
    let output = fir_convolve(&input, &coeffs, FractionalBits::new(0))?;
    assert_eq!(output, input);
    Ok(())
}

#[test]
fn impulse_response_equals_coefficients() -> Result<(), Error> {
    let impulse = vec![Sample::new(1), Sample::zero(), Sample::zero(), Sample::zero()];
    let coeffs = vec![Sample::new(5), Sample::new(3), Sample::new(1)];
    let output = fir_convolve(&impulse, &coeffs, FractionalBits::new(0))?;
    assert_eq!(values(&output), vec![5, 3, 1, 0]);
    Ok(())
}

#[test]
fn three_tap_moving_average() -> Result<(), Error> {
    let input: Vec<Sample> = vec![3, 6, 9, 12, 15].into_iter().map(Sample::new).collect();
    let coeffs = vec![Sample::new(1), Sample::new(1), Sample::new(1)];
    let output = fir_convolve(&input, &coeffs, FractionalBits::new(0))?;
    assert_eq!(values(&output), vec![3, 9, 18, 27, 36]);
    Ok(())
}

#[test]
fn fir_empty_input_produces_empty() -> Result<(), Error> {
    let output = fir_convolve(&[], &[Sample::new(1)], FractionalBits::new(0))?;
    assert!(output.is_empty());
    Ok(())
}

#[test]
fn fir_shift_rounds_toward_negative_infinity() -> Result<(), Error> {
    // (3 * 5) >> 2 = 3; (-3 * 5) >> 2 = -4 (arithmetic shift).
    let output = fir_convolve(&samples(&[3, -3]), &samples(&[5]), FractionalBits::new(2))?;
    assert_eq!(values(&output), vec![3, -4]);
    Ok(())
}

#[test]
fn fir_output_saturates_to_i32() -> Result<(), Error> {
    let output = fir_convolve(&samples(&[i32::MAX, i32::MIN]), &samples(&[2]), FractionalBits::new(0))?;
    assert_eq!(values(&output), vec![i32::MAX, i32::MIN]);
    Ok(())
}

#[test]
fn fir_empty_coefficients_message() {
    match fir_convolve(&samples(&[1]), &[], FractionalBits::new(0)) {
        Err(Error::Fir(message)) => assert_eq!(message, "empty coefficient set"),
        other => panic!("unexpected result: {other:?}"),
    }
}

#[test]
fn saturating_add_i64_clamps() {
    assert_eq!(saturating_add_i64(i64::MAX, 1), i64::MAX);
    assert_eq!(saturating_add_i64(i64::MIN, -1), i64::MIN);
    assert_eq!(saturating_add_i64(40, 2), 42);
}

// ---- gain ----

#[test]
fn unity_gain_is_identity() {
    let input = vec![Sample::new(42), Sample::new(-7)];
    let output = apply_gain(&input, GainCoefficient::new(1), 0);
    assert_eq!(output, input);
}

#[test]
fn zero_gain_produces_zeros() {
    let input = vec![Sample::new(100), Sample::new(-100)];
    let output = apply_gain(&input, GainCoefficient::new(0), 0);
    assert_eq!(output, vec![Sample::zero(), Sample::zero()]);
}

#[test]
fn gain_with_shift() {
    let input = vec![Sample::new(1000)];
    let output = apply_gain(&input, GainCoefficient::new(32768), 15);
    assert_eq!(output[0].value(), 1000);
}

#[test]
fn gain_empty_input_produces_empty() {
    let output = apply_gain(&[], GainCoefficient::new(5), 0);
    assert!(output.is_empty());
}

#[test]
fn gain_saturates_and_shifts_arithmetically() {
    let output = apply_gain(&samples(&[i32::MAX, -7]), GainCoefficient::new(4), 1);
    // i32::MAX * 4 >> 1 = 2 * i32::MAX, clamped; -28 >> 1 = -14.
    assert_eq!(values(&output), vec![i32::MAX, -14]);
}

// ---- interpolator ----

#[test]
fn interpolator_factor_one_is_identity() -> Result<(), Error> {
    let input = vec![Sample::new(1), Sample::new(2)];
    let output = interpolate(&input, RateFactor::new(1))?;
    assert_eq!(output, input);
    Ok(())
}

#[test]
fn factor_two_inserts_one_zero() -> Result<(), Error> {
    let input = vec![Sample::new(10), Sample::new(20)];
    let output = interpolate(&input, RateFactor::new(2))?;
    assert_eq!(values(&output), vec![10, 0, 20, 0]);
    Ok(())
}

#[test]
fn interpolator_factor_zero_is_error() {
    let result = interpolate(&[Sample::new(1)], RateFactor::new(0));
    assert!(result.is_err());
}

#[test]
fn interpolator_empty_input_produces_empty() -> Result<(), Error> {
    let output = interpolate(&[], RateFactor::new(4))?;
    assert!(output.is_empty());
    Ok(())
}

#[test]
fn interpolate_then_decimate_gives_back_input() -> Result<(), Error> {
    let input = samples(&[3, -1, 8]);
    let up = interpolate(&input, RateFactor::new(3))?;
    let down = decimate(&up, RateFactor::new(3))?;
    assert_eq!(down, input);
    Ok(())
}

// ---- composed pipeline ----

#[test]
fn identity_is_passthrough() -> Result<(), Error> {
    let input = vec![Sample::new(1), Sample::new(2)];
    let output = pipeline_golden(&input, &DspBlockDescriptor::Identity)?;
    assert_eq!(output, input);
    Ok(())
}

#[test]
fn single_gain_block() -> Result<(), Error> {
    let input = vec![Sample::new(10)];
    let desc = DspBlockDescriptor::gain(BlockIndex::new(0), GainCoefficient::new(3));
    let output = pipeline_golden(&input, &desc)?;
    assert_eq!(output[0].value(), 30);
    Ok(())
}

#[test]
fn composed_delay_then_gain() -> Result<(), Error> {
    let input = vec![Sample::new(5)];
    let desc = DspBlockDescriptor::delay(BlockIndex::new(0), DelayDepth::new(2)).compose(
        DspBlockDescriptor::gain(BlockIndex::new(1), GainCoefficient::new(4)),
    );
    let output = pipeline_golden(&input, &desc)?;
    assert_eq!(values(&output), vec![0, 0, 20]);
    Ok(())
}

#[test]
fn empty_composed_is_identity() -> Result<(), Error> {
    let input = vec![Sample::new(42)];
    let desc = DspBlockDescriptor::Composed(vec![]);
    let output = pipeline_golden(&input, &desc)?;
    assert_eq!(output, input);
    Ok(())
}

#[test]
fn composed_pipeline_runs_blocks_in_sequence() -> Result<(), Error> {
    let input = samples(&[1, 2, 3, 4]);
    let first = DspBlockDescriptor::accumulator(BlockIndex::new(0));
    let second = DspBlockDescriptor::decimator(BlockIndex::new(1), RateFactor::new(2));
    let composed = first.clone().compose(second.clone());
    let direct = pipeline_golden(&input, &composed)?;
    let stepwise = pipeline_golden(&pipeline_golden(&input, &first)?, &second)?;
    assert_eq!(direct, stepwise);
    assert_eq!(values(&direct), vec![1, 6]);
    Ok(())
}

#[test]
fn composed_pipeline_reports_first_refused_block() {
    let desc = DspBlockDescriptor::interpolator(BlockIndex::new(0), RateFactor::new(0)).compose(
        DspBlockDescriptor::fir(BlockIndex::new(1), vec![], FractionalBits::new(0)),
    );
    assert!(matches!(
        pipeline_golden(&samples(&[1]), &desc),
        Err(Error::InvalidRateFactor { factor: 0 })
    ));
}

#[test]
fn shifts_in_range_detects_large_shift() {
    let ok = DspBlockDescriptor::gain_fractional(BlockIndex::new(0), GainCoefficient::new(1), 63);
    let too_far = DspBlockDescriptor::gain_fractional(BlockIndex::new(0), GainCoefficient::new(1), 64);
    assert!(descriptor_shifts_in_range(&ok));
    assert!(!descriptor_shifts_in_range(&too_far));
    assert!(!descriptor_shifts_in_range(&ok.compose(too_far)));
}

#[test]
fn golden_runs_clean_only_fails_where_a_wide_shift_meets_data() {
    let wide = DspBlockDescriptor::gain_fractional(BlockIndex::new(0), GainCoefficient::new(2), 64);
    assert!(golden_runs_clean(&[], &wide));
    assert!(!golden_runs_clean(&[Sample::new(1)], &wide));
    assert!(golden_runs_clean(&[Sample::new(1)], &DspBlockDescriptor::Identity));
    // A refused decimator stops the pipeline before the wide shift is reached.
    let refused = DspBlockDescriptor::decimator(BlockIndex::new(0), RateFactor::new(0))
        .compose(DspBlockDescriptor::gain_fractional(BlockIndex::new(1), GainCoefficient::new(2), 64));
    assert!(golden_runs_clean(&[Sample::new(1)], &refused));
    assert!(pipeline_golden(&[Sample::new(1)], &refused).is_err());
    // A wide shift reached by data after an accepted block is refused.
    let emptied = DspBlockDescriptor::decimator(BlockIndex::new(0), RateFactor::new(4))
        .compose(DspBlockDescriptor::gain_fractional(BlockIndex::new(1), GainCoefficient::new(2), 64));
    assert!(!golden_runs_clean(&[Sample::new(1)], &emptied));
    assert!(golden_runs_clean(&[], &emptied));
}
