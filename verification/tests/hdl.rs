use dsp_cat::error::Error;
use dsp_cat::hdl::accumulator::build_accumulator;
use dsp_cat::hdl::cic::build_cic;
use dsp_cat::hdl::common::{
    bit_seq_to_i32, bits_for_value, i32_to_bit_seq, sample_wire, valid_wire, zero_sample_init,
    zero_valid_init, DSP_IO_WIRE_COUNT, SAMPLE_WIDTH,
};
use dsp_cat::hdl::decimator::build_decimator;
use dsp_cat::hdl::delay::build_delay;
use dsp_cat::hdl::fir::build_fir;
use dsp_cat::hdl::gain::build_gain;
use dsp_cat::hdl::interpolator::build_interpolator;
use dsp_cat::hdl::ir::{BinOp, BitSeq, HdlGraphBuilder, IrError, Op, WireId, WireTy};
use dsp_cat::hdl::pipeline::build_pipeline;
use dsp_cat::hdl::raw::{compose_raw, identity_raw, RawDspBlock};
use dsp_cat::interpret::descriptor::DspBlockDescriptor;
use dsp_cat::interpret::signal::{
    BlockIndex, CicOrder, DelayDepth, FractionalBits, GainCoefficient, RateFactor,
};
use dsp_cat::sample::element::Sample;

// ---- accumulator ----

#[test]
fn accumulator_has_two_state_wires() -> Result<(), Error> {
    let block = build_accumulator()?;
    assert_eq!(block.state_wire_count(), 2);
    assert_eq!(block.input_wires().len(), 4);
    assert_eq!(block.output_wires().len(), 4);
    Ok(())
}

#[test]
fn accumulator_initial_state_is_33_bits() -> Result<(), Error> {
    let block = build_accumulator()?;
    assert_eq!(block.initial_state().len(), 33);
    Ok(())
}

// ---- CIC ----

#[test]
fn cic_order_1_rate_2() -> Result<(), Error> {
    let block = build_cic(1, 2)?;
    assert_eq!(block.state_wire_count(), 3);
    Ok(())
}

#[test]
fn cic_order_3_rate_4() -> Result<(), Error> {
    let block = build_cic(3, 4)?;
    assert_eq!(block.state_wire_count(), 7);
    Ok(())
}

#[test]
fn cic_order_zero_errors() {
    assert!(build_cic(0, 2).is_err());
}

#[test]
fn cic_rate_zero_errors() {
    assert!(build_cic(1, 0).is_err());
}

#[test]
fn cic_errors_name_the_fault() {
    assert!(matches!(build_cic(0, 0), Err(Error::Cic(ref m)) if m == "order must be at least 1"));
    assert!(matches!(build_cic(2, 0), Err(Error::InvalidRateFactor { factor: 0 })));
}

#[test]
fn cic_graph_size_and_state_width() -> Result<(), Error> {
    // Order 2, rate 4 (3-bit counter): 6 * 2 + 14 wires; 64 * 2 + 3 state bits.
    let block = build_cic(2, 4)?;
    assert_eq!(block.graph().wires().len(), 26);
    assert_eq!(block.initial_state().len(), 131);
    assert_eq!(block.input_wires().len(), 7);
    Ok(())
}

// ---- decimator ----

#[test]
fn bits_for_value_cases() {
    assert_eq!(bits_for_value(0), 1);
    assert_eq!(bits_for_value(1), 1);
    assert_eq!(bits_for_value(2), 2);
    assert_eq!(bits_for_value(3), 2);
    assert_eq!(bits_for_value(4), 3);
    assert_eq!(bits_for_value(255), 8);
    assert_eq!(bits_for_value(256), 9);
}

#[test]
fn decimator_factor_2_has_one_state_wire() -> Result<(), Error> {
    let block = build_decimator(2)?;
    assert_eq!(block.state_wire_count(), 1);
    Ok(())
}

#[test]
fn decimator_factor_zero_errors() {
    assert!(build_decimator(0).is_err());
}

#[test]
fn decimator_factor_1_is_passthrough() -> Result<(), Error> {
    let block = build_decimator(1)?;
    assert_eq!(block.state_wire_count(), 1);
    Ok(())
}

#[test]
fn decimator_counter_width_follows_factor() -> Result<(), Error> {
    let block = build_decimator(5)?;
    assert_eq!(block.graph().wires()[0], WireTy::Bits(3));
    assert_eq!(block.initial_state().len(), 3);
    assert_eq!(block.graph().wires().len(), 12);
    assert_eq!(block.graph().instructions().len(), 9);
    Ok(())
}

// ---- delay ----

#[test]
fn delay_depth_1_has_two_state_wires() -> Result<(), Error> {
    let block = build_delay(1)?;
    assert_eq!(block.state_wire_count(), 2);
    Ok(())
}

#[test]
fn delay_depth_4_has_five_state_wires() -> Result<(), Error> {
    let block = build_delay(4)?;
    assert_eq!(block.state_wire_count(), 5);
    Ok(())
}

#[test]
fn delay_depth_0_treated_as_1() -> Result<(), Error> {
    let block = build_delay(0)?;
    assert_eq!(block.state_wire_count(), 2);
    Ok(())
}

#[test]
fn delay_layout() -> Result<(), Error> {
    // Depth 4: fill counter of 3 bits; 2 * 4 + 12 wires.
    let block = build_delay(4)?;
    assert_eq!(block.graph().wires().len(), 20);
    assert_eq!(block.initial_state().len(), 4 * 32 + 3);
    assert_eq!(block.input_wires()[4], WireId::new(4));
    assert_eq!(block.output_wires()[0], WireId::new(10));
    Ok(())
}

// ---- FIR ----

#[test]
fn fir_single_tap_has_one_state_wire() -> Result<(), Error> {
    let block = build_fir(&[1], 0)?;
    assert_eq!(block.state_wire_count(), 1);
    Ok(())
}

#[test]
fn fir_three_taps_has_three_state_wires() -> Result<(), Error> {
    let block = build_fir(&[3, 2, 1], 0)?;
    assert_eq!(block.state_wire_count(), 3);
    Ok(())
}

#[test]
fn fir_empty_coefficients_errors() {
    assert!(build_fir(&[], 0).is_err());
}

#[test]
fn fir_initial_state_width_matches_taps() -> Result<(), Error> {
    let block = build_fir(&[1, 2, 3, 4], 15)?;
    assert_eq!(block.initial_state().len(), 128);
    Ok(())
}

#[test]
fn fir_graph_size_depends_on_shift() -> Result<(), Error> {
    // Two taps: 14 * 2 + 4 wires of chain, then 0, 6 or 4 shift wires,
    // truncation, output mux and two next-state muxes.
    assert_eq!(build_fir(&[1, 1], 0)?.graph().wires().len(), 32 + 4);
    assert_eq!(build_fir(&[1, 1], 3)?.graph().wires().len(), 32 + 6 + 4);
    assert_eq!(build_fir(&[1, 1], 70)?.graph().wires().len(), 32 + 4 + 4);
    Ok(())
}

#[test]
fn fir_empty_message() {
    assert!(matches!(build_fir(&[], 0), Err(Error::Fir(ref m)) if m == "empty coefficients"));
}

// ---- gain ----

#[test]
fn gain_has_two_state_wires() -> Result<(), Error> {
    let block = build_gain(3, 0)?;
    assert_eq!(block.state_wire_count(), 2);
    Ok(())
}

#[test]
fn gain_initial_state_is_33_bits() -> Result<(), Error> {
    let block = build_gain(5, 8)?;
    assert_eq!(block.initial_state().len(), 33);
    Ok(())
}

#[test]
fn gain_coefficient_constant_is_encoded() -> Result<(), Error> {
    let block = build_gain(-3, 0)?;
    match &block.graph().instructions()[0].op {
        Op::Const { bits, ty } => {
            assert_eq!(*ty, WireTy::Signed(32));
            assert_eq!(bit_seq_to_i32(bits)?, -3);
        }
        other => panic!("unexpected op: {other:?}"),
    }
    Ok(())
}

// ---- interpolator ----

#[test]
fn interpolator_factor_2_has_three_state_wires() -> Result<(), Error> {
    let block = build_interpolator(2)?;
    assert_eq!(block.state_wire_count(), 3);
    Ok(())
}

#[test]
fn interpolator_factor_zero_errors() {
    assert!(build_interpolator(0).is_err());
}

#[test]
fn interpolator_factor_1_is_valid() -> Result<(), Error> {
    let block = build_interpolator(1)?;
    assert_eq!(block.state_wire_count(), 3);
    Ok(())
}

#[test]
fn interpolator_layout() -> Result<(), Error> {
    let block = build_interpolator(4)?;
    assert_eq!(block.graph().wires().len(), 28);
    assert_eq!(block.graph().instructions().len(), 23);
    assert_eq!(block.initial_state().len(), 32 + 3 + 1);
    Ok(())
}

// ---- composed pipelines ----

#[test]
fn identity_pipeline_has_no_state() -> Result<(), Error> {
    let block = build_pipeline(&DspBlockDescriptor::Identity)?;
    assert_eq!(block.state_wire_count(), 0);
    Ok(())
}

#[test]
fn gain_then_delay_composes() -> Result<(), Error> {
    let desc = DspBlockDescriptor::gain(BlockIndex::new(0), GainCoefficient::new(2))
        .compose(DspBlockDescriptor::delay(BlockIndex::new(1), DelayDepth::new(1)));
    let block = build_pipeline(&desc)?;
    assert_eq!(block.state_wire_count(), 4);
    Ok(())
}

#[test]
fn decimator_pipeline() -> Result<(), Error> {
    let desc = DspBlockDescriptor::decimator(BlockIndex::new(0), RateFactor::new(4));
    let block = build_pipeline(&desc)?;
    assert_eq!(block.state_wire_count(), 1);
    Ok(())
}

#[test]
fn pipeline_state_is_sum_of_blocks() -> Result<(), Error> {
    let desc = DspBlockDescriptor::fir(
        BlockIndex::new(0),
        vec![Sample::new(1), Sample::new(2), Sample::new(3)],
        FractionalBits::new(2),
    )
    .compose(DspBlockDescriptor::cic(BlockIndex::new(1), CicOrder::new(2), RateFactor::new(4)))
    .compose(DspBlockDescriptor::interpolator(BlockIndex::new(2), RateFactor::new(2)))
    .compose(DspBlockDescriptor::accumulator(BlockIndex::new(3)));
    let block = build_pipeline(&desc)?;
    assert_eq!(block.state_wire_count(), 3 + 5 + 3 + 2);
    assert_eq!(block.initial_state().len(), 3 * 32 + (2 * 64 + 3) + (32 + 2 + 1) + 33);
    assert_eq!(block.input_wires().len(), block.state_wire_count() + DSP_IO_WIRE_COUNT);
    Ok(())
}

#[test]
fn pipeline_reports_first_refused_block() {
    let desc = DspBlockDescriptor::fir(BlockIndex::new(0), vec![], FractionalBits::new(0))
        .compose(DspBlockDescriptor::decimator(BlockIndex::new(1), RateFactor::new(0)));
    assert!(matches!(build_pipeline(&desc), Err(Error::Fir(_))));
}

// ---- raw blocks ----

#[test]
fn identity_has_no_state() -> Result<(), Error> {
    let block = identity_raw()?;
    assert_eq!(block.state_wire_count(), 0);
    assert_eq!(block.initial_state().len(), 0);
    assert_eq!(block.input_wires().len(), 2);
    assert_eq!(block.output_wires().len(), 2);
    Ok(())
}

#[test]
fn compose_two_identities_has_no_state() -> Result<(), Error> {
    let a = identity_raw()?;
    let b = identity_raw()?;
    let c = compose_raw(a, b)?;
    assert_eq!(c.state_wire_count(), 0);
    assert_eq!(c.initial_state().len(), 0);
    Ok(())
}

fn simple_stateful_block() -> Result<RawDspBlock, Error> {
    // A trivial block: state = Signed(32), pass data through,
    // next_state = state + data_in (wrapping).
    let (builder, state) = HdlGraphBuilder::new().with_wire(sample_wire());
    let (builder, data_in) = builder.with_wire(sample_wire());
    let (builder, valid_in) = builder.with_wire(valid_wire());
    let (builder, sum) = builder.with_wire(sample_wire());
    let builder = builder
        .with_instruction(Op::Bin(BinOp::Add), vec![state, data_in], sum)
        .map_err(Error::Hdl)?;
    let graph = builder.build();
    Ok(RawDspBlock::new(
        graph,
        vec![state, data_in, valid_in],
        vec![sum, data_in, valid_in],
        zero_sample_init(),
        1,
    ))
}

#[test]
fn compose_stateful_blocks_merges_state() -> Result<(), Error> {
    let a = simple_stateful_block()?;
    let b = simple_stateful_block()?;
    let c = compose_raw(a, b)?;
    assert_eq!(c.state_wire_count(), 2);
    assert_eq!(c.initial_state().len(), 64);
    Ok(())
}

#[test]
fn compose_rewires_second_block_data_inputs() -> Result<(), Error> {
    let a = simple_stateful_block()?;
    let b = simple_stateful_block()?;
    let c = compose_raw(a, b)?;
    // Wires of the second block follow the four of the first.
    assert_eq!(c.graph().wires().len(), 8);
    assert_eq!(c.input_wires(), &[WireId::new(0), WireId::new(4), WireId::new(1), WireId::new(2)]);
    // The second block's data outputs were its data inputs, which now are
    // the first block's data outputs.
    assert_eq!(c.output_wires(), &[WireId::new(3), WireId::new(7), WireId::new(1), WireId::new(2)]);
    let second = &c.graph().instructions()[1];
    assert_eq!(second.inputs, vec![WireId::new(4), WireId::new(1)]);
    assert_eq!(second.output, WireId::new(7));
    Ok(())
}

// ---- IR and bit sequences ----

#[test]
fn with_instruction_rejects_wrong_arity() {
    let (b, a) = HdlGraphBuilder::new().with_wire(WireTy::Bit);
    let (b, out) = b.with_wire(WireTy::Bit);
    let result = b.with_instruction(Op::Bin(BinOp::And), vec![a], out);
    assert!(matches!(
        result,
        Err(IrError::TypeMismatch {
            expected: 2,
            actual: 1
        })
    ));
    assert_eq!(
        IrError::TypeMismatch {
            expected: 2,
            actual: 1
        }
        .to_string(),
        "type mismatch: expected 2 inputs, got 1 inputs"
    );
}

#[test]
fn bit_seq_round_trips() -> Result<(), Error> {
    for v in [0, 1, -1, 12345, i32::MIN, i32::MAX] {
        assert_eq!(bit_seq_to_i32(&i32_to_bit_seq(v))?, v);
    }
    Ok(())
}

#[test]
fn bit_seq_is_lsb_first() {
    let bits = i32_to_bit_seq(6);
    assert_eq!(bits.len(), 32);
    assert!(!bits.bit(0));
    assert!(bits.bit(1));
    assert!(bits.bit(2));
    assert!(!bits.bit(40));
}

#[test]
fn bit_seq_of_wrong_length_is_error() {
    let short = BitSeq::from_vec(vec![true, false]);
    assert!(matches!(
        bit_seq_to_i32(&short),
        Err(Error::Sample(ref m)) if m == "expected 32-bit sequence, got 2 bits"
    ));
}

#[test]
fn zero_inits_and_constants() {
    assert_eq!(zero_sample_init().len(), 32);
    assert_eq!(zero_valid_init().len(), 1);
    assert_eq!(SAMPLE_WIDTH, 32);
    assert_eq!(sample_wire(), WireTy::Signed(32));
    assert_eq!(valid_wire(), WireTy::Bit);
    let joined = zero_sample_init().concat(zero_valid_init());
    assert_eq!(joined.len(), 33);
}
