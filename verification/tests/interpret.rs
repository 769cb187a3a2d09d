use dsp_cat::error::Error;
use dsp_cat::free_category::{Edge, Vertex};
use dsp_cat::graph::pipeline_graph::{full_pipeline_path, PipelineGraph};
use dsp_cat::interpret::descriptor::DspBlockDescriptor;
use dsp_cat::interpret::morphism::{interpret, BlockConfig, DspPipelineInterpretation};
use dsp_cat::interpret::signal::{
    BitWidth, BlockIndex, BoundaryIndex, BoundarySignal, CicOrder, DelayDepth, FractionalBits,
    GainCoefficient, PipelineLatency, RateFactor, TapCount,
};
use dsp_cat::sample::element::Sample;
use dsp_cat::sample::format::SampleFormat;

fn sample_format() -> SampleFormat {
    SampleFormat::new(BitWidth::new(32), FractionalBits::new(15))
}

// ---- descriptors ----

#[test]
fn identity_is_neutral_left() {
    let d = DspBlockDescriptor::delay(BlockIndex::new(0), DelayDepth::new(5));
    let composed = DspBlockDescriptor::identity().compose(d.clone());
    assert_eq!(composed, d);
}

#[test]
fn identity_is_neutral_right() {
    let d = DspBlockDescriptor::delay(BlockIndex::new(0), DelayDepth::new(5));
    let composed = d.clone().compose(DspBlockDescriptor::identity());
    assert_eq!(composed, d);
}

#[test]
fn compose_two_singles() {
    let a = DspBlockDescriptor::delay(BlockIndex::new(0), DelayDepth::new(3));
    let b = DspBlockDescriptor::gain(BlockIndex::new(1), GainCoefficient::new(2));
    let composed = a.compose(b);
    assert_eq!(composed.block_count(), 2);
}

#[test]
fn compose_is_associative_in_block_count() {
    let a = DspBlockDescriptor::delay(BlockIndex::new(0), DelayDepth::new(1));
    let b = DspBlockDescriptor::gain(BlockIndex::new(1), GainCoefficient::new(2));
    let c = DspBlockDescriptor::accumulator(BlockIndex::new(2));
    let left = a.clone().compose(b.clone()).compose(c.clone());
    let right = a.compose(b.compose(c));
    assert_eq!(left.block_count(), right.block_count());
    assert_eq!(left.block_count(), 3);
}

#[test]
fn singles_flattens_composed() {
    let a = DspBlockDescriptor::delay(BlockIndex::new(0), DelayDepth::new(1));
    let b = DspBlockDescriptor::gain(BlockIndex::new(1), GainCoefficient::new(2));
    let c = DspBlockDescriptor::accumulator(BlockIndex::new(2));
    let composed = a.compose(b).compose(c);
    assert_eq!(composed.singles().len(), 3);
}

#[test]
fn total_latency_sums_across_blocks() {
    let fir = DspBlockDescriptor::fir(
        BlockIndex::new(0),
        vec![Sample::new(1), Sample::new(2), Sample::new(3)],
        FractionalBits::new(0),
    );
    let delay = DspBlockDescriptor::delay(BlockIndex::new(1), DelayDepth::new(10));
    let composed = fir.compose(delay);
    assert_eq!(composed.total_latency().value(), 13);
}

#[test]
fn identity_block_count_is_zero() {
    assert_eq!(DspBlockDescriptor::identity().block_count(), 0);
}

#[test]
fn compose_is_associative() {
    let a = DspBlockDescriptor::delay(BlockIndex::new(0), DelayDepth::new(1));
    let b = DspBlockDescriptor::gain(BlockIndex::new(1), GainCoefficient::new(2));
    let c = DspBlockDescriptor::accumulator(BlockIndex::new(2));
    let left = a.clone().compose(b.clone()).compose(c.clone());
    let right = a.compose(b.compose(c));
    assert_eq!(left, right);
}

#[test]
fn latencies_of_each_block_kind() {
    let cic = DspBlockDescriptor::cic(BlockIndex::new(0), CicOrder::new(3), RateFactor::new(4));
    assert_eq!(cic.total_latency().value(), 7);
    let gain = DspBlockDescriptor::gain(BlockIndex::new(0), GainCoefficient::new(3));
    assert_eq!(gain.total_latency().value(), 1);
    let composed = DspBlockDescriptor::Composed(vec![]);
    assert_eq!(composed.total_latency().value(), 0);
}

#[test]
fn total_latency_saturates() {
    let a = DspBlockDescriptor::delay(BlockIndex::new(0), DelayDepth::new(usize::MAX));
    let b = DspBlockDescriptor::delay(BlockIndex::new(1), DelayDepth::new(5));
    assert_eq!(a.compose(b).total_latency().value(), usize::MAX);
}

#[test]
fn fir_descriptor_counts_taps() {
    let fir = DspBlockDescriptor::fir(
        BlockIndex::new(2),
        vec![Sample::new(1), Sample::new(2)],
        FractionalBits::new(1),
    );
    match fir {
        DspBlockDescriptor::Fir { tap_count, latency, .. } => {
            assert_eq!(tap_count, TapCount::new(2));
            assert_eq!(latency, PipelineLatency::new(2));
        }
        other => panic!("unexpected descriptor: {other:?}"),
    }
}

#[test]
fn descriptor_text_forms() {
    assert_eq!(DspBlockDescriptor::identity().to_string(), "Identity");
    let cic = DspBlockDescriptor::cic(BlockIndex::new(1), CicOrder::new(3), RateFactor::new(4));
    assert_eq!(cic.to_string(), "block[1]: CIC(order 3, x4)");
    let gain = DspBlockDescriptor::gain(BlockIndex::new(0), GainCoefficient::new(-2));
    assert_eq!(gain.to_string(), "block[0]: Gain(gain(-2))");
    let delay = DspBlockDescriptor::delay(BlockIndex::new(2), DelayDepth::new(9));
    assert_eq!(delay.to_string(), "block[2]: Delay(9 samples)");
    let composed = gain.compose(delay);
    assert_eq!(composed.to_string(), "Composed(2 blocks)");
}

// ---- morphism ----

#[test]
fn interpretation_produces_correct_block_count() -> Result<(), Error> {
    let graph = PipelineGraph::new(3);
    let interp = DspPipelineInterpretation::new(
        vec![
            BlockConfig::Delay {
                depth: DelayDepth::new(4),
            },
            BlockConfig::Gain {
                coefficient: GainCoefficient::new(2),
            },
            BlockConfig::Accumulator,
        ],
        sample_format(),
    );
    let path = full_pipeline_path(&graph).map_err(Error::Graph)?;
    let desc = interpret(&interp, &path);
    assert_eq!(desc.block_count(), 3);
    Ok(())
}

#[test]
fn interpretation_of_single_edge() -> Result<(), Error> {
    let interp = DspPipelineInterpretation::new(
        vec![BlockConfig::Delay {
            depth: DelayDepth::new(8),
        }],
        sample_format(),
    );
    let desc = interp.map_edge(Edge::new(0));
    assert_eq!(desc.block_count(), 1);
    Ok(())
}

#[test]
fn vertex_signal_has_correct_format() -> Result<(), Error> {
    let interp = DspPipelineInterpretation::new(
        vec![BlockConfig::Delay {
            depth: DelayDepth::new(4),
        }],
        sample_format(),
    );
    let sig = interp.map_vertex(Vertex::new(0));
    assert_eq!(sig.format().total_bits().value(), 32);
    Ok(())
}

#[test]
fn cic_widens_boundary_format() -> Result<(), Error> {
    let interp = DspPipelineInterpretation::new(
        vec![BlockConfig::Cic {
            order: CicOrder::new(3),
            rate_factor: RateFactor::new(16),
        }],
        sample_format(),
    );
    let sig_after = interp.map_vertex(Vertex::new(1));
    assert!(sig_after.format().total_bits().value() > 32);
    Ok(())
}

#[test]
fn decimation_changes_rate_divisor() -> Result<(), Error> {
    let interp = DspPipelineInterpretation::new(
        vec![BlockConfig::Decimator {
            factor: RateFactor::new(8),
        }],
        sample_format(),
    );
    let sig = interp.map_vertex(Vertex::new(1));
    assert_eq!(sig.sample_rate_divisor().value(), 8);
    Ok(())
}

#[test]
fn cic_bit_growth_is_order_times_ceil_log2_rate() {
    // ceil(log2(16)) = 4; order 3 grows the width by 12 bits.
    let interp = DspPipelineInterpretation::new(
        vec![BlockConfig::Cic {
            order: CicOrder::new(3),
            rate_factor: RateFactor::new(16),
        }],
        sample_format(),
    );
    assert_eq!(interp.map_vertex(Vertex::new(1)).format().total_bits().value(), 44);
}

fn width_after_cic(order: usize, rate: usize) -> usize {
    let interp = DspPipelineInterpretation::new(
        vec![BlockConfig::Cic {
            order: CicOrder::new(order),
            rate_factor: RateFactor::new(rate),
        }],
        sample_format(),
    );
    interp.map_vertex(Vertex::new(1)).format().total_bits().value()
}

#[test]
fn cic_bit_growth_rounds_log2_up() {
    // Rate 1 adds nothing; rate 2 one bit per stage; rate 5 needs 3 bits.
    assert_eq!(width_after_cic(3, 1), 32);
    assert_eq!(width_after_cic(3, 2), 35);
    assert_eq!(width_after_cic(2, 5), 38);
    assert_eq!(width_after_cic(1, 8), 35);
    assert_eq!(width_after_cic(1, 9), 36);
}

#[test]
fn rate_divisor_multiplies_and_interpolation_keeps_it() {
    let interp = DspPipelineInterpretation::new(
        vec![
            BlockConfig::Decimator {
                factor: RateFactor::new(2),
            },
            BlockConfig::Cic {
                order: CicOrder::new(1),
                rate_factor: RateFactor::new(3),
            },
            BlockConfig::Interpolator {
                factor: RateFactor::new(5),
            },
        ],
        sample_format(),
    );
    assert_eq!(interp.map_vertex(Vertex::new(0)).sample_rate_divisor().value(), 1);
    assert_eq!(interp.map_vertex(Vertex::new(2)).sample_rate_divisor().value(), 6);
    assert_eq!(interp.map_vertex(Vertex::new(3)).sample_rate_divisor().value(), 6);
}

#[test]
fn edge_past_the_configs_is_identity() {
    let interp = DspPipelineInterpretation::new(vec![BlockConfig::Accumulator], sample_format());
    assert_eq!(interp.map_edge(Edge::new(3)), DspBlockDescriptor::Identity);
}

#[test]
fn gain_fractional_config_keeps_shift() {
    let interp = DspPipelineInterpretation::new(
        vec![BlockConfig::GainFractional {
            coefficient: GainCoefficient::new(3),
            shift: 4,
        }],
        sample_format(),
    );
    assert_eq!(
        interp.map_edge(Edge::new(0)),
        DspBlockDescriptor::gain_fractional(BlockIndex::new(0), GainCoefficient::new(3), 4)
    );
}

// ---- signal newtypes ----

#[test]
fn block_index_round_trips() {
    let idx = BlockIndex::new(3);
    assert_eq!(idx.value(), 3);
}

#[test]
fn pipeline_latency_add() {
    let a = PipelineLatency::new(5);
    let b = PipelineLatency::new(7);
    assert_eq!(a.sum(b).value(), 12);
}

#[test]
fn pipeline_latency_add_saturates() {
    let a = PipelineLatency::new(usize::MAX);
    let b = PipelineLatency::new(1);
    assert_eq!(a.sum(b).value(), usize::MAX);
}

#[test]
fn boundary_signal_display() {
    let sig = BoundarySignal::new(
        BoundaryIndex::new(2),
        SampleFormat::new(BitWidth::new(32), FractionalBits::new(15)),
        RateFactor::new(4),
    );
    assert_eq!(sig.to_string(), "boundary[2]: Q16.15 @ /x4");
}

#[test]
fn newtype_text_forms() {
    assert_eq!(BlockIndex::new(4).to_string(), "block[4]");
    assert_eq!(TapCount::new(3).to_string(), "3 taps");
    assert_eq!(CicOrder::new(2).to_string(), "order 2");
    assert_eq!(DelayDepth::new(8).to_string(), "8 samples");
    assert_eq!(PipelineLatency::new(12).to_string(), "12 cycles");
    assert_eq!(BitWidth::new(32).to_string(), "32-bit");
    assert_eq!(FractionalBits::new(15).to_string(), "frac 15");
    assert_eq!(GainCoefficient::new(-5).to_string(), "gain(-5)");
    assert_eq!(RateFactor::new(10).to_string(), "x10");
}

#[test]
fn latency_zero_is_neutral() {
    assert_eq!(PipelineLatency::zero().sum(PipelineLatency::new(9)).value(), 9);
}
