use dsp_cat::composition::cascade::cascade;
use dsp_cat::composition::parallel::parallel;
use dsp_cat::error::Error;
use dsp_cat::interpret::descriptor::DspBlockDescriptor;
use dsp_cat::interpret::morphism::BlockConfig;
use dsp_cat::interpret::signal::{BlockIndex, CicOrder, DelayDepth, GainCoefficient, RateFactor};
use dsp_cat::sample::element::Sample;

#[test]
fn cascade_empty_cascade_is_identity() -> Result<(), Error> {
    let desc = cascade(&[])?;
    assert_eq!(desc.block_count(), 0);
    Ok(())
}

#[test]
fn single_block_cascade() -> Result<(), Error> {
    let desc = cascade(&[BlockConfig::Gain {
        coefficient: GainCoefficient::new(5),
    }])?;
    assert_eq!(desc.block_count(), 1);
    Ok(())
}

#[test]
fn three_block_cascade() -> Result<(), Error> {
    let desc = cascade(&[
        BlockConfig::Delay {
            depth: DelayDepth::new(4),
        },
        BlockConfig::Cic {
            order: CicOrder::new(2),
            rate_factor: RateFactor::new(8),
        },
        BlockConfig::Gain {
            coefficient: GainCoefficient::new(3),
        },
    ])?;
    assert_eq!(desc.block_count(), 3);
    Ok(())
}

#[test]
fn parallel_independent_channels() -> Result<(), Error> {
    let input_a = vec![Sample::new(5)];
    let input_b = vec![Sample::new(10)];
    let desc_a = DspBlockDescriptor::gain(BlockIndex::new(0), GainCoefficient::new(2));
    let desc_b = DspBlockDescriptor::delay(BlockIndex::new(0), DelayDepth::new(1));
    let (out_a, out_b) = parallel(&input_a, &desc_a, &input_b, &desc_b)?;
    assert_eq!(out_a[0].value(), 10);
    assert_eq!(out_b.len(), 2); // delayed: [0, 10]
    Ok(())
}

#[test]
fn parallel_identity_both() -> Result<(), Error> {
    let input = vec![Sample::new(42)];
    let (left, right) =
        parallel(&input, &DspBlockDescriptor::Identity, &input, &DspBlockDescriptor::Identity)?;
    assert_eq!(left, input);
    assert_eq!(right, input);
    Ok(())
}

#[test]
fn cascade_keeps_block_order_and_indices() -> Result<(), Error> {
    let desc = cascade(&[
        BlockConfig::Delay {
            depth: DelayDepth::new(2),
        },
        BlockConfig::Decimator {
            factor: RateFactor::new(4),
        },
    ])?;
    let singles = desc.singles();
    assert_eq!(singles.len(), 2);
    assert_eq!(
        *singles[0],
        DspBlockDescriptor::delay(BlockIndex::new(0), DelayDepth::new(2))
    );
    assert_eq!(
        *singles[1],
        DspBlockDescriptor::decimator(BlockIndex::new(1), RateFactor::new(4))
    );
    Ok(())
}

#[test]
fn parallel_reports_left_error_first() {
    let input = vec![Sample::new(1)];
    let bad_left = DspBlockDescriptor::decimator(BlockIndex::new(0), RateFactor::new(0));
    let bad_right = DspBlockDescriptor::interpolator(BlockIndex::new(0), RateFactor::new(0));
    let result = parallel(&input, &bad_left, &input, &bad_right);
    assert!(matches!(result, Err(Error::InvalidRateFactor { factor: 0 })));
}
