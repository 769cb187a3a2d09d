//! DSP block descriptors with associative composition.

use vstd::prelude::*;
use vstd::string::StringExecFns;

use crate::interpret::signal::{
    block_index_text, cic_order_text, delay_depth_text, gain_text, rate_factor_text, tap_count_text,
    sat_usize_add, BlockIndex, CicOrder, DelayDepth, FractionalBits, GainCoefficient,
    PipelineLatency, RateFactor, TapCount,
};
use crate::sample::element::Sample;
use crate::text::{decimal, framed_decimal, join};

verus! {

/// Descriptor for a single DSP block or a composed sub-pipeline.
///
/// Composition is associative with `Identity` as the neutral element.
#[derive(Debug, PartialEq)]
pub enum DspBlockDescriptor {
    /// Identity (passthrough, no processing).
    Identity,
    /// FIR filter block.
    Fir {
        block_index: BlockIndex,
        coefficients: Vec<Sample>,
        tap_count: TapCount,
        latency: PipelineLatency,
        frac_bits: FractionalBits,
    },
    /// CIC decimation filter block.
    Cic {
        block_index: BlockIndex,
        order: CicOrder,
        rate_factor: RateFactor,
        latency: PipelineLatency,
    },
    /// Pure delay line.
    Delay { block_index: BlockIndex, depth: DelayDepth },
    /// Gain (multiply by constant, then right-shift).
    Gain { block_index: BlockIndex, coefficient: GainCoefficient, shift: u32 },
    /// Downsample by integer factor.
    Decimator { block_index: BlockIndex, factor: RateFactor },
    /// Upsample by integer factor (zero insertion).
    Interpolator { block_index: BlockIndex, factor: RateFactor },
    /// Running-sum accumulator.
    Accumulator { block_index: BlockIndex },
    /// A composed sequence of block descriptors.
    Composed(Vec<DspBlockDescriptor>),
}

/// The sequence of descriptors a descriptor stands for when it is composed:
/// none for `Identity`, the children of `Composed`, the block itself otherwise.
pub open spec fn flat(d: DspBlockDescriptor) -> Seq<DspBlockDescriptor> {
    match d {
        DspBlockDescriptor::Identity => seq![],
        DspBlockDescriptor::Composed(v) => v@,
        _ => seq![d],
    }
}

/// Whether a descriptor is a leaf block (neither `Identity` nor `Composed`).
pub open spec fn is_leaf(d: DspBlockDescriptor) -> bool {
    !(d is Identity) && !(d is Composed)
}

/// Number of non-identity leaf blocks.
pub open spec fn spec_block_count(d: DspBlockDescriptor) -> nat
    decreases d, 0nat,
{
    match d {
        DspBlockDescriptor::Identity => 0,
        DspBlockDescriptor::Composed(v) => block_count_seq(v@),
        _ => 1,
    }
}

/// Sum of the block counts of a sequence of descriptors.
pub open spec fn block_count_seq(s: Seq<DspBlockDescriptor>) -> nat
    decreases s, s.len(),
{
    if s.len() == 0 {
        0
    } else {
        block_count_seq(s.subrange(0, s.len() - 1)) + spec_block_count(s[s.len() - 1])
    }
}

/// Latency of a single leaf block.
pub open spec fn leaf_latency(d: DspBlockDescriptor) -> usize {
    match d {
        DspBlockDescriptor::Fir { latency, .. } => latency.0,
        DspBlockDescriptor::Cic { latency, .. } => latency.0,
        DspBlockDescriptor::Delay { depth, .. } => depth.0,
        DspBlockDescriptor::Identity => 0,
        DspBlockDescriptor::Composed(_) => 0,
        _ => 1,
    }
}

/// Total latency: leaf latencies summed with saturation at `usize::MAX`.
pub open spec fn spec_total_latency(d: DspBlockDescriptor) -> usize
    decreases d, 0nat,
{
    match d {
        DspBlockDescriptor::Identity => 0,
        DspBlockDescriptor::Composed(v) => latency_seq(v@),
        _ => leaf_latency(d),
    }
}

/// Saturating sum of the total latencies of a sequence of descriptors.
pub open spec fn latency_seq(s: Seq<DspBlockDescriptor>) -> usize
    decreases s, s.len(),
{
    if s.len() == 0 {
        0
    } else {
        sat_usize_add(
            latency_seq(s.subrange(0, s.len() - 1)),
            spec_total_latency(s[s.len() - 1]),
        )
    }
}

/// The leaf blocks of a descriptor, in pipeline order.
pub open spec fn spec_singles(d: DspBlockDescriptor) -> Seq<DspBlockDescriptor>
    decreases d, 0nat,
{
    match d {
        DspBlockDescriptor::Identity => seq![],
        DspBlockDescriptor::Composed(v) => singles_seq(v@),
        _ => seq![d],
    }
}

/// Concatenated leaf blocks of a sequence of descriptors.
pub open spec fn singles_seq(s: Seq<DspBlockDescriptor>) -> Seq<DspBlockDescriptor>
    decreases s, s.len(),
{
    if s.len() == 0 {
        seq![]
    } else {
        singles_seq(s.subrange(0, s.len() - 1)) + spec_singles(s[s.len() - 1])
    }
}

/// Two descriptors hold the same blocks with the same parameters.
pub open spec fn same_descriptor(a: DspBlockDescriptor, b: DspBlockDescriptor) -> bool
    decreases a, 0nat,
{
    match a {
        DspBlockDescriptor::Composed(v) => b matches DspBlockDescriptor::Composed(w) && same_descriptors(v@, w@),
        DspBlockDescriptor::Fir { block_index, coefficients, tap_count, latency, frac_bits } => b matches DspBlockDescriptor::Fir {
            block_index: bi,
            coefficients: c,
            tap_count: t,
            latency: l,
            frac_bits: f,
        } && bi == block_index && c@ == coefficients@ && t == tap_count && l == latency && f == frac_bits,
        _ => a == b,
    }
}

/// Two sequences of descriptors hold the same blocks, position by position.
pub open spec fn same_descriptors(s: Seq<DspBlockDescriptor>, t: Seq<DspBlockDescriptor>) -> bool
    decreases s, s.len(),
{
    &&& s.len() == t.len()
    &&& s.len() > 0 ==> same_descriptors(s.subrange(0, s.len() - 1), t.subrange(0, t.len() - 1))
        && same_descriptor(s[s.len() - 1], t[t.len() - 1])
}

/// A copy of a descriptor, block by block.
fn duplicate(d: &DspBlockDescriptor) -> (r: DspBlockDescriptor)
    ensures
        same_descriptor(r, *d),
    decreases d,
{
    match d {
        DspBlockDescriptor::Identity => DspBlockDescriptor::Identity,
        DspBlockDescriptor::Fir { block_index, coefficients, tap_count, latency, frac_bits } => {
            let mut c: Vec<Sample> = Vec::new();
            let mut k: usize = 0;
            while k < coefficients.len()
                invariant
                    k <= coefficients@.len(),
                    c@ == coefficients@.subrange(0, k as int),
                decreases coefficients@.len() - k,
            {
                c.push(coefficients[k]);
                k = k + 1;
                assert(c@ =~= coefficients@.subrange(0, k as int));
            }
            assert(c@ =~= coefficients@);
            DspBlockDescriptor::Fir {
                block_index: *block_index,
                coefficients: c,
                tap_count: *tap_count,
                latency: *latency,
                frac_bits: *frac_bits,
            }
        },
        DspBlockDescriptor::Cic { block_index, order, rate_factor, latency } => DspBlockDescriptor::Cic {
            block_index: *block_index,
            order: *order,
            rate_factor: *rate_factor,
            latency: *latency,
        },
        DspBlockDescriptor::Delay { block_index, depth } => DspBlockDescriptor::Delay {
            block_index: *block_index,
            depth: *depth,
        },
        DspBlockDescriptor::Gain { block_index, coefficient, shift } => DspBlockDescriptor::Gain {
            block_index: *block_index,
            coefficient: *coefficient,
            shift: *shift,
        },
        DspBlockDescriptor::Decimator { block_index, factor } => DspBlockDescriptor::Decimator {
            block_index: *block_index,
            factor: *factor,
        },
        DspBlockDescriptor::Interpolator { block_index, factor } => DspBlockDescriptor::Interpolator {
            block_index: *block_index,
            factor: *factor,
        },
        DspBlockDescriptor::Accumulator { block_index } => DspBlockDescriptor::Accumulator {
            block_index: *block_index,
        },
        DspBlockDescriptor::Composed(blocks) => {
            let mut out: Vec<DspBlockDescriptor> = Vec::new();
            let mut k: usize = 0;
            assert(out@ =~= Seq::<DspBlockDescriptor>::empty());
            while k < blocks.len()
                invariant
                    *d == DspBlockDescriptor::Composed(*blocks),
                    k <= blocks@.len(),
                    same_descriptors(out@, blocks@.subrange(0, k as int)),
                decreases blocks@.len() - k,
            {
                proof {
                    assert(decreases_to!(*blocks => blocks[k as int]));
                    assert(decreases_to!(*d => d->Composed_0));
                }
                let child = duplicate(&blocks[k]);
                let ghost before = out@;
                out.push(child);
                k = k + 1;
                proof {
                    let t = blocks@.subrange(0, k as int);
                    assert(out@.subrange(0, out@.len() - 1) =~= before);
                    assert(t.subrange(0, t.len() - 1) =~= blocks@.subrange(0, k - 1));
                }
            }
            assert(blocks@.subrange(0, blocks@.len() as int) =~= blocks@);
            DspBlockDescriptor::Composed(out)
        },
    }
}

impl Clone for DspBlockDescriptor {
    fn clone(&self) -> (r: Self)
        ensures
            same_descriptor(r, *self),
    {
        duplicate(self)
    }
}

impl DspBlockDescriptor {
    /// The identity descriptor (passthrough).
    pub fn identity() -> (r: Self)
        ensures
            r is Identity,
    {
        DspBlockDescriptor::Identity
    }

    /// Construct a FIR descriptor; tap count and latency are the number of coefficients.
    pub fn fir(block_index: BlockIndex, coefficients: Vec<Sample>, frac_bits: FractionalBits) -> (r: Self)
        ensures
            r == (DspBlockDescriptor::Fir {
                block_index,
                coefficients,
                tap_count: TapCount(coefficients.len()),
                latency: PipelineLatency(coefficients.len()),
                frac_bits,
            }),
    {
        let tap_count = TapCount::new(coefficients.len());
        let latency = PipelineLatency::new(coefficients.len());
        DspBlockDescriptor::Fir { block_index, coefficients, tap_count, latency, frac_bits }
    }

    /// Construct a CIC descriptor; its latency is `2 * order + 1`.
    pub fn cic(block_index: BlockIndex, order: CicOrder, rate_factor: RateFactor) -> (r: Self)
        requires
            2 * order.0 + 1 <= usize::MAX,
        ensures
            r == (DspBlockDescriptor::Cic {
                block_index,
                order,
                rate_factor,
                latency: PipelineLatency((2 * order.0 + 1) as usize),
            }),
    {
        let latency = PipelineLatency::new(2 * order.value() + 1);
        DspBlockDescriptor::Cic { block_index, order, rate_factor, latency }
    }

    /// Construct a delay descriptor.
    pub fn delay(block_index: BlockIndex, depth: DelayDepth) -> (r: Self)
        ensures
            r == (DspBlockDescriptor::Delay { block_index, depth }),
    {
        DspBlockDescriptor::Delay { block_index, depth }
    }

    /// Construct a gain descriptor with integer coefficient (shift = 0).
    pub fn gain(block_index: BlockIndex, coefficient: GainCoefficient) -> (r: Self)
        ensures
            r == (DspBlockDescriptor::Gain { block_index, coefficient, shift: 0 }),
    {
        DspBlockDescriptor::Gain { block_index, coefficient, shift: 0 }
    }

    /// Construct a gain descriptor with fractional coefficient.
    pub fn gain_fractional(block_index: BlockIndex, coefficient: GainCoefficient, shift: u32) -> (r: Self)
        ensures
            r == (DspBlockDescriptor::Gain { block_index, coefficient, shift }),
    {
        DspBlockDescriptor::Gain { block_index, coefficient, shift }
    }

    /// Construct a decimator descriptor.
    pub fn decimator(block_index: BlockIndex, factor: RateFactor) -> (r: Self)
        ensures
            r == (DspBlockDescriptor::Decimator { block_index, factor }),
    {
        DspBlockDescriptor::Decimator { block_index, factor }
    }

    /// Construct an interpolator descriptor.
    pub fn interpolator(block_index: BlockIndex, factor: RateFactor) -> (r: Self)
        ensures
            r == (DspBlockDescriptor::Interpolator { block_index, factor }),
    {
        DspBlockDescriptor::Interpolator { block_index, factor }
    }

    /// Construct an accumulator descriptor.
    pub fn accumulator(block_index: BlockIndex) -> (r: Self)
        ensures
            r == (DspBlockDescriptor::Accumulator { block_index }),
    {
        DspBlockDescriptor::Accumulator { block_index }
    }

    /// Compose two descriptors sequentially.
    ///
    /// `Identity` on either side gives back the other side unchanged;
    /// otherwise the result is a `Composed` whose children are the
    /// flattened children of `self` followed by those of `other`.
    pub fn compose(self, other: Self) -> (r: Self)
        ensures
            self is Identity ==> r == other,
            !(self is Identity) && other is Identity ==> r == self,
            !(self is Identity) && !(other is Identity) ==> r is Composed,
            flat(r) == flat(self) + flat(other),
    {
        if let DspBlockDescriptor::Identity = self {
            assert(flat(self) + flat(other) =~= flat(other));
            return other;
        }
        if let DspBlockDescriptor::Identity = other {
            assert(flat(self) + flat(other) =~= flat(self));
            return self;
        }
        let mut left: Vec<DspBlockDescriptor> = match self {
            DspBlockDescriptor::Composed(v) => v,
            a => vec![a],
        };
        let mut right: Vec<DspBlockDescriptor> = match other {
            DspBlockDescriptor::Composed(v) => v,
            b => vec![b],
        };
        assert(left@ == flat(self));
        assert(right@ == flat(other));
        left.append(&mut right);
        DspBlockDescriptor::Composed(left)
    }
}

/// The result `r` is what `compose` gives for `a` followed by `b`.
pub open spec fn composes_to(a: DspBlockDescriptor, b: DspBlockDescriptor, r: DspBlockDescriptor) -> bool {
    &&& a is Identity ==> r == b
    &&& !(a is Identity) && b is Identity ==> r == a
    &&& !(a is Identity) && !(b is Identity) ==> r is Composed
    &&& flat(r) == flat(a) + flat(b)
}

impl DspBlockDescriptor {
    /// The number of non-identity blocks in this descriptor.
    pub fn block_count(&self) -> (r: usize)
        requires
            spec_block_count(*self) <= usize::MAX,
        ensures
            r == spec_block_count(*self),
        decreases self,
    {
        match self {
            DspBlockDescriptor::Identity => 0,
            DspBlockDescriptor::Composed(blocks) => {
                let mut sum: usize = 0;
                let mut i: usize = 0;
                while i < blocks.len()
                    invariant
                        i <= blocks.len(),
                        sum == block_count_seq(blocks@.subrange(0, i as int)),
                        block_count_seq(blocks@) <= usize::MAX,
                        *self == DspBlockDescriptor::Composed(*blocks),
                    decreases blocks.len() - i,
                {
                    proof {
                        let pre = blocks@.subrange(0, i + 1);
                        assert(pre.subrange(0, i as int) =~= blocks@.subrange(0, i as int));
                        lemma_block_count_seq_prefix(blocks@, i + 1);
                    }
                    proof {
                        assert(decreases_to!(*blocks => blocks[i as int]));
                        assert(decreases_to!(*self => self->Composed_0));
                        assert(decreases_to!(*self => blocks[i as int]));
                    }
                    let c = blocks[i].block_count();
                    sum = sum + c;
                    i = i + 1;
                }
                assert(blocks@.subrange(0, blocks@.len() as int) =~= blocks@);
                sum
            },
            _ => 1,
        }
    }

    /// Total pipeline latency across all composed blocks (saturating).
    pub fn total_latency(&self) -> (r: PipelineLatency)
        ensures
            r.0 == spec_total_latency(*self),
        decreases self,
    {
        match self {
            DspBlockDescriptor::Identity => PipelineLatency::zero(),
            DspBlockDescriptor::Fir { latency, .. } => *latency,
            DspBlockDescriptor::Cic { latency, .. } => *latency,
            DspBlockDescriptor::Delay { depth, .. } => PipelineLatency::new(depth.value()),
            DspBlockDescriptor::Gain { .. } => PipelineLatency::new(1),
            DspBlockDescriptor::Decimator { .. } => PipelineLatency::new(1),
            DspBlockDescriptor::Interpolator { .. } => PipelineLatency::new(1),
            DspBlockDescriptor::Accumulator { .. } => PipelineLatency::new(1),
            DspBlockDescriptor::Composed(blocks) => {
                let mut acc = PipelineLatency::zero();
                let mut i: usize = 0;
                while i < blocks.len()
                    invariant
                        i <= blocks.len(),
                        acc.0 == latency_seq(blocks@.subrange(0, i as int)),
                        *self == DspBlockDescriptor::Composed(*blocks),
                    decreases blocks.len() - i,
                {
                    proof {
                        let pre = blocks@.subrange(0, i + 1);
                        assert(pre.subrange(0, i as int) =~= blocks@.subrange(0, i as int));
                    }
                    proof {
                        assert(decreases_to!(*blocks => blocks[i as int]));
                        assert(decreases_to!(*self => self->Composed_0));
                        assert(decreases_to!(*self => blocks[i as int]));
                    }
                    let l = blocks[i].total_latency();
                    acc = acc.sum(l);
                    i = i + 1;
                }
                assert(blocks@.subrange(0, blocks@.len() as int) =~= blocks@);
                acc
            },
        }
    }

    /// The leaf (non-`Composed`, non-`Identity`) blocks, in pipeline order.
    pub fn singles(&self) -> (r: Vec<&DspBlockDescriptor>)
        ensures
            r@.map_values(|x: &DspBlockDescriptor| *x) == spec_singles(*self),
        decreases self,
    {
        match self {
            DspBlockDescriptor::Identity => Vec::new(),
            DspBlockDescriptor::Composed(blocks) => {
                let mut out: Vec<&DspBlockDescriptor> = Vec::new();
                let mut i: usize = 0;
                while i < blocks.len()
                    invariant
                        i <= blocks.len(),
                        out@.map_values(|x: &DspBlockDescriptor| *x)
                            == singles_seq(blocks@.subrange(0, i as int)),
                        *self == DspBlockDescriptor::Composed(*blocks),
                    decreases blocks.len() - i,
                {
                    proof {
                        let pre = blocks@.subrange(0, i + 1);
                        assert(pre.subrange(0, i as int) =~= blocks@.subrange(0, i as int));
                    }
                    proof {
                        assert(decreases_to!(*blocks => blocks[i as int]));
                        assert(decreases_to!(*self => self->Composed_0));
                        assert(decreases_to!(*self => blocks[i as int]));
                    }
                    let mut sub = blocks[i].singles();
                    let ghost old_out = out@;
                    let ghost old_sub = sub@;
                    out.append(&mut sub);
                    assert(out@.map_values(|x: &DspBlockDescriptor| *x) =~= old_out.map_values(
                        |x: &DspBlockDescriptor| *x,
                    ) + old_sub.map_values(|x: &DspBlockDescriptor| *x));
                    i = i + 1;
                }
                assert(blocks@.subrange(0, blocks@.len() as int) =~= blocks@);
                out
            },
            _ => {
                let mut out: Vec<&DspBlockDescriptor> = Vec::new();
                out.push(self);
                assert(out@.map_values(|x: &DspBlockDescriptor| *x) =~= seq![*self]);
                out
            },
        }
    }
}

/// Block counts add over concatenation.
pub proof fn lemma_block_count_seq_append(s1: Seq<DspBlockDescriptor>, s2: Seq<DspBlockDescriptor>)
    ensures
        block_count_seq(s1 + s2) == block_count_seq(s1) + block_count_seq(s2),
    decreases s2.len(),
{
    if s2.len() == 0 {
        assert(s1 + s2 =~= s1);
    } else {
        let s2p = s2.subrange(0, s2.len() - 1);
        lemma_block_count_seq_append(s1, s2p);
        assert((s1 + s2).subrange(0, (s1 + s2).len() - 1) =~= s1 + s2p);
    }
}

/// A prefix never counts more blocks than the whole sequence.
pub proof fn lemma_block_count_seq_prefix(s: Seq<DspBlockDescriptor>, k: int)
    requires
        0 <= k <= s.len(),
    ensures
        block_count_seq(s.subrange(0, k)) <= block_count_seq(s),
{
    lemma_block_count_seq_append(s.subrange(0, k), s.subrange(k, s.len() as int));
    assert(s.subrange(0, k) + s.subrange(k, s.len() as int) =~= s);
}

/// Saturating latency sums are associative over concatenation.
pub proof fn lemma_latency_seq_append(s1: Seq<DspBlockDescriptor>, s2: Seq<DspBlockDescriptor>)
    ensures
        latency_seq(s1 + s2) == sat_usize_add(latency_seq(s1), latency_seq(s2)),
    decreases s2.len(),
{
    if s2.len() == 0 {
        assert(s1 + s2 =~= s1);
    } else {
        let s2p = s2.subrange(0, s2.len() - 1);
        lemma_latency_seq_append(s1, s2p);
        assert((s1 + s2).subrange(0, (s1 + s2).len() - 1) =~= s1 + s2p);
    }
}

/// Leaf lists concatenate over concatenation.
pub proof fn lemma_singles_seq_append(s1: Seq<DspBlockDescriptor>, s2: Seq<DspBlockDescriptor>)
    ensures
        singles_seq(s1 + s2) == singles_seq(s1) + singles_seq(s2),
    decreases s2.len(),
{
    if s2.len() == 0 {
        assert(s1 + s2 =~= s1);
        assert(singles_seq(s1) + singles_seq(s2) =~= singles_seq(s1));
    } else {
        let s2p = s2.subrange(0, s2.len() - 1);
        lemma_singles_seq_append(s1, s2p);
        assert((s1 + s2).subrange(0, (s1 + s2).len() - 1) =~= s1 + s2p);
        assert(singles_seq(s1) + singles_seq(s2) =~= (singles_seq(s1) + singles_seq(s2p))
            + spec_singles(s2[s2.len() - 1]));
    }
}

/// Every property of a descriptor is the property of its flattened sequence.
pub proof fn lemma_flat_properties(d: DspBlockDescriptor)
    ensures
        spec_block_count(d) == block_count_seq(flat(d)),
        spec_total_latency(d) == latency_seq(flat(d)),
        spec_singles(d) == singles_seq(flat(d)),
{
    let e = Seq::<DspBlockDescriptor>::empty();
    assert(block_count_seq(e) == 0);
    assert(latency_seq(e) == 0);
    assert(singles_seq(e) == e);
    match d {
        DspBlockDescriptor::Identity => {
            assert(flat(d) =~= e);
        },
        DspBlockDescriptor::Composed(v) => {},
        _ => {
            let s = seq![d];
            assert(s.subrange(0, 0) =~= e);
            assert(singles_seq(s) == singles_seq(e) + spec_singles(d));
            assert(singles_seq(s) =~= spec_singles(d));
        },
    }
}

/// The block count of a composition is the sum of the block counts.
pub proof fn lemma_compose_block_count(a: DspBlockDescriptor, b: DspBlockDescriptor, r: DspBlockDescriptor)
    requires
        composes_to(a, b, r),
    ensures
        spec_block_count(r) == spec_block_count(a) + spec_block_count(b),
{
    lemma_flat_properties(a);
    lemma_flat_properties(b);
    lemma_flat_properties(r);
    lemma_block_count_seq_append(flat(a), flat(b));
}

/// The latency of a composition is the saturating sum of the latencies.
pub proof fn lemma_compose_total_latency(a: DspBlockDescriptor, b: DspBlockDescriptor, r: DspBlockDescriptor)
    requires
        composes_to(a, b, r),
    ensures
        spec_total_latency(r) == sat_usize_add(spec_total_latency(a), spec_total_latency(b)),
{
    lemma_flat_properties(a);
    lemma_flat_properties(b);
    lemma_flat_properties(r);
    lemma_latency_seq_append(flat(a), flat(b));
}

/// The leaf blocks of a composition are those of the left part followed by the right part.
pub proof fn lemma_compose_singles(a: DspBlockDescriptor, b: DspBlockDescriptor, r: DspBlockDescriptor)
    requires
        composes_to(a, b, r),
    ensures
        spec_singles(r) == spec_singles(a) + spec_singles(b),
{
    lemma_flat_properties(a);
    lemma_flat_properties(b);
    lemma_flat_properties(r);
    lemma_singles_seq_append(flat(a), flat(b));
}

/// `Identity` is a two-sided neutral element of composition.
pub proof fn lemma_compose_identity(d: DspBlockDescriptor, left: DspBlockDescriptor, right: DspBlockDescriptor)
    requires
        composes_to(DspBlockDescriptor::Identity, d, left),
        composes_to(d, DspBlockDescriptor::Identity, right),
    ensures
        left == d,
        right == d,
{
}

/// Composition is associative: both bracketings stand for the same
/// sequence of blocks, and one is `Identity` exactly when the other is.
pub proof fn lemma_compose_associative(
    a: DspBlockDescriptor,
    b: DspBlockDescriptor,
    c: DspBlockDescriptor,
    ab: DspBlockDescriptor,
    ab_c: DspBlockDescriptor,
    bc: DspBlockDescriptor,
    a_bc: DspBlockDescriptor,
)
    requires
        composes_to(a, b, ab),
        composes_to(ab, c, ab_c),
        composes_to(b, c, bc),
        composes_to(a, bc, a_bc),
    ensures
        flat(ab_c) == flat(a_bc),
        ab_c is Identity <==> a_bc is Identity,
        ab_c is Identity || is_leaf(ab_c) ==> ab_c == a_bc,
{
    assert(flat(a) + flat(b) + flat(c) =~= flat(a) + (flat(b) + flat(c)));
}

/// The text form of a descriptor: the block and its main parameter, or the
/// number of composed blocks.
pub open spec fn descriptor_text(d: DspBlockDescriptor) -> Seq<char> {
    match d {
        DspBlockDescriptor::Identity => "Identity"@,
        DspBlockDescriptor::Fir { block_index, tap_count, .. } => block_index_text(block_index) + ": FIR("@
            + tap_count_text(tap_count) + ")"@,
        DspBlockDescriptor::Cic { block_index, order, rate_factor, .. } => block_index_text(block_index)
            + ": CIC("@ + cic_order_text(order) + ", "@ + rate_factor_text(rate_factor) + ")"@,
        DspBlockDescriptor::Delay { block_index, depth } => block_index_text(block_index) + ": Delay("@
            + delay_depth_text(depth) + ")"@,
        DspBlockDescriptor::Gain { block_index, coefficient, .. } => block_index_text(block_index) + ": Gain("@
            + gain_text(coefficient) + ")"@,
        DspBlockDescriptor::Decimator { block_index, factor } => block_index_text(block_index)
            + ": Decimate("@ + rate_factor_text(factor) + ")"@,
        DspBlockDescriptor::Interpolator { block_index, factor } => block_index_text(block_index)
            + ": Interpolate("@ + rate_factor_text(factor) + ")"@,
        DspBlockDescriptor::Accumulator { block_index } => block_index_text(block_index) + ": Accumulator"@,
        DspBlockDescriptor::Composed(blocks) => "Composed("@ + decimal(blocks@.len()) + " blocks)"@,
    }
}

impl DspBlockDescriptor {
    /// The text form of this descriptor.
    pub fn to_string(&self) -> (s: String)
        ensures
            s@ == descriptor_text(*self),
    {
        match self {
            DspBlockDescriptor::Identity => String::from_str("Identity"),
            DspBlockDescriptor::Fir { block_index, tap_count, .. } => {
                let s = join(block_index.to_string(), ": FIR(");
                join(join(s, tap_count.to_string().as_str()), ")")
            },
            DspBlockDescriptor::Cic { block_index, order, rate_factor, .. } => {
                let s = join(block_index.to_string(), ": CIC(");
                let s = join(join(s, order.to_string().as_str()), ", ");
                join(join(s, rate_factor.to_string().as_str()), ")")
            },
            DspBlockDescriptor::Delay { block_index, depth } => {
                let s = join(block_index.to_string(), ": Delay(");
                join(join(s, depth.to_string().as_str()), ")")
            },
            DspBlockDescriptor::Gain { block_index, coefficient, .. } => {
                let s = join(block_index.to_string(), ": Gain(");
                join(join(s, coefficient.to_string().as_str()), ")")
            },
            DspBlockDescriptor::Decimator { block_index, factor } => {
                let s = join(block_index.to_string(), ": Decimate(");
                join(join(s, factor.to_string().as_str()), ")")
            },
            DspBlockDescriptor::Interpolator { block_index, factor } => {
                let s = join(block_index.to_string(), ": Interpolate(");
                join(join(s, factor.to_string().as_str()), ")")
            },
            DspBlockDescriptor::Accumulator { block_index } => join(block_index.to_string(), ": Accumulator"),
            DspBlockDescriptor::Composed(blocks) => framed_decimal("Composed(", blocks.len(), " blocks)"),
        }
    }
}

/// The latency of a single block: a FIR or CIC block its stored latency, a
/// delay line its depth, and a gain, decimator, interpolator or
/// accumulator one cycle, whatever its coefficient, shift or rate factor;
/// the identity has none.
pub proof fn lemma_leaf_latencies(d: DspBlockDescriptor)
    ensures
        d matches DspBlockDescriptor::Fir { latency, .. } ==> spec_total_latency(d) == latency.0,
        d matches DspBlockDescriptor::Cic { latency, .. } ==> spec_total_latency(d) == latency.0,
        d matches DspBlockDescriptor::Delay { depth, .. } ==> spec_total_latency(d) == depth.0,
        d is Gain ==> spec_total_latency(d) == 1,
        d is Decimator ==> spec_total_latency(d) == 1,
        d is Interpolator ==> spec_total_latency(d) == 1,
        d is Accumulator ==> spec_total_latency(d) == 1,
        d is Identity ==> spec_total_latency(d) == 0,
{
}

/// Blocks that differ only in their parameters other than depth and
/// stored latency have the same latency: a gain's coefficient and shift, a
/// decimator's or interpolator's rate factor do not change it.
pub proof fn lemma_latency_ignores_rates(a: DspBlockDescriptor, b: DspBlockDescriptor)
    requires
        (a is Gain && b is Gain) || (a is Decimator && b is Decimator) || (a is Interpolator && b is Interpolator),
    ensures
        spec_total_latency(a) == spec_total_latency(b),
{
}

} // verus!
