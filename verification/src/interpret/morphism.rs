//! Graph morphism mapping the pipeline graph into DSP block descriptors.
//!
//! Vertices (boundaries) map to boundary signals, edges (blocks) map to
//! block descriptors, and a path is interpreted by composing the
//! descriptors of its edges.

use vstd::prelude::*;

use crate::free_category::{Edge, Path, Vertex};
use crate::interpret::descriptor::{composes_to, flat, is_leaf, DspBlockDescriptor};
use crate::interpret::signal::{
    BlockIndex, BoundaryIndex, BoundarySignal, CicOrder, DelayDepth, FractionalBits,
    GainCoefficient, PipelineLatency, RateFactor, TapCount,
};
use crate::sample::element::Sample;
use crate::sample::format::SampleFormat;

verus! {

/// Number of bits needed to write `n` in binary (0 for 0).
pub open spec fn bit_length(n: nat) -> nat
    decreases n,
{
    if n == 0 {
        0
    } else {
        1 + bit_length(n / 2)
    }
}

/// The bit length of a `usize` is at most 64.
pub proof fn lemma_bit_length_bound(n: nat)
    ensures
        n < 0x1_0000_0000_0000_0000 ==> bit_length(n) <= 64,
{
    vstd::arithmetic::power2::lemma2_to64();
    if n < 0x1_0000_0000_0000_0000 {
        lemma_bit_length_pow(n, 64);
    }
}

/// Numbers below `2^k` have at most `k` bits.
proof fn lemma_bit_length_pow(n: nat, k: nat)
    requires
        n < vstd::arithmetic::power2::pow2(k),
    ensures
        bit_length(n) <= k,
    decreases k,
{
    if n > 0 {
        if k == 0 {
            vstd::arithmetic::power2::lemma2_to64();
        } else {
            vstd::arithmetic::power2::lemma_pow2_unfold(k);
            lemma_bit_length_pow(n / 2, (k - 1) as nat);
        }
    }
}

/// The binary length of `n`: `usize::BITS - n.leading_zeros()`.
pub fn bit_length_of(n: usize) -> (r: u32)
    ensures
        r == bit_length(n as nat),
        r <= 64,
{
    let mut v = n;
    let mut count: u32 = 0;
    proof {
        lemma_bit_length_bound(n as nat);
    }
    while v > 0
        invariant
            count + bit_length(v as nat) == bit_length(n as nat),
            bit_length(n as nat) <= 64,
        decreases v,
    {
        v = v / 2;
        count = count + 1;
    }
    count
}

/// Configuration for a single DSP block (used to construct descriptors).
#[derive(Debug)]
pub enum BlockConfig {
    /// FIR filter with given coefficients and fractional bits.
    Fir { coefficients: Vec<Sample>, frac_bits: FractionalBits },
    /// CIC decimation filter.
    Cic { order: CicOrder, rate_factor: RateFactor },
    /// Pure delay line.
    Delay { depth: DelayDepth },
    /// Gain with integer coefficient (shift = 0).
    Gain { coefficient: GainCoefficient },
    /// Gain with fractional coefficient.
    GainFractional { coefficient: GainCoefficient, shift: u32 },
    /// Downsample by integer factor.
    Decimator { factor: RateFactor },
    /// Upsample by integer factor.
    Interpolator { factor: RateFactor },
    /// Running-sum accumulator.
    Accumulator,
}

/// Two configurations hold the same parameters.
pub open spec fn same_config(a: BlockConfig, b: BlockConfig) -> bool {
    match (a, b) {
        (
            BlockConfig::Fir { coefficients: c1, frac_bits: f1 },
            BlockConfig::Fir { coefficients: c2, frac_bits: f2 },
        ) => c1@ == c2@ && f1 == f2,
        (BlockConfig::Fir { .. }, _) => false,
        (_, BlockConfig::Fir { .. }) => false,
        _ => a == b,
    }
}

impl Clone for BlockConfig {
    fn clone(&self) -> (r: Self)
        ensures
            same_config(r, *self),
    {
        match self {
            BlockConfig::Fir { coefficients, frac_bits } => {
                let c = coefficients.clone();
                assert(c@ =~= coefficients@);
                BlockConfig::Fir { coefficients: c, frac_bits: *frac_bits }
            },
            BlockConfig::Cic { order, rate_factor } => BlockConfig::Cic {
                order: *order,
                rate_factor: *rate_factor,
            },
            BlockConfig::Delay { depth } => BlockConfig::Delay { depth: *depth },
            BlockConfig::Gain { coefficient } => BlockConfig::Gain { coefficient: *coefficient },
            BlockConfig::GainFractional { coefficient, shift } => BlockConfig::GainFractional {
                coefficient: *coefficient,
                shift: *shift,
            },
            BlockConfig::Decimator { factor } => BlockConfig::Decimator { factor: *factor },
            BlockConfig::Interpolator { factor } => BlockConfig::Interpolator { factor: *factor },
            BlockConfig::Accumulator => BlockConfig::Accumulator,
        }
    }
}

/// A configuration can be turned into a descriptor without overflow: a CIC
/// latency `2 * order + 1` must fit in `usize`.
pub open spec fn config_ok(c: BlockConfig) -> bool {
    c matches BlockConfig::Cic { order, .. } ==> 2 * order.0 + 1 <= usize::MAX
}

/// `d` is the descriptor of configuration `c` placed at block `idx`.
pub open spec fn describes(c: BlockConfig, idx: usize, d: DspBlockDescriptor) -> bool {
    let bi = BlockIndex(idx);
    match c {
        BlockConfig::Fir { coefficients, frac_bits } => match d {
            DspBlockDescriptor::Fir { block_index, coefficients: dc, tap_count, latency, frac_bits: df } => {
                &&& block_index == bi
                &&& dc@ == coefficients@
                &&& tap_count == TapCount(coefficients.len())
                &&& latency == PipelineLatency(coefficients.len())
                &&& df == frac_bits
            },
            _ => false,
        },
        BlockConfig::Cic { order, rate_factor } => d == (DspBlockDescriptor::Cic {
            block_index: bi,
            order,
            rate_factor,
            latency: PipelineLatency((2 * order.0 + 1) as usize),
        }),
        BlockConfig::Delay { depth } => d == (DspBlockDescriptor::Delay { block_index: bi, depth }),
        BlockConfig::Gain { coefficient } => d == (DspBlockDescriptor::Gain {
            block_index: bi,
            coefficient,
            shift: 0,
        }),
        BlockConfig::GainFractional { coefficient, shift } => d == (DspBlockDescriptor::Gain {
            block_index: bi,
            coefficient,
            shift,
        }),
        BlockConfig::Decimator { factor } => d == (DspBlockDescriptor::Decimator { block_index: bi, factor }),
        BlockConfig::Interpolator { factor } => d == (DspBlockDescriptor::Interpolator {
            block_index: bi,
            factor,
        }),
        BlockConfig::Accumulator => d == (DspBlockDescriptor::Accumulator { block_index: bi }),
    }
}

/// The sample-rate divisor a block introduces: its factor for CIC and
/// decimator blocks, 1 otherwise.
pub open spec fn spec_rate_divisor(c: BlockConfig) -> nat {
    match c {
        BlockConfig::Cic { rate_factor, .. } => rate_factor.0 as nat,
        BlockConfig::Decimator { factor } => factor.0 as nat,
        _ => 1,
    }
}

/// `ceil(log2(r))`: the least `k` with `r <= 2^k`, taken as 0 for `r <= 1`.
pub open spec fn ceil_log2(r: nat) -> nat {
    if r <= 1 {
        0
    } else {
        bit_length((r - 1) as nat)
    }
}

/// `n` lies in `[2^(b-1), 2^b)` for its bit length `b` (below 1 for 0).
pub proof fn lemma_bit_length_bounds(n: nat)
    ensures
        n < vstd::arithmetic::power2::pow2(bit_length(n)),
        n > 0 ==> vstd::arithmetic::power2::pow2((bit_length(n) - 1) as nat) <= n,
    decreases n,
{
    vstd::arithmetic::power2::lemma2_to64();
    if n > 0 {
        lemma_bit_length_bounds(n / 2);
        vstd::arithmetic::power2::lemma_pow2_unfold(bit_length(n));
        if n / 2 > 0 {
            vstd::arithmetic::power2::lemma_pow2_unfold((bit_length(n) - 1) as nat);
        }
    }
}

/// `ceil_log2(r)` is the base-2 logarithm of `r` rounded up: `r` is at most
/// `2^k`, and more than `2^(k-1)` once `r >= 2`.
pub proof fn lemma_ceil_log2_bounds(r: nat)
    requires
        r >= 1,
    ensures
        r <= vstd::arithmetic::power2::pow2(ceil_log2(r)),
        r >= 2 ==> ceil_log2(r) >= 1 && vstd::arithmetic::power2::pow2((ceil_log2(r) - 1) as nat) < r,
{
    vstd::arithmetic::power2::lemma2_to64();
    if r >= 2 {
        lemma_bit_length_bounds((r - 1) as nat);
    }
}

/// The bit growth a block introduces: `order * ceil(log2(rate))` for CIC,
/// 0 otherwise.
pub open spec fn spec_bit_growth(c: BlockConfig) -> nat {
    match c {
        BlockConfig::Cic { order, rate_factor } => (order.0 as nat) * ceil_log2(rate_factor.0 as nat),
        _ => 0,
    }
}

/// Total bit growth of the first `n` blocks.
pub open spec fn growth_sum(s: Seq<BlockConfig>, n: int) -> nat
    decreases n,
{
    if n <= 0 {
        0
    } else {
        growth_sum(s, n - 1) + spec_bit_growth(s[n - 1])
    }
}

/// Cumulative rate divisor of the first `n` blocks.
pub open spec fn rate_product(s: Seq<BlockConfig>, n: int) -> nat
    decreases n,
{
    if n <= 0 {
        1
    } else {
        rate_product(s, n - 1) * spec_rate_divisor(s[n - 1])
    }
}

/// Number of blocks before boundary `b`, capped at the number of blocks.
pub open spec fn blocks_before(s: Seq<BlockConfig>, b: usize) -> int {
    if b < s.len() {
        b as int
    } else {
        s.len() as int
    }
}

impl BlockConfig {
    /// Convert to a `DspBlockDescriptor` at the given block index.
    fn to_descriptor(&self, block_index: BlockIndex) -> (d: DspBlockDescriptor)
        requires
            config_ok(*self),
        ensures
            describes(*self, block_index.0, d),
    {
        match self {
            BlockConfig::Fir { coefficients, frac_bits } => {
                let c = coefficients.clone();
                assert(c@ =~= coefficients@);
                DspBlockDescriptor::fir(block_index, c, *frac_bits)
            },
            BlockConfig::Cic { order, rate_factor } => DspBlockDescriptor::cic(
                block_index,
                *order,
                *rate_factor,
            ),
            BlockConfig::Delay { depth } => DspBlockDescriptor::delay(block_index, *depth),
            BlockConfig::Gain { coefficient } => DspBlockDescriptor::gain(block_index, *coefficient),
            BlockConfig::GainFractional { coefficient, shift } => DspBlockDescriptor::gain_fractional(
                block_index,
                *coefficient,
                *shift,
            ),
            BlockConfig::Decimator { factor } => DspBlockDescriptor::decimator(block_index, *factor),
            BlockConfig::Interpolator { factor } => DspBlockDescriptor::interpolator(block_index, *factor),
            BlockConfig::Accumulator => DspBlockDescriptor::accumulator(block_index),
        }
    }

    /// The cumulative rate change factor for this block.
    fn rate_divisor(&self) -> (r: usize)
        ensures
            r == spec_rate_divisor(*self),
    {
        match self {
            BlockConfig::Cic { rate_factor, .. } => rate_factor.value(),
            BlockConfig::Decimator { factor } => factor.value(),
            _ => 1,
        }
    }

    /// The bit growth introduced by this block.
    fn bit_growth(&self) -> (r: usize)
        requires
            spec_bit_growth(*self) <= usize::MAX,
        ensures
            r == spec_bit_growth(*self),
    {
        match self {
            BlockConfig::Cic { order, rate_factor } => {
                let rate = rate_factor.value();
                let log2_r: u32 = if rate <= 1 {
                    0
                } else {
                    bit_length_of(rate - 1)
                };
                order.value() * (log2_r as usize)
            },
            _ => 0,
        }
    }
}

/// Maps the pipeline graph vertices to boundary signal types and
/// edges to DSP block descriptors.
#[derive(Debug, Clone)]
pub struct DspPipelineInterpretation {
    pub block_configs: Vec<BlockConfig>,
    pub input_format: SampleFormat,
}

impl DspPipelineInterpretation {
    /// Create a new pipeline interpretation.
    pub fn new(block_configs: Vec<BlockConfig>, input_format: SampleFormat) -> (r: Self)
        ensures
            r == (DspPipelineInterpretation { block_configs, input_format }),
    {
        DspPipelineInterpretation { block_configs, input_format }
    }

    /// The block configurations.
    pub fn block_configs(&self) -> (r: &[BlockConfig])
        ensures
            r@ == self.block_configs@,
    {
        self.block_configs.as_slice()
    }

    /// The input sample format.
    pub fn input_format(&self) -> (r: SampleFormat)
        ensures
            r == self.input_format,
    {
        self.input_format
    }

    /// Boundary `b` can be described without overflow: the widened bit
    /// width and every partial rate product fit in `usize`.
    pub open spec fn vertex_ok(&self, b: usize) -> bool {
        let n = blocks_before(self.block_configs@, b);
        &&& self.input_format.total_bits.0 + growth_sum(self.block_configs@, n) <= usize::MAX
        &&& forall|k: int| 0 <= k <= n ==> #[trigger] rate_product(self.block_configs@, k) <= usize::MAX
    }

    /// Compute the signal format at a given boundary by widening the input
    /// format by the bit growth of blocks `0..boundary`.
    fn format_at_boundary(&self, boundary: usize) -> (r: SampleFormat)
        requires
            self.vertex_ok(boundary),
        ensures
            r.total_bits.0 == self.input_format.total_bits.0 + growth_sum(
                self.block_configs@,
                blocks_before(self.block_configs@, boundary),
            ),
            r.fractional_bits == self.input_format.fractional_bits,
    {
        let n = if boundary < self.block_configs.len() {
            boundary
        } else {
            self.block_configs.len()
        };
        let mut fmt = self.input_format;
        let mut i: usize = 0;
        while i < n
            invariant
                n == blocks_before(self.block_configs@, boundary),
                n <= self.block_configs.len(),
                i <= n,
                self.vertex_ok(boundary),
                fmt.total_bits.0 == self.input_format.total_bits.0 + growth_sum(self.block_configs@, i as int),
                fmt.fractional_bits == self.input_format.fractional_bits,
            decreases n - i,
        {
            proof {
                lemma_growth_sum_monotone(self.block_configs@, i + 1, n as int);
            }
            let g = self.block_configs[i].bit_growth();
            fmt = fmt.widen(g);
            i = i + 1;
        }
        fmt
    }

    /// Compute the cumulative rate divisor at a given boundary.
    fn rate_at_boundary(&self, boundary: usize) -> (r: RateFactor)
        requires
            self.vertex_ok(boundary),
        ensures
            r.0 == rate_product(self.block_configs@, blocks_before(self.block_configs@, boundary)),
    {
        let n = if boundary < self.block_configs.len() {
            boundary
        } else {
            self.block_configs.len()
        };
        let mut divisor: usize = 1;
        let mut i: usize = 0;
        while i < n
            invariant
                n == blocks_before(self.block_configs@, boundary),
                n <= self.block_configs.len(),
                i <= n,
                self.vertex_ok(boundary),
                divisor == rate_product(self.block_configs@, i as int),
            decreases n - i,
        {
            assert(rate_product(self.block_configs@, i + 1) <= usize::MAX);
            divisor = divisor * self.block_configs[i].rate_divisor();
            i = i + 1;
        }
        RateFactor::new(divisor)
    }

    /// The boundary signal at a vertex: its index, its widened format and
    /// its cumulative rate divisor.
    pub fn map_vertex(&self, v: Vertex) -> (r: BoundarySignal)
        requires
            self.vertex_ok(v.0),
        ensures
            r.boundary == BoundaryIndex(v.0),
            r.format.total_bits.0 == self.input_format.total_bits.0 + growth_sum(
                self.block_configs@,
                blocks_before(self.block_configs@, v.0),
            ),
            r.format.fractional_bits == self.input_format.fractional_bits,
            r.sample_rate_divisor.0 == rate_product(
                self.block_configs@,
                blocks_before(self.block_configs@, v.0),
            ),
    {
        BoundarySignal::new(
            BoundaryIndex::new(v.index()),
            self.format_at_boundary(v.index()),
            self.rate_at_boundary(v.index()),
        )
    }

    /// Edge `e` can be mapped without overflow.
    pub open spec fn edge_ok(&self, e: usize) -> bool {
        e < self.block_configs@.len() ==> config_ok(self.block_configs@[e as int])
    }

    /// `d` is what edge `e` maps to: the descriptor of block `e`, or
    /// `Identity` for an edge beyond the configured blocks.
    pub open spec fn edge_describes(&self, e: usize, d: DspBlockDescriptor) -> bool {
        if e < self.block_configs@.len() {
            describes(self.block_configs@[e as int], e, d)
        } else {
            d is Identity
        }
    }

    /// The descriptor of a block edge; `Identity` for an edge beyond the blocks.
    pub fn map_edge(&self, e: Edge) -> (d: DspBlockDescriptor)
        requires
            self.edge_ok(e.0),
        ensures
            self.edge_describes(e.0, d),
    {
        if e.index() < self.block_configs.len() {
            self.block_configs[e.index()].to_descriptor(BlockIndex::new(e.index()))
        } else {
            DspBlockDescriptor::Identity
        }
    }
}

/// Growth sums never decrease along the blocks.
pub proof fn lemma_growth_sum_monotone(s: Seq<BlockConfig>, i: int, j: int)
    requires
        i <= j,
    ensures
        growth_sum(s, i) <= growth_sum(s, j),
    decreases j - i,
{
    if i < j {
        lemma_growth_sum_monotone(s, i, j - 1);
    }
}

/// The edges of `es` that fall within the first `n` blocks, in order.
pub open spec fn kept_edges(es: Seq<usize>, n: nat) -> Seq<usize>
    decreases es.len(),
{
    if es.len() == 0 {
        seq![]
    } else {
        kept_edges(es.drop_last(), n) + (if es.last() < n {
            seq![es.last()]
        } else {
            Seq::<usize>::empty()
        })
    }
}

/// `r` is the interpretation of a path with edges `es`: the composition,
/// in order, of the descriptors of the edges that name configured blocks
/// (the others map to `Identity`).
pub open spec fn interprets_as(
    interp: DspPipelineInterpretation,
    es: Seq<usize>,
    r: DspBlockDescriptor,
) -> bool {
    let kept = kept_edges(es, interp.block_configs@.len());
    &&& r is Identity <==> kept.len() == 0
    &&& kept.len() == 1 ==> is_leaf(r)
    &&& flat(r).len() == kept.len()
    &&& forall|i: int|
        0 <= i < kept.len() ==> describes(
            interp.block_configs@[kept[i] as int],
            kept[i],
            #[trigger] flat(r)[i],
        )
}

/// Every edge of the path can be mapped, and an empty path's vertex can be described.
pub open spec fn path_ok(interp: DspPipelineInterpretation, p: crate::free_category::PathView) -> bool {
    &&& p.edges.len() == 0 ==> interp.vertex_ok(p.source)
    &&& forall|i: int| 0 <= i < p.edges.len() ==> interp.edge_ok(#[trigger] p.edges[i])
}

/// Kept edges distribute over concatenation.
pub proof fn lemma_kept_edges_append(es1: Seq<usize>, es2: Seq<usize>, n: nat)
    ensures
        kept_edges(es1 + es2, n) == kept_edges(es1, n) + kept_edges(es2, n),
    decreases es2.len(),
{
    if es2.len() == 0 {
        assert(es1 + es2 =~= es1);
        assert(kept_edges(es2, n) =~= Seq::<usize>::empty());
        assert(kept_edges(es1, n) + kept_edges(es2, n) =~= kept_edges(es1, n));
    } else {
        lemma_kept_edges_append(es1, es2.drop_last(), n);
        assert((es1 + es2).drop_last() =~= es1 + es2.drop_last());
        assert((es1 + es2).last() == es2.last());
        let tail = if es2.last() < n {
            seq![es2.last()]
        } else {
            Seq::<usize>::empty()
        };
        assert(kept_edges(es1, n) + kept_edges(es2.drop_last(), n) + tail =~= kept_edges(es1, n) + (
        kept_edges(es2.drop_last(), n) + tail));
    }
}

/// A descriptor of a configuration is a leaf block.
pub proof fn lemma_describes_leaf(c: BlockConfig, idx: usize, d: DspBlockDescriptor)
    requires
        describes(c, idx, d),
    ensures
        is_leaf(d),
        flat(d) == seq![d],
{
}

/// What a single edge maps to is the interpretation of the one-edge path.
pub proof fn lemma_edge_interprets(interp: DspPipelineInterpretation, e: usize, d: DspBlockDescriptor)
    requires
        interp.edge_describes(e, d),
    ensures
        interprets_as(interp, seq![e], d),
{
    let s = seq![e];
    assert(s.drop_last() =~= Seq::<usize>::empty());
    assert(kept_edges(Seq::<usize>::empty(), interp.block_configs@.len()) =~= Seq::<usize>::empty());
    if e < interp.block_configs@.len() {
        lemma_describes_leaf(interp.block_configs@[e as int], e, d);
        assert(kept_edges(s, interp.block_configs@.len()) =~= seq![e]);
    } else {
        assert(kept_edges(s, interp.block_configs@.len()) =~= Seq::<usize>::empty());
        assert(flat(d) =~= Seq::<DspBlockDescriptor>::empty());
    }
}

/// Interpretation is a functor from paths to descriptors: the
/// interpretation of a concatenated path is the composition of the
/// interpretations of its parts.
pub proof fn lemma_interpret_functorial(
    interp: DspPipelineInterpretation,
    es1: Seq<usize>,
    es2: Seq<usize>,
    r1: DspBlockDescriptor,
    r2: DspBlockDescriptor,
    r: DspBlockDescriptor,
)
    requires
        interprets_as(interp, es1, r1),
        interprets_as(interp, es2, r2),
        composes_to(r1, r2, r),
    ensures
        interprets_as(interp, es1 + es2, r),
{
    let n = interp.block_configs@.len();
    lemma_kept_edges_append(es1, es2, n);
    let k1 = kept_edges(es1, n);
    let k2 = kept_edges(es2, n);
    let k = kept_edges(es1 + es2, n);
    assert forall|i: int| 0 <= i < k.len() implies describes(
        interp.block_configs@[k[i] as int],
        k[i],
        #[trigger] flat(r)[i],
    ) by {
        if i < k1.len() {
            assert(k[i] == k1[i]);
            assert(flat(r)[i] == flat(r1)[i]);
        } else {
            assert(k[i] == k2[i - k1.len()]);
            assert(flat(r)[i] == flat(r2)[i - k1.len()]);
        }
    }
}

/// Interpret a path: the identity for an empty path (after mapping its
/// vertex), otherwise the descriptors of its edges composed in order.
pub fn interpret(interp: &DspPipelineInterpretation, path: &Path) -> (r: DspBlockDescriptor)
    requires
        path_ok(*interp, path@),
    ensures
        interprets_as(*interp, path@.edges, r),
{
    let edges = path.edges();
    let ghost es = path@.edges;
    let n = interp.block_configs.len();
    if edges.len() == 0 {
        let _object = interp.map_vertex(path.source());
        let r = DspBlockDescriptor::identity();
        assert(kept_edges(es, n as nat) =~= Seq::<usize>::empty());
        assert(flat(r) =~= Seq::<DspBlockDescriptor>::empty());
        return r;
    }
    assert(es[0] == edges@[0].0);
    let mut acc = interp.map_edge(edges[0]);
    proof {
        lemma_edge_interprets(*interp, es[0], acc);
        assert(es.subrange(0, 1) =~= seq![es[0]]);
    }
    let mut i: usize = 1;
    while i < edges.len()
        invariant
            es == crate::free_category::edge_indices(edges@),
            path_ok(*interp, path@),
            es == path@.edges,
            1 <= i <= edges.len(),
            interprets_as(*interp, es.subrange(0, i as int), acc),
        decreases edges.len() - i,
    {
        assert(es[i as int] == edges@[i as int].0);
        let d = interp.map_edge(edges[i]);
        proof {
            lemma_edge_interprets(*interp, es[i as int], d);
        }
        let ghost prev = acc;
        acc = acc.compose(d);
        proof {
            lemma_interpret_functorial(*interp, es.subrange(0, i as int), seq![es[i as int]], prev, d, acc);
            assert(es.subrange(0, i as int) + seq![es[i as int]] =~= es.subrange(0, i + 1));
        }
        i = i + 1;
    }
    assert(es.subrange(0, edges.len() as int) =~= es);
    acc
}

} // verus!
