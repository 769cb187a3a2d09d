//! Pure CIC (Cascaded Integrator-Comb) golden model.
//!
//! A CIC decimation filter of order M with rate change factor R:
//! M cascaded integrators (prefix sums), decimation by R, then
//! M cascaded combs (first differences).

use vstd::prelude::*;

use crate::error::{result_matches, values_result, zero_order_error, Error, Fault};
use crate::golden::accumulator::{accumulate, running_sum, spec_accumulate};
use crate::golden::decimator::{ceil_div, decimate, spec_decimate};
use crate::golden::interpolator::{interpolate, spec_interpolate};
use crate::interpret::signal::{CicOrder, RateFactor};
use crate::sample::element::{sat_sub, values, Sample};
use vstd::arithmetic::power2::{lemma_pow2_strictly_increases, lemma_pow2_unfold, pow2};

verus! {

/// First difference: `out[0] = in[0]`, `out[i] = in[i] - in[i-1]` (saturating).
pub open spec fn spec_first_difference(s: Seq<i32>) -> Seq<i32> {
    Seq::new(s.len(), |i: int| if i == 0 { s[0] } else { sat_sub(s[i], s[i - 1]) })
}

/// `k` cascaded integrator stages.
pub open spec fn integrate_n(s: Seq<i32>, k: nat) -> Seq<i32>
    decreases k,
{
    if k == 0 {
        s
    } else {
        spec_accumulate(integrate_n(s, (k - 1) as nat))
    }
}

/// `k` cascaded comb stages.
pub open spec fn comb_n(s: Seq<i32>, k: nat) -> Seq<i32>
    decreases k,
{
    if k == 0 {
        s
    } else {
        spec_first_difference(comb_n(s, (k - 1) as nat))
    }
}

/// CIC decimation: integrate `order` times, keep every `rate`-th sample,
/// comb `order` times.  Order zero and rate zero are refused, in that order.
pub open spec fn spec_cic_decimate(s: Seq<i32>, order: usize, rate: usize) -> Result<Seq<i32>, Fault> {
    if order == 0 {
        Err(Fault::ZeroOrder)
    } else if rate == 0 {
        Err(Fault::InvalidRateFactor { factor: rate })
    } else {
        Ok(comb_n(spec_decimate(integrate_n(s, order as nat), rate as nat), order as nat))
    }
}

/// CIC interpolation: comb `order` times, zero-stuff by `rate`,
/// integrate `order` times.  Order zero and rate zero are refused, in that order.
pub open spec fn spec_cic_interpolate(s: Seq<i32>, order: usize, rate: usize) -> Result<Seq<i32>, Fault> {
    if order == 0 {
        Err(Fault::ZeroOrder)
    } else if rate == 0 {
        Err(Fault::InvalidRateFactor { factor: rate })
    } else {
        Ok(integrate_n(spec_interpolate(comb_n(s, order as nat), rate as nat), order as nat))
    }
}

/// Running prefix sum (single integrator stage).
pub fn prefix_sum(input: &[Sample]) -> (r: Vec<Sample>)
    ensures
        values(r@) == spec_accumulate(values(input@)),
{
    accumulate(input)
}

/// First difference (single comb stage with unit delay).
pub fn first_difference(input: &[Sample]) -> (r: Vec<Sample>)
    ensures
        values(r@) == spec_first_difference(values(input@)),
{
    let ghost x = values(input@);
    let mut out: Vec<Sample> = Vec::new();
    let mut i: usize = 0;
    while i < input.len()
        invariant
            x == values(input@),
            i <= input.len(),
            out.len() == i,
            forall|j: int| 0 <= j < i ==> #[trigger] out@[j].0 == (if j == 0 {
                x[0]
            } else {
                sat_sub(x[j], x[j - 1])
            }),
        decreases input.len() - i,
    {
        if i == 0 {
            out.push(input[0]);
        } else {
            out.push(input[i].saturating_sub(input[i - 1]));
        }
        i = i + 1;
    }
    assert(values(out@) =~= spec_first_difference(x));
    out
}

/// Apply `k` integrator stages.
fn integrate_stages(input: Vec<Sample>, k: usize) -> (r: Vec<Sample>)
    ensures
        values(r@) == integrate_n(values(input@), k as nat),
{
    let ghost x = values(input@);
    let mut data = input;
    let mut i: usize = 0;
    while i < k
        invariant
            i <= k,
            values(data@) == integrate_n(x, i as nat),
        decreases k - i,
    {
        data = prefix_sum(data.as_slice());
        i = i + 1;
    }
    data
}

/// Apply `k` comb stages.
fn comb_stages(input: Vec<Sample>, k: usize) -> (r: Vec<Sample>)
    ensures
        values(r@) == comb_n(values(input@), k as nat),
{
    let ghost x = values(input@);
    let mut data = input;
    let mut i: usize = 0;
    while i < k
        invariant
            i <= k,
            values(data@) == comb_n(x, i as nat),
        decreases k - i,
    {
        data = first_difference(data.as_slice());
        i = i + 1;
    }
    data
}

/// CIC decimation filter.
///
/// Returns `Error::Cic` if the order is zero, else
/// `Error::InvalidRateFactor` if the rate factor is zero.
pub fn cic_decimate(input: &[Sample], order: CicOrder, rate_factor: RateFactor) -> (r: Result<
    Vec<Sample>,
    Error,
>)
    ensures
        result_matches(values_result(r), spec_cic_decimate(values(input@), order.0, rate_factor.0)),
{
    if order.value() == 0 {
        return Err(zero_order_error());
    }
    if rate_factor.value() == 0 {
        return Err(Error::InvalidRateFactor { factor: rate_factor.value() });
    }
    let integrated = integrate_stages(vstd::slice::slice_to_vec(input), order.value());
    let decimated = match decimate(integrated.as_slice(), rate_factor) {
        Ok(v) => v,
        Err(e) => {
            return Err(e);
        },
    };
    let combed = comb_stages(decimated, order.value());
    Ok(combed)
}

/// CIC interpolation filter: comb, upsample, integrate.
///
/// Returns `Error::Cic` if the order is zero, else
/// `Error::InvalidRateFactor` if the rate factor is zero.
pub fn cic_interpolate(input: &[Sample], order: CicOrder, rate_factor: RateFactor) -> (r: Result<
    Vec<Sample>,
    Error,
>)
    ensures
        result_matches(values_result(r), spec_cic_interpolate(values(input@), order.0, rate_factor.0)),
{
    if order.value() == 0 {
        return Err(zero_order_error());
    }
    if rate_factor.value() == 0 {
        return Err(Error::InvalidRateFactor { factor: rate_factor.value() });
    }
    let combed = comb_stages(vstd::slice::slice_to_vec(input), order.value());
    let upsampled = match interpolate(combed.as_slice(), rate_factor) {
        Ok(v) => v,
        Err(e) => {
            return Err(e);
        },
    };
    let integrated = integrate_stages(upsampled, order.value());
    Ok(integrated)
}

/// An integrator step at each position stays in the `i32` range, so no
/// running sum saturates.
pub open spec fn integrates_exactly(s: Seq<i32>) -> bool {
    forall|n: int| 0 <= n < s.len() ==> i32::MIN <= #[trigger] running_sum(s, n) + s[n] <= i32::MAX
}

/// A comb stage undoes an integrator stage, as long as no running sum
/// saturates.
pub proof fn lemma_comb_undoes_integrator(s: Seq<i32>)
    requires
        integrates_exactly(s),
    ensures
        spec_first_difference(spec_accumulate(s)) == s,
{
    let a = spec_accumulate(s);
    assert forall|i: int| 0 <= i < s.len() implies spec_first_difference(a)[i] == s[i] by {
        assert(i32::MIN <= running_sum(s, i) + s[i] <= i32::MAX);
        assert(running_sum(s, i + 1) == running_sum(s, i) + s[i]);
        if i == 0 {
            assert(running_sum(s, 0) == 0);
        } else {
            assert(a[i - 1] == running_sum(s, i));
        }
    }
    assert(spec_first_difference(a) =~= s);
}

/// A comb stage on samples below `2^e` in magnitude (`e <= 30`) takes exact
/// differences, below `2^(e+1)` in magnitude.
proof fn lemma_comb_stage_bound(s: Seq<i32>, e: nat)
    requires
        e <= 30,
        forall|i: int| 0 <= i < s.len() ==> -pow2(e) < #[trigger] s[i] < pow2(e),
    ensures
        forall|i: int|
            0 <= i < s.len() ==> -pow2(e + 1) < #[trigger] spec_first_difference(s)[i] < pow2(e + 1)
                && spec_first_difference(s)[i] == if i == 0 {
                s[0] as int
            } else {
                s[i] - s[i - 1]
            },
{
    vstd::arithmetic::power2::lemma2_to64();
    lemma_pow2_unfold(e + 1);
    if e < 30 {
        lemma_pow2_strictly_increases(e, 30);
    }
    assert forall|i: int| 0 <= i < s.len() implies -pow2(e + 1) < #[trigger] spec_first_difference(s)[i] < pow2(e + 1)
        && spec_first_difference(s)[i] == if i == 0 {
        s[0] as int
    } else {
        s[i] - s[i - 1]
    } by {
        if i > 0 {
            assert(-pow2(e) < s[i - 1] < pow2(e));
        }
    }
}

/// `k` comb stages on samples below `2^e` in magnitude, with `e + k <= 31`,
/// stay below `2^(e+k)`.
proof fn lemma_comb_n_bound(s: Seq<i32>, e: nat, k: nat)
    requires
        e + k <= 31,
        forall|i: int| 0 <= i < s.len() ==> -pow2(e) < #[trigger] s[i] < pow2(e),
    ensures
        comb_n(s, k).len() == s.len(),
        forall|i: int| 0 <= i < s.len() ==> -pow2(e + k) < #[trigger] comb_n(s, k)[i] < pow2(e + k),
    decreases k,
{
    if k > 0 {
        let kk = (k - 1) as nat;
        lemma_comb_n_bound(s, e, kk);
        lemma_comb_stage_bound(comb_n(s, kk), e + kk);
        assert(e + kk + 1 == e + k);
    }
}

/// An integrator stage undoes a comb stage on samples below `2^30` in
/// magnitude.
pub proof fn lemma_integrator_undoes_comb(s: Seq<i32>)
    requires
        forall|i: int| 0 <= i < s.len() ==> -0x4000_0000 < #[trigger] s[i] < 0x4000_0000,
    ensures
        spec_accumulate(spec_first_difference(s)) == s,
{
    let d = spec_first_difference(s);
    vstd::arithmetic::power2::lemma2_to64();
    lemma_comb_stage_bound(s, 30);
    assert forall|n: int| 0 <= n < s.len() implies #[trigger] running_sum(d, n + 1) == s[n] by {
        lemma_running_sum_telescopes(s, n);
    }
    assert(spec_accumulate(d) =~= s);
}

/// The running sum of the differences of `s` is the last sample summed.
proof fn lemma_running_sum_telescopes(s: Seq<i32>, n: int)
    requires
        0 <= n < s.len(),
        forall|i: int| 0 <= i < s.len() ==> -0x4000_0000 < #[trigger] s[i] < 0x4000_0000,
    ensures
        running_sum(spec_first_difference(s), n + 1) == s[n],
    decreases n,
{
    let d = spec_first_difference(s);
    vstd::arithmetic::power2::lemma2_to64();
    lemma_comb_stage_bound(s, 30);
    if n == 0 {
        assert(running_sum(d, 0) == 0);
        assert(d[0] == s[0]);
    } else {
        lemma_running_sum_telescopes(s, n - 1);
        assert(d[n] == s[n] - s[n - 1]);
        assert(-0x4000_0000 < s[n - 1] < 0x4000_0000);
    }
}

/// `k` integrator stages undo `k` of the `m` comb stages, on samples small
/// enough (below `2^(31-m)` in magnitude) that no stage saturates.
proof fn lemma_integrators_undo_combs(x: Seq<i32>, m: nat, k: nat)
    requires
        1 <= m <= 31,
        k <= m,
        forall|i: int| 0 <= i < x.len() ==> -pow2((31 - m) as nat) < #[trigger] x[i] < pow2((31 - m) as nat),
    ensures
        integrate_n(comb_n(x, m), k) == comb_n(x, (m - k) as nat),
    decreases k,
{
    if k > 0 {
        let kk = (k - 1) as nat;
        lemma_integrators_undo_combs(x, m, kk);
        let j = (m - k) as nat;
        let e = (31 - m) as nat;
        lemma_comb_n_bound(x, e, j);
        assert(e + j <= 30);
        vstd::arithmetic::power2::lemma2_to64();
        if e + j < 30 {
            lemma_pow2_strictly_increases(e + j, 30);
        }
        let c = comb_n(x, j);
        assert forall|i: int| 0 <= i < c.len() implies -0x4000_0000 < #[trigger] c[i] < 0x4000_0000 by {
            assert(-pow2(e + j) < c[i] < pow2(e + j));
        }
        lemma_integrator_undoes_comb(c);
        assert(comb_n(x, (m - kk) as nat) == spec_first_difference(c));
    }
}

/// CIC interpolation at rate one is the identity: `m` comb stages and `m`
/// integrator stages cancel, on samples small enough (below `2^(31-m)` in
/// magnitude) that no stage saturates.
pub proof fn lemma_cic_interpolate_unit_rate(x: Seq<i32>, m: usize)
    requires
        1 <= m <= 31,
        forall|i: int| 0 <= i < x.len() ==> -pow2((31 - m) as nat) < #[trigger] x[i] < pow2((31 - m) as nat),
    ensures
        spec_cic_interpolate(x, m, 1) == Ok::<Seq<i32>, Fault>(x),
{
    let c = comb_n(x, m as nat);
    lemma_comb_n_bound(x, (31 - m) as nat, 0);
    lemma_comb_n_len(x, m as nat);
    assert(spec_interpolate(c, 1) =~= c) by {
        assert forall|j: int| 0 <= j < c.len() implies spec_interpolate(c, 1)[j] == c[j] by {
            vstd::arithmetic::div_mod::lemma_fundamental_div_mod_converse(j, 1, j, 0);
        }
    }
    lemma_integrators_undo_combs(x, m as nat, m as nat);
}

/// Integrator stages keep the length of the stream.
pub proof fn lemma_integrate_n_len(s: Seq<i32>, k: nat)
    ensures
        integrate_n(s, k).len() == s.len(),
    decreases k,
{
    if k > 0 {
        lemma_integrate_n_len(s, (k - 1) as nat);
    }
}

/// Comb stages keep the length of the stream.
pub proof fn lemma_comb_n_len(s: Seq<i32>, k: nat)
    ensures
        comb_n(s, k).len() == s.len(),
    decreases k,
{
    if k > 0 {
        lemma_comb_n_len(s, (k - 1) as nat);
    }
}


/// `k + 1` comb stages are `k` comb stages on the first difference.
proof fn lemma_comb_n_shift(s: Seq<i32>, k: nat)
    ensures
        comb_n(s, k + 1) == comb_n(spec_first_difference(s), k),
    decreases k,
{
    if k > 0 {
        lemma_comb_n_shift(s, (k - 1) as nat);
        assert(comb_n(s, k + 1) == spec_first_difference(comb_n(s, k)));
        assert(comb_n(spec_first_difference(s), k) == spec_first_difference(
            comb_n(spec_first_difference(s), (k - 1) as nat),
        ));
    } else {
        assert(comb_n(s, 1) == spec_first_difference(comb_n(s, 0)));
        assert(comb_n(s, 0) == s);
    }
}

/// A CIC interpolator of order `m + 1` is one of order `m` run on the first
/// differences of the input, followed by one more integrator.
pub proof fn lemma_cic_interpolate_order_step(x: Seq<i32>, m: usize, rate: usize)
    requires
        m >= 1,
        m < usize::MAX,
        rate >= 1,
    ensures
        spec_cic_interpolate(spec_first_difference(x), m, rate) matches Ok(y) && spec_cic_interpolate(
            x,
            (m + 1) as usize,
            rate,
        ) == Ok::<Seq<i32>, Fault>(spec_accumulate(y)),
{
    lemma_comb_n_shift(x, m as nat);
    assert(((m + 1) as usize) as nat == m as nat + 1);
}

/// `k + 1` integrator stages are `k` integrator stages on the running sum.
proof fn lemma_integrate_n_shift(s: Seq<i32>, k: nat)
    ensures
        integrate_n(s, k + 1) == integrate_n(spec_accumulate(s), k),
    decreases k,
{
    if k > 0 {
        lemma_integrate_n_shift(s, (k - 1) as nat);
        assert(integrate_n(s, k + 1) == spec_accumulate(integrate_n(s, k)));
        assert(integrate_n(spec_accumulate(s), k) == spec_accumulate(
            integrate_n(spec_accumulate(s), (k - 1) as nat),
        ));
    } else {
        assert(integrate_n(s, 1) == spec_accumulate(integrate_n(s, 0)));
        assert(integrate_n(s, 0) == s);
    }
}

/// A CIC decimator of order `m + 1` is one of order `m` run on the running
/// sum of the input, followed by one more comb.
pub proof fn lemma_cic_decimate_order_step(x: Seq<i32>, m: usize, rate: usize)
    requires
        m >= 1,
        m < usize::MAX,
        rate >= 1,
    ensures
        spec_cic_decimate(spec_accumulate(x), m, rate) matches Ok(y) && spec_cic_decimate(
            x,
            (m + 1) as usize,
            rate,
        ) == Ok::<Seq<i32>, Fault>(spec_first_difference(y)),
{
    lemma_integrate_n_shift(x, m as nat);
    assert(((m + 1) as usize) as nat == m as nat + 1);
}

/// Exact (unsaturated) sum of the first `n` samples.
pub open spec fn exact_sum(s: Seq<i32>, n: int) -> int
    decreases n,
{
    if n <= 0 {
        0
    } else {
        exact_sum(s, n - 1) + s[n - 1]
    }
}

/// While no prefix sum leaves `(-2^30, 2^30)`, the saturating running sum is
/// the exact sum.
proof fn lemma_running_sum_exact(s: Seq<i32>, n: int)
    requires
        0 <= n <= s.len(),
        forall|m: int| 0 <= m <= s.len() ==> -0x4000_0000 < #[trigger] exact_sum(s, m) < 0x4000_0000,
    ensures
        running_sum(s, n) == exact_sum(s, n),
    decreases n,
{
    if n > 0 {
        lemma_running_sum_exact(s, n - 1);
        assert(-0x4000_0000 < exact_sum(s, n) < 0x4000_0000);
    }
}

/// A kept index `k` (below `ceil(n / f)`) lands inside the input.
proof fn lemma_kept_index_in_range(n: nat, f: nat, k: int)
    requires
        f >= 1,
        0 <= k < ceil_div(n, f),
    ensures
        0 <= k * f < n,
{
    assert(0 <= k * f < n) by (nonlinear_arith)
        requires
            f >= 1,
            0 <= k < (n + f - 1) / (f as int),
    {
        let q = (n + f - 1) / (f as int);
        let r = (n + f - 1) % (f as int);
        assert(n + f - 1 == q * f + r);
        assert(0 <= r < f);
        assert(k + 1 <= q);
        assert((k + 1) * f <= q * f);
    }
}

/// A first-order CIC decimator sums each window of `rate` samples: output `k`
/// is the sum of inputs `(k - 1) * rate + 1 ..= k * rate` (output 0 is input 0),
/// while no prefix sum of the input leaves `(-2^30, 2^30)` (so that no stage
/// saturates).
pub proof fn lemma_cic_decimate_first_order_window_sums(x: Seq<i32>, rate: usize)
    requires
        rate >= 1,
        forall|m: int| 0 <= m <= x.len() ==> -0x4000_0000 < #[trigger] exact_sum(x, m) < 0x4000_0000,
    ensures
        spec_cic_decimate(x, 1, rate) matches Ok(y) && y.len() == ceil_div(x.len(), rate as nat) && (
        y.len() > 0 ==> y[0] == x[0]) && forall|k: int|
            1 <= k < y.len() ==> #[trigger] y[k] == exact_sum(x, k * rate + 1) - exact_sum(
                x,
                (k - 1) * rate + 1,
            ),
{
    let r = rate as int;
    let a = spec_accumulate(x);
    let d = spec_decimate(a, rate as nat);
    assert(integrate_n(x, 0) == x);
    assert(integrate_n(x, 1) == a);
    assert(comb_n(d, 0) == d);
    assert(comb_n(d, 1) == spec_first_difference(d));
    assert forall|k: int| 0 <= k < d.len() implies #[trigger] d[k] == exact_sum(x, k * r + 1) by {
        lemma_kept_index_in_range(x.len(), rate as nat, k);
        lemma_running_sum_exact(x, k * r + 1);
    }
    if d.len() > 0 {
        assert(exact_sum(x, 1) == exact_sum(x, 0) + x[0]);
        assert(exact_sum(x, 0) == 0);
    }
    assert forall|k: int| 1 <= k < d.len() implies #[trigger] spec_first_difference(d)[k] == exact_sum(
        x,
        k * r + 1,
    ) - exact_sum(x, (k - 1) * r + 1) by {
        lemma_kept_index_in_range(x.len(), rate as nat, k);
        assert((k - 1) * r + 1 <= k * r + 1) by (nonlinear_arith)
            requires
                r >= 1,
        ;
        assert(0 <= (k - 1) * r) by (nonlinear_arith)
            requires
                r >= 1,
                k >= 1,
        ;
        assert(d[k] == exact_sum(x, k * r + 1));
        assert(d[k - 1] == exact_sum(x, (k - 1) * r + 1));
        assert(-0x4000_0000 < exact_sum(x, k * r + 1) < 0x4000_0000);
        assert(-0x4000_0000 < exact_sum(x, (k - 1) * r + 1) < 0x4000_0000);
    }
}

/// A first-order CIC interpolator holds each sample for `rate` outputs, on
/// samples below `2^30` in magnitude (so that no stage saturates).
pub proof fn lemma_cic_interpolate_first_order_holds(x: Seq<i32>, rate: usize)
    requires
        rate >= 1,
        forall|i: int| 0 <= i < x.len() ==> -0x4000_0000 < #[trigger] x[i] < 0x4000_0000,
    ensures
        spec_cic_interpolate(x, 1, rate) matches Ok(y) && y.len() == x.len() * rate && forall|n: int|
            0 <= n < y.len() ==> #[trigger] y[n] == x[n / (rate as int)],
{
    let r = rate as int;
    let d = spec_first_difference(x);
    let z = spec_interpolate(d, rate as nat);
    vstd::arithmetic::power2::lemma2_to64();
    lemma_comb_stage_bound(x, 30);
    assert(comb_n(x, 0) == x);
    assert(comb_n(x, 1) == d);
    assert(integrate_n(z, 0) == z);
    assert(integrate_n(z, 1) == spec_accumulate(z));
    assert forall|n: int| 0 <= n < z.len() implies #[trigger] running_sum(z, n + 1) == x[n / r] by {
        lemma_hold_running_sum(x, rate, n);
    }
}

/// The running sum of the zero-stuffed first differences holds the last
/// sample reached.
proof fn lemma_hold_running_sum(x: Seq<i32>, rate: usize, n: int)
    requires
        rate >= 1,
        forall|i: int| 0 <= i < x.len() ==> -0x4000_0000 < #[trigger] x[i] < 0x4000_0000,
        0 <= n < x.len() * rate,
    ensures
        running_sum(spec_interpolate(spec_first_difference(x), rate as nat), n + 1) == x[n / (rate as int)],
    decreases n,
{
    let r = rate as int;
    let d = spec_first_difference(x);
    let z = spec_interpolate(d, rate as nat);
    vstd::arithmetic::power2::lemma2_to64();
    lemma_comb_stage_bound(x, 30);
    let k = n / r;
    let j = n % r;
    vstd::arithmetic::div_mod::lemma_fundamental_div_mod(n, r);
    assert(0 <= j < r) by {
        vstd::arithmetic::div_mod::lemma_mod_bound(n, r);
    }
    assert(0 <= k < x.len()) by {
        vstd::arithmetic::div_mod::lemma_div_pos_is_pos(n, r);
        vstd::arithmetic::div_mod::lemma_div_is_ordered(n, x.len() * r - 1, r);
        let l = x.len() as int;
        assert(l >= 1) by (nonlinear_arith)
            requires
                0 <= n < l * r,
                r >= 1,
                l >= 0,
        ;
        assert((l - 1) * r + (r - 1) == l * r - 1) by (nonlinear_arith);
        vstd::arithmetic::div_mod::lemma_fundamental_div_mod_converse(l * r - 1, r, l - 1, r - 1);
    }
    assert(z[n] == if j == 0 { d[k] } else { 0i32 });
    if n == 0 {
        assert(k == 0);
        assert(running_sum(z, 0) == 0);
    } else {
        lemma_hold_running_sum(x, rate, n - 1);
        if j == 0 {
            assert(k >= 1) by (nonlinear_arith)
                requires
                    n == r * k + j,
                    j == 0,
                    n > 0,
                    r >= 1,
            ;
            assert((k - 1) * r + (r - 1) == n - 1) by (nonlinear_arith)
                requires
                    n == r * k + j,
                    j == 0,
            ;
            vstd::arithmetic::div_mod::lemma_fundamental_div_mod_converse(n - 1, r, k - 1, r - 1);
            assert(d[k] == x[k] - x[k - 1]);
            assert(-0x4000_0000 < x[k - 1] < 0x4000_0000);
        } else {
            assert(k * r + (j - 1) == n - 1) by (nonlinear_arith)
                requires
                    n == r * k + j,
            ;
            vstd::arithmetic::div_mod::lemma_fundamental_div_mod_converse(n - 1, r, k, j - 1);
        }
    }
}

} // verus!
