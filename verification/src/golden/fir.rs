//! Pure FIR convolution golden model.
//!
//! Computes `output[n] = sum_{k=0}^{N-1} h[k] * x[n-k]` using widening
//! multiply to `i64` with saturating accumulation, then shifts right by
//! the fractional bits and clamps back to `i32`.

use vstd::prelude::*;

use crate::error::{empty_coefficients_error, result_matches, values_result, Error, Fault};
use crate::interpret::signal::FractionalBits;
use crate::sample::element::{clamp_to_i32, saturate_i32, values, Sample};

verus! {

/// Clamp a mathematical integer into the `i64` range.
pub open spec fn saturate_i64(x: int) -> i64 {
    if x > i64::MAX {
        i64::MAX
    } else if x < i64::MIN {
        i64::MIN
    } else {
        x as i64
    }
}

/// Saturating `i64` addition.
pub fn saturating_add_i64(a: i64, b: i64) -> (r: i64)
    ensures
        r == saturate_i64(a + b),
{
    match a.checked_add(b) {
        Some(v) => v,
        None => if b > 0 {
            i64::MAX
        } else {
            i64::MIN
        },
    }
}

/// The input sample `k` steps before position `n`, zero before the start.
pub open spec fn tap(x: Seq<i32>, n: int, k: int) -> i32 {
    if 0 <= n - k < x.len() {
        x[n - k]
    } else {
        0i32
    }
}

/// The accumulator after the first `k` taps at output position `n`,
/// each product added with `i64` saturation.
pub open spec fn fir_acc(x: Seq<i32>, c: Seq<i32>, n: int, k: int) -> i64
    decreases k,
{
    if k <= 0 {
        0i64
    } else {
        saturate_i64(fir_acc(x, c, n, k - 1) + tap(x, n, k - 1) * c[k - 1])
    }
}

/// Output sample `n`: the full accumulator shifted right by `shift`, clamped to `i32`.
pub open spec fn fir_output(x: Seq<i32>, c: Seq<i32>, n: int, shift: usize) -> i32 {
    saturate_i32((fir_acc(x, c, n, c.len() as int) >> shift) as int)
}

/// The FIR golden model: empty coefficient sets are refused; the output has
/// the length of the input.
pub open spec fn spec_fir(x: Seq<i32>, c: Seq<i32>, shift: usize) -> Result<Seq<i32>, Fault> {
    if c.len() == 0 {
        Err(Fault::EmptyCoefficients)
    } else {
        Ok(Seq::new(x.len(), |n: int| fir_output(x, c, n, shift)))
    }
}

/// Convolve `input` with `coefficients` (FIR filter).
///
/// Output length equals `input.len()`; missing history is zero.
/// Returns `Error::Fir` exactly when `coefficients` is empty.
pub fn fir_convolve(input: &[Sample], coefficients: &[Sample], frac_bits: FractionalBits) -> (r: Result<
    Vec<Sample>,
    Error,
>)
    requires
        coefficients.len() == 0 || input.len() == 0 || frac_bits.0 < 64,
    ensures
        result_matches(
            values_result(r),
            spec_fir(values(input@), values(coefficients@), frac_bits.0),
        ),
{
    if coefficients.len() == 0 {
        return Err(empty_coefficients_error());
    }
    let shift = frac_bits.value();
    let ghost x = values(input@);
    let ghost c = values(coefficients@);
    let mut out: Vec<Sample> = Vec::new();
    let mut n: usize = 0;
    while n < input.len()
        invariant
            x == values(input@),
            c == values(coefficients@),
            coefficients.len() > 0,
            shift == frac_bits.0,
            input.len() == 0 || shift < 64,
            n <= input.len(),
            out.len() == n,
            forall|j: int| 0 <= j < n ==> #[trigger] out@[j].0 == fir_output(x, c, j, shift),
        decreases input.len() - n,
    {
        let mut acc: i64 = 0;
        let mut k: usize = 0;
        while k < coefficients.len()
            invariant
                x == values(input@),
                c == values(coefficients@),
                n < input.len(),
                k <= coefficients.len(),
                acc == fir_acc(x, c, n as int, k as int),
            decreases coefficients.len() - k,
        {
            let sample = if k <= n {
                input[n - k]
            } else {
                Sample::zero()
            };
            assert(sample.0 == tap(x, n as int, k as int));
            let p = sample.widening_mul(coefficients[k]);
            acc = saturating_add_i64(acc, p);
            k = k + 1;
        }
        let shifted = acc >> shift;
        out.push(Sample::new(clamp_to_i32(shifted)));
        n = n + 1;
    }
    assert(values(out@) =~= Seq::new(x.len(), |j: int| fir_output(x, c, j, shift)));
    Ok(out)
}

/// The accumulator for an impulse input holds the coefficient of the
/// output's own position once that tap has been added, and zero before.
proof fn lemma_impulse_acc(x: Seq<i32>, c: Seq<i32>, n: int, k: int)
    requires
        x.len() > 0,
        x[0] == 1,
        forall|i: int| 1 <= i < x.len() ==> x[i] == 0,
        0 <= n < x.len(),
        0 <= k <= c.len(),
    ensures
        fir_acc(x, c, n, k) == (if n < k { c[n] as i64 } else { 0i64 }),
    decreases k,
{
    if k > 0 {
        lemma_impulse_acc(x, c, n, k - 1);
        let t = tap(x, n, k - 1);
        let ck = c[k - 1];
        if k - 1 == n {
            assert(t == 1);
            assert(t * ck == ck) by (nonlinear_arith)
                requires
                    t == 1,
            ;
        } else {
            assert(t == 0);
            assert(t * ck == 0) by (nonlinear_arith)
                requires
                    t == 0,
            ;
        }
    }
}

/// The impulse response of a filter without fractional bits is its
/// coefficient sequence, followed by zeros.
pub proof fn lemma_fir_impulse_response(x: Seq<i32>, c: Seq<i32>)
    requires
        c.len() > 0,
        x.len() > 0,
        x[0] == 1,
        forall|i: int| 1 <= i < x.len() ==> x[i] == 0,
    ensures
        spec_fir(x, c, 0) == Ok::<Seq<i32>, Fault>(
            Seq::new(x.len(), |n: int| if n < c.len() { c[n] } else { 0i32 }),
        ),
{
    let expected = Seq::new(x.len(), |n: int| if n < c.len() { c[n] } else { 0i32 });
    assert forall|n: int| 0 <= n < x.len() implies fir_output(x, c, n, 0) == expected[n] by {
        lemma_impulse_acc(x, c, n, c.len() as int);
        let a = fir_acc(x, c, n, c.len() as int);
        assert(a >> 0usize == a) by (bit_vector);
    }
    assert(Seq::new(x.len(), |n: int| fir_output(x, c, n, 0)) =~= expected);
}

} // verus!
