//! Pure decimation golden model.

use vstd::prelude::*;

use crate::error::{result_matches, values_result, Error, Fault};
use crate::interpret::signal::RateFactor;
use crate::sample::element::{values, Sample};

verus! {

/// Number of samples kept when keeping every `f`-th of `n`, starting at 0.
pub open spec fn ceil_div(n: nat, f: nat) -> nat {
    if f == 0 {
        0
    } else {
        ((n + f - 1) / f as int) as nat
    }
}

/// Every `f`-th sample, starting from sample 0.
pub open spec fn spec_decimate(s: Seq<i32>, f: nat) -> Seq<i32> {
    Seq::new(ceil_div(s.len(), f), |i: int| s[i * f])
}

/// The decimator golden model as a whole: zero factor is refused.
pub open spec fn spec_decimate_result(s: Seq<i32>, f: usize) -> Result<Seq<i32>, Fault> {
    if f == 0 {
        Err(Fault::InvalidRateFactor { factor: f })
    } else {
        Ok(spec_decimate(s, f as nat))
    }
}

/// `i` multiples of `f` stay below `n` and the next one reaches it: then
/// exactly `i + 1` samples are kept.
proof fn lemma_ceil_div_step(n: nat, f: nat, i: nat)
    requires
        f > 0,
        i * f < n,
        n <= (i + 1) * f,
    ensures
        ceil_div(n, f) == i + 1,
{
    assert((n + f - 1) / (f as int) == i + 1) by (nonlinear_arith)
        requires
            f > 0,
            i * f < n,
            n <= (i + 1) * f,
    {
        let q = (n + f - 1) / (f as int);
        let r = (n + f - 1) % (f as int);
        assert(n + f - 1 == q * f + r);
        assert(0 <= r < f);
    }
}

/// Keep every `factor`-th sample, starting from sample 0.
///
/// Returns `Error::InvalidRateFactor` exactly when the factor is zero.
pub fn decimate(input: &[Sample], factor: RateFactor) -> (r: Result<Vec<Sample>, Error>)
    ensures
        result_matches(values_result(r), spec_decimate_result(values(input@), factor.0)),
{
    if factor.value() == 0 {
        return Err(Error::InvalidRateFactor { factor: factor.value() });
    }
    let f = factor.value();
    let n = input.len();
    let ghost x = values(input@);
    let mut out: Vec<Sample> = Vec::new();
    if n == 0 {
        proof {
            vstd::arithmetic::div_mod::lemma_basic_div((f - 1) as int, f as int);
        }
        assert(values(out@) =~= spec_decimate(x, f as nat));
        return Ok(out);
    }
    let mut idx: usize = 0;
    assert(0 * (f as int) == 0);
    loop
        invariant
            x == values(input@),
            n == input.len(),
            f == factor.0,
            f > 0,
            idx < n,
            idx == out.len() * f,
            forall|j: int| 0 <= j < out.len() ==> #[trigger] out@[j].0 == x[j * f],
        decreases n - idx,
    {
        out.push(input[idx]);
        proof {
            assert(out@[out.len() - 1]@ == x[(out.len() - 1) * f]);
        }
        proof {
            assert((out.len() - 1) * f + f == out.len() * f) by (nonlinear_arith);
        }
        if f >= n - idx {
            proof {
                lemma_ceil_div_step(n as nat, f as nat, (out.len() - 1) as nat);
            }
            assert(values(out@) =~= spec_decimate(x, f as nat));
            return Ok(out);
        }
        idx = idx + f;
    }
}

} // verus!
