//! Pure interpolation golden model.

use vstd::prelude::*;

use crate::error::{result_matches, values_result, Error, Fault};
use crate::interpret::signal::RateFactor;
use crate::sample::element::{values, Sample};

verus! {

/// Each input sample followed by `f - 1` zeros.
pub open spec fn spec_interpolate(s: Seq<i32>, f: nat) -> Seq<i32> {
    Seq::new(s.len() * f, |j: int| if j % (f as int) == 0 { s[j / (f as int)] } else { 0i32 })
}

/// The interpolator golden model as a whole: zero factor is refused.
pub open spec fn spec_interpolate_result(s: Seq<i32>, f: usize) -> Result<Seq<i32>, Fault> {
    if f == 0 {
        Err(Fault::InvalidRateFactor { factor: f })
    } else {
        Ok(spec_interpolate(s, f as nat))
    }
}

/// Insert `factor - 1` zero-valued samples after each input sample.
///
/// Returns `Error::InvalidRateFactor` exactly when the factor is zero.
pub fn interpolate(input: &[Sample], factor: RateFactor) -> (r: Result<Vec<Sample>, Error>)
    ensures
        result_matches(values_result(r), spec_interpolate_result(values(input@), factor.0)),
{
    if factor.value() == 0 {
        return Err(Error::InvalidRateFactor { factor: factor.value() });
    }
    let f = factor.value();
    let ghost x = values(input@);
    let mut out: Vec<Sample> = Vec::new();
    let mut i: usize = 0;
    while i < input.len()
        invariant
            x == values(input@),
            f == factor.0,
            f > 0,
            i <= input.len(),
            out.len() == i * f,
            forall|j: int| 0 <= j < out.len() ==> #[trigger] out@[j].0 == (if j % (f as int) == 0 {
                x[j / (f as int)]
            } else {
                0i32
            }),
        decreases input.len() - i,
    {
        let ghost base = out.len() as int;
        proof {
            vstd::arithmetic::div_mod::lemma_fundamental_div_mod_converse(base, f as int, i as int, 0);
        }
        out.push(input[i]);
        let mut z: usize = 1;
        while z < f
            invariant
                x == values(input@),
                f == factor.0,
                f > 0,
                i < input.len(),
                base == i * f,
                1 <= z <= f,
                out.len() == base + z,
                forall|j: int| 0 <= j < out.len() ==> #[trigger] out@[j].0 == (if j % (f as int) == 0 {
                    x[j / (f as int)]
                } else {
                    0i32
                }),
            decreases f - z,
        {
            proof {
                vstd::arithmetic::div_mod::lemma_fundamental_div_mod_converse(
                    base + z,
                    f as int,
                    i as int,
                    z as int,
                );
            }
            out.push(Sample::zero());
            z = z + 1;
        }
        proof {
            assert(i * f + f == (i + 1) * f) by (nonlinear_arith);
        }
        i = i + 1;
    }
    assert(values(out@) =~= spec_interpolate(x, f as nat));
    Ok(out)
}

} // verus!
