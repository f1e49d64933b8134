//! The homomorphic point mapping: lifts a secret, scalar-valued polynomial
//! into a public, point-valued polynomial by multiplying every scalar
//! coefficient or sample output against a fixed group element, preserving
//! the representation's structure.

use crate::evaluation::Evaluation;
use crate::field::Scalar;
use crate::group::{generator, generator_ser, pmul, point_mul, GroupElem};
use crate::lagrange::{inputs_of, output_sers, output_vals, InterpolatedPointPolynomial, LagrangePolynomial};
use crate::standard::{multiples_of, PointSharingPolynomial, StandardFormPolynomial};
use vstd::prelude::*;

verus! {

/// Multiplies every coefficient of a secret standard-form polynomial by
/// the fixed group element `q`, yielding the point-valued polynomial with
/// the same structure. For all `x`, evaluating the image equals
/// multiplying the original's evaluation by `q` — see
/// `PointSharingPolynomial::evaluate`.
pub fn scalar_poly_to_point_poly(poly: &StandardFormPolynomial, q: &GroupElem) -> (r:
    PointSharingPolynomial)
    requires
        poly.wf(),
        q.wf(),
    ensures
        r.wf(),
        r.coefficients@.len() == poly.coefficients@.len(),
        multiples_of(r.sers(), q.ser(), poly.vals()),
{
    let mut coeffs: Vec<GroupElem> = Vec::new();
    let mut i: usize = 0;
    while i < poly.coefficients.len()
        invariant
            poly.wf(),
            q.wf(),
            i <= poly.coefficients@.len(),
            coeffs@.len() == i,
            forall|j: int| 0 <= j < i ==> (#[trigger] coeffs@[j]).wf(),
            forall|j: int| 0 <= j < i ==> (#[trigger] coeffs@[j]).ser() == pmul(
                q.ser(),
                poly.vals()[j],
            ),
        decreases poly.coefficients@.len() - i,
    {
        coeffs.push(point_mul(q, &poly.coefficients[i]));
        i += 1;
    }
    let r = PointSharingPolynomial { coefficients: coeffs };
    proof {
        assert(multiples_of(r.sers(), q.ser(), poly.vals()));
    }
    r
}

/// The generator-fixed convenience: multiplies every coefficient of a
/// secret standard-form polynomial by the group's canonical generator.
pub fn scalar_poly_to_point_poly_gen(poly: &StandardFormPolynomial) -> (r: PointSharingPolynomial)
    requires
        poly.wf(),
    ensures
        r.wf(),
        r.coefficients@.len() == poly.coefficients@.len(),
        multiples_of(r.sers(), generator_ser(), poly.vals()),
{
    let g = generator();
    scalar_poly_to_point_poly(poly, &g)
}

/// Multiplies every sample output of a secret interpolated polynomial by
/// the fixed group element `q`, keeping each sample's input, yielding the
/// interpolated point polynomial with the same structure. For all `x`,
/// evaluating the image equals multiplying the original's evaluation by
/// `q` — see `InterpolatedPointPolynomial::evaluate`.
pub fn interpolated_to_point_poly(poly: &LagrangePolynomial, q: &GroupElem) -> (r:
    InterpolatedPointPolynomial)
    requires
        poly.wf(),
        q.wf(),
    ensures
        r.wf(),
        r.evaluations@.len() == poly.evaluations@.len(),
        inputs_of(r.evaluations@) == inputs_of(poly.evaluations@),
        multiples_of(output_sers(r.evaluations@), q.ser(), output_vals(poly.evaluations@)),
{
    let mut evals: Vec<Evaluation<Scalar, GroupElem>> = Vec::new();
    let mut i: usize = 0;
    while i < poly.evaluations.len()
        invariant
            poly.wf(),
            q.wf(),
            i <= poly.evaluations@.len(),
            evals@.len() == i,
            forall|j: int|
                0 <= j < i ==> (#[trigger] evals@[j]).input.wf() && evals@[j].output.wf(),
            forall|j: int|
                0 <= j < i ==> (#[trigger] evals@[j]).input.val()
                    == poly.evaluations@[j].input.val(),
            forall|j: int|
                0 <= j < i ==> (#[trigger] evals@[j]).output.ser() == pmul(
                    q.ser(),
                    poly.evaluations@[j].output.val(),
                ),
        decreases poly.evaluations@.len() - i,
    {
        let input = poly.evaluations[i].input.dup();
        let output = point_mul(q, &poly.evaluations[i].output);
        evals.push(Evaluation::new(input, output));
        i += 1;
    }
    let r = InterpolatedPointPolynomial { evaluations: evals };
    proof {
        assert(inputs_of(r.evaluations@) =~= inputs_of(poly.evaluations@));
        assert(multiples_of(
            output_sers(r.evaluations@),
            q.ser(),
            output_vals(poly.evaluations@),
        ));
    }
    r
}

/// The generator-fixed convenience: multiplies every sample output of a
/// secret interpolated polynomial by the group's canonical generator.
pub fn interpolated_to_point_poly_gen(poly: &LagrangePolynomial) -> (r:
    InterpolatedPointPolynomial)
    requires
        poly.wf(),
    ensures
        r.wf(),
        r.evaluations@.len() == poly.evaluations@.len(),
        inputs_of(r.evaluations@) == inputs_of(poly.evaluations@),
        multiples_of(output_sers(r.evaluations@), generator_ser(), output_vals(poly.evaluations@)),
{
    let g = generator();
    interpolated_to_point_poly(poly, &g)
}

} // verus!
