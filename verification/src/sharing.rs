//! The secret-sharing layer: the four canonical polynomial
//! specializations, share issuance, and secret derivation.

use crate::evaluation::Evaluation;
use crate::field::Scalar;
use crate::group::GroupElem;
use crate::hashing::{sha256, sha256_of};
use crate::lagrange::{
    distinct, inputs_of, lagrange_eval_spec, output_sers, output_vals, point_lagrange_sum,
    InterpolatedPointPolynomial, LagrangePolynomial,
};
use crate::standard::{horner_spec, point_horner_spec, PointSharingPolynomial, StandardFormPolynomial};
use vstd::prelude::*;

verus! {

/// Represents a secret share held by a shareholder: one scalar sample of
/// the dealer's secret polynomial.
pub type SecretShare = Evaluation<Scalar, Scalar>;

/// Represents a point share intended for distribution, derived by
/// multiplying a secret share's output with a fixed group element.
pub type PointShare = Evaluation<Scalar, GroupElem>;

/// Represents the secret-sharing polynomial available to the dealer in
/// its original standard form, composed of scalar coefficients.
pub type SecretSharingPolynomial = StandardFormPolynomial;

/// Represents a secret-sharing polynomial interpolated from a set of
/// shares.
pub type InterpolatedSecretPolynomial = LagrangePolynomial;

impl StandardFormPolynomial {
    /// Issue a share at the given input `x`: the sample of this
    /// polynomial at `x`.
    pub fn issue_share(&self, x: &Scalar) -> (r: SecretShare)
        requires
            self.wf(),
            x.wf(),
        ensures
            r.input.wf(),
            r.output.wf(),
            r.input.val() == x.val(),
            r.output.val() == horner_spec(self.vals(), x.val()),
    {
        Evaluation::new(x.dup(), self.evaluate(x))
    }
}

impl LagrangePolynomial {
    /// Issue a share at the given input `x`: the sample of the
    /// interpolated polynomial at `x`.
    pub fn issue_share(&self, x: &Scalar) -> (r: SecretShare)
        requires
            self.wf(),
            x.wf(),
            distinct(inputs_of(self.evaluations@)),
        ensures
            r.input.wf(),
            r.output.wf(),
            r.input.val() == x.val(),
            r.output.val() == lagrange_eval_spec(
                inputs_of(self.evaluations@),
                output_vals(self.evaluations@),
                x.val(),
            ),
    {
        Evaluation::new(x.dup(), self.evaluate(x))
    }
}

impl PointSharingPolynomial {
    /// Issue a point share at the given input `x`: the sample of this
    /// point polynomial at `x`.
    pub fn issue_share(&self, x: &Scalar) -> (r: PointShare)
        requires
            self.wf(),
            x.wf(),
        ensures
            r.input.wf(),
            r.output.wf(),
            r.input.val() == x.val(),
            r.output.ser() == point_horner_spec(self.sers(), x.val()),
    {
        Evaluation::new(x.dup(), self.evaluate(x))
    }

    /// Derive a secret by hashing the group element produced by
    /// evaluating the point polynomial at `x`: the digest decouples the
    /// final secret bytes from the raw group-element encoding, which may
    /// leak structure such as a parity bit.
    pub fn derive_secret(&self, x: &Scalar) -> (r: Vec<u8>)
        requires
            self.wf(),
            x.wf(),
        ensures
            r@.len() == 32,
            r@ == sha256_of(point_horner_spec(self.sers(), x.val())),
    {
        let point = self.evaluate(x);
        let ser = point.serialize();
        sha256(ser.as_slice())
    }
}

impl InterpolatedPointPolynomial {
    /// Issue a point share at the given input `x`: the sample of the
    /// interpolated point polynomial at `x`.
    pub fn issue_share(&self, x: &Scalar) -> (r: PointShare)
        requires
            self.wf(),
            x.wf(),
            distinct(inputs_of(self.evaluations@)),
        ensures
            r.input.wf(),
            r.output.wf(),
            r.input.val() == x.val(),
            r.output.ser() == point_lagrange_sum(
                inputs_of(self.evaluations@),
                output_sers(self.evaluations@),
                x.val(),
                self.evaluations@.len() as int,
            ),
    {
        Evaluation::new(x.dup(), self.evaluate(x))
    }

    /// Derive a secret by hashing the group element produced by
    /// evaluating the interpolated point polynomial at `x`.
    pub fn derive_secret(&self, x: &Scalar) -> (r: Vec<u8>)
        requires
            self.wf(),
            x.wf(),
            distinct(inputs_of(self.evaluations@)),
        ensures
            r@.len() == 32,
            r@ == sha256_of(
                point_lagrange_sum(
                    inputs_of(self.evaluations@),
                    output_sers(self.evaluations@),
                    x.val(),
                    self.evaluations@.len() as int,
                ),
            ),
    {
        let point = self.evaluate(x);
        let ser = point.serialize();
        sha256(ser.as_slice())
    }
}

} // verus!
