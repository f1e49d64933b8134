//! Lagrange-form polynomials: a set of samples with pairwise-distinct
//! inputs, evaluated by Lagrange basis interpolation without ever
//! recovering coefficients.

use crate::evaluation::Evaluation;
use crate::field::{
    group_order, mod_inv, scalar_add, scalar_div, scalar_mul, scalar_sub, sub_mod, Scalar,
};
use crate::field::lemma_scalar_eq_val;
use crate::group::{identity_ser, padd, pmul, point_add, point_identity, point_mul, GroupElem};
use crate::standard::{degree_spec, horner_spec, multiples_of};
use vstd::arithmetic::div_mod::{
    lemma_add_mod_noop_right, lemma_mod_add_multiples_vanish, lemma_mod_self_0, lemma_mod_twice,
    lemma_small_mod,
};
use vstd::prelude::*;

verus! {

/// The input values of a sample sequence.
pub open spec fn inputs_of<O>(evals: Seq<Evaluation<Scalar, O>>) -> Seq<nat> {
    evals.map_values(|e: Evaluation<Scalar, O>| e.input.val())
}

/// The output values of a scalar sample sequence.
pub open spec fn output_vals(evals: Seq<Evaluation<Scalar, Scalar>>) -> Seq<nat> {
    evals.map_values(|e: Evaluation<Scalar, Scalar>| e.output.val())
}

/// The output serializations of a point sample sequence.
pub open spec fn output_sers(evals: Seq<Evaluation<Scalar, GroupElem>>) -> Seq<Seq<u8>> {
    evals.map_values(|e: Evaluation<Scalar, GroupElem>| e.output.ser())
}

/// Pairwise-distinct values: the invariant the samples' inputs must obey.
pub open spec fn distinct(s: Seq<nat>) -> bool {
    forall|i: int, j: int| 0 <= i < j < s.len() ==> s[i] != s[j]
}

/// All values reduced below the curve order.
pub open spec fn all_reduced(s: Seq<nat>) -> bool {
    forall|i: int| 0 <= i < s.len() ==> s[i] < group_order()
}

/// All sample inputs are well-formed scalars.
pub open spec fn inputs_wf<O>(evals: Seq<Evaluation<Scalar, O>>) -> bool {
    forall|i: int| 0 <= i < evals.len() ==> (#[trigger] evals[i]).input.wf()
}

/// The running product of the first `k` Lagrange basis factors for sample
/// `j` at input `x`: for each other sample `m < k`, the factor
/// `(x - x_m) / (x_j - x_m)`, with division written as multiplication by
/// the modular inverse.
pub open spec fn basis_terms(inputs: Seq<nat>, j: int, x: nat, k: int) -> nat
    decreases k,
{
    if k <= 0 {
        1
    } else if k - 1 == j {
        basis_terms(inputs, j, x, k - 1)
    } else {
        (basis_terms(inputs, j, x, k - 1) * ((sub_mod(x, inputs[k - 1]) * mod_inv(
            sub_mod(inputs[j], inputs[k - 1]),
        )) % group_order())) % group_order()
    }
}

/// The Lagrange basis value for sample `j` at input `x`: `1` at the
/// sample's own input, else the product of the factors
/// `(x - x_m) / (x_j - x_m)` over all other samples `m`.
pub open spec fn basis_spec(inputs: Seq<nat>, j: int, x: nat) -> nat {
    if x == inputs[j] {
        1
    } else {
        basis_terms(inputs, j, x, inputs.len() as int)
    }
}

/// The running sum of the first `k` interpolation terms at input `x`:
/// each sample's output weighted by its basis value.
pub open spec fn lagrange_sum(inputs: Seq<nat>, outputs: Seq<nat>, x: nat, k: int) -> nat
    decreases k,
{
    if k <= 0 {
        0
    } else {
        (lagrange_sum(inputs, outputs, x, k - 1) + outputs[k - 1] * basis_spec(inputs, k - 1, x))
            % group_order()
    }
}

/// Lagrange interpolation of the samples `(inputs[i], outputs[i])` at
/// input `x`: the sum of every output weighted by its basis value.
pub open spec fn lagrange_eval_spec(inputs: Seq<nat>, outputs: Seq<nat>, x: nat) -> nat {
    lagrange_sum(inputs, outputs, x, inputs.len() as int)
}

/// For reduced operands, modular subtraction vanishes exactly on equals.
pub proof fn lemma_sub_mod_zero_iff(a: nat, b: nat)
    requires
        a < group_order(),
        b < group_order(),
    ensures
        (sub_mod(a, b) == 0) <==> (a == b),
{
    let n = group_order() as int;
    let d = (a + group_order() - b) as int;
    if a == b {
        lemma_mod_self_0(n);
    } else if a < b {
        lemma_small_mod(d as nat, group_order());
    } else {
        lemma_mod_add_multiples_vanish((a - b) as int, n);
        lemma_small_mod((a - b) as nat, group_order());
    }
}

/// Once one basis factor vanishes, the whole running product vanishes.
proof fn lemma_basis_terms_zero(inputs: Seq<nat>, j: int, x: nat, k: int, n: int)
    requires
        0 <= k < n <= inputs.len(),
        k != j,
        sub_mod(x, inputs[k]) == 0,
    ensures
        basis_terms(inputs, j, x, n) == 0,
    decreases n,
{
    crate::field::lemma_group_order_pos();
    lemma_small_mod(0nat, group_order());
    if n - 1 == k {
        assert(sub_mod(x, inputs[k]) * mod_inv(sub_mod(inputs[j], inputs[k])) == 0);
        assert(basis_terms(inputs, j, x, n) == (basis_terms(inputs, j, x, k) * ((0nat)
            % group_order())) % group_order());
        assert(basis_terms(inputs, j, x, k) * 0 == 0);
    } else {
        lemma_basis_terms_zero(inputs, j, x, k, n - 1);
        if n - 1 != j {
            assert(basis_terms(inputs, j, x, n) == (0nat * ((sub_mod(x, inputs[n - 1]) * mod_inv(
                sub_mod(inputs[j], inputs[n - 1]),
            )) % group_order())) % group_order());
        }
    }
}

/// At another sample's input, a basis value is zero.
pub proof fn lemma_basis_at_other_sample(inputs: Seq<nat>, j: int, k: int)
    requires
        0 <= j < inputs.len(),
        0 <= k < inputs.len(),
        j != k,
        distinct(inputs),
        all_reduced(inputs),
    ensures
        basis_spec(inputs, j, inputs[k]) == 0,
{
    assert(inputs[j] != inputs[k]);
    lemma_sub_mod_zero_iff(inputs[k], inputs[k]);
    lemma_basis_terms_zero(inputs, j, inputs[k], k, inputs.len() as int);
}

/// Represents a polynomial over the scalar field which can be evaluated
/// using Lagrange interpolation on a set of samples.
///
/// The samples are expected to have pairwise-distinct input values: a
/// duplicated input would force a division by the field's additive
/// identity during evaluation, which the checked division refuses.
#[derive(Clone, Debug)]
pub struct LagrangePolynomial {
    /// The samples the polynomial interpolates.
    pub evaluations: Vec<Evaluation<Scalar, Scalar>>,
}

/// Evaluate a Lagrange basis polynomial: the value at `x` of the
/// polynomial that is one at `evaluations[eval_index].input` and zero at
/// every other sample input.
///
/// This function returns:
/// - `1` if `x == evaluations[eval_index].input`;
/// - `0` if `x == evaluations[i].input` for any other `i != eval_index`,
///   detected as soon as the vanishing factor is multiplied in, without
///   touching the denominator;
/// - otherwise the product over the other samples `m` of
///   `(x - x_m) / (x_eval_index - x_m)`.
pub fn langrange_poly_evaluate<O>(
    evaluations: &Vec<Evaluation<Scalar, O>>,
    eval_index: usize,
    x: &Scalar,
) -> (r: Scalar)
    requires
        inputs_wf(evaluations@),
        x.wf(),
        eval_index < evaluations@.len(),
        distinct(inputs_of(evaluations@)),
    ensures
        r.wf(),
        r.val() == basis_spec(inputs_of(evaluations@), eval_index as int, x.val()),
{
    broadcast use crate::field::lemma_scalar_wf_reduced;

    let ghost inputs = inputs_of(evaluations@);
    let ghost j = eval_index as int;
    proof {
        assert(forall|i: int|
            0 <= i < evaluations@.len() ==> inputs[i] == (#[trigger] evaluations@[i]).input.val());
        assert(all_reduced(inputs));
    }
    let xj = &evaluations[eval_index].input;
    if x == xj {
        proof {
            lemma_scalar_eq_val(x, xj);
        }
        return Scalar::one();
    }
    proof {
        lemma_scalar_eq_val(x, xj);
    }
    let mut out = Scalar::one();
    let mut k: usize = 0;
    while k < evaluations.len()
        invariant
            inputs_wf(evaluations@),
            x.wf(),
            eval_index < evaluations@.len(),
            distinct(inputs),
            all_reduced(inputs),
            inputs == inputs_of(evaluations@),
            j == eval_index as int,
            x.val() != inputs[j],
            k <= evaluations@.len(),
            out.wf(),
            out.val() == basis_terms(inputs, j, x.val(), k as int),
        decreases evaluations@.len() - k,
    {
        if k != eval_index {
            let num = scalar_sub(x, &evaluations[k].input);
            if num.is_zero() {
                proof {
                    lemma_basis_terms_zero(inputs, j, x.val(), k as int, inputs.len() as int);
                }
                return Scalar::zero();
            }
            let xje = &evaluations[eval_index].input;
            let den = scalar_sub(xje, &evaluations[k].input);
            proof {
                assert(inputs[j] != inputs[k as int]) by {
                    if j < k as int {
                        assert(inputs[j] != inputs[k as int]);
                    } else {
                        assert(inputs[k as int] != inputs[j]);
                    }
                }
                lemma_sub_mod_zero_iff(inputs[j], inputs[k as int]);
            }
            let q = scalar_div(&num, &den);
            out = scalar_mul(&out, &q);
        }
        k += 1;
    }
    out
}

impl LagrangePolynomial {
    /// Well-formed: every sample's input and output is a reduced scalar.
    pub open spec fn wf(&self) -> bool {
        forall|i: int|
            0 <= i < self.evaluations@.len() ==> (#[trigger] self.evaluations@[i]).input.wf()
                && self.evaluations@[i].output.wf()
    }

    /// Construct a Lagrange polynomial which interpolates the given set
    /// of samples.
    ///
    /// The samples are expected to have pairwise-distinct input values.
    pub fn new(evaluations: Vec<Evaluation<Scalar, Scalar>>) -> (r: Self)
        ensures
            r.evaluations == evaluations,
    {
        Self { evaluations }
    }

    /// Evaluates the interpolated polynomial at `x`: the sum of every
    /// sample's output weighted by its Lagrange basis value at `x`.
    pub fn evaluate(&self, x: &Scalar) -> (r: Scalar)
        requires
            self.wf(),
            x.wf(),
            distinct(inputs_of(self.evaluations@)),
        ensures
            r.wf(),
            r.val() == lagrange_eval_spec(
                inputs_of(self.evaluations@),
                output_vals(self.evaluations@),
                x.val(),
            ),
    {
        let ghost inputs = inputs_of(self.evaluations@);
        let ghost outputs = output_vals(self.evaluations@);
        let mut out = Scalar::zero();
        let mut i: usize = 0;
        while i < self.evaluations.len()
            invariant
                self.wf(),
                x.wf(),
                distinct(inputs),
                inputs == inputs_of(self.evaluations@),
                outputs == output_vals(self.evaluations@),
                i <= self.evaluations@.len(),
                out.wf(),
                out.val() == lagrange_sum(inputs, outputs, x.val(), i as int),
            decreases self.evaluations@.len() - i,
        {
            let basis = langrange_poly_evaluate(&self.evaluations, i, x);
            let term = scalar_mul(&self.evaluations[i].output, &basis);
            let ghost prev = out.val();
            out = scalar_add(&out, &term);
            proof {
                let n = group_order() as int;
                let y = outputs[i as int];
                let b = basis_spec(inputs, i as int, x.val());
                lemma_mod_twice((y * b) as int, n);
                lemma_add_mod_noop_right(prev as int, ((y * b) % group_order()) as int, n);
                lemma_add_mod_noop_right(prev as int, (y * b) as int, n);
            }
            i += 1;
        }
        out
    }

    /// The degree of the interpolated polynomial: one less than the
    /// number of samples, with a floor of zero.
    pub fn degree(&self) -> (r: usize)
        ensures
            r == count_degree(self.evaluations@.len()),
    {
        if self.evaluations.len() == 0 {
            0
        } else {
            self.evaluations.len() - 1
        }
    }

    /// The number of samples needed to interpolate this polynomial: one
    /// more than its degree.
    pub fn interpolation_threshold(&self) -> (r: usize)
        ensures
            r == count_degree(self.evaluations@.len()) + 1,
    {
        let len = self.evaluations.len();
        if len == 0 {
            1
        } else {
            len
        }
    }
}

/// One less than the sample count, with a floor of zero.
pub open spec fn count_degree(n: nat) -> nat {
    if n == 0 {
        0
    } else {
        (n - 1) as nat
    }
}

/// The running sum of the first `k` interpolation terms over the group:
/// each sample's output point weighted by its scalar basis value.
pub open spec fn point_lagrange_sum(
    inputs: Seq<nat>,
    outputs: Seq<Seq<u8>>,
    x: nat,
    k: int,
) -> Seq<u8>
    decreases k,
{
    if k <= 0 {
        identity_ser()
    } else {
        padd(
            point_lagrange_sum(inputs, outputs, x, k - 1),
            pmul(outputs[k - 1], basis_spec(inputs, k - 1, x)),
        )
    }
}

/// Represents a polynomial over the curve group which can be evaluated
/// using Lagrange interpolation on a set of point-valued samples: the
/// homomorphic image of an interpolated secret polynomial.
///
/// The samples are expected to have pairwise-distinct input values.
#[derive(Clone, Debug)]
pub struct InterpolatedPointPolynomial {
    /// The samples the polynomial interpolates.
    pub evaluations: Vec<Evaluation<Scalar, GroupElem>>,
}

impl InterpolatedPointPolynomial {
    /// Well-formed: every input is a reduced scalar and every output a
    /// well-formed group element.
    pub open spec fn wf(&self) -> bool {
        forall|i: int|
            0 <= i < self.evaluations@.len() ==> (#[trigger] self.evaluations@[i]).input.wf()
                && self.evaluations@[i].output.wf()
    }

    /// Construct an interpolated point polynomial from the given samples.
    ///
    /// The samples are expected to have pairwise-distinct input values.
    pub fn new(evaluations: Vec<Evaluation<Scalar, GroupElem>>) -> (r: Self)
        ensures
            r.evaluations == evaluations,
    {
        Self { evaluations }
    }

    /// Evaluates the interpolated point polynomial at `x`.
    ///
    /// When every sample output is the multiple of a common base `b` by
    /// the corresponding output of a scalar sample set with the same
    /// inputs — as the homomorphic mapping produces — the result is the
    /// multiple of `b` by the scalar interpolation at `x`: evaluation
    /// commutes with the mapping.
    pub fn evaluate(&self, x: &Scalar) -> (r: GroupElem)
        requires
            self.wf(),
            x.wf(),
            distinct(inputs_of(self.evaluations@)),
        ensures
            r.wf(),
            r.ser() == point_lagrange_sum(
                inputs_of(self.evaluations@),
                output_sers(self.evaluations@),
                x.val(),
                self.evaluations@.len() as int,
            ),
            forall|b: Seq<u8>, ys: Seq<nat>|
                #[trigger] multiples_of(output_sers(self.evaluations@), b, ys) ==> r.ser() == pmul(
                    b,
                    lagrange_eval_spec(inputs_of(self.evaluations@), ys, x.val()),
                ),
    {
        let ghost inputs = inputs_of(self.evaluations@);
        let ghost outputs = output_sers(self.evaluations@);
        let mut out = point_identity();
        let mut i: usize = 0;
        while i < self.evaluations.len()
            invariant
                self.wf(),
                x.wf(),
                distinct(inputs),
                inputs == inputs_of(self.evaluations@),
                outputs == output_sers(self.evaluations@),
                i <= self.evaluations@.len(),
                out.wf(),
                out.ser() == point_lagrange_sum(inputs, outputs, x.val(), i as int),
                forall|b: Seq<u8>, ys: Seq<nat>|
                    #[trigger] multiples_of(outputs, b, ys) ==> out.ser() == pmul(
                        b,
                        lagrange_sum(inputs, ys, x.val(), i as int),
                    ),
            decreases self.evaluations@.len() - i,
        {
            let basis = langrange_poly_evaluate(&self.evaluations, i, x);
            let term = point_mul(&self.evaluations[i].output, &basis);
            let ghost out_prev = out;
            out = point_add(&out, &term);
            proof {
                assert forall|b: Seq<u8>, ys: Seq<nat>|
                    #[trigger] multiples_of(outputs, b, ys) implies out.ser() == pmul(
                    b,
                    lagrange_sum(inputs, ys, x.val(), i + 1),
                ) by {
                    let n = group_order() as int;
                    let acc = lagrange_sum(inputs, ys, x.val(), i as int);
                    let y = ys[i as int];
                    let bas = basis_spec(inputs, i as int, x.val());
                    assert(outputs[i as int] == pmul(b, y));
                    assert(term.ser() == pmul(b, (y * bas) % group_order()));
                    assert(out_prev.ser() == pmul(b, acc));
                    assert(out.ser() == pmul(b, (acc + (y * bas) % group_order()) % group_order()));
                    lemma_mod_twice((y * bas) as int, n);
                    lemma_add_mod_noop_right(acc as int, ((y * bas) % group_order()) as int, n);
                    lemma_add_mod_noop_right(acc as int, (y * bas) as int, n);
                }
            }
            i += 1;
        }
        out
    }

    /// The degree of the interpolated polynomial: one less than the
    /// number of samples, with a floor of zero.
    pub fn degree(&self) -> (r: usize)
        ensures
            r == count_degree(self.evaluations@.len()),
    {
        if self.evaluations.len() == 0 {
            0
        } else {
            self.evaluations.len() - 1
        }
    }

    /// The number of samples needed to interpolate this polynomial: one
    /// more than its degree.
    pub fn interpolation_threshold(&self) -> (r: usize)
        ensures
            r == count_degree(self.evaluations@.len()) + 1,
    {
        let len = self.evaluations.len();
        if len == 0 {
            1
        } else {
            len
        }
    }
}

/// Reconstruction agrees at the supplied points: interpolating any
/// samples with pairwise-distinct, reduced inputs and reduced outputs,
/// then evaluating at one of the sample inputs, returns exactly that
/// sample's stored output.
pub proof fn lemma_interpolation_agrees_at_samples(
    inputs: Seq<nat>,
    outputs: Seq<nat>,
    i: int,
)
    requires
        inputs.len() == outputs.len(),
        distinct(inputs),
        all_reduced(inputs),
        all_reduced(outputs),
        0 <= i < inputs.len(),
    ensures
        lagrange_eval_spec(inputs, outputs, inputs[i]) == outputs[i],
{
    lemma_lagrange_sum_at_sample(inputs, outputs, i, inputs.len() as int);
}

/// The running interpolation sum at a sample input: zero until the
/// sample's own term is added, then that sample's output.
proof fn lemma_lagrange_sum_at_sample(inputs: Seq<nat>, outputs: Seq<nat>, i: int, k: int)
    requires
        inputs.len() == outputs.len(),
        distinct(inputs),
        all_reduced(inputs),
        all_reduced(outputs),
        0 <= i < inputs.len(),
        0 <= k <= inputs.len(),
    ensures
        k <= i ==> lagrange_sum(inputs, outputs, inputs[i], k) == 0,
        k > i ==> lagrange_sum(inputs, outputs, inputs[i], k) == outputs[i],
    decreases k,
{
    let n = group_order() as int;
    let x = inputs[i];
    if k > 0 {
        lemma_lagrange_sum_at_sample(inputs, outputs, i, k - 1);
        let prev = lagrange_sum(inputs, outputs, x, k - 1);
        if k - 1 == i {
            assert(basis_spec(inputs, i, x) == 1);
            assert(prev == 0);
            lemma_small_mod(outputs[i] as nat, group_order());
            assert(outputs[k - 1] * 1 == outputs[k - 1]);
        } else {
            lemma_basis_at_other_sample(inputs, k - 1, i);
            assert(outputs[k - 1] * basis_spec(inputs, k - 1, x) == 0);
            if k - 1 < i {
                lemma_small_mod(0nat, group_order());
            } else {
                lemma_small_mod(outputs[i] as nat, group_order());
            }
        }
    }
}

/// Interpolating a single sample yields the constant polynomial: at every
/// input, not only the sample's own, the evaluation returns the sample's
/// output. An under-threshold reconstruction of a higher-degree polynomial
/// from one sample therefore reveals nothing beyond that sample.
pub proof fn lemma_single_sample_is_constant(inputs: Seq<nat>, outputs: Seq<nat>, x: nat)
    requires
        inputs.len() == 1,
        outputs.len() == 1,
        all_reduced(outputs),
    ensures
        lagrange_eval_spec(inputs, outputs, x) == outputs[0],
{
    assert(basis_terms(inputs, 0, x, 0) == 1);
    assert(basis_terms(inputs, 0, x, 1) == 1);
    assert(basis_spec(inputs, 0, x) == 1);
    assert(lagrange_sum(inputs, outputs, x, 0) == 0);
    assert(outputs[0] * 1 == outputs[0]);
    lemma_small_mod(outputs[0] as nat, group_order());
}

/// Round trip: issue shares of a standard-form polynomial at
/// pairwise-distinct inputs, interpolate at least a threshold's worth of
/// them, and re-evaluate at any one of the issued inputs — the result is
/// exactly the share output the dealer issued there.
pub proof fn lemma_share_round_trip(coeffs: Seq<nat>, shares: Seq<(nat, nat)>, i: int)
    requires
        forall|j: int|
            0 <= j < shares.len() ==> (#[trigger] shares[j]).1 == horner_spec(coeffs, shares[j].0),
        distinct(shares.map_values(|s: (nat, nat)| s.0)),
        all_reduced(shares.map_values(|s: (nat, nat)| s.0)),
        shares.len() >= degree_spec(coeffs) + 1,
        0 <= i < shares.len(),
    ensures
        lagrange_eval_spec(
            shares.map_values(|s: (nat, nat)| s.0),
            shares.map_values(|s: (nat, nat)| s.1),
            shares[i].0,
        ) == horner_spec(coeffs, shares[i].0),
{
    let inputs = shares.map_values(|s: (nat, nat)| s.0);
    let outputs = shares.map_values(|s: (nat, nat)| s.1);
    assert forall|j: int| 0 <= j < outputs.len() implies outputs[j] < group_order() by {
        assert(outputs[j] == horner_spec(coeffs, shares[j].0));
        lemma_horner_reduced(coeffs, shares[j].0);
    }
    lemma_interpolation_agrees_at_samples(inputs, outputs, i);
}

/// Horner evaluation always returns a value reduced below the curve
/// order.
pub proof fn lemma_horner_reduced(c: Seq<nat>, x: nat)
    ensures
        horner_spec(c, x) < group_order(),
{
    if c.len() == 0 {
    } else {
        let n = group_order();
        let v = horner_spec(c.subrange(1, c.len() as int), x) * x + c[0];
        vstd::arithmetic::div_mod::lemma_mod_bound(v as int, n as int);
    }
}

} // verus!
