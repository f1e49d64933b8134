//! Standard-form polynomials: an ordered coefficient vector, evaluated by
//! Horner's method, over the scalar field and over the curve group.

use crate::field::{group_order, scalar_add, scalar_mul, Scalar};
use crate::group::{identity_ser, padd, pmul, point_add, point_identity, point_mul, GroupElem};
use vstd::arithmetic::div_mod::{lemma_add_mod_noop_right, lemma_mod_twice, lemma_mul_mod_noop_left};
use vstd::arithmetic::power::pow;
use vstd::prelude::*;

verus! {

/// Horner's evaluation of a polynomial with coefficient values `c`
/// (constant term first) at input `x`, modulo the curve order.
pub open spec fn horner_spec(c: Seq<nat>, x: nat) -> nat
    decreases c.len(),
{
    if c.len() == 0 {
        0
    } else {
        (horner_spec(c.subrange(1, c.len() as int), x) * x + c[0]) % group_order()
    }
}

/// The sum of monomials `c[i] * x^i`: what a standard-form polynomial
/// stands for, before reduction modulo the curve order.
pub open spec fn monomial_sum(c: Seq<nat>, x: nat) -> int
    decreases c.len(),
{
    if c.len() == 0 {
        0
    } else {
        monomial_sum(c.drop_last(), x) + c.last() * pow(x as int, (c.len() - 1) as nat)
    }
}

/// The index of the highest non-zero coefficient value, with trailing
/// zeros trimmed and a floor of zero.
pub open spec fn degree_spec(c: Seq<nat>) -> nat
    decreases c.len(),
{
    if c.len() <= 1 {
        0
    } else if c.last() != 0 {
        (c.len() - 1) as nat
    } else {
        degree_spec(c.drop_last())
    }
}

/// Pulling the constant term out of a monomial sum.
proof fn lemma_monomial_sum_split_first(c: Seq<nat>, x: nat)
    requires
        c.len() > 0,
    ensures
        monomial_sum(c, x) == x * monomial_sum(c.subrange(1, c.len() as int), x) + c[0],
    decreases c.len(),
{
    reveal(pow);
    let rest = c.subrange(1, c.len() as int);
    if c.len() == 1 {
        assert(monomial_sum(c, x) == monomial_sum(c.drop_last(), x) + c.last() * pow(x as int, 0));
        assert(pow(x as int, 0) == 1);
    } else {
        let front = c.drop_last();
        lemma_monomial_sum_split_first(front, x);
        assert(front.subrange(1, front.len() as int) == rest.drop_last());
        assert(rest.last() == c.last());
        let e = (c.len() - 2) as nat;
        assert(pow(x as int, (e + 1) as nat) == x * pow(x as int, e));
        assert(monomial_sum(rest, x) == monomial_sum(rest.drop_last(), x) + c.last() * pow(
            x as int,
            e,
        ));
        assert(x * (monomial_sum(rest.drop_last(), x) + c.last() * pow(x as int, e)) == x
            * monomial_sum(rest.drop_last(), x) + c.last() * (x * pow(x as int, e)))
            by (nonlinear_arith);
        assert(monomial_sum(c, x) == (x * monomial_sum(front.subrange(1, front.len() as int), x)
            + c[0]) + c.last() * pow(x as int, (c.len() - 1) as nat));
    }
}

/// Non-negative bases have non-negative powers.
proof fn lemma_pow_nonneg(b: nat, e: nat)
    ensures
        pow(b as int, e) >= 0,
    decreases e,
{
    reveal(pow);
    if e > 0 {
        lemma_pow_nonneg(b, (e - 1) as nat);
        vstd::arithmetic::mul::lemma_mul_nonnegative(b as int, pow(b as int, (e - 1) as nat));
    }
}

/// Every coefficient value is at least zero, so the monomial sum is too.
proof fn lemma_monomial_sum_nonneg(c: Seq<nat>, x: nat)
    ensures
        monomial_sum(c, x) >= 0,
    decreases c.len(),
{
    if c.len() > 0 {
        lemma_monomial_sum_nonneg(c.drop_last(), x);
        assert(c.last() * pow(x as int, (c.len() - 1) as nat) >= 0) by {
            lemma_pow_nonneg(x, (c.len() - 1) as nat);
            vstd::arithmetic::mul::lemma_mul_nonnegative(
                c.last() as int,
                pow(x as int, (c.len() - 1) as nat),
            );
        }
    }
}

/// Horner's method computes the sum of the monomials `c[i] * x^i`, reduced
/// modulo the curve order: for every coefficient vector and every input,
/// the evaluation equals `(sum of c[i] * x^i) mod order`.
pub proof fn lemma_horner_is_monomial_sum(c: Seq<nat>, x: nat)
    ensures
        horner_spec(c, x) == monomial_sum(c, x) % (group_order() as int),
    decreases c.len(),
{
    let n = group_order() as int;
    if c.len() == 0 {
        assert(0int % n == 0);
    } else {
        let rest = c.subrange(1, c.len() as int);
        lemma_horner_is_monomial_sum(rest, x);
        lemma_monomial_sum_nonneg(rest, x);
        let m = monomial_sum(rest, x);
        // horner(c) == ((m % n) * x + c[0]) % n == (m * x + c[0]) % n
        lemma_mul_mod_noop_left(m, x as int, n);
        lemma_mod_twice(m * (x as int), n);
        lemma_add_mod_noop_right(c[0] as int, (m % n) * (x as int), n);
        lemma_add_mod_noop_right(c[0] as int, m * (x as int), n);
        lemma_monomial_sum_split_first(c, x);
        assert(x * m == m * x) by (nonlinear_arith);
    }
}

/// Represents a polynomial function over the scalar field expressed in
/// standard form: an ordered vector of coefficients, constant term first.
#[derive(Clone, Debug, Default)]
pub struct StandardFormPolynomial {
    /// The ordered set of coefficients, starting with the constant term.
    pub coefficients: Vec<Scalar>,
}

impl StandardFormPolynomial {
    /// The values of the coefficients, constant term first.
    pub open spec fn vals(&self) -> Seq<nat> {
        self.coefficients@.map_values(|s: Scalar| s.val())
    }

    /// Well-formed: every coefficient is a reduced scalar.
    pub open spec fn wf(&self) -> bool {
        forall|i: int| 0 <= i < self.coefficients@.len() ==> (#[trigger] self.coefficients@[i]).wf()
    }

    /// The `coefficients` are presented in ascending order of degree,
    /// starting with the constant term `coefficients[0]`. An empty vector
    /// is legal and stands for the zero polynomial.
    pub fn new(coefficients: Vec<Scalar>) -> (r: Self)
        ensures
            r.coefficients == coefficients,
    {
        Self { coefficients }
    }

    /// Evaluates the polynomial at `x` by Horner's method: no divisions,
    /// and one multiplication and addition per coefficient.
    pub fn evaluate(&self, x: &Scalar) -> (r: Scalar)
        requires
            self.wf(),
            x.wf(),
        ensures
            r.wf(),
            r.val() == horner_spec(self.vals(), x.val()),
    {
        let mut out = Scalar::zero();
        let mut i: usize = self.coefficients.len();
        while i > 0
            invariant
                self.wf(),
                x.wf(),
                i <= self.coefficients@.len(),
                out.wf(),
                out.val() == horner_spec(
                    self.vals().subrange(i as int, self.vals().len() as int),
                    x.val(),
                ),
            decreases i,
        {
            i = i - 1;
            let shifted = scalar_mul(&out, x);
            out = scalar_add(&shifted, &self.coefficients[i]);
            proof {
                let n = group_order() as int;
                let whole = self.vals();
                let tail = whole.subrange(i as int, whole.len() as int);
                assert(tail.subrange(1, tail.len() as int) == whole.subrange(
                    i + 1,
                    whole.len() as int,
                ));
                let h = horner_spec(tail.subrange(1, tail.len() as int), x.val());
                // ((h * x) % n + c) % n == (h * x + c) % n
                lemma_mod_twice((h * x.val()) as int, n);
                lemma_add_mod_noop_right(tail[0] as int, ((h * x.val()) % group_order()) as int, n);
                lemma_add_mod_noop_right(tail[0] as int, (h * x.val()) as int, n);
            }
        }
        proof {
            assert(self.vals().subrange(0, self.vals().len() as int) == self.vals());
        }
        out
    }

    /// Returns the degree of the polynomial: the index of the highest
    /// non-zero coefficient. Trailing zero coefficients are not counted,
    /// and a polynomial with no coefficients has degree zero.
    pub fn degree(&self) -> (r: usize)
        requires
            self.wf(),
        ensures
            r == degree_spec(self.vals()),
            r == 0 || r < self.coefficients@.len(),
    {
        if self.coefficients.len() == 0 {
            return 0;
        }
        let mut d: usize = self.coefficients.len() - 1;
        proof {
            assert(self.vals().subrange(0, d + 1) == self.vals());
        }
        while d > 0
            invariant
                self.wf(),
                d < self.coefficients@.len(),
                degree_spec(self.vals()) == degree_spec(self.vals().subrange(0, d + 1)),
            decreases d,
        {
            if !self.coefficients[d].is_zero() {
                proof {
                    let prefix = self.vals().subrange(0, d + 1);
                    assert(prefix.last() == self.vals()[d as int]);
                }
                return d;
            }
            proof {
                let prefix = self.vals().subrange(0, d + 1);
                assert(prefix.last() == self.vals()[d as int]);
                assert(prefix.drop_last() == self.vals().subrange(0, d as int));
            }
            d = d - 1;
        }
        proof {
            assert(degree_spec(self.vals().subrange(0, 1)) == 0);
        }
        0
    }

    /// Returns the number of evaluations needed to interpolate this
    /// polynomial: one more than its degree.
    pub fn interpolation_threshold(&self) -> (r: usize)
        requires
            self.wf(),
        ensures
            r == degree_spec(self.vals()) + 1,
    {
        let d = self.degree();
        if d < self.coefficients.len() {
            d + 1
        } else {
            1
        }
    }
}

/// Horner's evaluation of a polynomial whose coefficients are group
/// elements, at a scalar input `x`: the same shape as `horner_spec`, with
/// group addition and point-by-scalar multiplication in place of the field
/// operations, written over the serializations.
pub open spec fn point_horner_spec(c: Seq<Seq<u8>>, x: nat) -> Seq<u8>
    decreases c.len(),
{
    if c.len() == 0 {
        identity_ser()
    } else {
        padd(pmul(point_horner_spec(c.subrange(1, c.len() as int), x), x), c[0])
    }
}

/// Whether the group elements serialized as `c` are, element by element,
/// the multiples of a common base `b` by the scalar values `s`.
pub open spec fn multiples_of(c: Seq<Seq<u8>>, b: Seq<u8>, s: Seq<nat>) -> bool {
    &&& s.len() == c.len()
    &&& forall|i: int| 0 <= i < c.len() ==> c[i] == pmul(b, s[i])
}

/// Represents a polynomial function over the curve group expressed in
/// standard form: an ordered vector of point coefficients, constant term
/// first. The homomorphic image of a secret-sharing polynomial.
#[derive(Clone, Debug, Default)]
pub struct PointSharingPolynomial {
    /// The ordered set of point coefficients, starting with the constant
    /// term.
    pub coefficients: Vec<GroupElem>,
}

impl PointSharingPolynomial {
    /// The serializations of the coefficients, constant term first.
    pub open spec fn sers(&self) -> Seq<Seq<u8>> {
        self.coefficients@.map_values(|p: GroupElem| p.ser())
    }

    /// Well-formed: every coefficient is a well-formed group element.
    pub open spec fn wf(&self) -> bool {
        forall|i: int| 0 <= i < self.coefficients@.len() ==> (#[trigger] self.coefficients@[i]).wf()
    }

    /// The `coefficients` are presented in ascending order of degree,
    /// starting with the constant term `coefficients[0]`.
    pub fn new(coefficients: Vec<GroupElem>) -> (r: Self)
        ensures
            r.coefficients == coefficients,
    {
        Self { coefficients }
    }

    /// Evaluates the polynomial at `x` by Horner's method over the group.
    ///
    /// When every coefficient is the multiple of a common base `b` by the
    /// coefficients of a scalar polynomial `s` — as the homomorphic
    /// mapping produces — the result is the multiple of `b` by that scalar
    /// polynomial's evaluation at `x`: evaluation commutes with the
    /// mapping.
    pub fn evaluate(&self, x: &Scalar) -> (r: GroupElem)
        requires
            self.wf(),
            x.wf(),
        ensures
            r.wf(),
            r.ser() == point_horner_spec(self.sers(), x.val()),
            forall|b: Seq<u8>, s: Seq<nat>|
                #[trigger] multiples_of(self.sers(), b, s) ==> r.ser() == pmul(
                    b,
                    horner_spec(s, x.val()),
                ),
    {
        let mut out = point_identity();
        let mut i: usize = self.coefficients.len();
        while i > 0
            invariant
                self.wf(),
                x.wf(),
                i <= self.coefficients@.len(),
                out.wf(),
                out.ser() == point_horner_spec(
                    self.sers().subrange(i as int, self.sers().len() as int),
                    x.val(),
                ),
                forall|b: Seq<u8>, s: Seq<nat>|
                    #[trigger] multiples_of(self.sers(), b, s) ==> out.ser() == pmul(
                        b,
                        horner_spec(s.subrange(i as int, s.len() as int), x.val()),
                    ),
            decreases i,
        {
            i = i - 1;
            let ghost out_prev = out;
            let shifted = point_mul(&out, x);
            out = point_add(&shifted, &self.coefficients[i]);
            proof {
                let whole = self.sers();
                let tail = whole.subrange(i as int, whole.len() as int);
                assert(tail.subrange(1, tail.len() as int) == whole.subrange(
                    i + 1,
                    whole.len() as int,
                ));
                assert forall|b: Seq<u8>, s: Seq<nat>|
                    #[trigger] multiples_of(self.sers(), b, s) implies out.ser() == pmul(
                    b,
                    horner_spec(s.subrange(i as int, s.len() as int), x.val()),
                ) by {
                    let n = group_order() as int;
                    let stail = s.subrange(i as int, s.len() as int);
                    assert(stail.subrange(1, stail.len() as int) == s.subrange(
                        i + 1,
                        s.len() as int,
                    ));
                    let h = horner_spec(s.subrange(i + 1, s.len() as int), x.val());
                    assert(out_prev.ser() == pmul(b, h));
                    assert(shifted.ser() == pmul(b, (h * x.val()) % group_order()));
                    assert(self.sers()[i as int] == pmul(b, s[i as int]));
                    assert(out.ser() == pmul(
                        b,
                        ((h * x.val()) % group_order() + s[i as int]) % group_order(),
                    ));
                    lemma_mod_twice((h * x.val()) as int, n);
                    lemma_add_mod_noop_right(
                        s[i as int] as int,
                        ((h * x.val()) % group_order()) as int,
                        n,
                    );
                    lemma_add_mod_noop_right(s[i as int] as int, (h * x.val()) as int, n);
                    assert(((h * x.val()) % group_order() + s[i as int]) % group_order() == (h
                        * x.val() + s[i as int]) % group_order());
                }
            }
        }
        proof {
            assert(self.sers().subrange(0, self.sers().len() as int) == self.sers());
            assert forall|b: Seq<u8>, s: Seq<nat>|
                #[trigger] multiples_of(self.sers(), b, s) implies out.ser() == pmul(
                b,
                horner_spec(s, x.val()),
            ) by {
                assert(s.subrange(0, s.len() as int) == s);
            }
        }
        out
    }

    /// Returns the degree of the polynomial: the index of the highest
    /// coefficient that is not the group identity, with trailing identity
    /// coefficients trimmed and a floor of zero.
    pub fn degree(&self) -> (r: usize)
        requires
            self.wf(),
        ensures
            r == point_degree_spec(self.sers()),
            r == 0 || r < self.coefficients@.len(),
    {
        if self.coefficients.len() == 0 {
            return 0;
        }
        let mut d: usize = self.coefficients.len() - 1;
        proof {
            assert(self.sers().subrange(0, d + 1) == self.sers());
        }
        while d > 0
            invariant
                self.wf(),
                d < self.coefficients@.len(),
                point_degree_spec(self.sers()) == point_degree_spec(self.sers().subrange(0, d + 1)),
            decreases d,
        {
            if !self.coefficients[d].is_identity() {
                proof {
                    let prefix = self.sers().subrange(0, d + 1);
                    assert(prefix.last() == self.sers()[d as int]);
                }
                return d;
            }
            proof {
                let prefix = self.sers().subrange(0, d + 1);
                assert(prefix.last() == self.sers()[d as int]);
                assert(prefix.drop_last() == self.sers().subrange(0, d as int));
            }
            d = d - 1;
        }
        proof {
            assert(point_degree_spec(self.sers().subrange(0, 1)) == 0);
        }
        0
    }

    /// Returns the number of evaluations needed to interpolate this
    /// polynomial: one more than its degree.
    pub fn interpolation_threshold(&self) -> (r: usize)
        requires
            self.wf(),
        ensures
            r == point_degree_spec(self.sers()) + 1,
    {
        let d = self.degree();
        if d < self.coefficients.len() {
            d + 1
        } else {
            1
        }
    }
}

/// The index of the highest non-identity point coefficient, with trailing
/// identity coefficients trimmed and a floor of zero.
pub open spec fn point_degree_spec(c: Seq<Seq<u8>>) -> nat
    decreases c.len(),
{
    if c.len() <= 1 {
        0
    } else if c.last() != identity_ser() {
        (c.len() - 1) as nat
    } else {
        point_degree_spec(c.drop_last())
    }
}

} // verus!
