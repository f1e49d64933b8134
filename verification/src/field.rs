//! The scalar field underlying the secret-sharing polynomials: integers
//! modulo the secp256k1 curve order, carried as 32 big-endian bytes.
//!
//! The arithmetic itself is performed by the `secp` crate; each operation
//! is wrapped in a trusted function whose contract states the result as
//! modular arithmetic on the big-endian value of the bytes.

use vstd::arithmetic::div_mod::{
    lemma_fundamental_div_mod, lemma_fundamental_div_mod_converse, lemma_multiply_divide_lt,
};
use vstd::prelude::*;

verus! {

/// The order of the secp256k1 group: the modulus of the scalar field.
pub open spec fn group_order() -> nat {
    (0xFFFFFFFFFFFFFFFFFFFFFFFFFFFFFFFE as nat) * 0x10000000000000000 * 0x10000000000000000
        + (0xBAAEDCE6AF48A03BBFD25E8CD0364141 as nat)
}

/// `256^n`: the number of byte strings of length `n`.
pub open spec fn pow256(n: nat) -> nat
    decreases n,
{
    if n == 0 {
        1
    } else {
        256 * pow256((n - 1) as nat)
    }
}

/// The value of a byte string read as a big-endian unsigned integer.
pub open spec fn be_val(s: Seq<u8>) -> nat
    decreases s.len(),
{
    if s.len() == 0 {
        0
    } else {
        be_val(s.drop_last()) * 256 + (s.last() as nat)
    }
}

/// A multiplicative inverse modulo the curve order, when one exists.
pub open spec fn mod_inv(a: nat) -> nat {
    choose|b: nat| b < group_order() && #[trigger] ((a * b) % group_order()) == 1
}

/// Subtraction modulo the curve order, for reduced operands.
pub open spec fn sub_mod(a: nat, b: nat) -> nat
    recommends
        a < group_order(),
        b < group_order(),
{
    (((a + group_order()) - b) as nat) % group_order()
}

/// The curve order is a positive modulus.
pub proof fn lemma_group_order_pos()
    ensures
        group_order() > 1,
{
}

/// Equal-length byte strings with the same big-endian value are equal.
pub proof fn lemma_be_val_injective(a: Seq<u8>, b: Seq<u8>)
    requires
        a.len() == b.len(),
        be_val(a) == be_val(b),
    ensures
        a == b,
    decreases a.len(),
{
    if a.len() > 0 {
        let v = be_val(a) as int;
        lemma_fundamental_div_mod_converse(v, 256, be_val(a.drop_last()) as int, a.last() as int);
        lemma_fundamental_div_mod_converse(v, 256, be_val(b.drop_last()) as int, b.last() as int);
        assert(a.last() == b.last());
        assert(be_val(a.drop_last()) == be_val(b.drop_last()));
        lemma_be_val_injective(a.drop_last(), b.drop_last());
        assert(a == a.drop_last().push(a.last()));
        assert(b == b.drop_last().push(b.last()));
    } else {
        assert(a == b);
    }
}

/// An element of the scalar field, in the range `[0, group_order())`,
/// stored as its canonical 32-byte big-endian serialization.
#[derive(Clone, Debug)]
pub struct Scalar {
    pub(crate) bytes: Vec<u8>,
}

impl Scalar {
    /// The field value this scalar stands for.
    pub closed spec fn val(&self) -> nat {
        be_val(self.bytes@)
    }

    /// The canonical big-endian serialization held inside.
    pub closed spec fn ser(&self) -> Seq<u8> {
        self.bytes@
    }

    /// Well-formed: exactly 32 bytes, reduced below the curve order.
    pub closed spec fn wf(&self) -> bool {
        self.bytes@.len() == 32 && be_val(self.bytes@) < group_order()
    }

    /// The zero scalar: the field's additive identity.
    pub fn zero() -> (r: Scalar)
        ensures
            r.wf(),
            r.val() == 0,
    {
        let bytes = zero_bytes(32);
        Scalar { bytes }
    }

    /// The one scalar: the field's multiplicative identity.
    pub fn one() -> (r: Scalar)
        ensures
            r.wf(),
            r.val() == 1,
    {
        Scalar::from_u64(1)
    }

    /// The scalar standing for a small unsigned integer.
    pub fn from_u64(n: u64) -> (r: Scalar)
        ensures
            r.wf(),
            r.val() == n as nat,
    {
        let mut bytes = zero_bytes(24);
        proof {
            reveal_with_fuel(pow256, 9);
        }
        push_be_bytes(n, 8, &mut bytes);
        Scalar { bytes }
    }

    /// A fresh scalar with the same value.
    pub fn dup(&self) -> (r: Scalar)
        ensures
            r.ser() == self.ser(),
            r.val() == self.val(),
            r.wf() <==> self.wf(),
    {
        let mut bytes: Vec<u8> = Vec::new();
        let mut i: usize = 0;
        while i < self.bytes.len()
            invariant
                i <= self.bytes@.len(),
                bytes@ == self.bytes@.subrange(0, i as int),
            decreases self.bytes@.len() - i,
        {
            bytes.push(self.bytes[i]);
            i += 1;
        }
        proof {
            assert(bytes@ == self.bytes@);
        }
        Scalar { bytes }
    }

    /// Whether this scalar is the additive identity.
    pub fn is_zero(&self) -> (r: bool)
        requires
            self.wf(),
        ensures
            r <==> self.val() == 0,
    {
        let mut i: usize = 0;
        while i < self.bytes.len()
            invariant
                i <= self.bytes@.len(),
                forall|j: int| 0 <= j < i ==> self.bytes@[j] == 0,
            decreases self.bytes@.len() - i,
        {
            if self.bytes[i] != 0 {
                proof {
                    let zs = Seq::new(self.bytes@.len(), |j: int| 0u8);
                    lemma_be_val_zeros(zs);
                    if self.val() == 0 {
                        lemma_be_val_injective(self.bytes@, zs);
                    }
                }
                return false;
            }
            i += 1;
        }
        proof {
            let zs = Seq::new(self.bytes@.len(), |j: int| 0u8);
            assert(self.bytes@ == zs);
            lemma_be_val_zeros(zs);
        }
        true
    }
}

impl PartialEq for Scalar {
    fn eq(&self, other: &Scalar) -> (r: bool) {
        bytes_eq(&self.bytes, &other.bytes)
    }
}

impl vstd::std_specs::cmp::PartialEqSpecImpl for Scalar {
    open spec fn obeys_eq_spec() -> bool {
        true
    }

    open spec fn eq_spec(&self, other: &Scalar) -> bool {
        self.ser() == other.ser()
    }
}

/// A well-formed scalar's value is reduced below the curve order.
pub broadcast proof fn lemma_scalar_wf_reduced(s: Scalar)
    requires
        #[trigger] s.wf(),
    ensures
        s.val() < group_order(),
{
}

/// For well-formed scalars, equal serializations and equal values coincide.
pub proof fn lemma_scalar_eq_val(a: &Scalar, b: &Scalar)
    requires
        a.wf(),
        b.wf(),
    ensures
        (a.ser() == b.ser()) <==> (a.val() == b.val()),
{
    if a.val() == b.val() {
        lemma_be_val_injective(a.ser(), b.ser());
    }
}

/// All-zero byte strings have big-endian value zero.
proof fn lemma_be_val_zeros(s: Seq<u8>)
    requires
        forall|j: int| 0 <= j < s.len() ==> s[j] == 0,
    ensures
        be_val(s) == 0,
    decreases s.len(),
{
    if s.len() > 0 {
        lemma_be_val_zeros(s.drop_last());
    }
}

/// A vector of `n` zero bytes.
fn zero_bytes(n: usize) -> (r: Vec<u8>)
    ensures
        r@.len() == n,
        be_val(r@) == 0,
        forall|j: int| 0 <= j < n ==> r@[j] == 0,
{
    let mut bytes: Vec<u8> = Vec::new();
    let mut i: usize = 0;
    while i < n
        invariant
            i <= n,
            bytes@.len() == i,
            be_val(bytes@) == 0,
            forall|j: int| 0 <= j < i ==> bytes@[j] == 0,
        decreases n - i,
    {
        let ghost prev = bytes@;
        bytes.push(0u8);
        proof {
            assert(bytes@.drop_last() == prev);
        }
        i += 1;
    }
    bytes
}

/// Exact byte-string comparison.
pub(crate) fn bytes_eq(a: &Vec<u8>, b: &Vec<u8>) -> (r: bool)
    ensures
        r <==> a@ == b@,
{
    if a.len() != b.len() {
        return false;
    }
    let mut i: usize = 0;
    while i < a.len()
        invariant
            a@.len() == b@.len(),
            i <= a@.len(),
            forall|j: int| 0 <= j < i ==> a@[j] == b@[j],
        decreases a@.len() - i,
    {
        if a[i] != b[i] {
            return false;
        }
        i += 1;
    }
    proof {
        assert(a@ =~= b@);
    }
    true
}

/// Appends the `k`-byte big-endian encoding of `v`.
fn push_be_bytes(v: u64, k: usize, out: &mut Vec<u8>)
    requires
        k <= 8,
        (v as nat) < pow256(k as nat),
    ensures
        final(out)@.len() == old(out)@.len() + k,
        be_val(final(out)@) == be_val(old(out)@) * pow256(k as nat) + v,
    decreases k,
{
    if k == 0 {
        proof {
            assert(pow256(0) == 1);
        }
        return;
    }
    proof {
        assert(pow256(k as nat) == 256 * pow256((k - 1) as nat));
        lemma_multiply_divide_lt(v as int, 256, pow256((k - 1) as nat) as int);
    }
    let ghost prefix = out@;
    push_be_bytes(v / 256, k - 1, out);
    let ghost mid = out@;
    out.push((v % 256) as u8);
    proof {
        assert(out@.drop_last() == mid);
        lemma_fundamental_div_mod(v as int, 256);
        let p1 = pow256((k - 1) as nat) as int;
        let b = be_val(prefix) as int;
        let q = (v / 256) as int;
        assert((b * p1 + q) * 256 == b * (256 * p1) + q * 256) by (nonlinear_arith);
    }
}

/// Relies on `secp::MaybeScalar` addition (`+`): the sum of two scalars
/// modulo the curve order.
#[verifier::external_body]
pub(crate) fn scalar_add(a: &Scalar, b: &Scalar) -> (r: Scalar)
    requires
        a.wf(),
        b.wf(),
    ensures
        r.wf(),
        r.val() == (a.val() + b.val()) % group_order(),
{
    let x = secp::MaybeScalar::from_slice(&a.bytes).unwrap();
    let y = secp::MaybeScalar::from_slice(&b.bytes).unwrap();
    Scalar { bytes: (x + y).serialize().to_vec() }
}

/// Relies on `secp::MaybeScalar` subtraction (`-`): the difference of two
/// scalars modulo the curve order.
#[verifier::external_body]
pub(crate) fn scalar_sub(a: &Scalar, b: &Scalar) -> (r: Scalar)
    requires
        a.wf(),
        b.wf(),
    ensures
        r.wf(),
        r.val() == sub_mod(a.val(), b.val()),
{
    let x = secp::MaybeScalar::from_slice(&a.bytes).unwrap();
    let y = secp::MaybeScalar::from_slice(&b.bytes).unwrap();
    Scalar { bytes: (x - y).serialize().to_vec() }
}

/// Relies on `secp::MaybeScalar` multiplication (`*`): the product of two
/// scalars modulo the curve order.
#[verifier::external_body]
pub(crate) fn scalar_mul(a: &Scalar, b: &Scalar) -> (r: Scalar)
    requires
        a.wf(),
        b.wf(),
    ensures
        r.wf(),
        r.val() == (a.val() * b.val()) % group_order(),
{
    let x = secp::MaybeScalar::from_slice(&a.bytes).unwrap();
    let y = secp::MaybeScalar::from_slice(&b.bytes).unwrap();
    Scalar { bytes: (x * y).serialize().to_vec() }
}

/// Relies on `secp::MaybeScalar` division (`/`) by a non-zero
/// `secp::Scalar`: multiplication by the divisor's multiplicative inverse
/// modulo the curve order. The curve order is prime, so the inverse of a
/// non-zero divisor exists and is unique.
#[verifier::external_body]
pub(crate) fn scalar_div(a: &Scalar, b: &Scalar) -> (r: Scalar)
    requires
        a.wf(),
        b.wf(),
        b.val() != 0,
    ensures
        r.wf(),
        (r.val() * b.val()) % group_order() == a.val(),
        r.val() == (a.val() * mod_inv(b.val())) % group_order(),
{
    let x = secp::MaybeScalar::from_slice(&a.bytes).unwrap();
    let d = secp::Scalar::from_slice(&b.bytes).unwrap();
    Scalar { bytes: (x / d).serialize().to_vec() }
}

/// Relies on `secp::Scalar::random`: a uniformly random non-zero scalar
/// drawn from a cryptographically secure generator. Nothing is assumed of
/// the value beyond well-formedness.
#[verifier::external_body]
fn random_scalar() -> (r: Scalar)
    ensures
        r.wf(),
{
    let s = secp::Scalar::random(&mut rand::rng());
    Scalar { bytes: s.serialize().to_vec() }
}

/// Draws `n` random scalars, fit to serve as polynomial coefficients.
pub fn random_coefficients(n: usize) -> (r: Vec<Scalar>)
    ensures
        r@.len() == n,
        forall|i: int| 0 <= i < n ==> r@[i].wf(),
{
    let mut out: Vec<Scalar> = Vec::new();
    let mut i: usize = 0;
    while i < n
        invariant
            i <= n,
            out@.len() == i,
            forall|j: int| 0 <= j < i ==> out@[j].wf(),
        decreases n - i,
    {
        out.push(random_scalar());
        i += 1;
    }
    out
}

} // verus!
