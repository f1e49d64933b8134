//! Elements of the secp256k1 group, carried as their canonical 33-byte
//! compressed serialization.
//!
//! The group arithmetic is performed by the `secp` crate behind trusted
//! wrappers. Since no closed form for point arithmetic fits in a contract,
//! the results of addition and scalar multiplication are named by the
//! uninterpreted functions `padd` and `pmul`, together with the group laws
//! that relate them on multiples of a common base.

use crate::field::{group_order, Scalar};
use vstd::prelude::*;

verus! {

/// The serialization of the product `k * P`, for a point serialized as `p`.
/// Point-by-scalar multiplication is deterministic, so this is a function
/// of its arguments alone.
pub uninterp spec fn pmul(p: Seq<u8>, k: nat) -> Seq<u8>;

/// The serialization of the sum `P + Q`, for points serialized as `p`, `q`.
pub uninterp spec fn padd(p: Seq<u8>, q: Seq<u8>) -> Seq<u8>;

/// The serialization of the even-parity point whose X coordinate is the
/// 32-byte big-endian string `h`, or `None` if no curve point has that
/// X coordinate.
pub uninterp spec fn lift_x_of(h: Seq<u8>) -> Option<Seq<u8>>;

/// An element of the secp256k1 group (a curve point or the identity),
/// stored as its canonical 33-byte compressed serialization. The identity
/// is serialized as 33 zero bytes.
#[derive(Clone, Debug)]
pub struct GroupElem {
    bytes: Vec<u8>,
}

impl GroupElem {
    /// The canonical compressed serialization held inside.
    pub closed spec fn ser(&self) -> Seq<u8> {
        self.bytes@
    }

    /// Well-formed: exactly 33 bytes.
    pub closed spec fn wf(&self) -> bool {
        self.bytes@.len() == 33
    }

    /// A fresh group element with the same serialization.
    pub fn dup(&self) -> (r: GroupElem)
        ensures
            r.ser() == self.ser(),
            r.wf() <==> self.wf(),
    {
        let mut bytes: Vec<u8> = Vec::new();
        let mut i: usize = 0;
        while i < self.bytes.len()
            invariant
                i <= self.bytes@.len(),
                bytes@ == self.bytes@.subrange(0, i as int),
            decreases self.bytes@.len() - i,
        {
            bytes.push(self.bytes[i]);
            i += 1;
        }
        proof {
            assert(bytes@ == self.bytes@);
        }
        GroupElem { bytes }
    }

    /// The serialized bytes, for callers that need to carry them away.
    pub fn serialize(&self) -> (r: Vec<u8>)
        ensures
            r@ == self.ser(),
    {
        let d = self.dup();
        d.bytes
    }

    /// Whether this element is the group's identity, whose canonical
    /// serialization is all zero bytes.
    pub fn is_identity(&self) -> (r: bool)
        requires
            self.wf(),
        ensures
            r <==> self.ser() == identity_ser(),
    {
        let mut i: usize = 0;
        while i < self.bytes.len()
            invariant
                self.wf(),
                i <= self.bytes@.len(),
                forall|j: int| 0 <= j < i ==> self.bytes@[j] == 0,
            decreases self.bytes@.len() - i,
        {
            if self.bytes[i] != 0 {
                proof {
                    assert(self.ser() != identity_ser()) by {
                        assert(self.ser()[i as int] != 0);
                        assert(identity_ser()[i as int] == 0);
                    }
                }
                return false;
            }
            i += 1;
        }
        proof {
            assert(self.ser() =~= identity_ser());
        }
        true
    }
}

/// The canonical serialization of the group identity: 33 zero bytes.
pub open spec fn identity_ser() -> Seq<u8> {
    Seq::new(33, |i: int| 0u8)
}

impl PartialEq for GroupElem {
    fn eq(&self, other: &GroupElem) -> (r: bool) {
        crate::field::bytes_eq(&self.bytes, &other.bytes)
    }
}

impl vstd::std_specs::cmp::PartialEqSpecImpl for GroupElem {
    open spec fn obeys_eq_spec() -> bool {
        true
    }

    open spec fn eq_spec(&self, other: &GroupElem) -> bool {
        self.ser() == other.ser()
    }
}

/// Relies on `secp::MaybePoint` multiplication (`*`) by a scalar, and on
/// the group law `(i * B) * k == (i * k) * B`: multiplying a multiple of a
/// base point yields the corresponding multiple of the same base.
/// A byte string that encodes no point is mapped to the identity; the
/// library never constructs one.
#[verifier::external_body]
pub fn point_mul(p: &GroupElem, s: &Scalar) -> (r: GroupElem)
    requires
        p.wf(),
        s.wf(),
    ensures
        r.wf(),
        r.ser() == pmul(p.ser(), s.val()),
        forall|b: Seq<u8>, k: nat|
            p.ser() == #[trigger] pmul(b, k) ==> r.ser() == pmul(
                b,
                (k * s.val()) % group_order(),
            ),
{
    let x = match secp::MaybePoint::from_slice(&p.bytes) {
        Ok(point) => point,
        Err(_) => secp::MaybePoint::Infinity,
    };
    let k = secp::MaybeScalar::from_slice(&s.bytes).unwrap();
    GroupElem { bytes: (x * k).serialize().to_vec() }
}

/// Relies on `secp::MaybePoint` addition (`+`), and on the group law
/// `i * B + j * B == (i + j) * B`: adding two multiples of a common base
/// point yields the corresponding multiple of the same base.
/// A byte string that encodes no point is mapped to the identity; the
/// library never constructs one.
#[verifier::external_body]
pub fn point_add(p: &GroupElem, q: &GroupElem) -> (r: GroupElem)
    requires
        p.wf(),
        q.wf(),
    ensures
        r.wf(),
        r.ser() == padd(p.ser(), q.ser()),
        forall|b: Seq<u8>, i: nat, j: nat|
            p.ser() == #[trigger] pmul(b, i) && q.ser() == #[trigger] pmul(b, j) ==> r.ser()
                == pmul(b, (i + j) % group_order()),
{
    let x = match secp::MaybePoint::from_slice(&p.bytes) {
        Ok(point) => point,
        Err(_) => secp::MaybePoint::Infinity,
    };
    let y = match secp::MaybePoint::from_slice(&q.bytes) {
        Ok(point) => point,
        Err(_) => secp::MaybePoint::Infinity,
    };
    GroupElem { bytes: (x + y).serialize().to_vec() }
}

/// Relies on `secp::MaybePoint::Infinity` and its serialization as 33 zero
/// bytes, and on the group law `0 * B == Infinity` for every point `B`.
#[verifier::external_body]
pub fn point_identity() -> (r: GroupElem)
    ensures
        r.wf(),
        r.ser() == identity_ser(),
        forall|b: Seq<u8>| r.ser() == #[trigger] pmul(b, 0),
{
    GroupElem { bytes: secp::MaybePoint::Infinity.serialize().to_vec() }
}

/// The compressed serialization of the secp256k1 generator point `G`:
/// the even-parity tag byte followed by the big-endian X coordinate.
pub open spec fn generator_ser() -> Seq<u8> {
    seq![
        0x02u8, 0x79, 0xBE, 0x66, 0x7E, 0xF9, 0xDC, 0xBB, 0xAC, 0x55, 0xA0, 0x62, 0x95, 0xCE,
        0x87, 0x0B, 0x07, 0x02, 0x9B, 0xFC, 0xDB, 0x2D, 0xCE, 0x28, 0xD9, 0x59, 0xF2, 0x81,
        0x5B, 0x16, 0xF8, 0x17, 0x98,
    ]
}

/// Relies on `secp::Point::generator`: the fixed base point `G` of the
/// secp256k1 group, with its well-known serialization, which is its own
/// multiple by one.
#[verifier::external_body]
pub fn generator() -> (r: GroupElem)
    ensures
        r.wf(),
        r.ser() == generator_ser(),
        r.ser() == pmul(r.ser(), 1),
{
    GroupElem { bytes: secp::Point::generator().serialize().to_vec() }
}

/// Relies on `secp::Point::lift_x`: the even-parity point with the given
/// 32-byte big-endian X coordinate, if any curve point has it.
#[verifier::external_body]
pub(crate) fn lift_x(h: &Vec<u8>) -> (r: Option<GroupElem>)
    requires
        h@.len() == 32,
    ensures
        r is Some <==> lift_x_of(h@) is Some,
        r is Some ==> r->Some_0.wf() && r->Some_0.ser() == lift_x_of(h@)->Some_0,
{
    let mut arr = [0u8; 32];
    arr.copy_from_slice(h);
    match secp::Point::lift_x(arr) {
        Ok(point) => Some(GroupElem { bytes: point.serialize().to_vec() }),
        Err(_) => None,
    }
}

} // verus!
