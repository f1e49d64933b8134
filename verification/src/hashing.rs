//! Byte hashing and the hash-to-curve routine: a deterministic,
//! unpredictable mapping from arbitrary bytes to a group element with no
//! known discrete logarithm relative to the generator.
//!
//! The routine hashes the input to a 32-byte digest, tries to lift the
//! digest as an X coordinate onto the curve, and on failure increments the
//! digest as a big-endian integer and retries. It runs in non-constant
//! time and is restricted to non-secret inputs.

use crate::group::{lift_x, lift_x_of, GroupElem};
use vstd::prelude::*;

verus! {

/// The number of lift attempts before giving up. Roughly half of all
/// X coordinates lie on the curve, so the chance of exhausting this many
/// candidates is negligible; the expected number of retries is below two.
pub const MAX_LIFT_ATTEMPTS: usize = 128;

/// The SHA-256 digest of a byte string: 32 bytes, a function of the input
/// alone.
pub uninterp spec fn sha256_of(m: Seq<u8>) -> Seq<u8>;

/// Relies on `sha2::Sha256`: the SHA-256 digest of the input bytes.
#[verifier::external_body]
pub fn sha256(input: &[u8]) -> (r: Vec<u8>)
    ensures
        r@ == sha256_of(input@),
        r@.len() == 32,
{
    let digest = <sha2::Sha256 as sha2::Digest>::digest(input);
    digest.to_vec()
}

/// A byte string incremented as a big-endian unsigned integer: the last
/// byte goes up by one, with a carry that turns trailing `0xFF` bytes to
/// zero; an all-`0xFF` string wraps to all-zero, and an empty string is
/// left alone.
pub open spec fn inc_be(s: Seq<u8>) -> Seq<u8>
    decreases s.len(),
{
    if s.len() == 0 {
        s
    } else if s.last() == 0xFF {
        inc_be(s.drop_last()).push(0u8)
    } else {
        s.drop_last().push((s.last() + 1) as u8)
    }
}

/// Incrementing keeps the length.
pub proof fn lemma_inc_be_len(s: Seq<u8>)
    ensures
        inc_be(s).len() == s.len(),
    decreases s.len(),
{
    if s.len() > 0 && s.last() == 0xFF {
        lemma_inc_be_len(s.drop_last());
    }
}

/// The shape of an incremented string, read off the position of its last
/// non-`0xFF` byte: everything after that byte becomes zero, the byte
/// itself goes up by one, and everything before it is kept.
proof fn lemma_inc_be_shape(s: Seq<u8>, i: int)
    requires
        0 <= i <= s.len(),
        forall|j: int| i <= j < s.len() ==> s[j] == 0xFF,
        i > 0 ==> s[i - 1] != 0xFF,
    ensures
        i == 0 ==> inc_be(s) == Seq::new(s.len(), |j: int| 0u8),
        i > 0 ==> inc_be(s) == s.subrange(0, i - 1).push((s[i - 1] + 1) as u8) + Seq::new(
            (s.len() - i) as nat,
            |j: int| 0u8,
        ),
    decreases s.len() - i,
{
    if i == s.len() {
        if i == 0 {
            assert(inc_be(s) =~= Seq::new(s.len(), |j: int| 0u8));
        } else {
            assert(inc_be(s) =~= s.subrange(0, i - 1).push((s[i - 1] + 1) as u8) + Seq::new(
                0nat,
                |j: int| 0u8,
            ));
        }
    } else {
        let front = s.drop_last();
        lemma_inc_be_shape(front, i);
        if i == 0 {
            assert(inc_be(s) =~= Seq::new(s.len(), |j: int| 0u8));
        } else {
            assert(front.subrange(0, i - 1) == s.subrange(0, i - 1));
            assert(inc_be(s) =~= s.subrange(0, i - 1).push((s[i - 1] + 1) as u8) + Seq::new(
                (s.len() - i) as nat,
                |j: int| 0u8,
            ));
        }
    }
}

/// Increments a vector of bytes in place, as if it were a big-endian
/// integer: all-`0xFF` input wraps fully to all-zero, and an empty vector
/// is a no-op.
pub fn inc_slice_be(v: &mut Vec<u8>)
    ensures
        final(v)@ == inc_be(old(v)@),
        final(v)@.len() == old(v)@.len(),
{
    let ghost orig = v@;
    let mut i: usize = v.len();
    while i > 0 && v[i - 1] == 0xFF
        invariant
            i <= v@.len(),
            v@.len() == orig.len(),
            forall|j: int| 0 <= j < i ==> v@[j] == orig[j],
            forall|j: int| i <= j < orig.len() ==> v@[j] == 0,
            forall|j: int| i <= j < orig.len() ==> orig[j] == 0xFF,
        decreases i,
    {
        let ghost prev = v@;
        v[i - 1] = 0;
        proof {
            assert(v@ == prev.update(i - 1, 0u8));
            assert forall|j: int| i - 1 <= j < orig.len() implies v@[j] == 0 by {
                if j == i - 1 {
                    assert(v@[j] == 0);
                } else {
                    assert(v@[j] == prev[j]);
                    assert(prev[j] == 0);
                }
            }
            assert forall|j: int| i - 1 <= j < orig.len() implies orig[j] == 0xFF by {
                if j == i - 1 {
                    assert(orig[j] == prev[j]);
                }
            }
        }
        i -= 1;
    }
    if i > 0 {
        let b = v[i - 1];
        v[i - 1] = b + 1;
        proof {
            lemma_inc_be_shape(orig, i as int);
            assert(v@ =~= orig.subrange(0, i - 1).push((orig[i - 1] + 1) as u8) + Seq::new(
                (orig.len() - i) as nat,
                |j: int| 0u8,
            ));
            lemma_inc_be_len(orig);
        }
    } else {
        proof {
            lemma_inc_be_shape(orig, 0);
            assert(v@ =~= Seq::new(orig.len(), |j: int| 0u8));
            lemma_inc_be_len(orig);
        }
    }
}

/// The `k`-th candidate digest for an input: the SHA-256 digest of the
/// input, incremented `k` times.
pub open spec fn candidate(input: Seq<u8>, k: nat) -> Seq<u8>
    decreases k,
{
    if k == 0 {
        sha256_of(input)
    } else {
        inc_be(candidate(input, (k - 1) as nat))
    }
}

/// Whether a digest lifts onto the curve as an X coordinate.
pub open spec fn liftable(h: Seq<u8>) -> bool {
    lift_x_of(h) is Some
}

/// Whether `k` is the index of the first liftable candidate digest.
pub open spec fn is_first_liftable(input: Seq<u8>, k: nat) -> bool {
    liftable(candidate(input, k)) && forall|m: nat|
        m < k ==> !(#[trigger] liftable(candidate(input, m)))
}

/// The index of the first liftable candidate digest for an input.
pub open spec fn first_liftable(input: Seq<u8>) -> nat {
    choose|k: nat| is_first_liftable(input, k)
}

/// There is at most one first liftable candidate: together with the
/// contract of `hash_to_point`, repeated calls on the same input return
/// the same group element.
pub proof fn lemma_first_liftable_unique(input: Seq<u8>, k1: nat, k2: nat)
    requires
        is_first_liftable(input, k1),
        is_first_liftable(input, k2),
    ensures
        k1 == k2,
{
    if k1 < k2 {
        assert(!liftable(candidate(input, k1)));
    } else if k2 < k1 {
        assert(!liftable(candidate(input, k2)));
    }
}

/// Implements a secure hash-to-curve function, in non-constant time: the
/// returned group element is the first liftable candidate digest of the
/// input, so repeated calls on equal inputs return equal elements, and the
/// result has no known discrete logarithm relative to the generator. Its
/// Y coordinate always has even parity.
///
/// Returns `None` only if none of the first `MAX_LIFT_ATTEMPTS` candidate
/// digests lies on the curve, which for SHA-256 digests is vanishingly
/// unlikely.
pub fn hash_to_point(input: &[u8]) -> (r: Option<GroupElem>)
    ensures
        (r is Some) <==> exists|k: nat|
            k < MAX_LIFT_ATTEMPTS && #[trigger] liftable(candidate(input@, k)),
        r is Some ==> is_first_liftable(input@, first_liftable(input@)),
        r is Some ==> r->Some_0.wf() && r->Some_0.ser() == lift_x_of(
            candidate(input@, first_liftable(input@)),
        )->Some_0,
{
    let mut h = sha256(input);
    let mut attempts: usize = 0;
    while attempts < MAX_LIFT_ATTEMPTS
        invariant
            attempts <= MAX_LIFT_ATTEMPTS,
            h@.len() == 32,
            h@ == candidate(input@, attempts as nat),
            forall|m: nat| m < attempts ==> !(#[trigger] liftable(candidate(input@, m))),
        decreases MAX_LIFT_ATTEMPTS - attempts,
    {
        match lift_x(&h) {
            Some(point) => {
                proof {
                    let k = attempts as nat;
                    assert(is_first_liftable(input@, k));
                    let f = first_liftable(input@);
                    assert(is_first_liftable(input@, f)) by {
                        assert(exists|kk: nat| is_first_liftable(input@, kk));
                    }
                    lemma_first_liftable_unique(input@, k, f);
                }
                return Some(point);
            },
            None => {
                inc_slice_be(&mut h);
                attempts += 1;
            },
        }
    }
    None
}

} // verus!
