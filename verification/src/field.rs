//! Elements of the Pallas base field, the field over which the permutation works.
//!
//! An element is held as its canonical little-endian 32-byte encoding, the `Repr`
//! of `halo2_proofs::pasta::Fp`.  The arithmetic itself is done by that type, through
//! the `ff` traits; what this module proves is the
//! bookkeeping around it, and its contracts describe every operation over the integer
//! in `[0, p)` that an element stands for.

use vstd::prelude::*;

verus! {

/// The modulus `p` of the Pallas base field.
pub open spec fn modulus() -> nat {
    0x40000000000000000000000000000000224698fc094cf91b992d30ed00000001nat
}

/// The integer that a little-endian byte string denotes.
pub open spec fn le_value(bytes: Seq<u8>) -> nat
    decreases bytes.len(),
{
    if bytes.len() == 0 {
        0
    } else {
        bytes[0] as nat + 256 * le_value(bytes.drop_first())
    }
}

/// Field addition on the integers that stand for field elements.
pub open spec fn field_add(a: nat, b: nat) -> nat {
    (a + b) % modulus()
}

/// Field multiplication on the integers that stand for field elements.
pub open spec fn field_mul(a: nat, b: nat) -> nat {
    (a * b) % modulus()
}

/// An element of the Pallas base field.
#[derive(Clone, Copy, Debug, PartialEq, Eq)]
pub struct FieldElement {
    repr: [u8; 32],
}

impl FieldElement {
    /// Every element is held in canonical form: its encoding denotes an integer below `p`.
    #[verifier::type_invariant]
    pub open spec fn canonical(self) -> bool {
        self.value() < modulus()
    }

    /// The integer in `[0, p)` that this element stands for.
    pub closed spec fn value(self) -> nat {
        le_value(self.repr@)
    }
}

impl View for FieldElement {
    type V = nat;

    open spec fn view(&self) -> nat {
        self.value()
    }
}

/// A byte string of zeros denotes 0.
proof fn lemma_zeros_denote_zero(bytes: Seq<u8>)
    requires
        forall|i: int| 0 <= i < bytes.len() ==> bytes[i] == 0,
    ensures
        le_value(bytes) == 0,
    decreases bytes.len(),
{
    if bytes.len() > 0 {
        lemma_zeros_denote_zero(bytes.drop_first());
    }
}

/// `PrimeField::from_u128` of `halo2_proofs::pasta::Fp`, encoded with `PrimeField::to_repr`.
/// Trusted: the element stands for `v` reduced modulo `p` (which is `v` itself, as
/// `v < 2^128 < p`).
#[verifier::external_body]
fn pasta_from_u128(v: u128) -> (r: FieldElement)
    ensures
        r@ == v as nat % modulus(),
{
    FieldElement { repr: ff::PrimeField::to_repr(&<halo2_proofs::pasta::Fp as ff::PrimeField>::from_u128(v)) }
}

/// `PrimeField::from_repr` of `halo2_proofs::pasta::Fp`, asked only whether it succeeds.
/// Trusted: it succeeds exactly on the encodings of integers below `p`.
#[verifier::external_body]
fn pasta_is_canonical(bytes: [u8; 32]) -> (r: bool)
    ensures
        r == (le_value(bytes@) < modulus()),
{
    bool::from(<halo2_proofs::pasta::Fp as ff::PrimeField>::from_repr(bytes).is_some())
}

/// `+` of `halo2_proofs::pasta::Fp` on the decoded operands, re-encoded.
/// Trusted: the sum stands for the sum of the two integers reduced modulo `p`.
#[verifier::external_body]
fn pasta_add(a: &FieldElement, b: &FieldElement) -> (r: FieldElement)
    ensures
        r@ == field_add(a@, b@),
{
    let x: halo2_proofs::pasta::Fp = ff::PrimeField::from_repr(a.repr).unwrap();
    let y: halo2_proofs::pasta::Fp = ff::PrimeField::from_repr(b.repr).unwrap();
    FieldElement { repr: ff::PrimeField::to_repr(&(x + y)) }
}

/// `*` of `halo2_proofs::pasta::Fp` on the decoded operands, re-encoded.
/// Trusted: the product stands for the product of the two integers reduced modulo `p`.
#[verifier::external_body]
fn pasta_mul(a: &FieldElement, b: &FieldElement) -> (r: FieldElement)
    ensures
        r@ == field_mul(a@, b@),
{
    let x: halo2_proofs::pasta::Fp = ff::PrimeField::from_repr(a.repr).unwrap();
    let y: halo2_proofs::pasta::Fp = ff::PrimeField::from_repr(b.repr).unwrap();
    FieldElement { repr: ff::PrimeField::to_repr(&(x * y)) }
}

impl FieldElement {
    /// The additive identity.
    pub fn zero() -> (r: FieldElement)
        ensures
            r@ == 0,
    {
        let repr = [0u8; 32];
        proof {
            lemma_zeros_denote_zero(repr@);
        }
        FieldElement { repr }
    }

    /// The element that stands for `v`.
    pub fn from_u128(v: u128) -> (r: FieldElement)
        ensures
            r@ == v as nat,
    {
        let r = pasta_from_u128(v);
        assert(v < modulus());
        r
    }

    /// Decodes a canonical little-endian encoding; `None` when it denotes `p` or more.
    pub fn from_repr(bytes: [u8; 32]) -> (r: Option<FieldElement>)
        ensures
            r is Some <==> le_value(bytes@) < modulus(),
            r matches Some(x) ==> x@ == le_value(bytes@),
    {
        if pasta_is_canonical(bytes) {
            Some(FieldElement { repr: bytes })
        } else {
            None
        }
    }

    /// The canonical little-endian encoding of this element.
    pub fn to_repr(&self) -> (r: [u8; 32])
        ensures
            le_value(r@) == self@,
    {
        self.repr
    }

    /// Field addition.
    pub fn add(&self, other: &FieldElement) -> (r: FieldElement)
        ensures
            r@ == field_add(self@, other@),
    {
        pasta_add(self, other)
    }

    /// Field multiplication.
    pub fn mul(&self, other: &FieldElement) -> (r: FieldElement)
        ensures
            r@ == field_mul(self@, other@),
    {
        pasta_mul(self, other)
    }
}

} // verus!
