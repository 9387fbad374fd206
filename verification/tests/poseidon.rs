use ff::{Field, PrimeField};
use halo2_gadgets::poseidon::primitives as reference;
use halo2_gadgets::poseidon::primitives::Spec as ReferenceSpec;
use halo2_proofs::pasta::Fp;
use vstd::prelude::nat;
use zkmemory::field::FieldElement;
use zkmemory::params::{ConstantLength, Domain, Spec};
use zkmemory::permutation::permute;
use zkmemory::sponge::{Absorbing, HashTest};

fn from_fp(x: Fp) -> FieldElement {
    FieldElement::from_repr(x.to_repr()).unwrap()
}

fn to_fp(x: FieldElement) -> Fp {
    Fp::from_repr(x.to_repr()).unwrap()
}

fn from_fp_row(row: [Fp; 3]) -> [FieldElement; 3] {
    [from_fp(row[0]), from_fp(row[1]), from_fp(row[2])]
}

/// Poseidon-128 with the x^5 S-box and width 3 over the Pallas base field, with the
/// constants of the reference implementation.
///
/// The `spec_*` items of `Spec` are ghost: they name, for the verifier, what the
/// executable methods return, and compiled code never calls them.
#[derive(Debug)]
pub struct OrchardNullifier;

impl Spec<3, 2> for OrchardNullifier {
    fn spec_full_rounds() -> usize {
        unreachable!()
    }

    fn spec_partial_rounds() -> usize {
        unreachable!()
    }

    fn spec_sbox(_val: nat) -> nat {
        unreachable!()
    }

    fn spec_constants() -> (Vec<[FieldElement; 3]>, [[FieldElement; 3]; 3], [[FieldElement; 3]; 3]) {
        unreachable!()
    }

    fn full_rounds() -> usize {
        8
    }

    fn partial_rounds() -> usize {
        56
    }

    fn sbox(val: FieldElement) -> FieldElement {
        let square = val.mul(&val);
        let fourth = square.mul(&square);
        fourth.mul(&val)
    }

    fn secure_mds() -> usize {
        0
    }

    fn constants() -> (Vec<[FieldElement; 3]>, [[FieldElement; 3]; 3], [[FieldElement; 3]; 3]) {
        let (rcs, mds, mds_inv) = <reference::P128Pow5T3 as ReferenceSpec<Fp, 3, 2>>::constants();
        let rcs: Vec<[FieldElement; 3]> = rcs.into_iter().map(from_fp_row).collect();
        let mds = [from_fp_row(mds[0]), from_fp_row(mds[1]), from_fp_row(mds[2])];
        let mds_inv = [
            from_fp_row(mds_inv[0]),
            from_fp_row(mds_inv[1]),
            from_fp_row(mds_inv[2]),
        ];
        (rcs, mds, mds_inv)
    }
}

fn fe(v: u128) -> FieldElement {
    FieldElement::from_u128(v)
}

#[test]
fn poseidon_hash() {
    let message = [fe(6), fe(42)];

    let (round_constants, mds, _) = OrchardNullifier::constants();

    let hasher = HashTest::<OrchardNullifier, ConstantLength<2>, 3, 2>::init();
    let result = hasher.hash(message);

    // The result should be equivalent to just directly applying the permutation and
    // taking the first state element as the output.
    let mut state = [message[0], message[1], fe(2 << 64)];
    permute::<OrchardNullifier, 3, 2>(&mut state, &mds, &round_constants);
    assert_eq!(state[0], result);
}

#[test]
fn hash_of_two_matches_reference_implementation() {
    let ours = HashTest::<OrchardNullifier, ConstantLength<2>, 3, 2>::init().hash([fe(6), fe(42)]);
    let theirs = reference::Hash::<Fp, reference::P128Pow5T3, reference::ConstantLength<2>, 3, 2>::init()
        .hash([Fp::from(6), Fp::from(42)]);
    assert_eq!(to_fp(ours), theirs);
}

#[test]
fn hash_of_one_matches_reference_implementation() {
    let ours = HashTest::<OrchardNullifier, ConstantLength<1>, 3, 2>::init().hash([fe(7)]);
    let theirs = reference::Hash::<Fp, reference::P128Pow5T3, reference::ConstantLength<1>, 3, 2>::init()
        .hash([Fp::from(7)]);
    assert_eq!(to_fp(ours), theirs);
}

#[test]
fn hash_of_five_matches_reference_implementation() {
    let ours = HashTest::<OrchardNullifier, ConstantLength<5>, 3, 2>::init()
        .hash([fe(1), fe(2), fe(3), fe(4), fe(5)]);
    let theirs = reference::Hash::<Fp, reference::P128Pow5T3, reference::ConstantLength<5>, 3, 2>::init()
        .hash([Fp::from(1), Fp::from(2), Fp::from(3), Fp::from(4), Fp::from(5)]);
    assert_eq!(to_fp(ours), theirs);
}

#[test]
fn hash_of_three_is_two_chunks() {
    // Three elements with rate 2: the chunks [a, b] and [c, 0], capacity 3 * 2^64.
    let (rcs, mds, _) = OrchardNullifier::constants();
    let (a, b, c) = (fe(11), fe(12), fe(13));
    let result = HashTest::<OrchardNullifier, ConstantLength<3>, 3, 2>::init().hash([a, b, c]);

    let mut state = [a, b, fe(3 << 64)];
    permute::<OrchardNullifier, 3, 2>(&mut state, &mds, &rcs);
    state[0] = state[0].add(&c);
    permute::<OrchardNullifier, 3, 2>(&mut state, &mds, &rcs);
    assert_eq!(result, state[0]);
}

#[test]
fn different_lengths_give_different_hashes() {
    let one = HashTest::<OrchardNullifier, ConstantLength<1>, 3, 2>::init().hash([fe(5)]);
    let two = HashTest::<OrchardNullifier, ConstantLength<2>, 3, 2>::init().hash([fe(5), fe(0)]);
    assert_ne!(one, two);
}

#[test]
fn permute_matches_reference_hash_state() {
    // A single full chunk with no padding: the hash is the first word of one permutation.
    let (rcs, mds, _) = OrchardNullifier::constants();
    let mut state = [fe(1), fe(2), fe(2 << 64)];
    permute::<OrchardNullifier, 3, 2>(&mut state, &mds, &rcs);
    let theirs = reference::Hash::<Fp, reference::P128Pow5T3, reference::ConstantLength<2>, 3, 2>::init()
        .hash([Fp::from(1), Fp::from(2)]);
    assert_eq!(to_fp(state[0]), theirs);
}

#[test]
fn permute_with_no_round_constants_is_identity() {
    let (_, mds, _) = OrchardNullifier::constants();
    let mut state = [fe(1), fe(2), fe(3)];
    permute::<OrchardNullifier, 3, 2>(&mut state, &mds, &[]);
    assert_eq!(state, [fe(1), fe(2), fe(3)]);
}

#[test]
fn permute_one_full_round() {
    // One row of constants: one full round, x -> mds * (x + rc)^5.
    let (_, mds, _) = OrchardNullifier::constants();
    let rc = [fe(1), fe(2), fe(3)];
    let mut state = [fe(4), fe(5), fe(6)];
    permute::<OrchardNullifier, 3, 2>(&mut state, &mds, &[rc]);
    let boxed = [
        OrchardNullifier::sbox(fe(5)),
        OrchardNullifier::sbox(fe(7)),
        OrchardNullifier::sbox(fe(9)),
    ];
    for i in 0..3 {
        let mut acc = FieldElement::zero();
        for j in 0..3 {
            acc = acc.add(&mds[i][j].mul(&boxed[j]));
        }
        assert_eq!(state[i], acc);
    }
}

#[test]
fn constant_length_name() {
    assert_eq!(<ConstantLength<2> as Domain<2>>::name(), "ConstantLength<2>");
    assert_eq!(<ConstantLength<0> as Domain<2>>::name(), "ConstantLength<0>");
    assert_eq!(<ConstantLength<1234> as Domain<3>>::name(), "ConstantLength<1234>");
}

#[test]
fn constant_length_capacity_element() {
    assert_eq!(<ConstantLength<2> as Domain<2>>::initial_capacity_element(), fe(2 << 64));
    assert_eq!(<ConstantLength<0> as Domain<2>>::initial_capacity_element(), FieldElement::zero());
    assert_eq!(
        to_fp(<ConstantLength<5> as Domain<4>>::initial_capacity_element()),
        Fp::from_u128(5u128 << 64)
    );
}

#[test]
fn constant_length_padding() {
    assert_eq!(<ConstantLength<2> as Domain<2>>::padding(2).len(), 0);
    assert_eq!(<ConstantLength<3> as Domain<2>>::padding(3), vec![FieldElement::zero()]);
    assert_eq!(<ConstantLength<5> as Domain<3>>::padding(5).len(), 1);
    assert_eq!(<ConstantLength<1> as Domain<4>>::padding(1), vec![FieldElement::zero(); 3]);
    assert_eq!(<ConstantLength<8> as Domain<4>>::padding(8).len(), 0);
}

#[test]
fn absorbing_init_with() {
    let buffer = Absorbing::<u8, 3>::init_with(7);
    assert_eq!(format!("{:?}", buffer), "Absorbing([Some(7), None, None])");
    let single = Absorbing::<u8, 1>::init_with(9);
    assert_eq!(format!("{:?}", single), "Absorbing([Some(9)])");
}

#[test]
fn field_arithmetic() {
    assert_eq!(fe(2).add(&fe(3)), fe(5));
    assert_eq!(fe(6).mul(&fe(7)), fe(42));
    assert_eq!(FieldElement::zero(), fe(0));
    let minus_one = from_fp(-Fp::ONE);
    assert_eq!(minus_one.add(&fe(1)), FieldElement::zero());
    assert_eq!(minus_one.mul(&minus_one), fe(1));
    assert_eq!(to_fp(fe(1u128 << 100)), Fp::from_u128(1u128 << 100));
}

#[test]
fn field_repr_round_trip() {
    let x = fe(0x1234_5678);
    let bytes = x.to_repr();
    assert_eq!(bytes[0], 0x78);
    assert_eq!(bytes[3], 0x12);
    assert_eq!(bytes[4], 0);
    assert_eq!(FieldElement::from_repr(bytes), Some(x));
}

#[test]
fn field_repr_rejects_modulus() {
    // p = 0x40000000000000000000000000000000224698fc094cf91b992d30ed00000001
    let p_minus_one = (-Fp::ONE).to_repr();
    assert!(FieldElement::from_repr(p_minus_one).is_some());
    let mut p = p_minus_one;
    p[0] += 1;
    assert_eq!(FieldElement::from_repr(p), None);
    assert_eq!(FieldElement::from_repr([0xff; 32]), None);
}

/// The P128Pow5T3 matrix with an identity S-box and zero round constants.
#[derive(Debug)]
pub struct LinearSpec;

impl Spec<3, 2> for LinearSpec {
    fn spec_full_rounds() -> usize {
        unreachable!()
    }

    fn spec_partial_rounds() -> usize {
        unreachable!()
    }

    fn spec_sbox(_val: nat) -> nat {
        unreachable!()
    }

    fn spec_constants() -> (Vec<[FieldElement; 3]>, [[FieldElement; 3]; 3], [[FieldElement; 3]; 3]) {
        unreachable!()
    }

    fn full_rounds() -> usize {
        8
    }

    fn partial_rounds() -> usize {
        56
    }

    fn sbox(val: FieldElement) -> FieldElement {
        val
    }

    fn secure_mds() -> usize {
        0
    }

    fn constants() -> (Vec<[FieldElement; 3]>, [[FieldElement; 3]; 3], [[FieldElement; 3]; 3]) {
        let (_, mds, mds_inv) = OrchardNullifier::constants();
        (vec![[FieldElement::zero(); 3]; 64], mds, mds_inv)
    }
}

#[test]
fn permute_ignores_extra_round_constants() {
    let (rcs, mds, _) = OrchardNullifier::constants();
    let mut longer = rcs.clone();
    longer.push([fe(9), fe(8), fe(7)]);
    let mut s1 = [fe(1), fe(2), fe(3)];
    let mut s2 = s1;
    permute::<OrchardNullifier, 3, 2>(&mut s1, &mds, &rcs);
    permute::<OrchardNullifier, 3, 2>(&mut s2, &mds, &longer);
    assert_eq!(s1, s2);
}

#[test]
fn permute_without_sbox_is_linear() {
    let (rcs, mds, _) = LinearSpec::constants();
    let a = [fe(1), fe(20), fe(300)];
    let b = [from_fp(-Fp::ONE), fe(5), fe(1 << 90)];
    let mut sum = [a[0].add(&b[0]), a[1].add(&b[1]), a[2].add(&b[2])];
    let mut pa = a;
    let mut pb = b;
    permute::<LinearSpec, 3, 2>(&mut pa, &mds, &rcs);
    permute::<LinearSpec, 3, 2>(&mut pb, &mds, &rcs);
    permute::<LinearSpec, 3, 2>(&mut sum, &mds, &rcs);
    assert_eq!(sum, [pa[0].add(&pb[0]), pa[1].add(&pb[1]), pa[2].add(&pb[2])]);
    assert_ne!(pa, a);
}
