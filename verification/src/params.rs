//! What a user of the library supplies: the parameters of a Poseidon instance
//! ([`Spec`]) and the domain it hashes in ([`Domain`]), with the one domain the
//! library provides, [`ConstantLength`].

use vstd::prelude::*;

use crate::field::FieldElement;
use crate::model::values;

verus! {

/// The parameters of a Poseidon permutation of width `T` whose sponge absorbs `R`
/// elements at a time.
///
/// An implementation names, with the four `spec_*` functions, what its executable
/// methods return; the permutation's contract is stated over these.
pub trait Spec<const T: usize, const R: usize> {
    /// What [`Spec::full_rounds`] returns.
    spec fn spec_full_rounds() -> usize;

    /// What [`Spec::partial_rounds`] returns.
    spec fn spec_partial_rounds() -> usize;

    /// The S-box on the integers that stand for field elements.
    spec fn spec_sbox(val: nat) -> nat;

    /// What [`Spec::constants`] returns.
    spec fn spec_constants() -> (Vec<[FieldElement; T]>, [[FieldElement; T]; T], [[FieldElement; T]; T]);

    /// The number of full rounds for this specification.
    ///
    /// This must be an even number.
    fn full_rounds() -> (r: usize)
        ensures
            r == Self::spec_full_rounds(),
    ;

    /// The number of partial rounds for this specification.
    fn partial_rounds() -> (r: usize)
        ensures
            r == Self::spec_partial_rounds(),
    ;

    /// The S-box for this specification.
    fn sbox(val: FieldElement) -> (r: FieldElement)
        ensures
            r@ == Self::spec_sbox(val@),
    ;

    /// Side-loaded index of the first correct and secure MDS that will be generated by
    /// the reference implementation.
    fn secure_mds() -> usize;

    /// Generates `(round_constants, mds, mds^-1)` corresponding to this specification.
    fn constants() -> (r: (Vec<[FieldElement; T]>, [[FieldElement; T]; T], [[FieldElement; T]; T]))
        ensures
            r == Self::spec_constants(),
    ;
}

/// The domain a sponge hashes in: how it is set up and how its input is padded.
///
/// An implementation names, with the `spec_*` functions and `padding_accepts`,
/// what its executable methods return and which input lengths it pads.
pub trait Domain<const R: usize> {
    /// What [`Domain::name`] returns.
    spec fn spec_name() -> Seq<char>;

    /// What [`Domain::initial_capacity_element`] stands for.
    spec fn spec_initial_capacity_element() -> nat;

    /// The input lengths that [`Domain::padding`] accepts.
    spec fn padding_accepts(input_len: nat) -> bool;

    /// What [`Domain::padding`] returns for an accepted input length.
    spec fn spec_padding(input_len: nat) -> Seq<nat>;

    /// The name of this domain, for debug formatting purposes.
    fn name() -> (r: String)
        ensures
            r@ == Self::spec_name(),
    ;

    /// The initial capacity element, encoding this domain.
    fn initial_capacity_element() -> (r: FieldElement)
        ensures
            r@ == Self::spec_initial_capacity_element(),
    ;

    /// Returns the padding to be appended to the input.
    fn padding(input_len: usize) -> (r: Vec<FieldElement>)
        requires
            Self::padding_accepts(input_len as nat),
        ensures
            values(r@) == Self::spec_padding(input_len as nat),
    ;
}

/// The decimal digit `d` as a character.
pub open spec fn decimal_digit(d: nat) -> char {
    (48 + d) as char
}

/// The decimal notation of `n`, without leading zeros, as `Display` writes it.
pub open spec fn decimal(n: nat) -> Seq<char>
    decreases n,
{
    if n < 10 {
        seq![decimal_digit(n)]
    } else {
        decimal(n / 10).push(decimal_digit(n % 10))
    }
}

/// `2^64`, the weight of the input length in the capacity element.
pub open spec fn two_pow_64() -> nat {
    0x1_0000_0000_0000_0000nat
}

/// How many zeros pad `len` inputs up to a multiple of `rate`.
pub open spec fn padding_len(len: nat, rate: nat) -> nat {
    (((len + rate - 1) / rate as int) * rate - len) as nat
}

/// A domain of inputs of the constant length `L`.
pub struct ConstantLength<const L: usize>;

/// `String::push` of std.
/// Trusted: appends the character to the string's contents.
#[verifier::external_body]
fn string_push(s: &mut String, c: char)
    ensures
        final(s)@ == old(s)@.push(c),
{
    s.push(c)
}

/// Appends the decimal notation of `n` to `s`.
fn push_decimal(s: &mut String, n: usize)
    ensures
        final(s)@ == old(s)@ + decimal(n as nat),
    decreases n,
{
    if n >= 10 {
        push_decimal(s, n / 10);
    }
    let d = (n % 10) as u8;
    let c = (48u8 + d) as char;
    assert(c == decimal_digit((n % 10) as nat));
    string_push(s, c);
    assert(final(s)@ =~= old(s)@ + decimal(n as nat));
}

impl<const R: usize, const L: usize> Domain<R> for ConstantLength<L> {
    open spec fn spec_name() -> Seq<char> {
        "ConstantLength<"@ + decimal(L as nat) + ">"@
    }

    open spec fn spec_initial_capacity_element() -> nat {
        L as nat * two_pow_64()
    }

    open spec fn padding_accepts(input_len: nat) -> bool {
        &&& input_len == L
        &&& R > 0
        &&& L + R <= usize::MAX
    }

    open spec fn spec_padding(input_len: nat) -> Seq<nat> {
        Seq::new(padding_len(L as nat, R as nat), |i: int| 0nat)
    }

    fn name() -> (r: String) {
        let mut s = String::from_str("ConstantLength<");
        push_decimal(&mut s, L);
        string_push(&mut s, '>');
        proof {
            reveal_strlit("ConstantLength<");
            reveal_strlit(">");
        }
        assert(s@ =~= "ConstantLength<"@ + decimal(L as nat) + ">"@);
        s
    }

    fn initial_capacity_element() -> (r: FieldElement) {
        // Capacity value is $length \cdot 2^64 + (o-1)$ where o is the output length.
        // We hard-code an output length of 1.
        let len: u128 = L as u128;
        assert(len < 0x1_0000_0000_0000_0000u128);
        assert((len << 64u128) == len * 0x1_0000_0000_0000_0000u128) by (bit_vector)
            requires
                len < 0x1_0000_0000_0000_0000u128,
        ;
        FieldElement::from_u128(len << 64u128)
    }

    fn padding(input_len: usize) -> (r: Vec<FieldElement>) {
        // For constant-input-length hashing, we pad the input with zeroes to a multiple
        // of R. On its own this would not be sponge-compliant padding, but the
        // Poseidon authors encode the constant length into the capacity element, ensuring
        // that inputs of different lengths do not share the same permutation.
        let k = (L + R - 1) / R;
        proof {
            vstd::arithmetic::div_mod::lemma_fundamental_div_mod((L + R - 1) as int, R as int);
            assert(k * R <= L + R - 1) by (nonlinear_arith)
                requires
                    k == (L + R - 1) / (R as int),
                    R > 0,
            ;
            assert(k * R >= L) by (nonlinear_arith)
                requires
                    k == (L + R - 1) / (R as int),
                    R > 0,
            ;
        }
        let count = k * R - L;
        let zero = FieldElement::zero();
        let mut pad: Vec<FieldElement> = Vec::new();
        let mut i: usize = 0;
        while i < count
            invariant
                i <= count,
                pad@.len() == i,
                zero@ == 0,
                forall|j: int| 0 <= j < i ==> #[trigger] pad@[j]@ == 0,
            decreases count - i,
        {
            pad.push(zero);
            i = i + 1;
        }
        assert(values(pad@) =~= Seq::new(padding_len(L as nat, R as nat), |i: int| 0nat));
        pad
    }
}

} // verus!
