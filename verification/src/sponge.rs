//! The Poseidon sponge and the constant-length hash built on it.

use core::marker::PhantomData;

use vstd::prelude::*;

use crate::field::FieldElement;
use crate::model::{
    absorb_all, absorb_into, absorb_step, constant_length_hash, finish,
    first_none, first_some, has_none, has_some, initial_state, is_first_none, is_first_some,
    option_values, output_buffer, permutation, rate_buffer, rows_values, squeeze_step, unwrap_all,
    values, SpongeModel,
};
use crate::params::{ConstantLength, Domain, Spec};

verus! {

/// The state of the `Sponge`.
pub trait SpongeMode {}

/// The absorbing state of the `Sponge`.
#[derive(Debug)]
pub struct Absorbing<F, const R: usize>(pub(crate) Vec<Option<F>>);

/// The squeezing state of the `Sponge`.
#[derive(Debug)]
pub struct Squeezing<F, const R: usize>(pub(crate) Vec<Option<F>>);

impl<F, const R: usize> SpongeMode for Absorbing<F, R> {}

impl<F, const R: usize> SpongeMode for Squeezing<F, R> {}

impl<F, const R: usize> View for Absorbing<F, R> {
    type V = Seq<Option<F>>;

    closed spec fn view(&self) -> Seq<Option<F>> {
        self.0@
    }
}

impl<F, const R: usize> View for Squeezing<F, R> {
    type V = Seq<Option<F>>;

    closed spec fn view(&self) -> Seq<Option<F>> {
        self.0@
    }
}

impl<F, const R: usize> Absorbing<F, R> {
    /// A rate buffer whose first entry holds `val` and whose other entries are empty
    /// (there must be at least one entry).
    pub fn init_with(val: F) -> (r: Self)
        requires
            R > 0,
        ensures
            r@ == Seq::new(R as nat, |i: int| if i == 0 { Some(val) } else { None::<F> }),
    {
        let mut entries: Vec<Option<F>> = Vec::new();
        entries.push(Some(val));
        let mut i: usize = 1;
        while i < R
            invariant
                1 <= i <= R,
                entries@.len() == i,
                entries@[0] == Some(val),
                forall|j: int| 1 <= j < i ==> #[trigger] entries@[j] is None,
            decreases R - i,
        {
            entries.push(None);
            i = i + 1;
        }
        let r = Absorbing(entries);
        assert(r@ =~= Seq::new(R as nat, |i: int| if i == 0 { Some(val) } else { None::<F> }));
        r
    }
}

/// A Poseidon sponge.
pub(crate) struct Sponge<S: Spec<T, RATE>, M: SpongeMode, const T: usize, const RATE: usize> {
    pub(crate) mode: M,
    pub(crate) state: [FieldElement; T],
    pub(crate) mds_matrix: [[FieldElement; T]; T],
    pub(crate) round_constants: Vec<[FieldElement; T]>,
    pub(crate) _marker: PhantomData<S>,
}

impl<S: Spec<T, RATE>, M: SpongeMode, const T: usize, const RATE: usize> Sponge<S, M, T, RATE> {
    /// The MDS matrix, as integers.
    pub(crate) open spec fn mds_values(&self) -> Seq<Seq<nat>> {
        rows_values(self.mds_matrix@)
    }

    /// The round constants, as integers.
    pub(crate) open spec fn rc_values(&self) -> Seq<Seq<nat>> {
        rows_values(self.round_constants@)
    }

    /// The sponge holds the constants that `S` specifies.
    pub(crate) open spec fn holds_constants_of_spec(&self) -> bool {
        &&& self.round_constants == S::spec_constants().0
        &&& self.mds_matrix == S::spec_constants().1
    }
}

impl<S: Spec<T, RATE>, const T: usize, const RATE: usize> Sponge<
    S,
    Absorbing<FieldElement, RATE>,
    T,
    RATE,
> {
    /// The state and the rate buffer, as integers.
    pub(crate) open spec fn model(&self) -> SpongeModel {
        (values(self.state@), option_values(self.mode@))
    }

    /// Constructs a new sponge for the given Poseidon specification.
    pub(crate) fn new(initial_capacity_element: FieldElement) -> (r: Self)
        requires
            RATE < T,
        ensures
            r.model() == (
                initial_state(T as nat, RATE as nat, initial_capacity_element@),
                rate_buffer(seq![], RATE as nat),
            ),
            r.mode@.len() == RATE,
            r.holds_constants_of_spec(),
    {
        let (round_constants, mds_matrix, _) = S::constants();

        let mut entries: Vec<Option<FieldElement>> = Vec::new();
        let mut i: usize = 0;
        while i < RATE
            invariant
                i <= RATE,
                entries@.len() == i,
                forall|j: int| 0 <= j < i ==> #[trigger] entries@[j] is None,
            decreases RATE - i,
        {
            entries.push(None);
            i = i + 1;
        }
        let mode = Absorbing(entries);
        let zero = FieldElement::zero();
        let mut state = [zero; T];
        state[RATE] = initial_capacity_element;

        let r = Sponge { mode, state, mds_matrix, round_constants, _marker: PhantomData };
        assert(values(r.state@) =~= initial_state(
            T as nat,
            RATE as nat,
            initial_capacity_element@,
        ));
        assert(option_values(r.mode@) =~= rate_buffer(seq![], RATE as nat));
        r
    }

    /// Absorbs an element into the sponge.
    pub(crate) fn absorb(&mut self, value: FieldElement)
        requires
            0 < RATE < T,
            old(self).mode@.len() == RATE,
        ensures
            final(self).model() == absorb_step::<S, T, RATE>(
                old(self).model(),
                value@,
                old(self).mds_values(),
                old(self).rc_values(),
            ),
            final(self).mode@.len() == RATE,
            final(self).mds_matrix == old(self).mds_matrix,
            final(self).round_constants == old(self).round_constants,
    {
        let ghost buf = option_values(self.mode@);
        let mut i: usize = 0;
        while i < RATE
            invariant
                i <= RATE,
                self.mode@.len() == RATE,
                self.mode == old(self).mode,
                self.state == old(self).state,
                self.mds_matrix == old(self).mds_matrix,
                self.round_constants == old(self).round_constants,
                buf == option_values(self.mode@),
                forall|j: int| 0 <= j < i ==> #[trigger] self.mode@[j] is Some,
            decreases RATE - i,
        {
            if self.mode.0[i].is_none() {
                self.mode.0.set(i, Some(value));
                proof {
                    assert(is_first_none(buf, i as int));
                    assert(has_none(buf));
                    assert(first_none(buf) == i as int);
                    assert(option_values(self.mode@) =~= buf.update(i as int, Some(value@)));
                }
                return;
            }
            i = i + 1;
        }
        assert(!has_none(buf));

        // We've already absorbed as many elements as we can
        let _ = poseidon_sponge::<S, T, RATE>(
            &mut self.state,
            Some(&self.mode),
            &self.mds_matrix,
            &self.round_constants,
        );
        self.mode = Absorbing::init_with(value);
        assert(option_values(self.mode@) =~= rate_buffer(seq![value@], RATE as nat));
    }

    /// Transitions the sponge into its squeezing state.
    pub(crate) fn finish_absorbing(self) -> (r: Sponge<S, Squeezing<FieldElement, RATE>, T, RATE>)
        requires
            RATE < T,
            self.mode@.len() == RATE,
            !has_none(self.mode@),
        ensures
            values(r.state@) == finish::<S, T, RATE>(
                self.model(),
                self.mds_values(),
                self.rc_values(),
            ),
            option_values(r.mode@) == output_buffer(values(r.state@), RATE as nat),
            r.mds_matrix == self.mds_matrix,
            r.round_constants == self.round_constants,
    {
        let mut sponge = self;
        let mode = poseidon_sponge::<S, T, RATE>(
            &mut sponge.state,
            Some(&sponge.mode),
            &sponge.mds_matrix,
            &sponge.round_constants,
        );

        Sponge {
            mode,
            state: sponge.state,
            mds_matrix: sponge.mds_matrix,
            round_constants: sponge.round_constants,
            _marker: PhantomData,
        }
    }
}

/// Adds the (padded) input into the state, if there is one, permutes the state, and
/// returns the first `RATE` words of the new state as the output buffer.
fn poseidon_sponge<S: Spec<T, RATE>, const T: usize, const RATE: usize>(
    state: &mut [FieldElement; T],
    input: Option<&Absorbing<FieldElement, RATE>>,
    mds_matrix: &[[FieldElement; T]; T],
    round_constants: &[[FieldElement; T]],
) -> (r: Squeezing<FieldElement, RATE>)
    requires
        RATE < T,
        input matches Some(a) ==> a@.len() == RATE && !has_none(a@),
    ensures
        values(final(state)@) == permutation::<S, T, RATE>(
            match input {
                Some(a) => absorb_into(values(old(state)@), unwrap_all(option_values(a@))),
                None => values(old(state)@),
            },
            rows_values(mds_matrix@),
            rows_values(round_constants@),
        ),
        option_values(r@) == output_buffer(values(final(state)@), RATE as nat),
{
    if let Some(Absorbing(input)) = input {
        let ghost before = *state;
        let ghost words = unwrap_all(option_values(input@));
        // Only the first `RATE` words (the rate portion) of the state take input;
        // the capacity words are left as they are.
        let mut i: usize = 0;
        while i < RATE
            invariant
                i <= RATE < T,
                input@.len() == RATE,
                !has_none(input@),
                words == unwrap_all(option_values(input@)),
                forall|k: int|
                    0 <= k < i ==> #[trigger] state@[k]@ == crate::field::field_add(
                        before@[k]@,
                        words[k],
                    ),
                forall|k: int| i <= k < T ==> #[trigger] state@[k] == before@[k],
            decreases RATE - i,
        {
            assert(input@[i as int] is Some);
            let value = input[i].unwrap();
            state[i] = state[i].add(&value);
            i = i + 1;
        }
        assert(values(state@) =~= absorb_into(values(before@), words));
    }

    crate::permutation::permute::<S, T, RATE>(state, mds_matrix, round_constants);

    let mut output: Vec<Option<FieldElement>> = Vec::new();
    let mut j: usize = 0;
    while j < RATE
        invariant
            j <= RATE < T,
            output@.len() == j,
            forall|k: int| 0 <= k < j ==> #[trigger] output@[k] == Some(state@[k]),
        decreases RATE - j,
    {
        output.push(Some(state[j]));
        j = j + 1;
    }
    let r = Squeezing(output);
    assert(option_values(r@) =~= output_buffer(values(state@), RATE as nat));
    r
}

impl<S: Spec<T, RATE>, const T: usize, const RATE: usize> Sponge<
    S,
    Squeezing<FieldElement, RATE>,
    T,
    RATE,
> {
    /// The state and the output buffer, as integers.
    pub(crate) open spec fn output_model(&self) -> SpongeModel {
        (values(self.state@), option_values(self.mode@))
    }

    /// Squeezes an element from the sponge.
    pub(crate) fn squeeze(&mut self) -> (r: FieldElement)
        requires
            0 < RATE < T,
            old(self).mode@.len() == RATE,
        ensures
            (r@, final(self).output_model()) == squeeze_step::<S, T, RATE>(
                old(self).output_model(),
                old(self).mds_values(),
                old(self).rc_values(),
            ),
            final(self).mode@.len() == RATE,
            final(self).mds_matrix == old(self).mds_matrix,
            final(self).round_constants == old(self).round_constants,
    {
        let ghost buf = option_values(self.mode@);
        let mut i: usize = 0;
        while i < RATE
            invariant
                i <= RATE,
                self.mode@.len() == RATE,
                self.mode == old(self).mode,
                self.state == old(self).state,
                self.mds_matrix == old(self).mds_matrix,
                self.round_constants == old(self).round_constants,
                buf == option_values(self.mode@),
                forall|j: int| 0 <= j < i ==> #[trigger] self.mode@[j] is None,
            decreases RATE - i,
        {
            if let Some(e) = self.mode.0[i] {
                self.mode.0.set(i, None);
                proof {
                    assert(is_first_some(buf, i as int));
                    assert(has_some(buf));
                    assert(first_some(buf) == i as int);
                    assert(option_values(self.mode@) =~= buf.update(i as int, None));
                }
                return e;
            }
            i = i + 1;
        }
        assert(!has_some(buf));

        // We've already squeezed out all available elements
        self.mode = poseidon_sponge::<S, T, RATE>(
            &mut self.state,
            None,
            &self.mds_matrix,
            &self.round_constants,
        );
        assert(option_values(self.mode@).len() == self.mode@.len());
        assert(option_values(self.mode@)[0] is Some);
        let e = self.mode.0[0].unwrap();
        self.mode.0.set(0, None);
        assert(option_values(self.mode@) =~= output_buffer(values(self.state@), RATE as nat).update(
            0,
            None,
        ));
        e
    }
}

/// A Poseidon hash function, built around a sponge.
pub struct HashTest<S: Spec<T, RATE>, D: Domain<RATE>, const T: usize, const RATE: usize> {
    sponge: Sponge<S, Absorbing<FieldElement, RATE>, T, RATE>,
    _domain: PhantomData<D>,
}

impl<S: Spec<T, RATE>, D: Domain<RATE>, const T: usize, const RATE: usize> HashTest<
    S,
    D,
    T,
    RATE,
> {
    /// A hasher is always fresh: nothing absorbed yet, the capacity element of `D` in
    /// place, and the constants of `S` loaded.
    #[verifier::type_invariant]
    spec fn fresh(self) -> bool {
        &&& RATE < T
        &&& self.sponge.mode@.len() == RATE
        &&& self.sponge.model() == (
            initial_state(T as nat, RATE as nat, D::spec_initial_capacity_element()),
            rate_buffer(seq![], RATE as nat),
        )
        &&& self.sponge.holds_constants_of_spec()
    }

    /// The permutation state and the rate buffer of the sponge, as integers.
    pub closed spec fn sponge_model(self) -> SpongeModel {
        self.sponge.model()
    }

    /// The round constants and the MDS matrix the sponge runs with.
    pub closed spec fn constants(self) -> (Vec<[FieldElement; T]>, [[FieldElement; T]; T]) {
        (self.sponge.round_constants, self.sponge.mds_matrix)
    }

    /// Initializes a new hasher.
    ///
    /// The capacity element goes in at index `RATE`, so the width `T` must exceed the rate.
    pub fn init() -> (r: Self)
        requires
            RATE < T,
        ensures
            r.sponge_model() == (
                initial_state(T as nat, RATE as nat, D::spec_initial_capacity_element()),
                rate_buffer(seq![], RATE as nat),
            ),
            r.constants() == (S::spec_constants().0, S::spec_constants().1),
    {
        let sponge = Sponge::new(D::initial_capacity_element());
        HashTest { sponge, _domain: PhantomData }
    }
}

impl<S: Spec<T, RATE>, const T: usize, const RATE: usize, const L: usize> HashTest<
    S,
    ConstantLength<L>,
    T,
    RATE,
> {
    /// Hashes the given input.
    ///
    /// The padding divides by the rate and adds it to the length, and an empty message
    /// leaves nothing to absorb before the final permutation: hence a non-empty
    /// message, a non-zero rate, and `L + RATE` within `usize`.
    pub fn hash(self, message: [FieldElement; L]) -> (r: FieldElement)
        requires
            L > 0,
            RATE > 0,
            L + RATE <= usize::MAX,
        ensures
            r@ == constant_length_hash::<S, T, RATE, L>(values(message@)),
    {
        proof {
            use_type_invariant(&self);
        }
        let mut sponge = self.sponge;
        let padding = <ConstantLength<L> as Domain<RATE>>::padding(L);
        let ghost init = sponge.model();
        let ghost mds = sponge.mds_values();
        let ghost rcs = sponge.rc_values();
        let ghost input = values(message@) + values(padding@);

        let mut i: usize = 0;
        while i < L
            invariant
                0 < RATE < T,
                i <= L,
                sponge.mode@.len() == RATE,
                sponge.mds_values() == mds,
                sponge.rc_values() == rcs,
                input == values(message@) + values(padding@),
                sponge.model() == absorb_all::<S, T, RATE>(init, input.take(i as int), mds, rcs),
            decreases L - i,
        {
            assert(input.take(i + 1).drop_last() =~= input.take(i as int));
            sponge.absorb(message[i]);
            i = i + 1;
        }
        let mut j: usize = 0;
        while j < padding.len()
            invariant
                0 < RATE < T,
                j <= padding@.len(),
                sponge.mode@.len() == RATE,
                sponge.mds_values() == mds,
                sponge.rc_values() == rcs,
                input == values(message@) + values(padding@),
                sponge.model() == absorb_all::<S, T, RATE>(
                    init,
                    input.take(L + j),
                    mds,
                    rcs,
                ),
            decreases padding@.len() - j,
        {
            assert(input.take(L + j + 1).drop_last() =~= input.take(L + j));
            sponge.absorb(padding[j]);
            j = j + 1;
        }
        proof {
            assert(input.take(input.len() as int) =~= input);
            crate::laws::lemma_padding_fills_chunks(L as nat, RATE as nat);
            crate::laws::lemma_absorb_then_finish::<S, T, RATE>(init.0, input, mds, rcs);
            let buf = sponge.mode@;
            if has_none(buf) {
                let k = choose|k: int| 0 <= k < buf.len() && buf[k] is None;
                assert(option_values(buf)[k] is None);
            }
        }
        let mut squeezing = sponge.finish_absorbing();
        proof {
            let out = option_values(squeezing.mode@);
            assert(crate::model::is_first_some(out, 0));
        }
        squeezing.squeeze()
    }
}

} // verus!
