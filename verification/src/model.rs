//! The mathematical model: the Poseidon permutation and sponge over the integers
//! in `[0, p)` that field elements stand for.

use vstd::prelude::*;

use crate::field::{field_add, modulus, FieldElement};
use crate::params::{padding_len, two_pow_64, Spec};

verus! {

/// The integers that a sequence of field elements stands for.
pub open spec fn values(s: Seq<FieldElement>) -> Seq<nat> {
    s.map_values(|x: FieldElement| x@)
}

/// The integers that a matrix (or a list of rows) of field elements stands for.
pub open spec fn rows_values<const T: usize>(rows: Seq<[FieldElement; T]>) -> Seq<Seq<nat>> {
    rows.map_values(|row: [FieldElement; T]| values(row@))
}

/// `sum_{j < n} row[j] * s[j]`.
pub open spec fn dot(row: Seq<nat>, s: Seq<nat>, n: nat) -> nat
    decreases n,
{
    if n == 0 {
        0
    } else {
        dot(row, s, (n - 1) as nat) + row[n - 1] * s[n - 1]
    }
}

/// The product of the MDS matrix and the state, in the field.
pub open spec fn mds_mul(mds: Seq<Seq<nat>>, s: Seq<nat>) -> Seq<nat> {
    Seq::new(s.len(), |i: int| dot(mds[i], s, s.len()) % modulus())
}

/// The state with a row of round constants added word by word.
pub open spec fn add_round_constants(s: Seq<nat>, rc: Seq<nat>) -> Seq<nat> {
    Seq::new(s.len(), |i: int| field_add(s[i], rc[i]))
}

/// A full round: round constants, the S-box on every word, then the MDS matrix.
pub open spec fn full_round<S: Spec<T, R>, const T: usize, const R: usize>(
    s: Seq<nat>,
    rc: Seq<nat>,
    mds: Seq<Seq<nat>>,
) -> Seq<nat> {
    mds_mul(mds, Seq::new(s.len(), |i: int| S::spec_sbox(field_add(s[i], rc[i]))))
}

/// A partial round: round constants, the S-box on the first word only, then the MDS matrix.
pub open spec fn partial_round<S: Spec<T, R>, const T: usize, const R: usize>(
    s: Seq<nat>,
    rc: Seq<nat>,
    mds: Seq<Seq<nat>>,
) -> Seq<nat> {
    let t = add_round_constants(s, rc);
    mds_mul(mds, t.update(0, S::spec_sbox(t[0])))
}

/// Round `i` is full when it is among the first `r_f` or after the `r_p` partial ones.
pub open spec fn is_full_round(i: nat, r_f: nat, r_p: nat) -> bool {
    i < r_f || i >= r_f + r_p
}

/// The number of rounds run: `2 r_f + r_p`, or fewer when the round constants run out.
pub open spec fn round_count(r_f: nat, r_p: nat, n_constants: nat) -> nat {
    if 2 * r_f + r_p <= n_constants {
        2 * r_f + r_p
    } else {
        n_constants
    }
}

/// The state after the first `k` rounds, round `i` using the `i`-th row of constants.
pub open spec fn rounds<S: Spec<T, R>, const T: usize, const R: usize>(
    s: Seq<nat>,
    mds: Seq<Seq<nat>>,
    rcs: Seq<Seq<nat>>,
    r_f: nat,
    r_p: nat,
    k: nat,
) -> Seq<nat>
    decreases k,
{
    if k == 0 {
        s
    } else {
        let prev = rounds::<S, T, R>(s, mds, rcs, r_f, r_p, (k - 1) as nat);
        if is_full_round((k - 1) as nat, r_f, r_p) {
            full_round::<S, T, R>(prev, rcs[k - 1], mds)
        } else {
            partial_round::<S, T, R>(prev, rcs[k - 1], mds)
        }
    }
}

/// Half the number of full rounds of `S`: the full rounds on each side of the partial ones.
pub open spec fn half_full_rounds<S: Spec<T, R>, const T: usize, const R: usize>() -> nat {
    (S::spec_full_rounds() / 2) as nat
}

/// The Poseidon permutation of `S` with the given MDS matrix and round constants.
pub open spec fn permutation<S: Spec<T, R>, const T: usize, const R: usize>(
    s: Seq<nat>,
    mds: Seq<Seq<nat>>,
    rcs: Seq<Seq<nat>>,
) -> Seq<nat> {
    let r_f = half_full_rounds::<S, T, R>();
    let r_p = S::spec_partial_rounds() as nat;
    rounds::<S, T, R>(s, mds, rcs, r_f, r_p, round_count(r_f, r_p, rcs.len()))
}

/// The permutation can run: a partial round reads the first word, so a state of
/// width 0 admits no partial round.
pub open spec fn permutation_runs<S: Spec<T, R>, const T: usize, const R: usize>(
    n_constants: nat,
) -> bool {
    T > 0 || S::spec_partial_rounds() == 0 || n_constants <= half_full_rounds::<S, T, R>()
}

/// The integers that the entries of a rate buffer stand for.
pub open spec fn option_values(buf: Seq<Option<FieldElement>>) -> Seq<Option<nat>> {
    buf.map_values(
        |o: Option<FieldElement>|
            match o {
                Some(x) => Some(x@),
                None => None,
            },
    )
}

/// Some entry of the buffer is empty.
pub open spec fn has_none<A>(buf: Seq<Option<A>>) -> bool {
    exists|k: int| 0 <= k < buf.len() && buf[k] is None
}

/// `k` is the first empty entry of the buffer.
pub open spec fn is_first_none<A>(buf: Seq<Option<A>>, k: int) -> bool {
    &&& 0 <= k < buf.len()
    &&& buf[k] is None
    &&& forall|j: int| 0 <= j < k ==> buf[j] is Some
}

/// The first empty entry of the buffer (meaningful when [`has_none`] holds).
pub open spec fn first_none<A>(buf: Seq<Option<A>>) -> int {
    choose|k: int| is_first_none(buf, k)
}

/// Some entry of the buffer is full.
pub open spec fn has_some<A>(buf: Seq<Option<A>>) -> bool {
    exists|k: int| 0 <= k < buf.len() && buf[k] is Some
}

/// `k` is the first full entry of the buffer.
pub open spec fn is_first_some<A>(buf: Seq<Option<A>>, k: int) -> bool {
    &&& 0 <= k < buf.len()
    &&& buf[k] is Some
    &&& forall|j: int| 0 <= j < k ==> buf[j] is None
}

/// The first full entry of the buffer (meaningful when [`has_some`] holds).
pub open spec fn first_some<A>(buf: Seq<Option<A>>) -> int {
    choose|k: int| is_first_some(buf, k)
}

/// The contents of a buffer whose entries are all full.
pub open spec fn unwrap_all(buf: Seq<Option<nat>>) -> Seq<nat> {
    buf.map_values(|o: Option<nat>| o.unwrap())
}

/// The state with `input` added to its first words (as many as both have).
pub open spec fn absorb_into(state: Seq<nat>, input: Seq<nat>) -> Seq<nat> {
    Seq::new(
        state.len(),
        |i: int|
            if i < input.len() {
                field_add(state[i], input[i])
            } else {
                state[i]
            },
    )
}

/// A buffer of `rate` entries holding `xs` in its first entries, the rest empty.
pub open spec fn rate_buffer(xs: Seq<nat>, rate: nat) -> Seq<Option<nat>> {
    Seq::new(rate, |i: int| if i < xs.len() { Some(xs[i]) } else { None })
}

/// The output buffer of a permutation: the first `rate` words of the state.
pub open spec fn output_buffer(state: Seq<nat>, rate: nat) -> Seq<Option<nat>> {
    Seq::new(rate, |i: int| if i < state.len() { Some(state[i]) } else { None })
}

/// The state `width` words wide, zero but for the capacity element at index `rate`.
pub open spec fn initial_state(width: nat, rate: nat, capacity: nat) -> Seq<nat> {
    Seq::new(width, |i: int| if i == rate { capacity } else { 0 })
}

/// A sponge as the model sees it: the permutation state and the rate buffer.
pub type SpongeModel = (Seq<nat>, Seq<Option<nat>>);

/// Absorbing `v`: it fills the first empty entry of the buffer; when there is none,
/// the buffered words are added into the state, the state is permuted, and `v`
/// starts a new buffer.
pub open spec fn absorb_step<S: Spec<T, R>, const T: usize, const R: usize>(
    st: SpongeModel,
    v: nat,
    mds: Seq<Seq<nat>>,
    rcs: Seq<Seq<nat>>,
) -> SpongeModel {
    if has_none(st.1) {
        (st.0, st.1.update(first_none(st.1), Some(v)))
    } else {
        (
            permutation::<S, T, R>(absorb_into(st.0, unwrap_all(st.1)), mds, rcs),
            rate_buffer(seq![v], R as nat),
        )
    }
}

/// Absorbing every element of `input` in turn.
pub open spec fn absorb_all<S: Spec<T, R>, const T: usize, const R: usize>(
    st: SpongeModel,
    input: Seq<nat>,
    mds: Seq<Seq<nat>>,
    rcs: Seq<Seq<nat>>,
) -> SpongeModel
    decreases input.len(),
{
    if input.len() == 0 {
        st
    } else {
        absorb_step::<S, T, R>(
            absorb_all::<S, T, R>(st, input.drop_last(), mds, rcs),
            input.last(),
            mds,
            rcs,
        )
    }
}

/// The state once absorbing ends: the buffered words added in and the state permuted.
pub open spec fn finish<S: Spec<T, R>, const T: usize, const R: usize>(
    st: SpongeModel,
    mds: Seq<Seq<nat>>,
    rcs: Seq<Seq<nat>>,
) -> Seq<nat> {
    permutation::<S, T, R>(absorb_into(st.0, unwrap_all(st.1)), mds, rcs)
}

/// Squeezing: the first full entry of the buffer is taken out; when there is none,
/// the state is permuted, its first `R` words fill the buffer, and the first is taken.
pub open spec fn squeeze_step<S: Spec<T, R>, const T: usize, const R: usize>(
    st: SpongeModel,
    mds: Seq<Seq<nat>>,
    rcs: Seq<Seq<nat>>,
) -> (nat, SpongeModel) {
    if has_some(st.1) {
        let k = first_some(st.1);
        (st.1[k].unwrap(), (st.0, st.1.update(k, None)))
    } else {
        let s = permutation::<S, T, R>(st.0, mds, rcs);
        (s[0], (s, output_buffer(s, R as nat).update(0, None)))
    }
}

/// The sponge over `input` taken `R` words at a time: each chunk is added into the
/// state and the state permuted.
pub open spec fn absorb_chunks<S: Spec<T, R>, const T: usize, const R: usize>(
    state: Seq<nat>,
    input: Seq<nat>,
    mds: Seq<Seq<nat>>,
    rcs: Seq<Seq<nat>>,
) -> Seq<nat>
    decreases input.len(),
{
    if input.len() == 0 || R == 0 {
        state
    } else if input.len() <= R {
        permutation::<S, T, R>(absorb_into(state, input), mds, rcs)
    } else {
        absorb_chunks::<S, T, R>(
            permutation::<S, T, R>(absorb_into(state, input.take(R as int)), mds, rcs),
            input.skip(R as int),
            mds,
            rcs,
        )
    }
}

/// The Poseidon hash of a message of constant length `L`: the message padded with
/// zeros to a multiple of `R`, absorbed into the state that holds `L * 2^64` as its
/// capacity element, and the first word of the final state.
pub open spec fn constant_length_hash<S: Spec<T, R>, const T: usize, const R: usize, const L: usize>(
    message: Seq<nat>,
) -> nat {
    let constants = S::spec_constants();
    let input = message + Seq::new(padding_len(L as nat, R as nat), |i: int| 0nat);
    absorb_chunks::<S, T, R>(
        initial_state(T as nat, R as nat, L as nat * two_pow_64()),
        input,
        rows_values(constants.1@),
        rows_values(constants.0@),
    )[0]
}

} // verus!
