//! The Poseidon permutation.

use vstd::prelude::*;

use crate::field::{field_add, field_mul, modulus, FieldElement};
use crate::model::{
    dot, full_round, half_full_rounds, is_full_round, mds_mul, partial_round, permutation,
    permutation_runs, round_count, rounds, rows_values, values,
};
use crate::params::Spec;

verus! {

/// Adding the next term to a running sum kept reduced modulo `p` keeps it equal to
/// the reduced sum.
proof fn lemma_dot_step(row: Seq<nat>, s: Seq<nat>, j: nat)
    ensures
        field_add(dot(row, s, j) % modulus(), field_mul(row[j as int], s[j as int]))
            == dot(row, s, j + 1) % modulus(),
{
    vstd::arithmetic::div_mod::lemma_add_mod_noop(
        dot(row, s, j) as int,
        (row[j as int] * s[j as int]) as int,
        modulus() as int,
    );
    vstd::arithmetic::div_mod::lemma_mod_twice(
        (row[j as int] * s[j as int]) as int,
        modulus() as int,
    );
    vstd::arithmetic::div_mod::lemma_mod_twice(dot(row, s, j) as int, modulus() as int);
}

/// The row `mds[i]` times the state, in the field.
fn row_times_state<const T: usize>(row: &[FieldElement; T], state: &[FieldElement; T]) -> (r:
    FieldElement)
    ensures
        r@ == dot(values(row@), values(state@), T as nat) % modulus(),
{
    let mut acc = FieldElement::zero();
    assert(dot(values(row@), values(state@), 0) == 0);
    assert(0nat % modulus() == 0) by (nonlinear_arith);
    let mut j: usize = 0;
    while j < T
        invariant
            j <= T,
            acc@ == dot(values(row@), values(state@), j as nat) % modulus(),
        decreases T - j,
    {
        let term = row[j].mul(&state[j]);
        proof {
            lemma_dot_step(values(row@), values(state@), j as nat);
        }
        acc = acc.add(&term);
        j = j + 1;
    }
    acc
}

/// Replaces the state by the MDS matrix times the state.
fn apply_mds<const T: usize>(state: &mut [FieldElement; T], mds: &[[FieldElement; T]; T])
    ensures
        values(final(state)@) == mds_mul(rows_values(mds@), values(old(state)@)),
{
    let zero = FieldElement::zero();
    let mut new_state = [zero; T];
    let mut i: usize = 0;
    while i < T
        invariant
            i <= T,
            forall|k: int|
                0 <= k < i ==> #[trigger] new_state@[k]@ == dot(
                    values(mds@[k]@),
                    values(state@),
                    T as nat,
                ) % modulus(),
        decreases T - i,
    {
        new_state[i] = row_times_state(&mds[i], state);
        i = i + 1;
    }
    let ghost old_state = *state;
    *state = new_state;
    assert(values(state@) =~= mds_mul(rows_values(mds@), values(old_state@)));
}

/// A full round: `state[i] = sbox(state[i] + rcs[i])` for every word, then the MDS matrix.
fn full_round_in_place<S: Spec<T, R>, const T: usize, const R: usize>(
    state: &mut [FieldElement; T],
    rcs: &[FieldElement; T],
    mds: &[[FieldElement; T]; T],
)
    ensures
        values(final(state)@) == full_round::<S, T, R>(
            values(old(state)@),
            values(rcs@),
            rows_values(mds@),
        ),
{
    let ghost before = *state;
    let mut i: usize = 0;
    while i < T
        invariant
            i <= T,
            forall|k: int|
                0 <= k < i ==> #[trigger] state@[k]@ == S::spec_sbox(
                    field_add(before@[k]@, rcs@[k]@),
                ),
            forall|k: int| i <= k < T ==> #[trigger] state@[k] == before@[k],
        decreases T - i,
    {
        let word = state[i].add(&rcs[i]);
        state[i] = S::sbox(word);
        i = i + 1;
    }
    let ghost boxed = *state;
    assert(values(boxed@) =~= Seq::new(
        values(before@).len(),
        |k: int| S::spec_sbox(field_add(values(before@)[k], values(rcs@)[k])),
    ));
    apply_mds(state, mds);
}

/// A partial round: round constants on every word, the S-box on the first word only,
/// then the MDS matrix.
fn partial_round_in_place<S: Spec<T, R>, const T: usize, const R: usize>(
    state: &mut [FieldElement; T],
    rcs: &[FieldElement; T],
    mds: &[[FieldElement; T]; T],
)
    requires
        T > 0,
    ensures
        values(final(state)@) == partial_round::<S, T, R>(
            values(old(state)@),
            values(rcs@),
            rows_values(mds@),
        ),
{
    let ghost before = *state;
    let mut i: usize = 0;
    while i < T
        invariant
            i <= T,
            forall|k: int|
                0 <= k < i ==> #[trigger] state@[k]@ == field_add(before@[k]@, rcs@[k]@),
            forall|k: int| i <= k < T ==> #[trigger] state@[k] == before@[k],
        decreases T - i,
    {
        state[i] = state[i].add(&rcs[i]);
        i = i + 1;
    }
    state[0] = S::sbox(state[0]);
    let ghost boxed = *state;
    let ghost t = crate::model::add_round_constants(values(before@), values(rcs@));
    assert(values(boxed@) =~= t.update(0, S::spec_sbox(t[0])));
    apply_mds(state, mds);
}

/// `min(2 r_f + r_p, n)`, computed without overflow.
fn rounds_to_run(r_f: usize, r_p: usize, n: usize) -> (r: usize)
    ensures
        r == round_count(r_f as nat, r_p as nat, n as nat),
{
    if n <= r_f {
        n
    } else if n - r_f <= r_p {
        n
    } else if n - r_f - r_p <= r_f {
        n
    } else {
        r_f + r_p + r_f
    }
}

/// Runs the Poseidon permutation on the given state.
pub fn permute<S: Spec<T, RATE>, const T: usize, const RATE: usize>(
    state: &mut [FieldElement; T],
    mds: &[[FieldElement; T]; T],
    round_constants: &[[FieldElement; T]],
)
    requires
        permutation_runs::<S, T, RATE>(round_constants@.len()),
    ensures
        values(final(state)@) == permutation::<S, T, RATE>(
            values(old(state)@),
            rows_values(mds@),
            rows_values(round_constants@),
        ),
{
    let r_f = S::full_rounds() / 2;
    let r_p = S::partial_rounds();
    let n = rounds_to_run(r_f, r_p, round_constants.len());
    let ghost s0 = values(state@);
    let ghost m = rows_values(mds@);
    let ghost rcs = rows_values(round_constants@);
    assert(r_f == half_full_rounds::<S, T, RATE>());
    let mut i: usize = 0;
    while i < n
        invariant
            i <= n,
            n == round_count(r_f as nat, r_p as nat, round_constants@.len() as nat),
            r_f == half_full_rounds::<S, T, RATE>(),
            r_p == S::spec_partial_rounds(),
            m == rows_values(mds@),
            rcs == rows_values(round_constants@),
            permutation_runs::<S, T, RATE>(round_constants@.len()),
            values(state@) == rounds::<S, T, RATE>(s0, m, rcs, r_f as nat, r_p as nat, i as nat),
        decreases n - i,
    {
        if i < r_f || i - r_f >= r_p {
            assert(is_full_round(i as nat, r_f as nat, r_p as nat));
            full_round_in_place::<S, T, RATE>(state, &round_constants[i], mds);
        } else {
            assert(!is_full_round(i as nat, r_f as nat, r_p as nat));
            partial_round_in_place::<S, T, RATE>(state, &round_constants[i], mds);
        }
        i = i + 1;
    }
}

} // verus!
