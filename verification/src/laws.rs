//! Laws of the permutation and the sponge: which round constants the permutation
//! reads, its linearity without S-box and constants, how absorbing element by element
//! relates to the chunked sponge and keeps the buffer's filled entries a prefix, how the
//! constant-length padding fills the chunks, the order in which squeezing yields words,
//! the three phases of rounds, what the capacity element and the name of the
//! constant-length domain are, and what the hash of a message is.

use vstd::prelude::*;

use crate::field::{field_add, modulus};
use crate::model::{
    absorb_all, absorb_chunks, absorb_into, constant_length_hash, finish, first_none, first_some,
    has_none, has_some, initial_state, is_first_none, is_first_some, output_buffer, permutation,
    rate_buffer, squeeze_step, unwrap_all, absorb_step, dot, mds_mul, rounds, round_count,
    half_full_rounds, is_full_round, full_round, partial_round, add_round_constants,
    permutation_runs, SpongeModel,
};
use crate::params::{decimal, padding_len, two_pow_64, ConstantLength, Domain, Spec};

verus! {

/// Absorbing `a + b` chunk by chunk, where `a` is a whole number of chunks, is
/// absorbing `a` and then `b`.
proof fn lemma_absorb_chunks_append<S: Spec<T, R>, const T: usize, const R: usize>(
    s: Seq<nat>,
    a: Seq<nat>,
    b: Seq<nat>,
    m: nat,
    mds: Seq<Seq<nat>>,
    rcs: Seq<Seq<nat>>,
)
    requires
        R > 0,
        a.len() == m * R,
    ensures
        absorb_chunks::<S, T, R>(s, a + b, mds, rcs) == absorb_chunks::<S, T, R>(
            absorb_chunks::<S, T, R>(s, a, mds, rcs),
            b,
            mds,
            rcs,
        ),
    decreases m,
{
    if m == 0 {
        assert(a.len() == 0) by (nonlinear_arith)
            requires
                a.len() == m * R,
                m == 0,
        ;
        assert(a + b =~= b);
    } else {
        assert(a.len() >= R) by (nonlinear_arith)
            requires
                a.len() == m * R,
                m >= 1,
        ;
        let rest = a.skip(R as int);
        assert(rest.len() == (m - 1) as nat * R) by (nonlinear_arith)
            requires
                rest.len() == a.len() - R,
                a.len() == m * R,
                m >= 1,
        ;
        let x = permutation::<S, T, R>(absorb_into(s, a.take(R as int)), mds, rcs);
        lemma_absorb_chunks_append::<S, T, R>(x, rest, b, (m - 1) as nat, mds, rcs);
        if (a + b).len() <= R {
            assert(b.len() == 0);
            assert(a + b =~= a);
            assert(a.take(R as int) =~= a);
            assert(rest.len() == 0);
        } else {
            assert((a + b).take(R as int) =~= a.take(R as int));
            assert((a + b).skip(R as int) =~= rest + b);
            if a.len() <= R {
                assert(a.take(R as int) =~= a);
                assert(rest.len() == 0);
            }
        }
    }
}

/// After absorbing the first `q * R + r` elements (`1 <= r <= R`) into a fresh
/// buffer, the state holds the first `q` chunks absorbed and the buffer the last `r`
/// elements.
proof fn lemma_absorb_prefix<S: Spec<T, R>, const T: usize, const R: usize>(
    s: Seq<nat>,
    input: Seq<nat>,
    q: nat,
    r: nat,
    mds: Seq<Seq<nat>>,
    rcs: Seq<Seq<nat>>,
)
    requires
        R > 0,
        1 <= r <= R,
        q * R + r <= input.len(),
    ensures
        absorb_all::<S, T, R>(
            (s, rate_buffer(seq![], R as nat)),
            input.take(q * R + r),
            mds,
            rcs,
        ) == (
            absorb_chunks::<S, T, R>(s, input.take(q * R), mds, rcs),
            rate_buffer(input.subrange(q * R, q * R + r), R as nat),
        ),
    decreases q, r,
{
    let n = q * R + r;
    let st0 = (s, rate_buffer(seq![], R as nat));
    let prefix = input.take(n);
    assert(prefix.drop_last() =~= input.take(n - 1));
    assert(prefix.last() == input[n - 1]);
    if r > 1 {
        lemma_absorb_prefix::<S, T, R>(s, input, q, (r - 1) as nat, mds, rcs);
        let buf = rate_buffer(input.subrange(q * R, n - 1), R as nat);
        assert(is_first_none(buf, r - 1));
        assert(has_none(buf));
        assert(first_none(buf) == r - 1);
        assert(buf.update(r - 1, Some(input[n - 1])) =~= rate_buffer(
            input.subrange(q * R, n),
            R as nat,
        ));
    } else if q == 0 {
        assert(n == 1) by (nonlinear_arith)
            requires
                n == q * R + r,
                q == 0,
                r == 1,
        ;
        assert(input.take(0) =~= seq![]);
        assert(q * R == 0) by (nonlinear_arith)
            requires
                q == 0,
        ;
        let buf = rate_buffer(seq![], R as nat);
        assert(is_first_none(buf, 0));
        assert(first_none(buf) == 0);
        assert(buf.update(0, Some(input[0])) =~= rate_buffer(input.subrange(0, 1), R as nat));
    } else {
        assert((q - 1) as nat * R + R == q * R) by (nonlinear_arith)
            requires
                q >= 1,
        ;
        lemma_absorb_prefix::<S, T, R>(s, input, (q - 1) as nat, R as nat, mds, rcs);
        let start = (q - 1) as nat * R;
        let chunk = input.subrange(start as int, q * R);
        let buf = rate_buffer(chunk, R as nat);
        assert(!has_none(buf));
        assert(unwrap_all(buf) =~= chunk);
        assert(input.take(q * R) =~= input.take(start as int) + chunk);
        lemma_absorb_chunks_append::<S, T, R>(
            s,
            input.take(start as int),
            chunk,
            (q - 1) as nat,
            mds,
            rcs,
        );
        assert(rate_buffer(seq![input[n - 1]], R as nat) =~= rate_buffer(
            input.subrange(q * R, n),
            R as nat,
        ));
    }
}

/// Absorbing a non-empty input that fills whole chunks, one element at a time, into a
/// fresh sponge leaves the rate buffer full, and finishing then gives exactly the
/// chunk-by-chunk sponge: every chunk added into the state, the state permuted after each.
pub proof fn lemma_absorb_then_finish<S: Spec<T, R>, const T: usize, const R: usize>(
    s: Seq<nat>,
    input: Seq<nat>,
    mds: Seq<Seq<nat>>,
    rcs: Seq<Seq<nat>>,
)
    requires
        R > 0,
        input.len() > 0,
        (input.len() as int) % (R as int) == 0,
    ensures
        !has_none(absorb_all::<S, T, R>((s, rate_buffer(seq![], R as nat)), input, mds, rcs).1),
        absorb_all::<S, T, R>((s, rate_buffer(seq![], R as nat)), input, mds, rcs).1.len() == R,
        finish::<S, T, R>(
            absorb_all::<S, T, R>((s, rate_buffer(seq![], R as nat)), input, mds, rcs),
            mds,
            rcs,
        ) == absorb_chunks::<S, T, R>(s, input, mds, rcs),
{
    let c = (input.len() as int) / (R as int);
    vstd::arithmetic::div_mod::lemma_fundamental_div_mod(input.len() as int, R as int);
    assert(c >= 1 && input.len() == c * R) by (nonlinear_arith)
        requires
            input.len() == R * c + (input.len() as int) % (R as int),
            (input.len() as int) % (R as int) == 0,
            input.len() > 0,
            R > 0,
    ;
    let q = (c - 1) as nat;
    assert(q * R + R == input.len()) by (nonlinear_arith)
        requires
            input.len() == c * R,
            q == c - 1,
    ;
    lemma_absorb_prefix::<S, T, R>(s, input, q, R as nat, mds, rcs);
    assert(input.take(input.len() as int) =~= input);
    let chunk = input.subrange(q * R, input.len() as int);
    assert(unwrap_all(rate_buffer(chunk, R as nat)) =~= chunk);
    assert(input =~= input.take(q * R) + chunk);
    lemma_absorb_chunks_append::<S, T, R>(s, input.take(q * R), chunk, q, mds, rcs);
}

/// The constant-length padding fills the input up to a whole number of chunks, with
/// fewer than a chunk of zeros, and at least one chunk when the input is not empty.
pub proof fn lemma_padding_fills_chunks(len: nat, rate: nat)
    requires
        rate > 0,
    ensures
        ((len + padding_len(len, rate)) as int) % (rate as int) == 0,
        padding_len(len, rate) < rate,
        len > 0 ==> len + padding_len(len, rate) >= rate,
{
    let k = ((len + rate - 1) as int) / (rate as int);
    vstd::arithmetic::div_mod::lemma_fundamental_div_mod((len + rate - 1) as int, rate as int);
    assert(k * rate <= len + rate - 1 && k * rate >= len) by (nonlinear_arith)
        requires
            k == ((len + rate - 1) as int) / (rate as int),
            len + rate - 1 == rate * k + ((len + rate - 1) as int) % (rate as int),
            0 <= ((len + rate - 1) as int) % (rate as int) < rate,
            rate > 0,
    ;
    assert(len + padding_len(len, rate) == k * rate);
    vstd::arithmetic::div_mod::lemma_mod_multiples_basic(k, rate as int);
    if len > 0 {
        assert(k >= 1) by (nonlinear_arith)
            requires
                k * rate >= len,
                len > 0,
                rate > 0,
        ;
        assert(k * rate >= rate) by (nonlinear_arith)
            requires
                k >= 1,
                rate > 0,
        ;
    }
}

/// A message of `L` elements, `0 < L <= R`, fills a single chunk: its hash is the first
/// word of the permutation of the state that holds the message, then zeros up to the
/// rate, then `L * 2^64`, then zeros.
pub proof fn lemma_single_chunk_hash<S: Spec<T, R>, const T: usize, const R: usize, const L: usize>(
    message: Seq<nat>,
)
    requires
        0 < L <= R < T,
        message.len() == L,
        forall|i: int| 0 <= i < L ==> message[i] < crate::field::modulus(),
    ensures
        constant_length_hash::<S, T, R, L>(message) == permutation::<S, T, R>(
            Seq::new(
                T as nat,
                |i: int|
                    if i < L {
                        message[i]
                    } else if i == R {
                        L as nat * two_pow_64()
                    } else {
                        0
                    },
            ),
            crate::model::rows_values(S::spec_constants().1@),
            crate::model::rows_values(S::spec_constants().0@),
        )[0],
{
    lemma_padding_fills_chunks(L as nat, R as nat);
    let pad = padding_len(L as nat, R as nat);
    let input = message + Seq::new(pad, |i: int| 0nat);
    vstd::arithmetic::div_mod::lemma_fundamental_div_mod((L + pad) as int, R as int);
    let q = ((L + pad) as int) / (R as int);
    assert(L + pad == R) by (nonlinear_arith)
        requires
            L + pad == R * q,
            R <= L + pad < 2 * R,
            R > 0,
    ;
    let init = initial_state(T as nat, R as nat, L as nat * two_pow_64());
    assert(absorb_into(init, input) =~= Seq::new(
        T as nat,
        |i: int|
            if i < L {
                message[i]
            } else if i == R {
                L as nat * two_pow_64()
            } else {
                0
            },
    )) by {
        assert forall|i: int| 0 <= i < T implies #[trigger] absorb_into(init, input)[i] == (if i
            < L {
            message[i]
        } else if i == R {
            L as nat * two_pow_64()
        } else {
            0
        }) by {
            if i < L {
                vstd::arithmetic::div_mod::lemma_small_mod(message[i], crate::field::modulus());
            } else if i < R {
                vstd::arithmetic::div_mod::lemma_small_mod(0, crate::field::modulus());
            }
        }
    }
}

/// Every round keeps the width of a (non-empty) state.
proof fn lemma_rounds_keep_width<S: Spec<T, R>, const T: usize, const R: usize>(
    s: Seq<nat>,
    mds: Seq<Seq<nat>>,
    rcs: Seq<Seq<nat>>,
    r_f: nat,
    r_p: nat,
    k: nat,
)
    requires
        s.len() > 0,
    ensures
        crate::model::rounds::<S, T, R>(s, mds, rcs, r_f, r_p, k).len() == s.len(),
    decreases k,
{
    if k > 0 {
        lemma_rounds_keep_width::<S, T, R>(s, mds, rcs, r_f, r_p, (k - 1) as nat);
        let prev = crate::model::rounds::<S, T, R>(s, mds, rcs, r_f, r_p, (k - 1) as nat);
        let rc = rcs[k - 1];
        assert(crate::model::full_round::<S, T, R>(prev, rc, mds).len() == prev.len());
        assert(crate::model::partial_round::<S, T, R>(prev, rc, mds).len() == prev.len());
    }
}

/// The permutation keeps the width of a (non-empty) state.
pub proof fn lemma_permutation_keeps_width<S: Spec<T, R>, const T: usize, const R: usize>(
    s: Seq<nat>,
    mds: Seq<Seq<nat>>,
    rcs: Seq<Seq<nat>>,
)
    requires
        s.len() > 0,
    ensures
        permutation::<S, T, R>(s, mds, rcs).len() == s.len(),
{
    let r_f = crate::model::half_full_rounds::<S, T, R>();
    let r_p = S::spec_partial_rounds() as nat;
    lemma_rounds_keep_width::<S, T, R>(
        s,
        mds,
        rcs,
        r_f,
        r_p,
        crate::model::round_count(r_f, r_p, rcs.len()),
    );
}

/// The output buffer of state `s` once its first `k` words have been squeezed out.
pub open spec fn squeezed(s: Seq<nat>, rate: nat, k: nat) -> Seq<Option<nat>> {
    Seq::new(rate, |i: int| if i < k { None } else { Some(s[i]) })
}

/// Squeezing yields the words of the state in order: with `k < R` words of `s`
/// already taken, the next squeeze gives `s[k]`; with all `R` taken, it permutes the
/// state and gives the first word of the new state.
pub proof fn lemma_squeeze_in_order<S: Spec<T, R>, const T: usize, const R: usize>(
    s: Seq<nat>,
    k: nat,
    mds: Seq<Seq<nat>>,
    rcs: Seq<Seq<nat>>,
)
    requires
        0 < R < T,
        s.len() == T,
        k <= R,
    ensures
        k < R ==> squeeze_step::<S, T, R>((s, squeezed(s, R as nat, k)), mds, rcs) == (
            s[k as int],
            (s, squeezed(s, R as nat, k + 1)),
        ),
        k == R ==> squeeze_step::<S, T, R>((s, squeezed(s, R as nat, k)), mds, rcs) == (
            permutation::<S, T, R>(s, mds, rcs)[0],
            (
                permutation::<S, T, R>(s, mds, rcs),
                squeezed(permutation::<S, T, R>(s, mds, rcs), R as nat, 1),
            ),
        ),
{
    lemma_permutation_keeps_width::<S, T, R>(s, mds, rcs);
    let buf = squeezed(s, R as nat, k);
    if k < R {
        assert(is_first_some(buf, k as int));
        assert(has_some(buf));
        assert(first_some(buf) == k as int);
        assert(buf.update(k as int, None) =~= squeezed(s, R as nat, k + 1));
    } else {
        assert(!has_some(buf));
        let p = permutation::<S, T, R>(s, mds, rcs);
        assert(output_buffer(p, R as nat).update(0, None) =~= squeezed(p, R as nat, 1));
    }
}

/// Messages of different constant lengths start from different states: the length,
/// times `2^64`, sits in the capacity element, and stays below `p`.
pub proof fn lemma_length_separates_domains<const T: usize, const R: usize>(l1: usize, l2: usize)
    requires
        R < T,
        l1 != l2,
    ensures
        l1 as nat * two_pow_64() < modulus(),
        l2 as nat * two_pow_64() < modulus(),
        initial_state(T as nat, R as nat, l1 as nat * two_pow_64()) != initial_state(
            T as nat,
            R as nat,
            l2 as nat * two_pow_64(),
        ),
{
    assert(l1 as nat * two_pow_64() != l2 as nat * two_pow_64()) by (nonlinear_arith)
        requires
            l1 != l2,
    ;
    assert(l1 as nat * two_pow_64() < modulus()) by (nonlinear_arith)
        requires
            l1 < 0x1_0000_0000_0000_0000nat,
    ;
    assert(l2 as nat * two_pow_64() < modulus()) by (nonlinear_arith)
        requires
            l2 < 0x1_0000_0000_0000_0000nat,
    ;
    assert(initial_state(T as nat, R as nat, l1 as nat * two_pow_64())[R as int] != initial_state(
        T as nat,
        R as nat,
        l2 as nat * two_pow_64(),
    )[R as int]);
}

/// The rounds up to `k` read only the first `k` rows of round constants.
proof fn lemma_rounds_read_first_rows<S: Spec<T, R>, const T: usize, const R: usize>(
    s: Seq<nat>,
    mds: Seq<Seq<nat>>,
    rcs1: Seq<Seq<nat>>,
    rcs2: Seq<Seq<nat>>,
    r_f: nat,
    r_p: nat,
    k: nat,
)
    requires
        forall|i: int| 0 <= i < k ==> rcs1[i] == rcs2[i],
    ensures
        rounds::<S, T, R>(s, mds, rcs1, r_f, r_p, k) == rounds::<S, T, R>(s, mds, rcs2, r_f, r_p, k),
    decreases k,
{
    if k > 0 {
        lemma_rounds_read_first_rows::<S, T, R>(s, mds, rcs1, rcs2, r_f, r_p, (k - 1) as nat);
        assert(rcs1[k - 1] == rcs2[k - 1]);
    }
}

/// Rows of round constants past the `2 r_f + r_p` rounds of `S` never affect the
/// permutation: two lists that both have those rows, and agree on them, give the same
/// permutation.
pub proof fn lemma_extra_round_constants_ignored<S: Spec<T, R>, const T: usize, const R: usize>(
    s: Seq<nat>,
    mds: Seq<Seq<nat>>,
    rcs1: Seq<Seq<nat>>,
    rcs2: Seq<Seq<nat>>,
)
    requires
        rcs1.len() >= 2 * half_full_rounds::<S, T, R>() + S::spec_partial_rounds(),
        rcs2.len() >= 2 * half_full_rounds::<S, T, R>() + S::spec_partial_rounds(),
        forall|i: int|
            0 <= i < 2 * half_full_rounds::<S, T, R>() + S::spec_partial_rounds() ==> rcs1[i]
                == rcs2[i],
    ensures
        permutation::<S, T, R>(s, mds, rcs1) == permutation::<S, T, R>(s, mds, rcs2),
{
    let r_f = half_full_rounds::<S, T, R>();
    let r_p = S::spec_partial_rounds() as nat;
    assert(round_count(r_f, r_p, rcs1.len()) == 2 * r_f + r_p);
    assert(round_count(r_f, r_p, rcs2.len()) == 2 * r_f + r_p);
    lemma_rounds_read_first_rows::<S, T, R>(s, mds, rcs1, rcs2, r_f, r_p, 2 * r_f + r_p);
}

/// Two states added word by word in the field.
pub open spec fn add_words(a: Seq<nat>, b: Seq<nat>) -> Seq<nat> {
    Seq::new(a.len(), |i: int| field_add(a[i], b[i]))
}

/// Every word of the state is below `p`.
pub open spec fn reduced(s: Seq<nat>) -> bool {
    forall|i: int| 0 <= i < s.len() ==> s[i] < modulus()
}

/// A row times the word-by-word sum of two states is, in the field, the sum of the
/// row times each.
proof fn lemma_dot_additive(row: Seq<nat>, a: Seq<nat>, b: Seq<nat>, n: nat)
    requires
        n <= a.len(),
        a.len() == b.len(),
    ensures
        dot(row, add_words(a, b), n) % modulus() == (dot(row, a, n) + dot(row, b, n)) % modulus(),
    decreases n,
{
    let p = modulus() as int;
    if n > 0 {
        let m = (n - 1) as nat;
        lemma_dot_additive(row, a, b, m);
        let c = add_words(a, b);
        let x = dot(row, c, m) as int;
        let xa = dot(row, a, m) as int;
        let xb = dot(row, b, m) as int;
        let r = row[m as int] as int;
        let va = a[m as int] as int;
        let vb = b[m as int] as int;
        assert(c[m as int] == (va + vb) % p);
        vstd::arithmetic::div_mod::lemma_add_mod_noop(x, r * ((va + vb) % p), p);
        vstd::arithmetic::div_mod::lemma_mul_mod_noop_right(r, va + vb, p);
        vstd::arithmetic::div_mod::lemma_add_mod_noop(xa + xb, r * (va + vb), p);
        vstd::arithmetic::mul::lemma_mul_is_distributive_add(r, va, vb);
        assert(dot(row, c, n) == x + r * ((va + vb) % p));
        assert(dot(row, a, n) + dot(row, b, n) == (xa + xb) + r * (va + vb));
    }
}

/// The MDS product is additive in the field.
proof fn lemma_mds_mul_additive(mds: Seq<Seq<nat>>, a: Seq<nat>, b: Seq<nat>)
    requires
        a.len() == b.len(),
    ensures
        mds_mul(mds, add_words(a, b)) == add_words(mds_mul(mds, a), mds_mul(mds, b)),
{
    let p = modulus() as int;
    assert forall|i: int| 0 <= i < a.len() implies #[trigger] mds_mul(mds, add_words(a, b))[i]
        == add_words(mds_mul(mds, a), mds_mul(mds, b))[i] by {
        lemma_dot_additive(mds[i], a, b, a.len());
        vstd::arithmetic::div_mod::lemma_add_mod_noop(
            dot(mds[i], a, a.len()) as int,
            dot(mds[i], b, b.len()) as int,
            p,
        );
    }
    assert(mds_mul(mds, add_words(a, b)) =~= add_words(mds_mul(mds, a), mds_mul(mds, b)));
}

/// With an identity S-box and a zero row of constants, a round on a reduced state is
/// the MDS product.
proof fn lemma_round_is_mds<S: Spec<T, R>, const T: usize, const R: usize>(
    s: Seq<nat>,
    rc: Seq<nat>,
    mds: Seq<Seq<nat>>,
    full: bool,
)
    requires
        forall|x: nat| x < modulus() ==> S::spec_sbox(x) == x,
        rc.len() == s.len(),
        forall|j: int| 0 <= j < rc.len() ==> rc[j] == 0,
        reduced(s),
        full || s.len() > 0,
    ensures
        (if full {
            full_round::<S, T, R>(s, rc, mds)
        } else {
            partial_round::<S, T, R>(s, rc, mds)
        }) == mds_mul(mds, s),
        reduced(mds_mul(mds, s)),
        mds_mul(mds, s).len() == s.len(),
{
    assert forall|j: int| 0 <= j < s.len() implies #[trigger] field_add(s[j], rc[j]) == s[j] by {
        vstd::arithmetic::div_mod::lemma_small_mod(s[j], modulus());
    }
    if full {
        assert(Seq::new(s.len(), |i: int| S::spec_sbox(field_add(s[i], rc[i]))) =~= s);
    } else {
        let t = add_round_constants(s, rc);
        assert(t =~= s);
        assert(t.update(0, S::spec_sbox(t[0])) =~= s);
    }
}

/// With an identity S-box and zero constants, the first `k` rounds are additive.
proof fn lemma_rounds_additive<S: Spec<T, R>, const T: usize, const R: usize>(
    a: Seq<nat>,
    b: Seq<nat>,
    mds: Seq<Seq<nat>>,
    rcs: Seq<Seq<nat>>,
    r_f: nat,
    r_p: nat,
    k: nat,
)
    requires
        forall|x: nat| x < modulus() ==> S::spec_sbox(x) == x,
        k <= rcs.len(),
        forall|i: int| 0 <= i < rcs.len() ==> (#[trigger] rcs[i]).len() == a.len(),
        forall|i: int, j: int| 0 <= i < rcs.len() && 0 <= j < a.len() ==> rcs[i][j] == 0,
        a.len() == b.len(),
        reduced(a),
        reduced(b),
        a.len() > 0 || forall|i: nat| i < k ==> is_full_round(i, r_f, r_p),
    ensures
        rounds::<S, T, R>(add_words(a, b), mds, rcs, r_f, r_p, k) == add_words(
            rounds::<S, T, R>(a, mds, rcs, r_f, r_p, k),
            rounds::<S, T, R>(b, mds, rcs, r_f, r_p, k),
        ),
        reduced(rounds::<S, T, R>(a, mds, rcs, r_f, r_p, k)),
        reduced(rounds::<S, T, R>(b, mds, rcs, r_f, r_p, k)),
        rounds::<S, T, R>(a, mds, rcs, r_f, r_p, k).len() == a.len(),
        rounds::<S, T, R>(b, mds, rcs, r_f, r_p, k).len() == a.len(),
    decreases k,
{
    let c = add_words(a, b);
    if k == 0 {
    } else {
        let m = (k - 1) as nat;
        lemma_rounds_additive::<S, T, R>(a, b, mds, rcs, r_f, r_p, m);
        let pa = rounds::<S, T, R>(a, mds, rcs, r_f, r_p, m);
        let pb = rounds::<S, T, R>(b, mds, rcs, r_f, r_p, m);
        let pc = rounds::<S, T, R>(c, mds, rcs, r_f, r_p, m);
        let full = is_full_round(m, r_f, r_p);
        let rc = rcs[m as int];
        assert forall|j: int| 0 <= j < rc.len() implies rc[j] == 0 by {}
        assert(reduced(pc)) by {
            assert forall|j: int| 0 <= j < pc.len() implies pc[j] < modulus() by {}
        }
        if a.len() == 0 {
            assert(full);
        }
        lemma_round_is_mds::<S, T, R>(pa, rc, mds, full);
        lemma_round_is_mds::<S, T, R>(pb, rc, mds, full);
        lemma_round_is_mds::<S, T, R>(pc, rc, mds, full);
        lemma_mds_mul_additive(mds, pa, pb);
    }
}

/// With an identity S-box and constants that are all zero, the permutation is the
/// linear map "MDS matrix to the power of the number of rounds": the permutation of
/// the word-by-word sum of two states is the sum of their permutations.
pub proof fn lemma_permutation_linear_without_sbox<S: Spec<T, R>, const T: usize, const R: usize>(
    a: Seq<nat>,
    b: Seq<nat>,
    mds: Seq<Seq<nat>>,
    rcs: Seq<Seq<nat>>,
)
    requires
        forall|x: nat| x < modulus() ==> S::spec_sbox(x) == x,
        forall|i: int| 0 <= i < rcs.len() ==> (#[trigger] rcs[i]).len() == T,
        forall|i: int, j: int| 0 <= i < rcs.len() && 0 <= j < T ==> rcs[i][j] == 0,
        a.len() == T,
        b.len() == T,
        reduced(a),
        reduced(b),
        permutation_runs::<S, T, R>(rcs.len()),
    ensures
        permutation::<S, T, R>(add_words(a, b), mds, rcs) == add_words(
            permutation::<S, T, R>(a, mds, rcs),
            permutation::<S, T, R>(b, mds, rcs),
        ),
{
    let r_f = half_full_rounds::<S, T, R>();
    let r_p = S::spec_partial_rounds() as nat;
    let k = round_count(r_f, r_p, rcs.len());
    if T == 0 {
        assert forall|i: nat| i < k implies is_full_round(i, r_f, r_p) by {}
    }
    lemma_rounds_additive::<S, T, R>(a, b, mds, rcs, r_f, r_p, k);
}

/// The filled entries of the buffer are exactly its first `k`.
pub open spec fn filled_prefix<A>(buf: Seq<Option<A>>, k: nat) -> bool {
    &&& k <= buf.len()
    &&& forall|i: int| 0 <= i < k ==> buf[i] is Some
    &&& forall|i: int| k <= i < buf.len() ==> buf[i] is None
}

/// Absorbing keeps the filled entries of the rate buffer a prefix: one more is filled,
/// or, when the buffer was full, the new buffer holds just the absorbed element.
pub proof fn lemma_absorb_keeps_prefix<S: Spec<T, R>, const T: usize, const R: usize>(
    st: SpongeModel,
    k: nat,
    v: nat,
    mds: Seq<Seq<nat>>,
    rcs: Seq<Seq<nat>>,
)
    requires
        R > 0,
        st.1.len() == R,
        filled_prefix(st.1, k),
    ensures
        absorb_step::<S, T, R>(st, v, mds, rcs).1.len() == R,
        filled_prefix(
            absorb_step::<S, T, R>(st, v, mds, rcs).1,
            if k < R {
                k + 1
            } else {
                1
            },
        ),
{
    if k < R {
        assert(is_first_none(st.1, k as int));
        assert(has_none(st.1));
        assert(first_none(st.1) == k as int);
    } else {
        assert(!has_none(st.1));
    }
}

/// The sponge after `n` squeezes.
pub open spec fn squeeze_repeat<S: Spec<T, R>, const T: usize, const R: usize>(
    st: SpongeModel,
    n: nat,
    mds: Seq<Seq<nat>>,
    rcs: Seq<Seq<nat>>,
) -> SpongeModel
    decreases n,
{
    if n == 0 {
        st
    } else {
        squeeze_step::<S, T, R>(squeeze_repeat::<S, T, R>(st, (n - 1) as nat, mds, rcs), mds, rcs).1
    }
}

/// The element that squeeze number `n` (counting from 0) gives.
pub open spec fn nth_squeezed<S: Spec<T, R>, const T: usize, const R: usize>(
    st: SpongeModel,
    n: nat,
    mds: Seq<Seq<nat>>,
    rcs: Seq<Seq<nat>>,
) -> nat {
    squeeze_step::<S, T, R>(squeeze_repeat::<S, T, R>(st, n, mds, rcs), mds, rcs).0
}

/// After finishing with state `s`, squeezes number `0 .. R - 1` give `s[0] .. s[R - 1]`
/// in order, and squeeze number `R` gives the first word of the permutation of `s`.
pub proof fn lemma_squeezes_after_finish<S: Spec<T, R>, const T: usize, const R: usize>(
    s: Seq<nat>,
    mds: Seq<Seq<nat>>,
    rcs: Seq<Seq<nat>>,
)
    requires
        0 < R < T,
        s.len() == T,
    ensures
        forall|i: nat|
            i < R ==> #[trigger] nth_squeezed::<S, T, R>(
                (s, output_buffer(s, R as nat)),
                i,
                mds,
                rcs,
            ) == s[i as int],
        nth_squeezed::<S, T, R>((s, output_buffer(s, R as nat)), R as nat, mds, rcs)
            == permutation::<S, T, R>(s, mds, rcs)[0],
{
    let st0 = (s, output_buffer(s, R as nat));
    assert(output_buffer(s, R as nat) =~= squeezed(s, R as nat, 0));
    assert forall|i: nat| i <= R implies #[trigger] squeeze_repeat::<S, T, R>(st0, i, mds, rcs) == (
        s,
        squeezed(s, R as nat, i),
    ) by {
        lemma_squeeze_repeat_prefix::<S, T, R>(s, i, mds, rcs);
    }
    assert forall|i: nat| i < R implies #[trigger] nth_squeezed::<S, T, R>(st0, i, mds, rcs)
        == s[i as int] by {
        assert(squeeze_repeat::<S, T, R>(st0, i, mds, rcs) == (s, squeezed(s, R as nat, i)));
        lemma_squeeze_in_order::<S, T, R>(s, i, mds, rcs);
    }
    assert(squeeze_repeat::<S, T, R>(st0, R as nat, mds, rcs) == (s, squeezed(s, R as nat, R as nat)));
    lemma_squeeze_in_order::<S, T, R>(s, R as nat, mds, rcs);
}

/// The first `i <= R` squeezes after finishing with `s` take out its first `i` words.
proof fn lemma_squeeze_repeat_prefix<S: Spec<T, R>, const T: usize, const R: usize>(
    s: Seq<nat>,
    i: nat,
    mds: Seq<Seq<nat>>,
    rcs: Seq<Seq<nat>>,
)
    requires
        0 < R < T,
        s.len() == T,
        i <= R,
    ensures
        squeeze_repeat::<S, T, R>((s, output_buffer(s, R as nat)), i, mds, rcs) == (
            s,
            squeezed(s, R as nat, i),
        ),
    decreases i,
{
    if i == 0 {
        assert(output_buffer(s, R as nat) =~= squeezed(s, R as nat, 0));
    } else {
        lemma_squeeze_repeat_prefix::<S, T, R>(s, (i - 1) as nat, mds, rcs);
        lemma_squeeze_in_order::<S, T, R>(s, (i - 1) as nat, mds, rcs);
    }
}

/// The number that a string of decimal digits denotes, most significant digit first.
pub open spec fn digits_value(s: Seq<char>) -> nat
    decreases s.len(),
{
    if s.len() == 0 {
        0
    } else {
        digits_value(s.drop_last()) * 10 + (s.last() as int - 48) as nat
    }
}

/// Every character is one of `0`..`9`.
pub open spec fn all_digits(s: Seq<char>) -> bool {
    forall|i: int| 0 <= i < s.len() ==> '0' <= #[trigger] s[i] <= '9'
}

/// The decimal notation of `n` is a non-empty string of digits, without a leading zero
/// unless `n` is 0, that denotes `n`.
pub proof fn lemma_decimal_denotes(n: nat)
    ensures
        decimal(n).len() >= 1,
        all_digits(decimal(n)),
        n > 0 ==> decimal(n)[0] != '0',
        n == 0 ==> decimal(n) == seq!['0'],
        digits_value(decimal(n)) == n,
    decreases n,
{
    if n < 10 {
        let d = decimal(n);
        assert(d.drop_last() =~= Seq::<char>::empty());
        assert(((48 + n) as char) as int == 48 + n);
        assert(d.last() == (48 + n) as char);
        assert(digits_value(d.drop_last()) == 0);
        assert(digits_value(d) == digits_value(d.drop_last()) * 10 + (d.last() as int - 48) as nat);
    } else {
        let q = n / 10;
        let r = n % 10;
        lemma_decimal_denotes(q);
        let d = decimal(n);
        assert(d.drop_last() =~= decimal(q));
        assert(((48 + r) as char) as int == 48 + r);
        assert(d.last() == (48 + r) as char);
        assert(digits_value(d) == digits_value(d.drop_last()) * 10 + (d.last() as int - 48) as nat);
        assert(q * 10 + r == n);
        assert(q > 0);
    }
}

/// The name of the constant-length domain is `ConstantLength<`, then the decimal digits
/// of `L` (no leading zero), then `>`.
pub proof fn lemma_constant_length_name<const L: usize, const R: usize>()
    ensures
        ({
            let s = <ConstantLength<L> as Domain<R>>::spec_name();
            let digits = s.subrange(15, s.len() - 1);
            &&& s.len() >= 17
            &&& s.subrange(0, 15) == "ConstantLength<"@
            &&& s.last() == '>'
            &&& all_digits(digits)
            &&& (digits.len() > 1 ==> digits[0] != '0')
            &&& digits_value(digits) == L
        }),
{
    reveal_strlit("ConstantLength<");
    reveal_strlit(">");
    lemma_decimal_denotes(L as nat);
    let s = <ConstantLength<L> as Domain<R>>::spec_name();
    assert(s.subrange(15, s.len() - 1) =~= decimal(L as nat));
    assert(s.subrange(0, 15) =~= "ConstantLength<"@);
    if L == 0 {
        assert(decimal(L as nat).len() == 1);
    }
}

/// The capacity element of the constant-length domain is the length times `2^64`, for
/// every length and rate, and it is below `p`.
pub proof fn lemma_capacity_element_is_length<const L: usize, const R: usize>()
    ensures
        <ConstantLength<L> as Domain<R>>::spec_initial_capacity_element() == L as nat
            * 0x1_0000_0000_0000_0000nat,
        <ConstantLength<L> as Domain<R>>::spec_initial_capacity_element() < modulus(),
{
    assert(L as nat * 0x1_0000_0000_0000_0000nat < modulus()) by (nonlinear_arith)
        requires
            L < 0x1_0000_0000_0000_0000nat,
    ;
}

/// For every non-empty message, the hash is word 0 of the chunk-by-chunk sponge over the
/// message padded with zeros, started from the state whose capacity word (index `R`) is
/// `L * 2^64` and all of whose other words are zero.
pub proof fn lemma_hash_is_sponge_over_padded_message<
    S: Spec<T, R>,
    const T: usize,
    const R: usize,
    const L: usize,
>(message: Seq<nat>)
    requires
        message.len() == L,
        L > 0,
        0 < R < T,
    ensures
        constant_length_hash::<S, T, R, L>(message) == absorb_chunks::<S, T, R>(
            Seq::new(
                T as nat,
                |i: int|
                    if i == R {
                        L as nat * 0x1_0000_0000_0000_0000nat
                    } else {
                        0
                    },
            ),
            message + Seq::new(padding_len(L as nat, R as nat), |i: int| 0nat),
            crate::model::rows_values(S::spec_constants().1@),
            crate::model::rows_values(S::spec_constants().0@),
        )[0],
{
    assert(initial_state(T as nat, R as nat, L as nat * two_pow_64()) =~= Seq::new(
        T as nat,
        |i: int|
            if i == R {
                L as nat * 0x1_0000_0000_0000_0000nat
            } else {
                0
            },
    ));
}

/// A message of two whole chunks (`L == 2 R`) is not padded, and its hash is word 0 of:
/// the first chunk added into the state with capacity word `L * 2^64` and permuted,
/// then the second chunk added and permuted again.
pub proof fn lemma_two_chunk_hash<S: Spec<T, R>, const T: usize, const R: usize, const L: usize>(
    message: Seq<nat>,
)
    requires
        0 < R < T,
        L == 2 * R,
        message.len() == L,
    ensures
        ({
            let mds = crate::model::rows_values(S::spec_constants().1@);
            let rcs = crate::model::rows_values(S::spec_constants().0@);
            let start = Seq::new(
                T as nat,
                |i: int|
                    if i == R {
                        L as nat * 0x1_0000_0000_0000_0000nat
                    } else {
                        0
                    },
            );
            let after_first = permutation::<S, T, R>(
                absorb_into(start, message.subrange(0, R as int)),
                mds,
                rcs,
            );
            constant_length_hash::<S, T, R, L>(message) == permutation::<S, T, R>(
                absorb_into(after_first, message.subrange(R as int, L as int)),
                mds,
                rcs,
            )[0]
        }),
{
    lemma_padding_fills_chunks(L as nat, R as nat);
    let pad = padding_len(L as nat, R as nat);
    vstd::arithmetic::div_mod::lemma_mod_multiples_vanish(2, pad as int, R as int);
    vstd::arithmetic::div_mod::lemma_small_mod(pad, R as nat);
    assert((2 * R + pad) as int % (R as int) == pad as int % (R as int)) by {
        vstd::arithmetic::div_mod::lemma_mod_multiples_vanish(2, pad as int, R as int);
    }
    assert(pad == 0);
    let input = message + Seq::new(pad, |i: int| 0nat);
    assert(input =~= message);
    lemma_hash_is_sponge_over_padded_message::<S, T, R, L>(message);
    assert(message.take(R as int) =~= message.subrange(0, R as int));
    assert(message.skip(R as int) =~= message.subrange(R as int, L as int));
    let mds = crate::model::rows_values(S::spec_constants().1@);
    let rcs = crate::model::rows_values(S::spec_constants().0@);
    let start = Seq::new(
        T as nat,
        |i: int|
            if i == R {
                L as nat * 0x1_0000_0000_0000_0000nat
            } else {
                0
            },
    );
    let x = permutation::<S, T, R>(absorb_into(start, message.take(R as int)), mds, rcs);
    assert(absorb_chunks::<S, T, R>(start, message, mds, rcs) == absorb_chunks::<S, T, R>(
        x,
        message.skip(R as int),
        mds,
        rcs,
    ));
}

/// `count` full rounds, the first using row `start` of the round constants.
pub open spec fn full_rounds_from<S: Spec<T, R>, const T: usize, const R: usize>(
    s: Seq<nat>,
    mds: Seq<Seq<nat>>,
    rcs: Seq<Seq<nat>>,
    start: nat,
    count: nat,
) -> Seq<nat>
    decreases count,
{
    if count == 0 {
        s
    } else {
        full_round::<S, T, R>(
            full_rounds_from::<S, T, R>(s, mds, rcs, start, (count - 1) as nat),
            rcs[start + count - 1],
            mds,
        )
    }
}

/// `count` partial rounds, the first using row `start` of the round constants.
pub open spec fn partial_rounds_from<S: Spec<T, R>, const T: usize, const R: usize>(
    s: Seq<nat>,
    mds: Seq<Seq<nat>>,
    rcs: Seq<Seq<nat>>,
    start: nat,
    count: nat,
) -> Seq<nat>
    decreases count,
{
    if count == 0 {
        s
    } else {
        partial_round::<S, T, R>(
            partial_rounds_from::<S, T, R>(s, mds, rcs, start, (count - 1) as nat),
            rcs[start + count - 1],
            mds,
        )
    }
}

/// The first `k` rounds, phase by phase.
proof fn lemma_rounds_by_phase<S: Spec<T, R>, const T: usize, const R: usize>(
    s: Seq<nat>,
    mds: Seq<Seq<nat>>,
    rcs: Seq<Seq<nat>>,
    r_f: nat,
    r_p: nat,
    k: nat,
)
    requires
        k <= 2 * r_f + r_p,
    ensures
        k <= r_f ==> rounds::<S, T, R>(s, mds, rcs, r_f, r_p, k) == full_rounds_from::<S, T, R>(
            s,
            mds,
            rcs,
            0,
            k,
        ),
        r_f <= k <= r_f + r_p ==> rounds::<S, T, R>(s, mds, rcs, r_f, r_p, k)
            == partial_rounds_from::<S, T, R>(
            full_rounds_from::<S, T, R>(s, mds, rcs, 0, r_f),
            mds,
            rcs,
            r_f,
            (k - r_f) as nat,
        ),
        r_f + r_p <= k ==> rounds::<S, T, R>(s, mds, rcs, r_f, r_p, k)
            == full_rounds_from::<S, T, R>(
            partial_rounds_from::<S, T, R>(
                full_rounds_from::<S, T, R>(s, mds, rcs, 0, r_f),
                mds,
                rcs,
                r_f,
                r_p,
            ),
            mds,
            rcs,
            r_f + r_p,
            (k - r_f - r_p) as nat,
        ),
    decreases k,
{
    if k > 0 {
        lemma_rounds_by_phase::<S, T, R>(s, mds, rcs, r_f, r_p, (k - 1) as nat);
    }
}

/// When the round constants cover all its rounds, the permutation is three phases:
/// `r_f` full rounds, then `r_p` partial rounds, then `r_f` full rounds again, where
/// `r_f` is half the full rounds of `S` and `r_p` its partial rounds, each round taking
/// the next row of constants.
pub proof fn lemma_permutation_phases<S: Spec<T, R>, const T: usize, const R: usize>(
    s: Seq<nat>,
    mds: Seq<Seq<nat>>,
    rcs: Seq<Seq<nat>>,
)
    requires
        rcs.len() >= 2 * (S::spec_full_rounds() / 2) + S::spec_partial_rounds(),
    ensures
        ({
            let r_f = (S::spec_full_rounds() / 2) as nat;
            let r_p = S::spec_partial_rounds() as nat;
            permutation::<S, T, R>(s, mds, rcs) == full_rounds_from::<S, T, R>(
                partial_rounds_from::<S, T, R>(
                    full_rounds_from::<S, T, R>(s, mds, rcs, 0, r_f),
                    mds,
                    rcs,
                    r_f,
                    r_p,
                ),
                mds,
                rcs,
                r_f + r_p,
                r_f,
            )
        }),
{
    let r_f = half_full_rounds::<S, T, R>();
    let r_p = S::spec_partial_rounds() as nat;
    assert(round_count(r_f, r_p, rcs.len()) == 2 * r_f + r_p);
    lemma_rounds_by_phase::<S, T, R>(s, mds, rcs, r_f, r_p, 2 * r_f + r_p);
}

} // verus!
