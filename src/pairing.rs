//! The pairing functions on natural numbers and the list codec built on them.
//!
//! `pair1(x, y) = 2^x * (2y + 1)` is a bijection from pairs onto the positive
//! numbers; `pair2(x, y) = pair1(x, y) - 1` is one onto all numbers. A list
//! `[a0, a1, ...]` is encoded as `pair1(a0, pair1(a1, ... pair1(ak, 0)))`.
use crate::bignum::{
    big_add_small, big_clone, big_div_small, big_from_u128, big_is_zero, big_mul,
    big_mul_small, big_pow, big_rem_small, big_sub_small, big_value, big_values, big_zero,
};
use num_bigint::BigUint;
use vstd::arithmetic::power::pow;
use vstd::arithmetic::power2::{lemma_pow2, lemma_pow2_pos, lemma_pow2_unfold, pow2};
use vstd::prelude::*;

verus! {

/// `2^x * (2y + 1)`.
pub open spec fn pair1(x: nat, y: nat) -> nat {
    pow2(x) * (2 * y + 1)
}

/// `2^x * (2y + 1) - 1`.
pub open spec fn pair2(x: nat, y: nat) -> nat {
    (pair1(x, y) - 1) as nat
}

/// The number of factors two in `n` (zero for `n == 0`).
pub open spec fn valuation2(n: nat) -> nat
    decreases n,
{
    if n == 0 || n % 2 == 1 {
        0
    } else {
        1 + valuation2(n / 2)
    }
}

/// `n` with every factor two removed (zero for `n == 0`).
pub open spec fn odd_part(n: nat) -> nat
    decreases n,
{
    if n == 0 || n % 2 == 1 {
        n
    } else {
        odd_part(n / 2)
    }
}

/// The inverse of `pair1`, on positive numbers.
pub open spec fn unpair1(n: nat) -> (nat, nat) {
    (valuation2(n), ((odd_part(n) - 1) as nat) / 2)
}

/// The inverse of `pair2`.
pub open spec fn unpair2(n: nat) -> (nat, nat) {
    unpair1(n + 1)
}

/// The number that encodes a list.
pub open spec fn encode_list(s: Seq<nat>) -> nat
    decreases s.len(),
{
    if s.len() == 0 {
        0
    } else {
        pair1(s[0], encode_list(s.drop_first()))
    }
}

/// The list that a number encodes.
pub open spec fn decode_list(n: nat) -> Seq<nat>
    decreases n,
    via decode_list_decreases
{
    if n == 0 {
        Seq::empty()
    } else {
        seq![unpair1(n).0] + decode_list(unpair1(n).1)
    }
}

#[via_fn]
proof fn decode_list_decreases(n: nat) {
    if n != 0 {
        lemma_odd_part(n);
    }
}

/// The odd part of a positive number is odd and no larger than the number.
pub proof fn lemma_odd_part(n: nat)
    requires
        n > 0,
    ensures
        odd_part(n) % 2 == 1,
        odd_part(n) <= n,
    decreases n,
{
    if n % 2 == 0 {
        lemma_odd_part(n / 2);
    }
}

/// Every positive number is the pairing of its own unpairing.
pub proof fn lemma_pair1_unpair1(n: nat)
    requires
        n > 0,
    ensures
        pair1(unpair1(n).0, unpair1(n).1) == n,
    decreases n,
{
    lemma_odd_part(n);
    if n % 2 == 1 {
        assert(pow2(0) == 1) by {
            lemma_pow2(0);
            vstd::arithmetic::power::lemma_pow0(2);
        }
        assert(valuation2(n) == 0 && odd_part(n) == n);
        assert(pair1(0, ((n - 1) as nat) / 2) == n);
    } else {
        let m = n / 2;
        assert(valuation2(n) == 1 + valuation2(m) && odd_part(n) == odd_part(m));
        lemma_pair1_unpair1(m);
        lemma_pow2_unfold(valuation2(n));
        let y = unpair1(m).1;
        assert(pow2(valuation2(n)) * (2 * y + 1) == 2 * (pow2(valuation2(m)) * (2 * y + 1)))
            by (nonlinear_arith)
            requires
                pow2(valuation2(n)) == 2 * pow2(valuation2(m)),
        ;
        assert(unpair1(n).1 == y);
    }
}

/// Unpairing a pairing gives back the pair; the odd part is `2y + 1`.
pub proof fn lemma_unpair1_pair1(x: nat, y: nat)
    ensures
        unpair1(pair1(x, y)) == (x, y),
        odd_part(pair1(x, y)) == 2 * y + 1,
        pair1(x, y) > 0,
    decreases x,
{
    lemma_pow2_pos(x);
    if x == 0 {
        assert(pow2(0) == 1) by {
            lemma_pow2(0);
            vstd::arithmetic::power::lemma_pow0(2);
        }
    } else {
        lemma_unpair1_pair1((x - 1) as nat, y);
        lemma_pow2_unfold(x);
        let p = pow2((x - 1) as nat);
        let n = pair1(x, y);
        assert(n == 2 * (p * (2 * y + 1))) by (nonlinear_arith)
            requires
                n == pow2(x) * (2 * y + 1),
                pow2(x) == 2 * p,
        ;
    }
}

/// Pairing and unpairing are inverse: for all `x` and `y`,
/// `unpair1(pair1(x, y)) == (x, y)` and `unpair2(pair2(x, y)) == (x, y)`.
pub proof fn lemma_unpair_pair(x: nat, y: nat)
    ensures
        unpair1(pair1(x, y)) == (x, y),
        unpair2(pair2(x, y)) == (x, y),
{
    lemma_unpair1_pair1(x, y);
}

/// Decoding the encoding of a list gives back the list: for every finite
/// list `l`, `decode_list(encode_list(l)) == l`.
pub proof fn lemma_decode_encode_list(l: Seq<nat>)
    ensures
        decode_list(encode_list(l)) == l,
    decreases l.len(),
{
    if l.len() > 0 {
        let rest = l.drop_first();
        lemma_decode_encode_list(rest);
        lemma_unpair1_pair1(l[0], encode_list(rest));
        assert(decode_list(encode_list(l)) =~= l);
    }
}

/// Encoding the list that a number decodes to gives back the number: for
/// every `n`, `encode_list(decode_list(n)) == n`.
pub proof fn lemma_encode_decode_list(n: nat)
    ensures
        encode_list(decode_list(n)) == n,
    decreases n,
{
    if n > 0 {
        lemma_odd_part(n);
        let d = decode_list(n);
        lemma_encode_decode_list(unpair1(n).1);
        assert(d.drop_first() =~= decode_list(unpair1(n).1));
        lemma_pair1_unpair1(n);
    }
}

/// `2^x * (2y + 1)`.
pub fn encode_pair1(x: &BigUint, y: &BigUint) -> (r: BigUint)
    requires
        big_value(*x) <= u128::MAX as nat,
    ensures
        big_value(r) == pair1(big_value(*x), big_value(*y)),
{
    let p = big_pow(big_from_u128(2), x);
    proof {
        lemma_pow2(big_value(*x));
    }
    let odd = big_add_small(big_mul_small(2, y), 1);
    big_mul(p, odd)
}

/// `2^x * (2y + 1) - 1`.
pub fn encode_pair2(x: &BigUint, y: &BigUint) -> (r: BigUint)
    requires
        big_value(*x) <= u128::MAX as nat,
    ensures
        big_value(r) == pair2(big_value(*x), big_value(*y)),
{
    let p = encode_pair1(x, y);
    proof {
        lemma_unpair1_pair1(big_value(*x), big_value(*y));
    }
    big_sub_small(p, 1)
}

/// Splits a positive number `2^x * (2y + 1)` into `(x, y)`.
pub fn decode_pair1(a: &BigUint) -> (r: (BigUint, BigUint))
    requires
        big_value(*a) > 0,
    ensures
        (big_value(r.0), big_value(r.1)) == unpair1(big_value(*a)),
{
    let mut tmp = big_clone(a);
    let mut x = big_zero();
    while big_is_zero(&big_rem_small(&tmp, 2))
        invariant
            big_value(tmp) > 0,
            valuation2(big_value(*a)) == big_value(x) + valuation2(big_value(tmp)),
            odd_part(big_value(*a)) == odd_part(big_value(tmp)),
        decreases big_value(tmp),
    {
        x = big_add_small(x, 1);
        tmp = big_div_small(tmp, 2);
    }
    let y = big_div_small(big_sub_small(tmp, 1), 2);
    (x, y)
}

/// The inverse of `encode_pair2`: splits `a + 1` as `decode_pair1` does.
pub fn decode_pair2(a: &BigUint) -> (r: (BigUint, BigUint))
    ensures
        (big_value(r.0), big_value(r.1)) == unpair2(big_value(*a)),
{
    decode_pair1(&big_add_small(big_clone(a), 1))
}

/// The number that encodes the list `l`: `pair1(l[0], pair1(l[1], ... 0))`.
pub fn encode_list_to_godel(l: &[BigUint]) -> (r: BigUint)
    requires
        forall|i: int| 0 <= i < l@.len() ==> big_value(#[trigger] l@[i]) <= u128::MAX as nat,
    ensures
        big_value(r) == encode_list(big_values(l@)),
{
    let ghost vals = big_values(l@);
    let mut acc = big_zero();
    let mut i: usize = l.len();
    while i > 0
        invariant
            i <= l@.len(),
            vals == big_values(l@),
            forall|j: int| 0 <= j < l@.len() ==> big_value(#[trigger] l@[j]) <= u128::MAX as nat,
            big_value(acc) == encode_list(vals.subrange(i as int, vals.len() as int)),
        decreases i,
    {
        i = i - 1;
        acc = encode_pair1(&l[i], &acc);
        assert(vals.subrange(i as int, vals.len() as int).drop_first() =~= vals.subrange(
            i + 1,
            vals.len() as int,
        ));
    }
    assert(vals.subrange(0, vals.len() as int) =~= vals);
    acc
}

/// The list that the number `a` encodes.
pub fn decode_godel_to_list(a: BigUint) -> (r: Vec<BigUint>)
    ensures
        big_values(r@) == decode_list(big_value(a)),
{
    let mut ret_vec: Vec<BigUint> = Vec::new();
    let mut tmp = a;
    while !big_is_zero(&tmp)
        invariant
            big_values(ret_vec@) + decode_list(big_value(tmp)) == decode_list(big_value(a)),
        decreases big_value(tmp),
    {
        let (x, rest) = decode_pair1(&tmp);
        proof {
            lemma_odd_part(big_value(tmp));
            assert(big_values(ret_vec@.push(x)) + decode_list(big_value(rest)) =~= big_values(
                ret_vec@,
            ) + decode_list(big_value(tmp)));
        }
        ret_vec.push(x);
        tmp = rest;
    }
    assert(big_values(ret_vec@) + decode_list(0) =~= big_values(ret_vec@));
    ret_vec
}

} // verus!
