use num_bigint::BigUint;
use num_traits::{Pow, Zero};
use regmach::machine::{eval_program, register_value, State};
use regmach::pairing::{
    decode_godel_to_list, decode_pair1, decode_pair2, encode_list_to_godel, encode_pair1,
    encode_pair2,
};
use regmach::program::{
    decode_instruction, decode_list_to_program, encode_instruction, encode_program_to_list,
    ConversionOverflow, Field,
    Instruction::{Add, Halt, Sub},
};
use std::collections::HashMap;

fn big(v: u64) -> BigUint {
    BigUint::from(v)
}

fn two_pow(e: u32) -> BigUint {
    BigUint::from(2u32).pow(e)
}

#[test]
fn godel_num_to_godel_list() {
    let n = BigUint::from(2u32).pow(46u32) * 20483u32;
    let godel_list = decode_godel_to_list(n);
    let true_godel_list = vec![
        BigUint::from(46u32),
        BigUint::zero(),
        BigUint::from(10u32),
        BigUint::from(1u32),
    ];
    assert_eq!(godel_list, true_godel_list)
}

#[test]
fn godel_list_to_godel_num() {
    let godel_num = encode_list_to_godel(&[
        BigUint::from(46u32),
        BigUint::zero(),
        BigUint::from(10u32),
        BigUint::from(1u32),
    ]);
    assert_eq!(godel_num, BigUint::from(2u32).pow(46u32) * 20483u32)
}

#[test]
fn godel_list_to_program() {
    let program = decode_list_to_program(&[
        BigUint::from(46u32),
        BigUint::zero(),
        BigUint::from(10u32),
        BigUint::from(1u32),
    ]);
    assert_eq!(program, Ok(vec![Sub(0, 2, 1), Halt, Sub(0, 0, 1), Add(0, 0)]))
}

#[test]
fn program_to_godel_list() {
    let program = encode_program_to_list(&[Sub(0, 2, 1), Halt, Sub(0, 0, 1), Add(0, 0)]);
    assert_eq!(
        program,
        vec![
            BigUint::from(46u32),
            BigUint::zero(),
            BigUint::from(10u32),
            BigUint::from(1u32)
        ]
    )
}

#[test]
fn program_produces_correct_state() {
    let program = vec![
        Sub(1, 2, 1),
        Halt,
        Sub(1, 3, 4),
        Sub(1, 5, 4),
        Halt,
        Add(0, 0),
    ];
    let final_state = eval_program(
        &program,
        &(
            0,
            HashMap::<_, _>::from_iter([(0, BigUint::zero()), (1, BigUint::from(7u32))]),
        ),
    );
    assert_eq!(
        final_state,
        (
            4,
            HashMap::<_, _>::from_iter([(0, BigUint::from(2u32)), (1, BigUint::zero())])
        )
    )
}

#[test]
fn pair1_exact_value() {
    assert_eq!(encode_pair1(&big(3), &big(2)), big(40));
    assert_eq!(encode_pair1(&big(0), &big(0)), big(1));
    assert_eq!(encode_pair1(&big(70), &big(1)), two_pow(70) * 3u32);
}

#[test]
fn pair2_exact_value() {
    assert_eq!(encode_pair2(&big(3), &big(2)), big(39));
    assert_eq!(encode_pair2(&big(0), &big(0)), big(0));
}

#[test]
fn unpair1_of_pair1() {
    for (x, y) in [(0u64, 0u64), (5, 9), (1, 0), (0, 12), (64, 1000)] {
        let n = encode_pair1(&big(x), &big(y));
        assert_eq!(decode_pair1(&n), (big(x), big(y)));
    }
    assert_eq!(decode_pair1(&big(40)), (big(3), big(2)));
}

#[test]
fn unpair2_of_pair2() {
    for (x, y) in [(0u64, 0u64), (5, 9), (1, 0), (0, 12), (64, 1000)] {
        let n = encode_pair2(&big(x), &big(y));
        assert_eq!(decode_pair2(&n), (big(x), big(y)));
    }
    assert_eq!(decode_pair2(&big(0)), (big(0), big(0)));
}

#[test]
fn empty_list_is_zero() {
    assert_eq!(encode_list_to_godel(&[]), big(0));
    assert_eq!(decode_godel_to_list(big(0)), Vec::<BigUint>::new());
}

#[test]
fn list_round_trip() {
    let l = vec![big(3), big(0), big(7), big(1), big(100), big(0)];
    let n = encode_list_to_godel(&l);
    assert_eq!(decode_godel_to_list(n), l);
}

#[test]
fn number_round_trip() {
    for n in [1u64, 2, 12345, 1 << 40, 999_999_999] {
        let l = decode_godel_to_list(big(n));
        assert_eq!(encode_list_to_godel(&l), big(n));
    }
}

#[test]
fn single_element_lists() {
    assert_eq!(decode_godel_to_list(big(1)), vec![big(0)]);
    assert_eq!(decode_godel_to_list(big(8)), vec![big(3)]);
    assert_eq!(encode_list_to_godel(&[big(3)]), big(8));
}

#[test]
fn instruction_codes() {
    assert_eq!(encode_instruction(&Halt), big(0));
    assert_eq!(encode_instruction(&Add(0, 0)), big(1));
    assert_eq!(encode_instruction(&Add(1, 2)), big(20));
    assert_eq!(encode_instruction(&Sub(0, 2, 1)), big(46));
    assert_eq!(decode_instruction(&big(20)), Ok(Add(1, 2)));
    assert_eq!(decode_instruction(&big(0)), Ok(Halt));
}

#[test]
fn program_round_trip() {
    let p = vec![
        Add(5, usize::MAX),
        Sub(3, 7, 0),
        Halt,
        Sub(0, 0, usize::MAX),
        Add(40, 1),
    ];
    let codes = encode_program_to_list(&p);
    assert_eq!(decode_list_to_program(&codes), Ok(p));
}

#[test]
fn next_label_overflow_is_reported() {
    let code = encode_pair1(&big(2), &two_pow(64));
    assert_eq!(decode_instruction(&code), Err(Field::NextLabel));
}

#[test]
fn zero_label_overflow_is_reported() {
    let z = encode_pair2(&big(0), &two_pow(64));
    assert_eq!(
        decode_instruction(&encode_pair1(&big(1), &z)),
        Err(Field::ZeroLabel)
    );
}

#[test]
fn first_overflow_in_list_is_reported() {
    let bad = encode_pair1(&big(2), &two_pow(64));
    let worse = encode_pair1(&big(3), &(two_pow(64) * 3u32));
    let list = vec![big(0), big(46), bad, worse];
    assert_eq!(
        decode_list_to_program(&list),
        Err(ConversionOverflow {
            index: 2,
            field: Field::NextLabel
        })
    );
}

#[test]
fn label_past_end_returns_state_unchanged() {
    let program = vec![Add(0, 0), Sub(1, 0, 1)];
    let state: State = (
        7,
        HashMap::from_iter([(0, big(4)), (3, big(9))]),
    );
    assert_eq!(eval_program(&program, &state), state);
    assert_eq!(eval_program(&[], &(0, HashMap::new())), (0, HashMap::new()));
}

#[test]
fn halt_leaves_label_at_halt() {
    let program = vec![Add(2, 1), Halt];
    let state: State = (0, HashMap::new());
    let r = eval_program(&program, &state);
    assert_eq!(r, (1, HashMap::from_iter([(2, big(1))])));
    assert_eq!(state, (0, HashMap::new()));
}

#[test]
fn decrement_of_absent_register_materializes_zero() {
    let program = vec![Sub(2, 5, 1)];
    let r = eval_program(&program, &(0, HashMap::new()));
    assert_eq!(r, (1, HashMap::from_iter([(2, big(0))])));
}

#[test]
fn decrement_of_positive_register() {
    let program = vec![Sub(2, 5, 1)];
    let r = eval_program(&program, &(0, HashMap::from_iter([(2, big(3))])));
    assert_eq!(r, (5, HashMap::from_iter([(2, big(2))])));
}

#[test]
fn addition_program() {
    // moves register 1 into register 0
    let program = vec![Sub(1, 1, 2), Add(0, 0), Halt];
    let r = eval_program(&program, &(0, HashMap::from_iter([(0, big(5)), (1, big(4))])));
    assert_eq!(r, (2, HashMap::from_iter([(0, big(9)), (1, big(0))])));
}

#[test]
fn register_value_defaults_to_zero() {
    let regs = HashMap::from_iter([(1u64, big(6))]);
    assert_eq!(register_value(&regs, 1), big(6));
    assert_eq!(register_value(&regs, 2), big(0));
}
