//! Register-machine programs and their numbering.
//!
//! Each instruction is one natural number: `Halt` is 0, `Add(r, l)` is
//! `pair1(2r, l)` and `Sub(r, l1, l2)` is `pair1(2r + 1, pair2(l1, l2))`. A
//! program is the list of its instructions' numbers, in program order.
use crate::bignum::{
    big_div_small, big_from_u128, big_is_zero, big_rem_small, big_sub_small, big_to_u64,
    big_to_usize, big_value, big_values, big_zero,
};
use crate::pairing::{
    decode_pair1, decode_pair2, encode_pair1, encode_pair2, lemma_unpair1_pair1, pair1, pair2,
    unpair1, unpair2,
};
use num_bigint::BigUint;
use vstd::prelude::*;

verus! {

/// An index into a program.
pub type Label = usize;

/// The name of a register.
pub type Register = u64;

/// One instruction of a register machine.
#[derive(Clone, Copy, Debug, PartialEq, Eq, Structural)]
pub enum Instruction {
    /// Increment the register, then go to the label.
    Add(Register, Label),
    /// If the register is nonzero, decrement it and go to the first label;
    /// otherwise go to the second label.
    Sub(Register, Label, Label),
    /// Stop.
    Halt,
}

/// The part of an encoded instruction that does not fit its fixed-width type.
#[derive(Clone, Copy, Debug, PartialEq, Eq, Structural)]
pub enum Field {
    /// The register of an `Add` or a `Sub`.
    Register,
    /// The label of an `Add`.
    NextLabel,
    /// The label a `Sub` goes to when the register is nonzero.
    NonZeroLabel,
    /// The label a `Sub` goes to when the register is zero.
    ZeroLabel,
}

/// A number of a program's list that names a register or a label too large
/// for its type: the position of the number in the list, and the field.
#[derive(Clone, Copy, Debug, PartialEq, Eq, Structural)]
pub struct ConversionOverflow {
    pub index: usize,
    pub field: Field,
}

/// The number that encodes an instruction.
pub open spec fn instruction_code(i: Instruction) -> nat {
    match i {
        Instruction::Add(r, l) => pair1(2 * r as nat, l as nat),
        Instruction::Sub(r, l1, l2) => pair1((2 * r + 1) as nat, pair2(l1 as nat, l2 as nat)),
        Instruction::Halt => 0,
    }
}

/// The instruction that a number encodes, or the first field (register,
/// then labels in order) that does not fit its type.
pub open spec fn decoded_instruction(n: nat) -> Result<Instruction, Field> {
    if n == 0 {
        Ok(Instruction::Halt)
    } else {
        let y = unpair1(n).0;
        let z = unpair1(n).1;
        if y % 2 == 0 {
            if y / 2 > u64::MAX {
                Err(Field::Register)
            } else if z > usize::MAX {
                Err(Field::NextLabel)
            } else {
                Ok(Instruction::Add((y / 2) as u64, z as usize))
            }
        } else {
            let j = unpair2(z).0;
            let k = unpair2(z).1;
            if (y - 1) / 2 > u64::MAX {
                Err(Field::Register)
            } else if j > usize::MAX {
                Err(Field::NonZeroLabel)
            } else if k > usize::MAX {
                Err(Field::ZeroLabel)
            } else {
                Ok(Instruction::Sub(((y - 1) / 2) as u64, j as usize, k as usize))
            }
        }
    }
}

/// The list of numbers that encodes a program.
pub open spec fn program_codes(p: Seq<Instruction>) -> Seq<nat> {
    p.map_values(|i: Instruction| instruction_code(i))
}

/// The program that a list of numbers encodes, or the error at its first
/// number that does not decode.
pub open spec fn decoded_program(s: Seq<nat>) -> Result<Seq<Instruction>, ConversionOverflow>
    decreases s.len(),
{
    if s.len() == 0 {
        Ok(Seq::empty())
    } else {
        match decoded_program(s.drop_last()) {
            Err(e) => Err(e),
            Ok(p) => match decoded_instruction(s.last()) {
                Ok(i) => Ok(p.push(i)),
                Err(f) => Err(ConversionOverflow { index: (s.len() - 1) as usize, field: f }),
            },
        }
    }
}

/// Every instruction decodes from its own number.
pub proof fn lemma_decode_instruction_code(i: Instruction)
    ensures
        decoded_instruction(instruction_code(i)) == Ok::<Instruction, Field>(i),
{
    match i {
        Instruction::Add(r, l) => {
            lemma_unpair1_pair1(2 * r as nat, l as nat);
            assert((2 * r) as nat / 2 == r);
        },
        Instruction::Sub(r, l1, l2) => {
            lemma_unpair1_pair1((2 * r + 1) as nat, pair2(l1 as nat, l2 as nat));
            lemma_unpair1_pair1(l1 as nat, l2 as nat);
        },
        Instruction::Halt => {},
    }
}

/// Decoding the numbers of a program gives back the program: for every
/// program `p`, `decoded_program(program_codes(p)) == Ok(p)`.
pub proof fn lemma_decode_program_codes(p: Seq<Instruction>)
    ensures
        decoded_program(program_codes(p)) == Ok::<Seq<Instruction>, ConversionOverflow>(p),
    decreases p.len(),
{
    if p.len() > 0 {
        let s = program_codes(p);
        lemma_decode_program_codes(p.drop_last());
        assert(s.drop_last() =~= program_codes(p.drop_last()));
        lemma_decode_instruction_code(p.last());
        assert(s.last() == instruction_code(p.last()));
        assert(p.drop_last().push(p.last()) =~= p);
    } else {
        assert(p =~= Seq::<Instruction>::empty());
    }
}

/// Once a prefix of a list fails to decode, the whole list fails with the
/// same error.
proof fn lemma_decoded_program_err(s: Seq<nat>, i: int)
    requires
        0 <= i <= s.len(),
        decoded_program(s.subrange(0, i)) is Err,
    ensures
        decoded_program(s) == decoded_program(s.subrange(0, i)),
    decreases s.len() - i,
{
    if i == s.len() {
        assert(s.subrange(0, i) =~= s);
    } else {
        assert(s.drop_last().subrange(0, i) =~= s.subrange(0, i));
        lemma_decoded_program_err(s.drop_last(), i);
    }
}

/// The number that encodes one instruction.
pub fn encode_instruction(i: &Instruction) -> (r: BigUint)
    ensures
        big_value(r) == instruction_code(*i),
{
    match *i {
        Instruction::Add(r, l) => encode_pair1(
            &big_from_u128(2 * (r as u128)),
            &big_from_u128(l as u128),
        ),
        Instruction::Sub(r, l1, l2) => encode_pair1(
            &big_from_u128(2 * (r as u128) + 1),
            &encode_pair2(&big_from_u128(l1 as u128), &big_from_u128(l2 as u128)),
        ),
        Instruction::Halt => big_zero(),
    }
}

/// The list of numbers that encodes a program, one per instruction.
pub fn encode_program_to_list(program: &[Instruction]) -> (r: Vec<BigUint>)
    ensures
        big_values(r@) == program_codes(program@),
{
    let mut out: Vec<BigUint> = Vec::new();
    let mut i: usize = 0;
    while i < program.len()
        invariant
            i <= program@.len(),
            big_values(out@) =~= program_codes(program@.subrange(0, i as int)),
        decreases program@.len() - i,
    {
        let code = encode_instruction(&program[i]);
        out.push(code);
        i = i + 1;
        assert(program_codes(program@.subrange(0, i as int)) =~= program_codes(
            program@.subrange(0, i - 1),
        ).push(instruction_code(program@[i - 1])));
    }
    assert(program@.subrange(0, i as int) =~= program@);
    out
}

/// The instruction that one number encodes, or the first field that does not
/// fit its type.
pub fn decode_instruction(p: &BigUint) -> (r: Result<Instruction, Field>)
    ensures
        r == decoded_instruction(big_value(*p)),
{
    if big_is_zero(p) {
        return Ok(Instruction::Halt);
    }
    let (y, z) = decode_pair1(p);
    if big_is_zero(&big_rem_small(&y, 2)) {
        let r = match big_to_u64(&big_div_small(y, 2)) {
            Some(v) => v,
            None => return Err(Field::Register),
        };
        let l = match big_to_usize(&z) {
            Some(v) => v,
            None => return Err(Field::NextLabel),
        };
        Ok(Instruction::Add(r, l))
    } else {
        let (j, k) = decode_pair2(&z);
        let r = match big_to_u64(&big_div_small(big_sub_small(y, 1), 2)) {
            Some(v) => v,
            None => return Err(Field::Register),
        };
        let l1 = match big_to_usize(&j) {
            Some(v) => v,
            None => return Err(Field::NonZeroLabel),
        };
        let l2 = match big_to_usize(&k) {
            Some(v) => v,
            None => return Err(Field::ZeroLabel),
        };
        Ok(Instruction::Sub(r, l1, l2))
    }
}

/// The program that a list of numbers encodes. Fails at the first number
/// that names a register or a label too large for its type.
pub fn decode_list_to_program(program: &[BigUint]) -> (r: Result<Vec<Instruction>, ConversionOverflow>)
    ensures
        match r {
            Ok(v) => decoded_program(big_values(program@))
                == Ok::<Seq<Instruction>, ConversionOverflow>(v@),
            Err(e) => decoded_program(big_values(program@))
                == Err::<Seq<Instruction>, ConversionOverflow>(e),
        },
{
    let ghost vals = big_values(program@);
    let mut out: Vec<Instruction> = Vec::new();
    let mut i: usize = 0;
    while i < program.len()
        invariant
            i <= program@.len(),
            vals == big_values(program@),
            decoded_program(vals.subrange(0, i as int))
                == Ok::<Seq<Instruction>, ConversionOverflow>(out@),
        decreases program@.len() - i,
    {
        let ghost prefix = vals.subrange(0, i + 1);
        proof {
            assert(prefix.drop_last() =~= vals.subrange(0, i as int));
        }
        match decode_instruction(&program[i]) {
            Ok(ins) => {
                out.push(ins);
            },
            Err(f) => {
                let e = ConversionOverflow { index: i, field: f };
                proof {
                    lemma_decoded_program_err(vals, i + 1);
                }
                return Err(e);
            },
        }
        i = i + 1;
    }
    assert(vals.subrange(0, i as int) =~= vals);
    Ok(out)
}

} // verus!
