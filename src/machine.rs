//! The evaluator: runs a program against a register state.
//!
//! A state is a label and a map from registers to numbers; a register that is
//! not in the map reads as zero. A run stops at a `Halt` or at a label past
//! the end of the program; it need not stop at all.
use crate::bignum::{big_add_small, big_clone, big_is_zero, big_sub_small, big_value, big_zero};
use crate::program::{Instruction, Label, Register};
use num_bigint::BigUint;
use std::collections::HashMap;
use vstd::prelude::*;

verus! {

broadcast use vstd::std_specs::hash::group_hash_axioms;

/// The label of the next instruction and the registers.
pub type State = (Label, HashMap<Register, BigUint>);

/// A state as the numbers it holds.
pub type Config = (Label, Map<Register, nat>);

/// The numbers held by a map of registers.
pub open spec fn registers(m: Map<Register, BigUint>) -> Map<Register, nat> {
    m.map_values(|b: BigUint| big_value(b))
}

/// The configuration a state stands for.
pub open spec fn config(s: State) -> Config {
    (s.0, registers(s.1@))
}

/// The value of a register; zero where it is absent.
pub open spec fn read(regs: Map<Register, nat>, r: Register) -> nat {
    if regs.contains_key(r) {
        regs[r]
    } else {
        0
    }
}

/// Whether a run at this label stops: past the end, or at a `Halt`.
pub open spec fn halted(p: Seq<Instruction>, label: Label) -> bool {
    label >= p.len() || p[label as int] is Halt
}

/// One step of the machine; a stopped configuration stays as it is.
pub open spec fn step(p: Seq<Instruction>, c: Config) -> Config {
    if halted(p, c.0) {
        c
    } else {
        match p[c.0 as int] {
            Instruction::Add(r, l) => (l, c.1.insert(r, read(c.1, r) + 1)),
            Instruction::Sub(r, l1, l2) => if read(c.1, r) == 0 {
                (l2, c.1.insert(r, 0))
            } else {
                (l1, c.1.insert(r, (read(c.1, r) - 1) as nat))
            },
            Instruction::Halt => c,
        }
    }
}

/// The configuration after `n` steps.
pub open spec fn run(p: Seq<Instruction>, c: Config, n: nat) -> Config
    decreases n,
{
    if n == 0 {
        c
    } else {
        step(p, run(p, c, (n - 1) as nat))
    }
}

/// Whether a run from `c` stops after finitely many steps.
pub open spec fn terminates(p: Seq<Instruction>, c: Config) -> bool {
    exists|n: nat| halted(p, #[trigger] run(p, c, n).0)
}

/// Once a run has stopped, further steps change nothing.
pub proof fn lemma_run_stays_halted(p: Seq<Instruction>, c: Config, k: nat, n: nat)
    requires
        halted(p, run(p, c, k).0),
        k <= n,
    ensures
        run(p, c, n) == run(p, c, k),
    decreases n - k,
{
    if n > k {
        lemma_run_stays_halted(p, c, k, (n - 1) as nat);
    }
}

/// A run stops in one configuration only: every stopped point of the run is
/// the same configuration.
pub proof fn lemma_halted_run_unique(p: Seq<Instruction>, c: Config, k: nat)
    requires
        halted(p, run(p, c, k).0),
    ensures
        forall|n: nat| halted(p, #[trigger] run(p, c, n).0) ==> run(p, c, n) == run(p, c, k),
{
    assert forall|n: nat| halted(p, #[trigger] run(p, c, n).0) implies run(p, c, n) == run(
        p,
        c,
        k,
    ) by {
        if n >= k {
            lemma_run_stays_halted(p, c, k, n);
        } else {
            lemma_run_stays_halted(p, c, n, k);
        }
    }
}

/// A run from a label past the end of the program stops at once, in the
/// state it started from: `run(p, c, n) == c` for every `n`.
pub proof fn lemma_run_past_end(p: Seq<Instruction>, c: Config, n: nat)
    requires
        c.0 >= p.len(),
    ensures
        run(p, c, n) == c,
{
    lemma_run_stays_halted(p, c, 0, n);
}

/// The value of register `r`; zero where the map does not hold it.
pub fn register_value(regs: &HashMap<Register, BigUint>, r: Register) -> (v: BigUint)
    ensures
        big_value(v) == read(registers(regs@), r),
{
    match regs.get(&r) {
        Some(b) => big_clone(b),
        None => big_zero(),
    }
}

/// Runs `program` from `state` until it reaches a `Halt` or a label past the
/// end, and returns the state there. `state` itself is left as it is.
pub fn eval_program(program: &[Instruction], state: &State) -> (r: State)
    requires
        terminates(program@, config(*state)),
    ensures
        halted(program@, r.0),
        forall|n: nat|
            halted(program@, #[trigger] run(program@, config(*state), n).0) ==> config(r) == run(
                program@,
                config(*state),
                n,
            ),
        state.0 >= program@.len() ==> r.0 == state.0 && r.1@ == state.1@,
{
    let ghost p = program@;
    let ghost c0 = config(*state);
    let ghost n_end = choose|n: nat| halted(p, #[trigger] run(p, c0, n).0);
    let ghost mut k: nat = 0;
    let mut label: Label = state.0;
    let mut regs: HashMap<Register, BigUint> = state.1.clone();
    while label < program.len()
        invariant
            p == program@,
            c0 == config(*state),
            halted(p, run(p, c0, n_end).0),
            k <= n_end,
            (label, registers(regs@)) == run(p, c0, k),
            state.0 >= program@.len() ==> label == state.0 && regs@ == state.1@,
        decreases n_end - k,
    {
        match program[label] {
            Instruction::Add(r, l) => {
                let v = big_add_small(register_value(&regs, r), 1);
                proof {
                    assert(registers(regs@.insert(r, v)) =~= registers(regs@).insert(
                        r,
                        big_value(v),
                    ));
                }
                regs.insert(r, v);
                label = l;
            },
            Instruction::Sub(r, l1, l2) => {
                let v = register_value(&regs, r);
                if big_is_zero(&v) {
                    let z = big_zero();
                    proof {
                        assert(registers(regs@.insert(r, z)) =~= registers(regs@).insert(r, 0));
                    }
                    regs.insert(r, z);
                    label = l2;
                } else {
                    let w = big_sub_small(v, 1);
                    proof {
                        assert(registers(regs@.insert(r, w)) =~= registers(regs@).insert(
                            r,
                            big_value(w),
                        ));
                    }
                    regs.insert(r, w);
                    label = l1;
                }
            },
            Instruction::Halt => {
                proof {
                    lemma_halted_run_unique(p, c0, k);
                }
                return (label, regs);
            },
        }
        proof {
            assert(k < n_end);
            k = k + 1;
        }
    }
    proof {
        lemma_halted_run_unique(p, c0, k);
    }
    (label, regs)
}

} // verus!
