//! The execution engine: two registers and a program counter stepping
//! through a resolved program.

use vstd::prelude::*;
use crate::display::{leds, leds_to_string};
use crate::instruction::{rotate_left8, rotate_right8, rotl8, rotr8, Instruction};

verus! {

/// The machine's state: accumulator, loop counter and program counter.
#[derive(Clone, Copy, Debug, PartialEq, Eq, Structural)]
pub struct Machine {
    pub register_a: u8,
    pub register_b: u8,
    pub pc: usize,
}

/// The state a run starts from: everything zero.
pub open spec fn initial_machine() -> Machine {
    Machine { register_a: 0, register_b: 0, pc: 0 }
}

/// Whether `m` has run off the end of `program`.
pub open spec fn halted(program: Seq<Instruction>, m: Machine) -> bool {
    m.pc >= program.len()
}

/// The state after executing the instruction at `m.pc`. A jump decrements
/// the counter, stopping at zero, and jumps while the counter stays
/// positive.
pub open spec fn next_state(program: Seq<Instruction>, m: Machine) -> Machine {
    let next = (m.pc + 1) as usize;
    match program[m.pc as int] {
        Instruction::LoadA(v) => Machine { register_a: v, pc: next, ..m },
        Instruction::LoadB(v) => Machine { register_b: v, pc: next, ..m },
        Instruction::Out => Machine { pc: next, ..m },
        Instruction::Rlca => Machine { register_a: rotl8(m.register_a, 1), pc: next, ..m },
        Instruction::Rrca => Machine { register_a: rotr8(m.register_a, 1), pc: next, ..m },
        Instruction::Djnz { index } => {
            let b = if m.register_b > 0 {
                (m.register_b - 1) as u8
            } else {
                0u8
            };
            Machine { register_b: b, pc: if b > 0 { index } else { next }, ..m }
        },
    }
}

/// What executing the instruction at `m.pc` shows: the LED row for an `Out`,
/// nothing otherwise.
pub open spec fn emitted(program: Seq<Instruction>, m: Machine) -> Seq<Seq<char>> {
    if program[m.pc as int] is Out {
        seq![leds(m.register_a)]
    } else {
        Seq::empty()
    }
}

/// At most `fuel` steps from `m`, stopping early on halting: the LED rows
/// shown, in order, and the state reached.
pub open spec fn run_model(program: Seq<Instruction>, m: Machine, fuel: nat) -> (
    Seq<Seq<char>>,
    Machine,
)
    decreases fuel,
{
    if fuel == 0 || halted(program, m) {
        (Seq::empty(), m)
    } else {
        let rest = run_model(program, next_state(program, m), (fuel - 1) as nat);
        (emitted(program, m) + rest.0, rest.1)
    }
}

impl Machine {
    /// The machine as a run starts: everything zero.
    pub fn new() -> (r: Machine)
        ensures
            r == initial_machine(),
    {
        Machine { register_a: 0, register_b: 0, pc: 0 }
    }

    /// Whether the program counter has run off the end of `program`.
    pub fn is_halted(&self, program: &Vec<Instruction>) -> (r: bool)
        ensures
            r == halted(program@, *self),
    {
        self.pc >= program.len()
    }

    /// Executes the instruction at the program counter; returns the LED row
    /// when it is an `Out`.
    pub fn step(&mut self, program: &Vec<Instruction>) -> (out: Option<String>)
        requires
            !halted(program@, *old(self)),
        ensures
            *final(self) == next_state(program@, *old(self)),
            out is Some == program@[old(self).pc as int] is Out,
            out matches Some(s) ==> seq![s@] == emitted(program@, *old(self)),
    {
        let n = program.len();
        assert(self.pc < n);
        let next = self.pc + 1;
        match program[self.pc] {
            Instruction::LoadA(v) => {
                self.register_a = v;
                self.pc = next;
                None
            },
            Instruction::LoadB(v) => {
                self.register_b = v;
                self.pc = next;
                None
            },
            Instruction::Out => {
                let shown = leds_to_string(self.register_a);
                self.pc = next;
                Some(shown)
            },
            Instruction::Rlca => {
                self.register_a = rotate_left8(self.register_a, 1);
                self.pc = next;
                None
            },
            Instruction::Rrca => {
                self.register_a = rotate_right8(self.register_a, 1);
                self.pc = next;
                None
            },
            Instruction::Djnz { index } => {
                if self.register_b > 0 {
                    self.register_b = self.register_b - 1;
                }
                if self.register_b > 0 {
                    self.pc = index;
                } else {
                    self.pc = next;
                }
                None
            },
        }
    }
}

/// A bounded run: the LED rows shown and the state reached.
pub struct Execution {
    pub outputs: Vec<String>,
    pub machine: Machine,
}

/// Runs `program` from the initial state until it halts or `max_steps`
/// instructions have executed.
pub fn run(program: &Vec<Instruction>, max_steps: usize) -> (r: Execution)
    ensures
        r.outputs@.map_values(|s: String| s@) == run_model(
            program@,
            initial_machine(),
            max_steps as nat,
        ).0,
        r.machine == run_model(program@, initial_machine(), max_steps as nat).1,
{
    let ghost whole = run_model(program@, initial_machine(), max_steps as nat);
    let mut outputs: Vec<String> = Vec::new();
    let mut machine = Machine::new();
    let mut left: usize = max_steps;
    assert(outputs@.map_values(|s: String| s@) + run_model(program@, machine, left as nat).0
        =~= whole.0);
    while left > 0 && !machine.is_halted(program)
        invariant
            outputs@.map_values(|s: String| s@) + run_model(program@, machine, left as nat).0
                == whole.0,
            run_model(program@, machine, left as nat).1 == whole.1,
        decreases left,
    {
        let ghost before = machine;
        let ghost shown = outputs@.map_values(|s: String| s@);
        let out = machine.step(program);
        match out {
            Some(s) => {
                outputs.push(s);
                assert(outputs@.map_values(|s: String| s@) =~= shown + emitted(program@, before));
            },
            None => {
                assert(outputs@.map_values(|s: String| s@) =~= shown + emitted(program@, before));
            },
        }
        left = left - 1;
        assert(run_model(program@, before, (left + 1) as nat).0 == emitted(program@, before)
            + run_model(program@, machine, left as nat).0);
        assert(outputs@.map_values(|s: String| s@) + run_model(program@, machine, left as nat).0
            =~= shown + run_model(program@, before, (left + 1) as nat).0);
    }
    assert(run_model(program@, machine, left as nat).0 =~= Seq::<Seq<char>>::empty());
    assert(outputs@.map_values(|s: String| s@) =~= whole.0);
    Execution { outputs, machine }
}

} // verus!
