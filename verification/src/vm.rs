//! The virtual machine: a program counter and a fixed array of signed
//! byte-wide cells. Arithmetic wraps around at the width of a cell.

use vstd::prelude::*;

verus! {

/// The number of memory cells.
pub const MEMORY_SIZE: usize = 16384;

#[derive(Debug, Clone, Copy, PartialEq, Eq, Structural)]
pub enum Instruction {
    Mov(usize, usize),
    MovValue(usize, i8),
    Jmp(usize),
    Jnz(usize, usize),
    Not(usize),
    And(usize, usize),
    Or(usize, usize),
    Xor(usize, usize),
    Add(usize, usize),
    Sub(usize, usize),
    Mul(usize, usize),
    Div(usize, usize),
    Mod(usize, usize),
    Cmp(usize, usize),
    Lt(usize, usize),
    Gt(usize, usize),
    ShiftLeft(usize, usize),
    ShiftRight(usize, usize),
}

/// A fault that stops the machine.
#[derive(Debug, Clone, Copy, PartialEq, Eq, Structural)]
pub enum RuntimeError {
    /// The divisor cell of a `Div` or `Mod` holds zero.
    DivisionByZero,
    /// The address lies outside memory, or the program counter cannot advance.
    OutOfRange(usize),
}

/// How a run ended.
#[derive(Debug, Clone, Copy, PartialEq, Eq, Structural)]
pub enum RunOutcome {
    /// The program counter moved past the last instruction.
    Halted,
    /// The step budget ran out first.
    OutOfSteps,
    /// An instruction faulted; the machine is left as it was before it.
    Failed(RuntimeError),
}

/// The machine's state as a mathematical value.
pub ghost struct VmState {
    pub pc: int,
    pub memory: Seq<i8>,
}

/// Reduces an integer to a cell: modulo 256, into `-128..=127`.
pub open spec fn wrap_cell(v: int) -> i8 {
    let m = v % 256;
    if m >= 128 {
        (m - 256) as i8
    } else {
        m as i8
    }
}

pub open spec fn magnitude(v: int) -> int {
    if v < 0 {
        -v
    } else {
        v
    }
}

/// Division that rounds toward zero.
pub open spec fn trunc_div(a: int, b: int) -> int
    recommends
        b != 0,
{
    let q = magnitude(a) / magnitude(b);
    if (a < 0) != (b < 0) {
        -q
    } else {
        q
    }
}

/// The remainder that goes with [`trunc_div`]; it has the sign of `a`.
pub open spec fn trunc_rem(a: int, b: int) -> int
    recommends
        b != 0,
{
    let r = magnitude(a) % magnitude(b);
    if a < 0 {
        -r
    } else {
        r
    }
}

/// Two to the power `k`, for the shift distances `0..8`.
pub open spec fn pow2_small(k: int) -> int {
    if k == 0 {
        1
    } else if k == 1 {
        2
    } else if k == 2 {
        4
    } else if k == 3 {
        8
    } else if k == 4 {
        16
    } else if k == 5 {
        32
    } else if k == 6 {
        64
    } else {
        128
    }
}

/// The first operand address of an instruction.
pub open spec fn first_operand(instruction: Instruction) -> usize {
    match instruction {
        Instruction::Mov(a, _) => a,
        Instruction::MovValue(a, _) => a,
        Instruction::Jmp(a) => a,
        Instruction::Jnz(a, _) => a,
        Instruction::Not(a) => a,
        Instruction::And(a, _) => a,
        Instruction::Or(a, _) => a,
        Instruction::Xor(a, _) => a,
        Instruction::Add(a, _) => a,
        Instruction::Sub(a, _) => a,
        Instruction::Mul(a, _) => a,
        Instruction::Div(a, _) => a,
        Instruction::Mod(a, _) => a,
        Instruction::Cmp(a, _) => a,
        Instruction::Lt(a, _) => a,
        Instruction::Gt(a, _) => a,
        Instruction::ShiftLeft(a, _) => a,
        Instruction::ShiftRight(a, _) => a,
    }
}

/// The second operand address of an instruction, where it has one.
pub open spec fn second_operand(instruction: Instruction) -> Option<usize> {
    match instruction {
        Instruction::Mov(_, b) => Some(b),
        Instruction::MovValue(_, _) => None,
        Instruction::Jmp(_) => None,
        Instruction::Jnz(_, b) => Some(b),
        Instruction::Not(_) => None,
        Instruction::And(_, b) => Some(b),
        Instruction::Or(_, b) => Some(b),
        Instruction::Xor(_, b) => Some(b),
        Instruction::Add(_, b) => Some(b),
        Instruction::Sub(_, b) => Some(b),
        Instruction::Mul(_, b) => Some(b),
        Instruction::Div(_, b) => Some(b),
        Instruction::Mod(_, b) => Some(b),
        Instruction::Cmp(_, b) => Some(b),
        Instruction::Lt(_, b) => Some(b),
        Instruction::Gt(_, b) => Some(b),
        Instruction::ShiftLeft(_, b) => Some(b),
        Instruction::ShiftRight(_, b) => Some(b),
    }
}

/// The fault an instruction raises in a given state, if any. Addresses are
/// examined first operand first, then the divisor, then the program counter.
pub open spec fn spec_fault(state: VmState, instruction: Instruction) -> Option<RuntimeError> {
    let a = first_operand(instruction);
    let b = second_operand(instruction);
    if a >= MEMORY_SIZE {
        Some(RuntimeError::OutOfRange(a))
    } else if b is Some && b->0 >= MEMORY_SIZE {
        Some(RuntimeError::OutOfRange(b->0))
    } else if (instruction is Div || instruction is Mod) && state.memory[b->0 as int] == 0 {
        Some(RuntimeError::DivisionByZero)
    } else if state.pc >= usize::MAX {
        Some(RuntimeError::OutOfRange(usize::MAX))
    } else {
        None
    }
}

/// The value an instruction writes to its destination cell, for the
/// instructions that write one; `x` is the destination's old value and `y`
/// the source's.
pub open spec fn spec_result(instruction: Instruction, x: i8, y: i8) -> i8 {
    match instruction {
        Instruction::Mov(_, _) => y,
        Instruction::MovValue(_, value) => value,
        Instruction::Not(_) => (-1 - x) as i8,
        Instruction::And(_, _) => x & y,
        Instruction::Or(_, _) => x | y,
        Instruction::Xor(_, _) => x ^ y,
        Instruction::Add(_, _) => wrap_cell(x + y),
        Instruction::Sub(_, _) => wrap_cell(x - y),
        Instruction::Mul(_, _) => wrap_cell(x * y),
        Instruction::Div(_, _) => wrap_cell(trunc_div(x as int, y as int)),
        Instruction::Mod(_, _) => wrap_cell(trunc_rem(x as int, y as int)),
        Instruction::Cmp(_, _) => if x == y { 1i8 } else { 0i8 },
        Instruction::Lt(_, _) => if x < y { 1i8 } else { 0i8 },
        Instruction::Gt(_, _) => if x > y { 1i8 } else { 0i8 },
        Instruction::ShiftLeft(_, _) => wrap_cell(x * pow2_small(y as int % 8)),
        Instruction::ShiftRight(_, _) => (x as int / pow2_small(y as int % 8)) as i8,
        _ => x,
    }
}

/// The state after an instruction that does not fault.
pub open spec fn spec_effect(state: VmState, instruction: Instruction) -> VmState {
    let a = first_operand(instruction) as int;
    let b = second_operand(instruction);
    match instruction {
        Instruction::Jmp(addr) => VmState { pc: addr as int, memory: state.memory },
        Instruction::Jnz(addr, cond) => VmState {
            pc: if state.memory[cond as int] != 0 { addr as int } else { state.pc + 1 },
            memory: state.memory,
        },
        _ => {
            let x = state.memory[a];
            let y = if b is Some { state.memory[b->0 as int] } else { 0i8 };
            VmState {
                pc: state.pc + 1,
                memory: state.memory.update(a, spec_result(instruction, x, y)),
            }
        },
    }
}

/// One step of the machine: the fault, or the next state.
pub open spec fn spec_step(state: VmState, instruction: Instruction) -> Result<VmState, RuntimeError> {
    match spec_fault(state, instruction) {
        Some(e) => Err(e),
        None => Ok(spec_effect(state, instruction)),
    }
}

/// The state in which a run of at most `steps` instructions ends, and how.
pub open spec fn spec_run(state: VmState, program: Seq<Instruction>, steps: nat) -> (VmState, RunOutcome)
    decreases steps,
{
    if state.pc >= program.len() {
        (state, RunOutcome::Halted)
    } else if steps == 0 {
        (state, RunOutcome::OutOfSteps)
    } else {
        match spec_step(state, program[state.pc]) {
            Err(e) => (state, RunOutcome::Failed(e)),
            Ok(next) => spec_run(next, program, (steps - 1) as nat),
        }
    }
}

pub struct VM {
    pc: usize,
    ram: [i8; MEMORY_SIZE],
}

impl View for VM {
    type V = VmState;

    closed spec fn view(&self) -> VmState {
        VmState { pc: self.pc as int, memory: self.ram@ }
    }
}

fn wrap_to_cell(v: i32) -> (r: i8)
    requires
        -32768 <= v <= 32768,
    ensures
        r == wrap_cell(v as int),
{
    let u: u32 = (v + 32768) as u32 % 256;
    if u >= 128 {
        (u as i32 - 256) as i8
    } else {
        u as i8
    }
}

fn magnitude_of(v: i8) -> (r: u32)
    ensures
        r == magnitude(v as int),
{
    if v < 0 {
        (-(v as i32)) as u32
    } else {
        v as u32
    }
}

fn shift_distance(v: i8) -> (r: u32)
    ensures
        r == v as int % 8,
{
    ((v as i32) + 128) as u32 % 8
}

fn power_of_two(k: u32) -> (r: i32)
    requires
        k < 8,
    ensures
        r == pow2_small(k as int),
{
    if k == 0 {
        1
    } else if k == 1 {
        2
    } else if k == 2 {
        4
    } else if k == 3 {
        8
    } else if k == 4 {
        16
    } else if k == 5 {
        32
    } else if k == 6 {
        64
    } else {
        128
    }
}

fn compute_result(instruction: Instruction, x: i8, y: i8) -> (r: i8)
    requires
        (instruction is Div || instruction is Mod) ==> y != 0,
    ensures
        r == spec_result(instruction, x, y),
{
    match instruction {
        Instruction::Mov(_, _) => y,
        Instruction::MovValue(_, value) => value,
        Instruction::Not(_) => -1 - x,
        Instruction::And(_, _) => x & y,
        Instruction::Or(_, _) => x | y,
        Instruction::Xor(_, _) => x ^ y,
        Instruction::Add(_, _) => wrap_to_cell(x as i32 + y as i32),
        Instruction::Sub(_, _) => wrap_to_cell(x as i32 - y as i32),
        Instruction::Mul(_, _) => {
            assert(-16384 <= x * y <= 16384) by (nonlinear_arith)
                requires
                    -128 <= x <= 127,
                    -128 <= y <= 127,
            ;
            wrap_to_cell(x as i32 * y as i32)
        },
        Instruction::Div(_, _) => {
            let q: u32 = magnitude_of(x) / magnitude_of(y);
            assert(q <= 128) by (nonlinear_arith)
                requires
                    q == magnitude(x as int) / magnitude(y as int),
                    0 <= magnitude(x as int) <= 128,
                    1 <= magnitude(y as int),
            ;
            if (x < 0) != (y < 0) {
                wrap_to_cell(-(q as i32))
            } else {
                wrap_to_cell(q as i32)
            }
        },
        Instruction::Mod(_, _) => {
            let m: u32 = magnitude_of(x) % magnitude_of(y);
            assert(m <= 128) by (nonlinear_arith)
                requires
                    m == magnitude(x as int) % magnitude(y as int),
                    0 <= magnitude(x as int) <= 128,
                    1 <= magnitude(y as int),
            ;
            if x < 0 {
                wrap_to_cell(-(m as i32))
            } else {
                wrap_to_cell(m as i32)
            }
        },
        Instruction::Cmp(_, _) => if x == y { 1 } else { 0 },
        Instruction::Lt(_, _) => if x < y { 1 } else { 0 },
        Instruction::Gt(_, _) => if x > y { 1 } else { 0 },
        Instruction::ShiftLeft(_, _) => {
            let p: i32 = power_of_two(shift_distance(y));
            assert(-16384 <= x * p <= 16384) by (nonlinear_arith)
                requires
                    -128 <= x <= 127,
                    1 <= p <= 128,
            ;
            wrap_to_cell(x as i32 * p)
        },
        Instruction::ShiftRight(_, _) => {
            let p: u32 = power_of_two(shift_distance(y)) as u32;
            let shifted: u32 = (x as i32 + 128) as u32 / p;
            let bias: u32 = 128 / p;
            assert(shifted as int - bias as int == x as int / pow2_small(y as int % 8)) by {
                let k = y as int % 8;
                assert(p == pow2_small(k));
                assert(k == 0 || k == 1 || k == 2 || k == 3 || k == 4 || k == 5 || k == 6 || k == 7);
            }
            (shifted as i32 - bias as i32) as i8
        },
        _ => x,
    }
}

impl VM {
    /// A machine at the first instruction, every cell zero.
    pub fn new() -> (r: Self)
        ensures
            r@.pc == 0,
            r@.memory == Seq::new(MEMORY_SIZE as nat, |i: int| 0i8),
    {
        let vm = Self { pc: 0, ram: vstd::array::array_fill_for_copy_types(0i8) };
        assert(vm.ram@ =~= Seq::new(MEMORY_SIZE as nat, |i: int| 0i8));
        vm
    }

    /// The program counter.
    pub fn pc(&self) -> (r: usize)
        ensures
            r == self@.pc,
    {
        self.pc
    }

    /// The memory always has `MEMORY_SIZE` cells.
    pub proof fn lemma_memory_len(&self)
        ensures
            self@.memory.len() == MEMORY_SIZE,
            0 <= self@.pc <= usize::MAX,
    {
    }

    /// The value of the cell at `addr`, or `None` outside memory.
    pub fn read(&self, addr: usize) -> (r: Option<i8>)
        ensures
            r == (if addr < MEMORY_SIZE { Some(self@.memory[addr as int]) } else { None }),
    {
        if addr < MEMORY_SIZE {
            Some(self.ram[addr])
        } else {
            None
        }
    }

    /// Executes one instruction. A fault leaves the machine untouched.
    pub fn run_instruction(&mut self, instruction: Instruction) -> (r: Result<(), RuntimeError>)
        ensures
            match spec_step(old(self)@, instruction) {
                Ok(next) => r is Ok && final(self)@ == next,
                Err(e) => r == Err::<(), RuntimeError>(e) && *final(self) == *old(self),
            },
    {
        let (a, b): (usize, Option<usize>) = match instruction {
            Instruction::Mov(a, b) => (a, Some(b)),
            Instruction::MovValue(a, _) => (a, None),
            Instruction::Jmp(a) => (a, None),
            Instruction::Jnz(a, b) => (a, Some(b)),
            Instruction::Not(a) => (a, None),
            Instruction::And(a, b) => (a, Some(b)),
            Instruction::Or(a, b) => (a, Some(b)),
            Instruction::Xor(a, b) => (a, Some(b)),
            Instruction::Add(a, b) => (a, Some(b)),
            Instruction::Sub(a, b) => (a, Some(b)),
            Instruction::Mul(a, b) => (a, Some(b)),
            Instruction::Div(a, b) => (a, Some(b)),
            Instruction::Mod(a, b) => (a, Some(b)),
            Instruction::Cmp(a, b) => (a, Some(b)),
            Instruction::Lt(a, b) => (a, Some(b)),
            Instruction::Gt(a, b) => (a, Some(b)),
            Instruction::ShiftLeft(a, b) => (a, Some(b)),
            Instruction::ShiftRight(a, b) => (a, Some(b)),
        };
        if a >= MEMORY_SIZE {
            return Err(RuntimeError::OutOfRange(a));
        }
        let y: i8 = match b {
            Some(b) => {
                if b >= MEMORY_SIZE {
                    return Err(RuntimeError::OutOfRange(b));
                }
                self.ram[b]
            },
            None => 0,
        };
        let divides: bool = match instruction {
            Instruction::Div(_, _) => true,
            Instruction::Mod(_, _) => true,
            _ => false,
        };
        if divides && y == 0 {
            return Err(RuntimeError::DivisionByZero);
        }
        if self.pc == usize::MAX {
            return Err(RuntimeError::OutOfRange(usize::MAX));
        }
        match instruction {
            Instruction::Jmp(addr) => {
                self.pc = addr;
            },
            Instruction::Jnz(addr, _) => {
                if y != 0 {
                    self.pc = addr;
                } else {
                    self.pc = self.pc + 1;
                }
            },
            _ => {
                let x: i8 = self.ram[a];
                let value: i8 = compute_result(instruction, x, y);
                self.ram[a] = value;
                self.pc = self.pc + 1;
            },
        }
        Ok(())
    }

    /// Runs `program` from the current program counter until the counter
    /// leaves the program, an instruction faults, or `max_steps`
    /// instructions have been executed.
    pub fn run(&mut self, program: &Vec<Instruction>, max_steps: usize) -> (r: RunOutcome)
        ensures
            (final(self)@, r) == spec_run(old(self)@, program@, max_steps as nat),
    {
        let mut left: usize = max_steps;
        loop
            invariant
                spec_run(self@, program@, left as nat) == spec_run(old(self)@, program@, max_steps as nat),
            decreases left,
        {
            if self.pc >= program.len() {
                return RunOutcome::Halted;
            }
            if left == 0 {
                return RunOutcome::OutOfSteps;
            }
            match self.run_instruction(program[self.pc]) {
                Ok(()) => {},
                Err(e) => {
                    return RunOutcome::Failed(e);
                },
            }
            left = left - 1;
        }
    }
}

} // verus!
