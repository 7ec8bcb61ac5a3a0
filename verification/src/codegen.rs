//! The code generator: a checked tree to a straight line of instructions.
//!
//! Intermediate results live in scratch cells handed out by a bump
//! allocator. A literal is reduced to the width of a cell by wrapping
//! around, as the machine's own arithmetic does.

use vstd::prelude::*;
use crate::checker::{CheckedExpression, CheckedView, decimal_value, literal_value, spec_literal_value};
use crate::vm::{Instruction, MEMORY_SIZE, RunOutcome, VmState, spec_effect, spec_run, spec_step, wrap_cell};

verus! {

/// A bump allocator over cell indices: the cells below `next` are in use,
/// those from `next` up to `limit` are free.
pub struct CellPool {
    pub next: usize,
    pub limit: usize,
}

impl CellPool {
    pub open spec fn wf(&self) -> bool {
        self.next <= self.limit
    }

    /// A pool of `limit` cells, all free.
    pub fn new(limit: usize) -> (r: Self)
        ensures
            r.wf(),
            r.next == 0,
            r.limit == limit,
    {
        Self { next: 0, limit }
    }

    /// Hands out the lowest free cell, or `None` when none is left.
    pub fn allocate(&mut self) -> (r: Option<usize>)
        ensures
            old(self).wf() ==> final(self).wf(),
            final(self).limit == old(self).limit,
            old(self).next < old(self).limit ==> r == Some(old(self).next) && final(self).next == old(self).next + 1,
            old(self).next >= old(self).limit ==> r is None && final(self).next == old(self).next,
    {
        if self.next < self.limit {
            let cell: usize = self.next;
            self.next = self.next + 1;
            Some(cell)
        } else {
            None
        }
    }

    /// Frees `cell` and every cell handed out after it. Returns whether
    /// `cell` was in use; if it was not, nothing changes.
    pub fn release(&mut self, cell: usize) -> (r: bool)
        ensures
            old(self).wf() ==> final(self).wf(),
            final(self).limit == old(self).limit,
            r == (cell < old(self).next),
            final(self).next == (if cell < old(self).next { cell } else { old(self).next }),
    {
        if cell < self.next {
            self.next = cell;
            true
        } else {
            false
        }
    }

    /// Raises the pool's limit by `extra` cells, as far as indices allow.
    pub fn grow(&mut self, extra: usize)
        ensures
            old(self).wf() ==> final(self).wf(),
            final(self).next == old(self).next,
            final(self).limit == (if old(self).limit + extra > usize::MAX { usize::MAX } else {
                (old(self).limit + extra) as usize
            }),
    {
        self.limit = if extra > usize::MAX - self.limit {
            usize::MAX
        } else {
            self.limit + extra
        };
    }
}

/// The code for a tree whose result goes to cell `base`, with the cells
/// from `base` to `limit` free, or `None` if the tree cannot be lowered.
///
/// A literal loads its value, wrapped to a cell, into `base`. A sum
/// computes its left operand into `base`, its right operand into
/// `base + 1`, and adds the second cell to the first. A group is the code
/// of what it encloses. A tree with a failed node or a literal without a
/// value has no code, nor has one that needs a cell at or beyond `limit`.
pub open spec fn spec_generate(tree: CheckedView, base: int, limit: int) -> Option<Seq<Instruction>>
    decreases tree,
{
    match tree {
        CheckedView::Int(text, _, _) => if spec_literal_value(text) is Ok && 0 <= base < limit {
            Some(seq![Instruction::MovValue(base as usize, wrap_cell(decimal_value(text)))])
        } else {
            None
        },
        CheckedView::Add(left, right, _, _) => {
            let l = spec_generate(*left, base, limit);
            let r = spec_generate(*right, base + 1, limit);
            if l is Some && r is Some {
                Some(l->0 + r->0 + seq![Instruction::Add(base as usize, (base + 1) as usize)])
            } else {
                None
            }
        },
        CheckedView::Expression(inner, _, _) => spec_generate(*inner, base, limit),
        CheckedView::Invalid(_, _) => None,
    }
}

/// Code is generated only for a tree that is typed throughout, with a
/// free cell at `base`, and it holds at least one instruction.
pub proof fn lemma_generate_some(tree: CheckedView, base: int, limit: int)
    ensures
        spec_generate(tree, base, limit) is Some ==> tree.well_typed() && 0 <= base < limit
            && spec_generate(tree, base, limit)->0.len() > 0,
    decreases tree,
{
    match tree {
        CheckedView::Add(left, right, _, _) => {
            lemma_generate_some(*left, base, limit);
            lemma_generate_some(*right, base + 1, limit);
        },
        CheckedView::Expression(inner, _, _) => {
            lemma_generate_some(*inner, base, limit);
        },
        _ => {},
    }
}

fn cell_of(value: u32) -> (r: i8)
    ensures
        r == wrap_cell(value as int),
{
    let low: u32 = value % 256;
    if low >= 128 {
        (low as i32 - 256) as i8
    } else {
        low as i8
    }
}

/// Appends the code of `tree` to `code`, taking cells from `pool`. Returns
/// the cell that holds the result; afterwards that cell alone stays taken.
pub fn generate_into(tree: &CheckedExpression, pool: &mut CellPool, code: &mut Vec<Instruction>) -> (r:
    Option<usize>)
    ensures
        old(pool).wf() ==> final(pool).wf(),
        final(pool).limit == old(pool).limit,
        match spec_generate(tree@, old(pool).next as int, old(pool).limit as int) {
            Some(emitted) => r == Some(old(pool).next) && final(code)@ == old(code)@ + emitted && final(pool).next == old(pool).next + 1,
            None => r is None,
        },
    decreases tree,
{
    match tree {
        CheckedExpression::Int(text, _, _) => {
            match literal_value(text.as_str()) {
                Ok(value) => {
                    match pool.allocate() {
                        Some(cell) => {
                            code.push(Instruction::MovValue(cell, cell_of(value)));
                            assert(code@ =~= old(code)@ + seq![
                                Instruction::MovValue(cell, wrap_cell(decimal_value(text@))),
                            ]);
                            Some(cell)
                        },
                        None => None,
                    }
                },
                Err(_) => None,
            }
        },
        CheckedExpression::Add(left, right, _, _) => {
            let ghost base = pool.next as int;
            let ghost limit = pool.limit as int;
            let l: usize = match generate_into(left, pool, code) {
                Some(cell) => cell,
                None => {
                    return None;
                },
            };
            let r: usize = match generate_into(right, pool, code) {
                Some(cell) => cell,
                None => {
                    return None;
                },
            };
            code.push(Instruction::Add(l, r));
            pool.release(r);
            proof {
                let cl = spec_generate(left@, base, limit)->0;
                let cr = spec_generate(right@, base + 1, limit)->0;
                assert(code@ =~= old(code)@ + (cl + cr + seq![Instruction::Add(l, r)]));
            }
            Some(l)
        },
        CheckedExpression::Expression(inner, _, _) => generate_into(inner, pool, code),
        CheckedExpression::Invalid(_, _) => None,
    }
}

/// Lowers a checked tree to instructions that leave its value in cell 0,
/// using the machine's whole memory as scratch cells. Returns `None` for a
/// tree that has no code.
pub fn generate(tree: &CheckedExpression) -> (r: Option<Vec<Instruction>>)
    ensures
        match spec_generate(tree@, 0, MEMORY_SIZE as int) {
            Some(emitted) => r is Some && r->0@ == emitted,
            None => r is None,
        },
{
    let mut pool = CellPool::new(MEMORY_SIZE);
    let mut code: Vec<Instruction> = Vec::new();
    match generate_into(tree, &mut pool, &mut code) {
        Some(_) => {
            assert(code@ =~= spec_generate(tree@, 0, MEMORY_SIZE as int)->0);
            Some(code)
        },
        None => None,
    }
}

/// The state after the code of `tree` for cell `base` ran from `state`.
pub open spec fn state_after_code(tree: CheckedView, base: int, state: VmState) -> VmState
    decreases tree,
{
    match tree {
        CheckedView::Int(text, _, _) => spec_effect(
            state,
            Instruction::MovValue(base as usize, wrap_cell(decimal_value(text))),
        ),
        CheckedView::Add(left, right, _, _) => spec_effect(
            state_after_code(*right, base + 1, state_after_code(*left, base, state)),
            Instruction::Add(base as usize, (base + 1) as usize),
        ),
        CheckedView::Expression(inner, _, _) => state_after_code(*inner, base, state),
        CheckedView::Invalid(_, _) => state,
    }
}

/// Adding two wrapped numbers and wrapping the sum is wrapping the sum of
/// the numbers.
pub proof fn lemma_wrap_cell_add(a: int, b: int)
    ensures
        wrap_cell(wrap_cell(a) + wrap_cell(b)) == wrap_cell(a + b),
{
    let x = wrap_cell(a) as int;
    let y = wrap_cell(b) as int;
    assert(x == a % 256 || x == a % 256 - 256);
    assert(y == b % 256 || y == b % 256 - 256);
    assert((x + y) % 256 == (a + b) % 256);
}

/// Running generated code wherever it stands in a program: the machine
/// passes through it without a fault, one step per instruction, and
/// arrives behind it with the wrapped value of the tree in cell `base` and
/// every cell below `base` as it was.
pub proof fn lemma_code_runs(
    tree: CheckedView,
    base: int,
    state: VmState,
    program: Seq<Instruction>,
    steps: nat,
)
    requires
        spec_generate(tree, base, MEMORY_SIZE as int) is Some,
        state.memory.len() == MEMORY_SIZE,
        0 <= state.pc,
        state.pc + spec_generate(tree, base, MEMORY_SIZE as int)->0.len() <= program.len() <= usize::MAX,
        program.subrange(
            state.pc,
            state.pc + spec_generate(tree, base, MEMORY_SIZE as int)->0.len(),
        ) == spec_generate(tree, base, MEMORY_SIZE as int)->0,
        steps >= spec_generate(tree, base, MEMORY_SIZE as int)->0.len(),
    ensures
        ({
            let code = spec_generate(tree, base, MEMORY_SIZE as int)->0;
            let end = state_after_code(tree, base, state);
            &&& spec_run(state, program, steps) == spec_run(end, program, (steps - code.len()) as nat)
            &&& end.pc == state.pc + code.len()
            &&& end.memory.len() == MEMORY_SIZE
            &&& end.memory[base] == wrap_cell(tree.value())
            &&& forall|k: int| 0 <= k < base ==> end.memory[k] == state.memory[k]
        }),
    decreases tree,
{
    let limit = MEMORY_SIZE as int;
    let code = spec_generate(tree, base, limit)->0;
    lemma_generate_some(tree, base, limit);
    match tree {
        CheckedView::Int(text, _, _) => {
            assert(program[state.pc] == code[0]);
        },
        CheckedView::Add(left, right, _, _) => {
            let cl = spec_generate(*left, base, limit)->0;
            let cr = spec_generate(*right, base + 1, limit)->0;
            let last = Instruction::Add(base as usize, (base + 1) as usize);
            lemma_generate_some(*left, base, limit);
            lemma_generate_some(*right, base + 1, limit);
            assert(code =~= cl + cr + seq![last]);
            assert(program.subrange(state.pc, state.pc + cl.len()) =~= cl) by {
                assert forall|k: int| 0 <= k < cl.len() implies program[state.pc + k] == cl[k] by {
                    assert(program.subrange(state.pc, state.pc + code.len())[k] == code[k]);
                }
            }
            lemma_code_runs(*left, base, state, program, steps);
            let s1 = state_after_code(*left, base, state);
            assert(program.subrange(s1.pc, s1.pc + cr.len()) =~= cr) by {
                assert forall|k: int| 0 <= k < cr.len() implies program[s1.pc + k] == cr[k] by {
                    assert(program.subrange(state.pc, state.pc + code.len())[cl.len() + k] == code[cl.len()
                        + k]);
                }
            }
            lemma_code_runs(*right, base + 1, s1, program, (steps - cl.len()) as nat);
            let s2 = state_after_code(*right, base + 1, s1);
            assert(program[s2.pc] == last) by {
                let at = (cl.len() + cr.len()) as int;
                assert(program.subrange(state.pc, state.pc + code.len())[at] == code[at]);
            }
            assert(spec_step(s2, last) == Ok::<VmState, crate::vm::RuntimeError>(spec_effect(s2, last)));
            lemma_wrap_cell_add(left.value(), right.value());
        },
        CheckedView::Expression(inner, _, _) => {
            lemma_code_runs(*inner, base, state, program, steps);
        },
        CheckedView::Invalid(_, _) => {},
    }
}

/// The machine's state before anything ran: counter and cells all zero.
pub open spec fn initial_state() -> VmState {
    VmState { pc: 0, memory: Seq::new(MEMORY_SIZE as nat, |i: int| 0i8) }
}

/// Generated code computes the sum of the literals: run on a fresh
/// machine, with one step allowed per instruction, the code of a tree (of
/// a length that a program counter can hold) halts without a fault and
/// leaves in cell 0 the sum of the tree's literals, wrapped to the width of
/// a cell.
pub proof fn lemma_generated_code_computes_sum(tree: CheckedView)
    requires
        spec_generate(tree, 0, MEMORY_SIZE as int) is Some,
        spec_generate(tree, 0, MEMORY_SIZE as int)->0.len() <= usize::MAX,
    ensures
        ({
            let code = spec_generate(tree, 0, MEMORY_SIZE as int)->0;
            let end = spec_run(initial_state(), code, code.len());
            &&& end.1 == RunOutcome::Halted
            &&& end.0 == state_after_code(tree, 0, initial_state())
            &&& end.0.pc == code.len()
            &&& end.0.memory[0] == wrap_cell(tree.value())
        }),
{
    let code = spec_generate(tree, 0, MEMORY_SIZE as int)->0;
    assert(code.subrange(0, code.len() as int) =~= code);
    lemma_code_runs(tree, 0, initial_state(), code, code.len());
}

} // verus!
