//! What the instructions of a branching instruction and of the bootstrap do.

use vstd::prelude::*;
use crate::assembly::InstrView;
use crate::code_generator::branching::{branch_code, jump_code, BranchKind};
use crate::code_generator::function::{call_code, return_label, FRAME_WORDS};
use crate::code_generator::memory::{mem_code, MemOp, Segment};
use crate::code_generator::{
    bootstrap_code, entry_function, entry_unit, init_cells_code, ARG, ARG_BASE_ADDRESS, LCL,
    LCL_BASE_ADDRESS, OPERAND_A, SP, SP_BASE_ADDRESS, THAT, THAT_BASE_ADDRESS, THIS,
    THIS_BASE_ADDRESS,
};
use crate::machine::{
    exec, exec_first, holds_at, lemma_holds_part, lemma_run_one, lemma_run_split,
    lemma_run_straight, run, step, straight, Machine,
};
use crate::semantics::function::{call_steps, lemma_call};
use crate::semantics::memory::{can_pop, lemma_mem_code_straight, lemma_pop_direct, popped, top};

verus! {

/// The number of steps that a branching instruction takes.
pub open spec fn branch_steps(kind: BranchKind, name: Seq<char>, unit: Seq<char>) -> nat {
    branch_code(kind, name, unit).len()
}

/// A label declaration changes nothing.
pub proof fn lemma_label(
    program: Seq<InstrView>,
    name: Seq<char>,
    unit: Seq<char>,
    symbols: Map<Seq<char>, int>,
    s: Machine,
)
    requires
        holds_at(program, s.pc, branch_code(BranchKind::Label, name, unit)),
    ensures
        run(program, symbols, s, 1) == (Machine { pc: s.pc + 1, ..s }),
{
    let code = branch_code(BranchKind::Label, name, unit);
    assert(program[s.pc] == program.subrange(s.pc, s.pc + code.len())[0]);
    lemma_run_one(program, symbols, s);
}

/// A `goto` goes on at what the label stands for and changes no cell.
pub proof fn lemma_goto(
    program: Seq<InstrView>,
    name: Seq<char>,
    unit: Seq<char>,
    symbols: Map<Seq<char>, int>,
    s: Machine,
)
    requires
        holds_at(program, s.pc, branch_code(BranchKind::Goto, name, unit)),
    ensures
        run(program, symbols, s, 2).pc == symbols[name],
        run(program, symbols, s, 2).ram == s.ram,
{
    let code = branch_code(BranchKind::Goto, name, unit);
    let part = program.subrange(s.pc, s.pc + code.len());
    assert(program[s.pc] == part[0]);
    assert(program[s.pc + 1] == part[1]);
    lemma_run_one(program, symbols, s);
    let s1 = step(program[s.pc], symbols, s);
    lemma_run_one(program, symbols, s1);
    lemma_run_split(program, symbols, s, 1, 1);
}

/// An `if-goto` takes the top of the stack; it goes on at what the label
/// stands for if that word is not zero, and after its own instructions if it
/// is zero.  It changes no cell but the stack pointer and the first operand
/// cell.
pub proof fn lemma_if_goto(
    program: Seq<InstrView>,
    name: Seq<char>,
    unit: Seq<char>,
    symbols: Map<Seq<char>, int>,
    s: Machine,
)
    requires
        holds_at(program, s.pc, branch_code(BranchKind::IfGoto, name, unit)),
        can_pop(s.ram),
    ensures
        ({
            let after = run(
                program,
                symbols,
                s,
                branch_steps(BranchKind::IfGoto, name, unit),
            );
            &&& after.pc == if top(s.ram) != 0 {
                symbols[name]
            } else {
                s.pc + branch_steps(BranchKind::IfGoto, name, unit)
            }
            &&& after.ram == popped(s.ram).insert(OPERAND_A as int, top(s.ram))
        }),
{
    let pop = mem_code(MemOp::Pop, Segment::General, OPERAND_A as nat, unit);
    let jump = jump_code(BranchKind::IfGoto, name);
    lemma_holds_part(program, s.pc, pop, jump);
    lemma_mem_code_straight(MemOp::Pop, Segment::General, OPERAND_A as nat, unit);
    lemma_run_straight(program, symbols, s, pop);
    lemma_pop_direct(Segment::General, OPERAND_A as nat, unit, symbols, s);
    let s1 = exec(pop, symbols, s);
    let part = program.subrange(s1.pc, s1.pc + jump.len());
    assert(program[s1.pc] == part[0]);
    assert(program[s1.pc + 1] == part[1]);
    assert(program[s1.pc + 2] == part[2]);
    assert(program[s1.pc + 3] == part[3]);
    assert(run(program, symbols, s1, 4).pc == if top(s.ram) != 0 {
        symbols[name]
    } else {
        s1.pc + 4
    } && run(program, symbols, s1, 4).ram == s1.ram) by {
        reveal_with_fuel(run, 5);
    }
    lemma_run_split(program, symbols, s, pop.len(), 4);
}

/// The bootstrap gives the stack pointer and the four base cells their
/// first values, builds the frame of the call of the entry function, and
/// goes on at what the name of the entry function stands for.
pub proof fn lemma_bootstrap(
    program: Seq<InstrView>,
    id: nat,
    symbols: Map<Seq<char>, int>,
    s: Machine,
)
    requires
        holds_at(program, s.pc, bootstrap_code(id)),
    ensures
        ({
            let after = run(program, symbols, s, (bootstrap_code(id).len() - 1) as nat);
            &&& after.pc == symbols[entry_function()]
            &&& after.ram[SP as int] == SP_BASE_ADDRESS + FRAME_WORDS
            &&& after.ram[LCL as int] == SP_BASE_ADDRESS + FRAME_WORDS
            &&& after.ram[ARG as int] == SP_BASE_ADDRESS
            &&& after.ram[THIS as int] == THIS_BASE_ADDRESS
            &&& after.ram[THAT as int] == THAT_BASE_ADDRESS
            &&& after.ram[SP_BASE_ADDRESS as int] == symbols[return_label(entry_function(), id)]
            &&& after.ram[SP_BASE_ADDRESS + 1] == LCL_BASE_ADDRESS
            &&& after.ram[SP_BASE_ADDRESS + 2] == ARG_BASE_ADDRESS
            &&& after.ram[SP_BASE_ADDRESS + 3] == THIS_BASE_ADDRESS
            &&& after.ram[SP_BASE_ADDRESS + 4] == THAT_BASE_ADDRESS
        }),
{
    let init = init_cells_code();
    let call = call_code(entry_function(), 0, id, entry_unit());
    lemma_holds_part(program, s.pc, init, call);
    assert(straight(init));
    lemma_run_straight(program, symbols, s, init);
    let s1 = exec(init, symbols, s);
    assert(init.len() == 20);
    assert(s1.ram == s.ram.insert(SP as int, SP_BASE_ADDRESS as int).insert(
        LCL as int,
        LCL_BASE_ADDRESS as int,
    ).insert(ARG as int, ARG_BASE_ADDRESS as int).insert(
        THIS as int,
        THIS_BASE_ADDRESS as int,
    ).insert(THAT as int, THAT_BASE_ADDRESS as int)) by {
        reveal_with_fuel(exec_first, 21);
    }
    lemma_call(program, entry_function(), 0, id, entry_unit(), symbols, s1);
    lemma_run_split(
        program,
        symbols,
        s,
        init.len(),
        call_steps(entry_function(), 0, id, entry_unit()),
    );
}

} // verus!
