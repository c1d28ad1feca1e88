//! What the instructions of the function protocol do: that a call builds the
//! frame of the callee, that a return unwinds it, and that the
//! two together give the caller back its base cells and leave the result in
//! place of the arguments.

use vstd::prelude::*;
use crate::assembly::{Comp, Dest, InstrView};
use crate::code_generator::arithmetic_logic::{arith_code, ArithOp};
use crate::code_generator::branching::{branch_code, BranchKind};
use crate::code_generator::function::{
    access_code, argument_offset, call_code, dereference_top_code, function_def_code,
    install_sp_code, jump_back_code, load_return_address_code, locals_code, offset_code,
    push_label_code, restore_code, restore_frame_code, return_code, return_label, save_frame_code,
    set_argument_base_code, set_local_base_code, stash_frame_end_code, stash_new_sp_code,
    stash_return_address_code, FRAME_WORDS,
};
use crate::code_generator::memory::{push_d_code, MemOp, Segment};
use crate::code_generator::{
    ADDRESS, ARG, FRAME_END, LCL, NEW_SP, OPERAND_A, OPERAND_B, RETURN_ADDRESS, SP,
    SP_BASE_ADDRESS, THAT, THIS,
};
use crate::machine::{
    exec, exec_first, holds_at, lemma_exec_concat, lemma_holds_part, lemma_run_one,
    lemma_run_split, lemma_run_straight, lemma_straight_concat, run, step, straight, wrap, Machine,
};
use crate::semantics::arithmetic::{
    arith_result, can_push_two, lemma_arith_code_straight, lemma_binary,
};
use crate::semantics::memory::{
    can_pop, can_push, lemma_mem_code_straight, lemma_pop_based, lemma_pop_direct,
    lemma_push_constant, lemma_push_d, lemma_push_direct, popped, pushed, top,
};

verus! {

/// The instructions that push the constant `c` and the word of the cell
/// `src` and combine the two.
pub open spec fn compute_code(src: nat, c: nat, op: ArithOp, unit: Seq<char>) -> Seq<InstrView> {
    offset_code(c, src, op, unit)
}

/// The word that the cell `src` holds when the constant `c` has been
/// pushed: the cell's own word, unless the cell is the stack pointer, which
/// is one greater then, or the cell that the constant was pushed to.
pub open spec fn word_after_push(ram: Map<int, int>, c: nat, src: nat) -> int {
    pushed(ram, wrap(c as int))[src as int]
}

/// Whether the memory `after` is the memory `before` after the word `v`
/// was pushed by a computation: the stack pointer is one greater, `v` stands
/// where it pointed, and no other cell has changed but the two operand cells
/// and the cell after `v`.
pub open spec fn computed(before: Map<int, int>, after: Map<int, int>, v: int) -> bool {
    &&& after[0] == before[0] + 1
    &&& after[before[0]] == v
    &&& forall|a: int|
        a != SP && a != OPERAND_A && a != OPERAND_B && a != before[0] && a != before[0] + 1
            ==> #[trigger] after[a] == before[a]
}

/// Whether the memory `after` is the memory `before` but for the cell
/// `dst`, which holds `v`, and for what the translator may change at will
/// on the way: the two operand cells and the two cells from the stack
/// pointer on.
pub open spec fn stashed(before: Map<int, int>, after: Map<int, int>, dst: int, v: int) -> bool {
    &&& after[dst] == v
    &&& forall|a: int|
        a != OPERAND_A && a != OPERAND_B && a != before[0] && a != before[0] + 1 && a != dst
            ==> #[trigger] after[a] == before[a]
}

/// The instructions of `compute_code` hold no jump.
pub proof fn lemma_compute_straight(src: nat, c: nat, op: ArithOp, unit: Seq<char>)
    requires
        op is Add || op is Sub,
    ensures
        straight(compute_code(src, c, op, unit)),
{
    let push_c = access_code(MemOp::Push, Segment::Constant, c, unit);
    let push_src = access_code(MemOp::Push, Segment::General, src, unit);
    lemma_mem_code_straight(MemOp::Push, Segment::Constant, c, unit);
    lemma_mem_code_straight(MemOp::Push, Segment::General, src, unit);
    lemma_arith_code_straight(op, 0, unit);
    lemma_straight_concat(push_c, push_src);
    lemma_straight_concat(push_c + push_src, arith_code(op, 0, unit));
}

/// Pushing a constant and the word of a cell and combining them pushes the
/// result: with `sub` the word of the cell less the constant, with `add`
/// their sum.
pub proof fn lemma_compute(
    src: nat,
    c: nat,
    op: ArithOp,
    unit: Seq<char>,
    symbols: Map<Seq<char>, int>,
    s: Machine,
)
    requires
        op is Add || op is Sub,
        src < 65536,
        can_push_two(s.ram),
    ensures
        computed(
            s.ram,
            exec(compute_code(src, c, op, unit), symbols, s).ram,
            arith_result(op, wrap(c as int), word_after_push(s.ram, c, src)),
        ),
{
    let push_c = access_code(MemOp::Push, Segment::Constant, c, unit);
    let push_src = access_code(MemOp::Push, Segment::General, src, unit);
    lemma_exec_concat(push_c + push_src, arith_code(op, 0, unit), symbols, s);
    lemma_exec_concat(push_c, push_src, symbols, s);
    lemma_push_constant(c, unit, symbols, s);
    let s1 = exec(push_c, symbols, s);
    lemma_push_direct(Segment::General, src, unit, symbols, s1);
    let s2 = exec(push_src, symbols, s1);
    lemma_binary(op, 0, unit, symbols, s2);
}

/// The instructions that copy the word of the cell `src` to the cell `dst`
/// by way of the stack.
pub open spec fn copy_code(src: nat, dst: nat, unit: Seq<char>) -> Seq<InstrView> {
    access_code(MemOp::Push, Segment::General, src, unit) + access_code(
        MemOp::Pop,
        Segment::General,
        dst,
        unit,
    )
}

/// Copying by way of the stack gives the cell `dst` the word of the cell
/// `src`.
pub proof fn lemma_copy(
    src: nat,
    dst: nat,
    unit: Seq<char>,
    symbols: Map<Seq<char>, int>,
    s: Machine,
)
    requires
        src < 65536,
        dst < 65536,
        can_push(s.ram),
    ensures
        stashed(
            s.ram,
            exec(copy_code(src, dst, unit), symbols, s).ram,
            dst as int,
            s.ram[src as int],
        ),
        dst != SP ==> exec(copy_code(src, dst, unit), symbols, s).ram[0] == s.ram[0],
        straight(copy_code(src, dst, unit)),
{
    let push = access_code(MemOp::Push, Segment::General, src, unit);
    let pop = access_code(MemOp::Pop, Segment::General, dst, unit);
    lemma_exec_concat(push, pop, symbols, s);
    lemma_push_direct(Segment::General, src, unit, symbols, s);
    lemma_pop_direct(Segment::General, dst, unit, symbols, exec(push, symbols, s));
    lemma_mem_code_straight(MemOp::Push, Segment::General, src, unit);
    lemma_mem_code_straight(MemOp::Pop, Segment::General, dst, unit);
    lemma_straight_concat(push, pop);
}

/// The instructions that give the cell `dst` the result of combining the
/// word of the cell `src` with the constant `c`.
pub open spec fn stash_code(src: nat, c: nat, op: ArithOp, dst: nat, unit: Seq<char>) -> Seq<
    InstrView,
> {
    compute_code(src, c, op, unit) + access_code(MemOp::Pop, Segment::General, dst, unit)
}

/// Stashing gives the cell `dst` the result of the computation and leaves
/// the stack pointer as it was.
pub proof fn lemma_stash(
    src: nat,
    c: nat,
    op: ArithOp,
    dst: nat,
    unit: Seq<char>,
    symbols: Map<Seq<char>, int>,
    s: Machine,
)
    requires
        op is Add || op is Sub,
        src < 65536,
        0 < dst < 65536,
        can_push_two(s.ram),
    ensures
        stashed(
            s.ram,
            exec(stash_code(src, c, op, dst, unit), symbols, s).ram,
            dst as int,
            arith_result(op, wrap(c as int), word_after_push(s.ram, c, src)),
        ),
        exec(stash_code(src, c, op, dst, unit), symbols, s).ram[0] == s.ram[0],
        straight(stash_code(src, c, op, dst, unit)),
{
    let compute = compute_code(src, c, op, unit);
    let pop = access_code(MemOp::Pop, Segment::General, dst, unit);
    lemma_exec_concat(compute, pop, symbols, s);
    lemma_compute(src, c, op, unit, symbols, s);
    lemma_pop_direct(Segment::General, dst, unit, symbols, exec(compute, symbols, s));
    lemma_compute_straight(src, c, op, unit);
    lemma_mem_code_straight(MemOp::Pop, Segment::General, dst, unit);
    lemma_straight_concat(compute, pop);
}

/// Whether the memory `after` is the memory `before` after a call with
/// `n_args` arguments and the return address `ra`: the frame stands where
/// the stack ended, with the return address and the caller's base cells of
/// `local`, `argument`, `this` and `that` in this order; the stack and the
/// locals begin after the frame; the arguments begin `n_args` words before
/// it; and no other cell has changed but the two operand cells and the two
/// cells after the frame.
pub open spec fn frame_built(
    before: Map<int, int>,
    after: Map<int, int>,
    n_args: nat,
    ra: int,
) -> bool {
    let sp = before[0];
    &&& after[sp] == ra
    &&& after[sp + 1] == before[LCL as int]
    &&& after[sp + 2] == before[ARG as int]
    &&& after[sp + 3] == before[THIS as int]
    &&& after[sp + 4] == before[THAT as int]
    &&& after[SP as int] == sp + FRAME_WORDS
    &&& after[LCL as int] == sp + FRAME_WORDS
    &&& after[ARG as int] == sp - n_args
    &&& forall|a: int|
        a != SP && a != LCL && a != ARG && a != OPERAND_A && a != OPERAND_B && !(sp <= a < sp + 7)
            ==> #[trigger] after[a] == before[a]
}

/// Whether a call with `n_args` arguments can be made: the arguments lie on
/// the stack beyond the sixteen cells of lowest address, and seven words can
/// be pushed.
pub open spec fn can_call(ram: Map<int, int>, n_args: nat) -> bool {
    16 <= ram[0] - n_args && ram[0] + 7 < 65536
}

/// The instructions of a call before its jump.
pub open spec fn call_frame_code(label: Seq<char>, n_args: nat, unit: Seq<char>) -> Seq<
    InstrView,
> {
    push_label_code(label) + save_frame_code(unit) + set_argument_base_code(n_args, unit)
        + set_local_base_code(unit)
}

/// The instructions of a call before its jump build the frame.
pub proof fn lemma_call_frame(
    label: Seq<char>,
    n_args: nat,
    unit: Seq<char>,
    symbols: Map<Seq<char>, int>,
    s: Machine,
)
    requires
        can_call(s.ram, n_args),
    ensures
        frame_built(
            s.ram,
            exec(call_frame_code(label, n_args, unit), symbols, s).ram,
            n_args,
            symbols[label],
        ),
        straight(call_frame_code(label, n_args, unit)),
{
    let a = push_label_code(label);
    let b = save_frame_code(unit);
    let c = set_argument_base_code(n_args, unit);
    let d = set_local_base_code(unit);
    lemma_exec_concat(a + b + c, d, symbols, s);
    lemma_exec_concat(a + b, c, symbols, s);
    lemma_exec_concat(a, b, symbols, s);
    // The return address is pushed.
    let load = seq![InstrView::AtSym(label), InstrView::Assign(Dest::D, Comp::A)];
    lemma_exec_concat(load, push_d_code(), symbols, s);
    let s0 = exec(load, symbols, s);
    assert(s0 == (Machine { a: symbols[label], d: symbols[label], ram: s.ram, pc: s.pc + 2 })) by {
        reveal_with_fuel(exec_first, 3);
    }
    lemma_push_d(symbols, s0);
    let s1 = exec(a, symbols, s);
    assert(straight(a)) by {
        assert(straight(load));
        assert(straight(push_d_code()));
        lemma_straight_concat(load, push_d_code());
    }
    // The four base cells are pushed.
    let b1 = access_code(MemOp::Push, Segment::General, LCL as nat, unit);
    let b2 = access_code(MemOp::Push, Segment::General, ARG as nat, unit);
    let b3 = access_code(MemOp::Push, Segment::General, THIS as nat, unit);
    let b4 = access_code(MemOp::Push, Segment::General, THAT as nat, unit);
    lemma_exec_concat(b1 + b2 + b3, b4, symbols, s1);
    lemma_exec_concat(b1 + b2, b3, symbols, s1);
    lemma_exec_concat(b1, b2, symbols, s1);
    lemma_push_direct(Segment::General, LCL as nat, unit, symbols, s1);
    let t1 = exec(b1, symbols, s1);
    lemma_push_direct(Segment::General, ARG as nat, unit, symbols, t1);
    let t2 = exec(b2, symbols, t1);
    lemma_push_direct(Segment::General, THIS as nat, unit, symbols, t2);
    let t3 = exec(b3, symbols, t2);
    lemma_push_direct(Segment::General, THAT as nat, unit, symbols, t3);
    let s2 = exec(b, symbols, s1);
    lemma_mem_code_straight(MemOp::Push, Segment::General, LCL as nat, unit);
    lemma_mem_code_straight(MemOp::Push, Segment::General, ARG as nat, unit);
    lemma_mem_code_straight(MemOp::Push, Segment::General, THIS as nat, unit);
    lemma_mem_code_straight(MemOp::Push, Segment::General, THAT as nat, unit);
    lemma_straight_concat(b1, b2);
    lemma_straight_concat(b1 + b2, b3);
    lemma_straight_concat(b1 + b2 + b3, b4);
    // The base of the arguments is set.
    assert(c == stash_code(SP as nat, argument_offset(n_args), ArithOp::Sub, ARG as nat, unit));
    lemma_stash(
        SP as nat,
        argument_offset(n_args),
        ArithOp::Sub,
        ARG as nat,
        unit,
        symbols,
        s2,
    );
    let s3 = exec(c, symbols, s2);
    // The base of the locals is set.
    assert(d == copy_code(SP as nat, LCL as nat, unit));
    lemma_copy(SP as nat, LCL as nat, unit, symbols, s3);
    lemma_straight_concat(a, b);
    lemma_straight_concat(a + b, c);
    lemma_straight_concat(a + b + c, d);
}

/// The number of steps that a call takes to reach the callee.
pub open spec fn call_steps(function: Seq<char>, n_args: nat, id: nat, unit: Seq<char>) -> nat {
    (call_code(function, n_args, id, unit).len() - 1) as nat
}

/// A call builds the frame and reaches the callee.
///
/// The program holds the instructions of the call at the position of the
/// machine.  The return address in the frame is what the label of the return
/// site stands for, and the machine goes on at what the name of the function
/// stands for.
pub proof fn lemma_call(
    program: Seq<InstrView>,
    function: Seq<char>,
    n_args: nat,
    id: nat,
    unit: Seq<char>,
    symbols: Map<Seq<char>, int>,
    s: Machine,
)
    requires
        holds_at(program, s.pc, call_code(function, n_args, id, unit)),
        can_call(s.ram, n_args),
    ensures
        ({
            let after = run(program, symbols, s, call_steps(function, n_args, id, unit));
            &&& after.pc == symbols[function]
            &&& frame_built(s.ram, after.ram, n_args, symbols[return_label(function, id)])
        }),
{
    let label = return_label(function, id);
    let frame = call_frame_code(label, n_args, unit);
    let goto = branch_code(BranchKind::Goto, function, unit);
    let site = seq![InstrView::Label(label)];
    assert(call_code(function, n_args, id, unit) == frame + goto + site);
    lemma_holds_part(program, s.pc, frame + goto, site);
    lemma_holds_part(program, s.pc, frame, goto);
    lemma_call_frame(label, n_args, unit, symbols, s);
    lemma_run_straight(program, symbols, s, frame);
    let s1 = exec(frame, symbols, s);
    let part = program.subrange(s1.pc, s1.pc + goto.len());
    assert(program[s1.pc] == part[0]);
    assert(program[s1.pc + 1] == part[1]);
    lemma_run_one(program, symbols, s1);
    let s2 = step(program[s1.pc], symbols, s1);
    lemma_run_one(program, symbols, s2);
    lemma_run_split(program, symbols, s, frame.len(), 1);
    lemma_run_split(program, symbols, s, frame.len() + 1, 1);
}

/// Whether the memory `after` is the memory `before` after `n` zeros were
/// pushed.
pub open spec fn zeros_pushed(before: Map<int, int>, after: Map<int, int>, n: nat) -> bool {
    let sp = before[0];
    &&& after[0] == sp + n
    &&& forall|a: int| sp <= a < sp + n ==> #[trigger] after[a] == 0
    &&& forall|a: int| a != SP && !(sp <= a < sp + n) ==> #[trigger] after[a] == before[a]
}

/// The instructions of a function's locals push as many zeros as the function
/// has locals.
pub proof fn lemma_locals(n: nat, unit: Seq<char>, symbols: Map<Seq<char>, int>, s: Machine)
    requires
        16 <= s.ram[0],
        s.ram[0] + n < 65536,
    ensures
        zeros_pushed(s.ram, exec(locals_code(n, unit), symbols, s).ram, n),
        straight(locals_code(n, unit)),
    decreases n,
{
    if n == 0 {
        assert(locals_code(n, unit).len() == 0);
    } else {
        let before = locals_code((n - 1) as nat, unit);
        let push = access_code(MemOp::Push, Segment::Constant, 0, unit);
        lemma_locals((n - 1) as nat, unit, symbols, s);
        lemma_exec_concat(before, push, symbols, s);
        lemma_push_constant(0, unit, symbols, exec(before, symbols, s));
        lemma_mem_code_straight(MemOp::Push, Segment::Constant, 0, unit);
        lemma_straight_concat(before, push);
    }
}

/// The entry of a function pushes as many zeros as the function has locals.
pub proof fn lemma_function_def(
    function: Seq<char>,
    n_vars: nat,
    unit: Seq<char>,
    symbols: Map<Seq<char>, int>,
    s: Machine,
)
    requires
        16 <= s.ram[0],
        s.ram[0] + n_vars < 65536,
    ensures
        zeros_pushed(
            s.ram,
            exec(function_def_code(function, n_vars, unit), symbols, s).ram,
            n_vars,
        ),
        straight(function_def_code(function, n_vars, unit)),
{
    let entry = seq![InstrView::Label(function)];
    let locals = locals_code(n_vars, unit);
    lemma_exec_concat(entry, locals, symbols, s);
    let s1 = exec(entry, symbols, s);
    assert(s1 == (Machine { pc: s.pc + 1, ..s })) by {
        reveal_with_fuel(exec_first, 2);
    }
    lemma_locals(n_vars, unit, symbols, s1);
    assert(straight(entry));
    lemma_straight_concat(entry, locals);
}

/// Stashing the return address gives its cell the word that stands five
/// words below the base of the locals.
pub proof fn lemma_stash_return_address(unit: Seq<char>, symbols: Map<Seq<char>, int>, s: Machine)
    requires
        can_push_two(s.ram),
        SP_BASE_ADDRESS <= s.ram[LCL as int] - FRAME_WORDS,
        s.ram[LCL as int] <= s.ram[0],
    ensures
        stashed(
            s.ram,
            exec(stash_return_address_code(unit), symbols, s).ram,
            RETURN_ADDRESS as int,
            s.ram[s.ram[LCL as int] - FRAME_WORDS],
        ),
        exec(stash_return_address_code(unit), symbols, s).ram[0] == s.ram[0],
        straight(stash_return_address_code(unit)),
{
    let stash = stash_code(
        LCL as nat,
        FRAME_WORDS as nat,
        ArithOp::Sub,
        RETURN_ADDRESS as nat,
        unit,
    );
    let load = load_return_address_code();
    assert(stash_return_address_code(unit) == stash + load);
    lemma_exec_concat(stash, load, symbols, s);
    lemma_stash(
        LCL as nat,
        FRAME_WORDS as nat,
        ArithOp::Sub,
        RETURN_ADDRESS as nat,
        unit,
        symbols,
        s,
    );
    let s1 = exec(stash, symbols, s);
    let p = s1.ram[RETURN_ADDRESS as int];
    assert(exec(load, symbols, s1).ram == s1.ram.insert(RETURN_ADDRESS as int, s1.ram[p])) by {
        reveal_with_fuel(exec_first, 6);
    }
    assert(straight(load));
    lemma_straight_concat(stash, load);
}

/// Dereferencing the top of the stack replaces the address there by the
/// word at that address.
pub proof fn lemma_dereference_top(symbols: Map<Seq<char>, int>, s: Machine)
    requires
        can_pop(s.ram),
    ensures
        exec(dereference_top_code(), symbols, s).ram == s.ram.insert(
            s.ram[0] - 1,
            s.ram[top(s.ram)],
        ),
{
    reveal_with_fuel(exec_first, 8);
}

/// Restoring gives the base cell `5 - n` the word that stands `n` words
/// below the end of the frame.
pub proof fn lemma_restore(n: nat, unit: Seq<char>, symbols: Map<Seq<char>, int>, s: Machine)
    requires
        1 <= n <= 4,
        can_push_two(s.ram),
        SP_BASE_ADDRESS <= s.ram[FRAME_END as int] - n,
        s.ram[FRAME_END as int] <= s.ram[0],
    ensures
        stashed(
            s.ram,
            exec(restore_code(n, unit), symbols, s).ram,
            FRAME_WORDS - n,
            s.ram[s.ram[FRAME_END as int] - n],
        ),
        exec(restore_code(n, unit), symbols, s).ram[0] == s.ram[0],
        straight(restore_code(n, unit)),
{
    let compute = compute_code(FRAME_END as nat, n, ArithOp::Sub, unit);
    let dereference = dereference_top_code();
    let pop = access_code(MemOp::Pop, Segment::General, (FRAME_WORDS - n) as nat, unit);
    assert(restore_code(n, unit) == compute + dereference + pop);
    lemma_exec_concat(compute + dereference, pop, symbols, s);
    lemma_exec_concat(compute, dereference, symbols, s);
    let s1 = exec(compute, symbols, s);
    let s2 = exec(dereference, symbols, s1);
    let s3 = exec(pop, symbols, s2);
    let sp = s.ram[0];
    let p = s.ram[FRAME_END as int] - n;
    assert(computed(s.ram, s1.ram, p)) by {
        lemma_compute(FRAME_END as nat, n, ArithOp::Sub, unit, symbols, s);
    }
    assert(s2.ram == s1.ram.insert(sp, s1.ram[p])) by {
        lemma_dereference_top(symbols, s1);
    }
    assert(s3.ram == popped(s2.ram).insert(FRAME_WORDS - n, top(s2.ram))) by {
        lemma_pop_direct(Segment::General, (FRAME_WORDS - n) as nat, unit, symbols, s2);
    }
    assert(straight(restore_code(n, unit))) by {
        lemma_compute_straight(FRAME_END as nat, n, ArithOp::Sub, unit);
        assert(straight(dereference));
        lemma_mem_code_straight(MemOp::Pop, Segment::General, (FRAME_WORDS - n) as nat, unit);
        lemma_straight_concat(compute, dereference);
        lemma_straight_concat(compute + dereference, pop);
    }
}

/// Whether a return can be made: the arguments begin on the stack, the
/// frame lies after them and before the base of the locals, a result lies
/// on the stack after the base of the locals, and two words can be pushed.
pub open spec fn can_return(ram: Map<int, int>) -> bool {
    &&& SP_BASE_ADDRESS <= ram[ARG as int]
    &&& ram[ARG as int] + FRAME_WORDS <= ram[LCL as int]
    &&& ram[LCL as int] < ram[0]
    &&& ram[0] < 65534
}

/// Whether the memory `after` is the memory `before` after a return: the
/// result, which was on top of the stack, stands where the first argument
/// was and is the top of the stack; the base cells of `local`, `argument`,
/// `this` and `that` hold what the frame held for them; and no other cell has
/// changed but the cells that the translator keeps for its own use and the
/// three cells from the result's old place on.
pub open spec fn frame_unwound(before: Map<int, int>, after: Map<int, int>) -> bool {
    let sp = before[0];
    let end = before[LCL as int];
    let base = before[ARG as int];
    &&& after[SP as int] == base + 1
    &&& after[base] == top(before)
    &&& after[LCL as int] == before[end - 4]
    &&& after[ARG as int] == before[end - 3]
    &&& after[THIS as int] == before[end - 2]
    &&& after[THAT as int] == before[end - 1]
    &&& forall|a: int|
        5 <= a && !(OPERAND_A <= a <= ADDRESS) && !(FRAME_END <= a <= NEW_SP) && a != base && !(sp
            - 1 <= a <= sp + 1) ==> #[trigger] after[a] == before[a]
}

/// The instructions of a return before its jump.
pub open spec fn return_frame_code(unit: Seq<char>) -> Seq<InstrView> {
    stash_return_address_code(unit) + stash_frame_end_code(unit) + access_code(
        MemOp::Pop,
        Segment::Argument,
        0,
        unit,
    ) + stash_new_sp_code(unit) + restore_frame_code(4, unit) + install_sp_code(unit)
}

/// The instructions of a return before its jump unwind the frame and leave
/// the return address in its cell.
pub proof fn lemma_return_frame(unit: Seq<char>, symbols: Map<Seq<char>, int>, s: Machine)
    requires
        can_return(s.ram),
    ensures
        frame_unwound(s.ram, exec(return_frame_code(unit), symbols, s).ram),
        exec(return_frame_code(unit), symbols, s).ram[RETURN_ADDRESS as int] == s.ram[s.ram[LCL
            as int] - FRAME_WORDS],
        straight(return_frame_code(unit)),
{
    let a = stash_return_address_code(unit);
    let b = stash_frame_end_code(unit);
    let c = access_code(MemOp::Pop, Segment::Argument, 0, unit);
    let d = stash_new_sp_code(unit);
    let e = restore_frame_code(4, unit);
    let f = install_sp_code(unit);
    lemma_exec_concat(a + b + c + d + e, f, symbols, s);
    lemma_exec_concat(a + b + c + d, e, symbols, s);
    lemma_exec_concat(a + b + c, d, symbols, s);
    lemma_exec_concat(a + b, c, symbols, s);
    lemma_exec_concat(a, b, symbols, s);
    let sp = s.ram[0];
    let end = s.ram[LCL as int];
    let base = s.ram[ARG as int];
    lemma_stash_return_address(unit, symbols, s);
    let s1 = exec(a, symbols, s);
    assert(b == copy_code(LCL as nat, FRAME_END as nat, unit));
    lemma_copy(LCL as nat, FRAME_END as nat, unit, symbols, s1);
    let s2 = exec(b, symbols, s1);
    lemma_pop_based(Segment::Argument, 0, unit, symbols, s2);
    lemma_mem_code_straight(MemOp::Pop, Segment::Argument, 0, unit);
    let s3 = exec(c, symbols, s2);
    assert(s3.ram[0] == sp - 1);
    assert(s3.ram[base] == top(s.ram));
    assert(d == stash_code(ARG as nat, 1, ArithOp::Add, NEW_SP as nat, unit));
    lemma_stash(ARG as nat, 1, ArithOp::Add, NEW_SP as nat, unit, symbols, s3);
    let s4 = exec(d, symbols, s3);
    assert(s4.ram[NEW_SP as int] == base + 1);
    assert(s4.ram[FRAME_END as int] == end);
    // The four base cells are restored.
    let r1 = restore_code(1, unit);
    let r2 = restore_code(2, unit);
    let r3 = restore_code(3, unit);
    let r4 = restore_code(4, unit);
    assert(e =~= r1 + r2 + r3 + r4) by {
        reveal_with_fuel(restore_frame_code, 5);
    }
    lemma_exec_concat(r1 + r2 + r3, r4, symbols, s4);
    lemma_exec_concat(r1 + r2, r3, symbols, s4);
    lemma_exec_concat(r1, r2, symbols, s4);
    lemma_restore(1, unit, symbols, s4);
    let t1 = exec(r1, symbols, s4);
    lemma_restore(2, unit, symbols, t1);
    let t2 = exec(r2, symbols, t1);
    lemma_restore(3, unit, symbols, t2);
    let t3 = exec(r3, symbols, t2);
    lemma_restore(4, unit, symbols, t3);
    let s5 = exec(e, symbols, s4);
    lemma_straight_concat(r1, r2);
    lemma_straight_concat(r1 + r2, r3);
    lemma_straight_concat(r1 + r2 + r3, r4);
    // The stack pointer is installed.
    assert(f == copy_code(NEW_SP as nat, SP as nat, unit));
    lemma_copy(NEW_SP as nat, SP as nat, unit, symbols, s5);
    lemma_straight_concat(a, b);
    lemma_straight_concat(a + b, c);
    lemma_straight_concat(a + b + c, d);
    lemma_straight_concat(a + b + c + d, e);
    lemma_straight_concat(a + b + c + d + e, f);
}

/// A return unwinds the frame and goes on at the return address that the
/// frame holds.
///
/// The program holds the instructions of the return at the position of the
/// machine.
pub proof fn lemma_return(
    program: Seq<InstrView>,
    unit: Seq<char>,
    symbols: Map<Seq<char>, int>,
    s: Machine,
)
    requires
        holds_at(program, s.pc, return_code(unit)),
        can_return(s.ram),
    ensures
        ({
            let after = run(program, symbols, s, return_code(unit).len());
            &&& after.pc == s.ram[s.ram[LCL as int] - FRAME_WORDS]
            &&& frame_unwound(s.ram, after.ram)
        }),
{
    let frame = return_frame_code(unit);
    let jump = jump_back_code();
    assert(return_code(unit) == frame + jump);
    lemma_holds_part(program, s.pc, frame, jump);
    lemma_return_frame(unit, symbols, s);
    lemma_run_straight(program, symbols, s, frame);
    let s1 = exec(frame, symbols, s);
    let part = program.subrange(s1.pc, s1.pc + jump.len());
    assert(program[s1.pc] == part[0]);
    assert(program[s1.pc + 1] == part[1]);
    assert(program[s1.pc + 2] == part[2]);
    lemma_run_one(program, symbols, s1);
    let s2 = step(program[s1.pc], symbols, s1);
    lemma_run_one(program, symbols, s2);
    let s3 = step(program[s2.pc], symbols, s2);
    lemma_run_one(program, symbols, s3);
    lemma_run_split(program, symbols, s, frame.len(), 1);
    lemma_run_split(program, symbols, s, frame.len() + 1, 1);
    lemma_run_split(program, symbols, s, frame.len() + 2, 1);
}

/// The instructions of a function that has `n_vars` locals and returns at
/// once.
pub open spec fn function_code(function: Seq<char>, n_vars: nat, unit: Seq<char>) -> Seq<
    InstrView,
> {
    function_def_code(function, n_vars, unit) + return_code(unit)
}

/// The number of steps from a call of such a function to the return site.
pub open spec fn round_trip_steps(
    function: Seq<char>,
    n_args: nat,
    n_vars: nat,
    id: nat,
    caller: Seq<char>,
    callee: Seq<char>,
) -> nat {
    call_steps(function, n_args, id, caller) + function_code(function, n_vars, callee).len()
}

/// A call of a function that has at least one local and returns at once
/// comes back to the return site of the call; the base cells of `local`,
/// `argument`, `this` and `that` hold again what they held before the call;
/// one word, the result, stands in place of the arguments and is the top
/// of the stack; and the stack below the arguments is as it was.  The result
/// is the last local, which is zero.
///
/// The program holds the instructions of the call at the position of the
/// machine, and the instructions of the function where the name of the
/// function stands for; the label of the return site stands for the position
/// of its declaration.  The arguments lie on the stack, and the stack has
/// room for the frame, the locals and two words more.
///
/// A function without locals that returns at once has no result on the
/// stack: its return takes the last word of the frame for one.
pub proof fn lemma_call_return(
    program: Seq<InstrView>,
    function: Seq<char>,
    n_args: nat,
    n_vars: nat,
    id: nat,
    caller: Seq<char>,
    callee: Seq<char>,
    symbols: Map<Seq<char>, int>,
    s: Machine,
)
    requires
        holds_at(program, s.pc, call_code(function, n_args, id, caller)),
        holds_at(program, symbols[function], function_code(function, n_vars, callee)),
        symbols[return_label(function, id)] == s.pc + call_steps(function, n_args, id, caller),
        n_vars >= 1,
        SP_BASE_ADDRESS <= s.ram[SP as int] - n_args,
        s.ram[SP as int] + FRAME_WORDS + n_vars < 65534,
    ensures
        ({
            let after = run(
                program,
                symbols,
                s,
                round_trip_steps(function, n_args, n_vars, id, caller, callee),
            );
            &&& after.pc == s.pc + call_steps(function, n_args, id, caller)
            &&& after.ram[LCL as int] == s.ram[LCL as int]
            &&& after.ram[ARG as int] == s.ram[ARG as int]
            &&& after.ram[THIS as int] == s.ram[THIS as int]
            &&& after.ram[THAT as int] == s.ram[THAT as int]
            &&& after.ram[SP as int] == s.ram[SP as int] - n_args + 1
            &&& top(after.ram) == 0
            &&& forall|a: int|
                SP_BASE_ADDRESS <= a < s.ram[SP as int] - n_args ==> #[trigger] after.ram[a]
                    == s.ram[a]
        }),
{
    let def = function_def_code(function, n_vars, callee);
    let ret = return_code(callee);
    let steps = call_steps(function, n_args, id, caller);
    lemma_call(program, function, n_args, id, caller, symbols, s);
    let s1 = run(program, symbols, s, steps);
    lemma_holds_part(program, s1.pc, def, ret);
    lemma_function_def(function, n_vars, callee, symbols, s1);
    lemma_run_straight(program, symbols, s1, def);
    let s2 = exec(def, symbols, s1);
    lemma_return(program, callee, symbols, s2);
    let s3 = run(program, symbols, s2, ret.len());
    lemma_run_split(program, symbols, s, steps, def.len());
    lemma_run_split(program, symbols, s, steps + def.len(), ret.len());
    assert(s3 == run(
        program,
        symbols,
        s,
        round_trip_steps(function, n_args, n_vars, id, caller, callee),
    ));
}

} // verus!
