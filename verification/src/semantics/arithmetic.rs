//! What the instructions of an arithmetic or logical operation do.

use vstd::prelude::*;
use crate::assembly::{Comp, Dest, InstrView, Jump};
use crate::code_generator::arithmetic_logic::{
    arith_code, boolean_code, combine_code, false_label, is_comparison, is_unary, operands_code,
    true_label, ArithOp,
};
use crate::code_generator::memory::{mem_code, MemOp, Segment};
use crate::code_generator::{OPERAND_A, OPERAND_B, SP};
use crate::machine::{
    exec, exec_first, holds_at, is_word, jump_taken, lemma_exec_concat, lemma_holds_part,
    lemma_run_split, lemma_run_straight, lemma_straight_concat, run, signed, straight, true_word,
    word_and, word_or, wrap, Machine,
};
use crate::semantics::memory::{
    can_pop, lemma_mem_code_straight, lemma_pop_direct, lemma_push_constant, lemma_push_direct,
    popped, pushed, top,
};

verus! {

/// The word below the top of the stack.
pub open spec fn second(ram: Map<int, int>) -> int {
    ram[ram[0] - 2]
}

/// Whether two words can be popped.
pub open spec fn can_pop_two(ram: Map<int, int>) -> bool {
    17 < ram[0] < 65536
}

/// The result of an operation other than a comparison on the operand `x`,
/// pushed before, and the operand `y`, pushed after it and on top of the
/// stack; a unary operation has the operand `y` only.  A subtraction takes
/// the operand pushed before from the operand on top.
pub open spec fn arith_result(op: ArithOp, x: int, y: int) -> int {
    match op {
        ArithOp::Add => wrap(y + x),
        ArithOp::Sub => wrap(y - x),
        ArithOp::And => word_and(x, y),
        ArithOp::Or => word_or(x, y),
        ArithOp::Neg => wrap(-y),
        _ => wrap(65535 - y),
    }
}

/// Whether a comparison holds of the operand `x`, pushed before, and the
/// operand `y`, pushed after it: whether their difference is zero for `eq`,
/// and whether it is greater than zero as a signed word for `gt` (`x` less
/// `y`) and `lt` (`y` less `x`).
pub open spec fn comparison_holds(op: ArithOp, x: int, y: int) -> bool {
    match op {
        ArithOp::Eq => wrap(x - y) == 0,
        ArithOp::Gt => signed(wrap(x - y)) > 0,
        _ => signed(wrap(y - x)) > 0,
    }
}

/// The word that stands for a truth value: all one bits for true, zero for
/// false.
pub open spec fn boolean_word(b: bool) -> int {
    if b {
        true_word()
    } else {
        0
    }
}

/// Whether the memory `after` is the memory `before` after an operation
/// that took `taken` words from the stack and put `result` there: the stack
/// pointer has moved, the result is on top, and no cell has changed but the
/// stack pointer, the two operand cells and the cell of the result.
pub open spec fn replaced_top(
    before: Map<int, int>,
    after: Map<int, int>,
    taken: int,
    result: int,
) -> bool {
    &&& after[SP as int] == before[SP as int] - taken + 1
    &&& top(after) == result
    &&& forall|a: int|
        a != SP && a != OPERAND_A && a != OPERAND_B && a != before[SP as int] - taken
            ==> #[trigger] after[a] == before[a]
}

/// The instructions of an operation other than a comparison hold no jump.
pub proof fn lemma_arith_code_straight(op: ArithOp, id: nat, unit: Seq<char>)
    requires
        !is_comparison(op),
    ensures
        straight(arith_code(op, id, unit)),
{
    lemma_mem_code_straight(MemOp::Pop, Segment::General, OPERAND_A as nat, unit);
    lemma_mem_code_straight(MemOp::Pop, Segment::General, OPERAND_B as nat, unit);
    lemma_mem_code_straight(MemOp::Push, Segment::General, OPERAND_B as nat, unit);
    assert(straight(combine_code(op, id)));
    if !is_unary(op) {
        lemma_straight_concat(
            mem_code(MemOp::Pop, Segment::General, OPERAND_A as nat, unit),
            mem_code(MemOp::Pop, Segment::General, OPERAND_B as nat, unit),
        );
    }
    lemma_straight_concat(operands_code(op, unit), combine_code(op, id));
    lemma_straight_concat(
        operands_code(op, unit) + combine_code(op, id),
        mem_code(MemOp::Push, Segment::General, OPERAND_B as nat, unit),
    );
}

/// A binary operation other than a comparison takes two words from the
/// stack and puts the result of the operation there.
pub proof fn lemma_binary(
    op: ArithOp,
    id: nat,
    unit: Seq<char>,
    symbols: Map<Seq<char>, int>,
    s: Machine,
)
    requires
        op is Add || op is Sub || op is And || op is Or,
        can_pop_two(s.ram),
    ensures
        replaced_top(
            s.ram,
            exec(arith_code(op, id, unit), symbols, s).ram,
            2,
            arith_result(op, second(s.ram), top(s.ram)),
        ),
        exec(arith_code(op, id, unit), symbols, s).pc == s.pc + arith_code(op, id, unit).len(),
{
    let pop_a = mem_code(MemOp::Pop, Segment::General, OPERAND_A as nat, unit);
    let pop_b = mem_code(MemOp::Pop, Segment::General, OPERAND_B as nat, unit);
    let combine = combine_code(op, id);
    let push = mem_code(MemOp::Push, Segment::General, OPERAND_B as nat, unit);
    lemma_exec_concat(pop_a + pop_b + combine, push, symbols, s);
    lemma_exec_concat(pop_a + pop_b, combine, symbols, s);
    lemma_exec_concat(pop_a, pop_b, symbols, s);
    lemma_pop_direct(Segment::General, OPERAND_A as nat, unit, symbols, s);
    let s1 = exec(pop_a, symbols, s);
    lemma_pop_direct(Segment::General, OPERAND_B as nat, unit, symbols, s1);
    let s2 = exec(pop_b, symbols, s1);
    let r = arith_result(op, second(s.ram), top(s.ram));
    let s3 = exec(combine, symbols, s2);
    assert(s3 == (Machine {
        a: OPERAND_B as int,
        d: r,
        ram: s2.ram.insert(OPERAND_B as int, r),
        pc: s2.pc + 5,
    })) by {
        reveal_with_fuel(exec_first, 6);
    }
    lemma_push_direct(Segment::General, OPERAND_B as nat, unit, symbols, s3);
}

/// A unary operation takes one word from the stack and puts the result of
/// the operation there.
pub proof fn lemma_unary(
    op: ArithOp,
    id: nat,
    unit: Seq<char>,
    symbols: Map<Seq<char>, int>,
    s: Machine,
)
    requires
        is_unary(op),
        can_pop(s.ram),
    ensures
        replaced_top(
            s.ram,
            exec(arith_code(op, id, unit), symbols, s).ram,
            1,
            arith_result(op, 0, top(s.ram)),
        ),
        exec(arith_code(op, id, unit), symbols, s).pc == s.pc + arith_code(op, id, unit).len(),
{
    let pop_a = mem_code(MemOp::Pop, Segment::General, OPERAND_A as nat, unit);
    let combine = combine_code(op, id);
    let push = mem_code(MemOp::Push, Segment::General, OPERAND_B as nat, unit);
    lemma_exec_concat(pop_a + combine, push, symbols, s);
    lemma_exec_concat(pop_a, combine, symbols, s);
    lemma_pop_direct(Segment::General, OPERAND_A as nat, unit, symbols, s);
    let s1 = exec(pop_a, symbols, s);
    let r = arith_result(op, 0, top(s.ram));
    let s2 = exec(combine, symbols, s1);
    assert(s2 == (Machine {
        a: OPERAND_B as int,
        d: r,
        ram: s1.ram.insert(OPERAND_B as int, r),
        pc: s1.pc + 5,
    })) by {
        reveal_with_fuel(exec_first, 6);
    }
    lemma_push_direct(Segment::General, OPERAND_B as nat, unit, symbols, s2);
}

/// Whether two more words can be pushed.
pub open spec fn can_push_two(ram: Map<int, int>) -> bool {
    16 <= ram[0] < 65534
}

/// The instructions of `push constant a`, `push constant b` and a binary
/// operation, one after the other.
pub open spec fn constants_code(op: ArithOp, a: nat, b: nat, id: nat, unit: Seq<char>) -> Seq<
    InstrView,
> {
    mem_code(MemOp::Push, Segment::Constant, a, unit) + mem_code(
        MemOp::Push,
        Segment::Constant,
        b,
        unit,
    ) + arith_code(op, id, unit)
}

proof fn lemma_constants(
    op: ArithOp,
    a: nat,
    b: nat,
    id: nat,
    unit: Seq<char>,
    symbols: Map<Seq<char>, int>,
    s: Machine,
)
    requires
        op is Add || op is Sub || op is And || op is Or,
        can_push_two(s.ram),
    ensures
        ({
            let after = exec(constants_code(op, a, b, id, unit), symbols, s);
            &&& after.ram[SP as int] == s.ram[SP as int] + 1
            &&& top(after.ram) == arith_result(op, wrap(a as int), wrap(b as int))
        }),
{
    let push_a = mem_code(MemOp::Push, Segment::Constant, a, unit);
    let push_b = mem_code(MemOp::Push, Segment::Constant, b, unit);
    lemma_exec_concat(push_a + push_b, arith_code(op, id, unit), symbols, s);
    lemma_exec_concat(push_a, push_b, symbols, s);
    lemma_push_constant(a, unit, symbols, s);
    let s1 = exec(push_a, symbols, s);
    lemma_push_constant(b, unit, symbols, s1);
    let s2 = exec(push_b, symbols, s1);
    lemma_binary(op, id, unit, symbols, s2);
}

/// `push constant a`, `push constant b`, `add` leave one word more on the
/// stack than there was, and the word on top is the sum of `a` and `b`,
/// wrapped to 16 bits.
pub proof fn lemma_push_push_add(
    a: nat,
    b: nat,
    id: nat,
    unit: Seq<char>,
    symbols: Map<Seq<char>, int>,
    s: Machine,
)
    requires
        can_push_two(s.ram),
    ensures
        ({
            let after = exec(constants_code(ArithOp::Add, a, b, id, unit), symbols, s);
            &&& after.ram[SP as int] == s.ram[SP as int] + 1
            &&& top(after.ram) == (a + b) % 65536
        }),
{
    lemma_constants(ArithOp::Add, a, b, id, unit, symbols, s);
}

/// `push constant a`, `push constant b`, `sub` leave one word more on the
/// stack than there was, and the word on top is `b` less `a`, wrapped to 16
/// bits: the word pushed second less the word pushed first.
pub proof fn lemma_push_push_sub(
    a: nat,
    b: nat,
    id: nat,
    unit: Seq<char>,
    symbols: Map<Seq<char>, int>,
    s: Machine,
)
    requires
        can_push_two(s.ram),
    ensures
        ({
            let after = exec(constants_code(ArithOp::Sub, a, b, id, unit), symbols, s);
            &&& after.ram[SP as int] == s.ram[SP as int] + 1
            &&& top(after.ram) == (b - a) % 65536
        }),
{
    lemma_constants(ArithOp::Sub, a, b, id, unit, symbols, s);
}

/// The number of steps that the instructions which store the boolean take.
pub open spec fn boolean_steps(taken: bool) -> nat {
    if taken {
        6
    } else {
        7
    }
}

/// Where the two labels stand for the positions of their declarations, the
/// instructions that store the boolean store the word for true if the jump
/// on the word in `D` is taken and zero if it is not, and are left at their
/// end.
pub proof fn lemma_boolean(
    program: Seq<InstrView>,
    jump: Jump,
    id: nat,
    symbols: Map<Seq<char>, int>,
    s: Machine,
)
    requires
        holds_at(program, s.pc, boolean_code(jump, id)),
        symbols[true_label(id)] == s.pc + 6,
        symbols[false_label(id)] == s.pc + 9,
    ensures
        ({
            let taken = jump_taken(jump, s.d);
            let after = run(program, symbols, s, boolean_steps(taken));
            &&& after.pc == s.pc + 10
            &&& after.d == s.d
            &&& after.ram == s.ram.insert(OPERAND_B as int, boolean_word(taken))
        }),
{
    let code = boolean_code(jump, id);
    let part = program.subrange(s.pc, s.pc + code.len());
    assert(forall|i: int| 0 <= i < 10 ==> program[s.pc + i] == #[trigger] part[i]);
    assert(program[s.pc + 0] == code[0]);
    assert(program[s.pc + 1] == code[1]);
    assert(program[s.pc + 2] == code[2]);
    assert(program[s.pc + 3] == code[3]);
    assert(program[s.pc + 4] == code[4]);
    assert(program[s.pc + 5] == code[5]);
    assert(program[s.pc + 6] == code[6]);
    assert(program[s.pc + 7] == code[7]);
    assert(program[s.pc + 8] == code[8]);
    assert(program[s.pc + 9] == code[9]);
    reveal_with_fuel(run, 8);
}

/// The number of steps that a comparison takes.
pub open spec fn comparison_steps(holds: bool) -> nat {
    (18 + boolean_steps(holds) + 7) as nat
}

/// The position in the instructions of a comparison of the declaration of
/// the label that the comparison jumps to when it holds.
pub open spec fn true_label_offset() -> int {
    24
}

/// The position in the instructions of a comparison of the declaration of
/// the label at which both outcomes meet.
pub open spec fn false_label_offset() -> int {
    27
}

/// A comparison takes two words from the stack and puts a boolean there:
/// the word of all one bits if the comparison holds of them, zero if it does
/// not.  It is left at its end.
///
/// The program holds the instructions of the comparison at the position of
/// the machine, and the two labels of the comparison stand for the positions
/// of their declarations.
pub proof fn lemma_comparison(
    program: Seq<InstrView>,
    op: ArithOp,
    id: nat,
    unit: Seq<char>,
    symbols: Map<Seq<char>, int>,
    s: Machine,
)
    requires
        is_comparison(op),
        holds_at(program, s.pc, arith_code(op, id, unit)),
        symbols[true_label(id)] == s.pc + true_label_offset(),
        symbols[false_label(id)] == s.pc + false_label_offset(),
        can_pop_two(s.ram),
    ensures
        ({
            let holds = comparison_holds(op, second(s.ram), top(s.ram));
            let after = run(program, symbols, s, comparison_steps(holds));
            &&& after.pc == s.pc + arith_code(op, id, unit).len()
            &&& replaced_top(s.ram, after.ram, 2, boolean_word(holds))
            &&& (top(after.ram) == 0 || top(after.ram) == true_word())
        }),
{
    let pop_a = mem_code(MemOp::Pop, Segment::General, OPERAND_A as nat, unit);
    let pop_b = mem_code(MemOp::Pop, Segment::General, OPERAND_B as nat, unit);
    let push = mem_code(MemOp::Push, Segment::General, OPERAND_B as nat, unit);
    let jump = if op is Eq {
        Jump::Jeq
    } else {
        Jump::Jgt
    };
    let difference = if op is Lt {
        Comp::DMinusM
    } else {
        Comp::MMinusD
    };
    let subtract = seq![
        InstrView::AtNum(OPERAND_A as nat),
        InstrView::Assign(Dest::D, Comp::M),
        InstrView::AtNum(OPERAND_B as nat),
        InstrView::Assign(Dest::D, difference),
    ];
    let boolean = boolean_code(jump, id);
    let head = pop_a + pop_b + subtract;
    assert(combine_code(op, id) =~= subtract + boolean);
    assert(arith_code(op, id, unit) =~= head + boolean + push);
    lemma_holds_part(program, s.pc, head + boolean, push);
    lemma_holds_part(program, s.pc, head, boolean);
    // The operands are popped and subtracted.
    lemma_mem_code_straight(MemOp::Pop, Segment::General, OPERAND_A as nat, unit);
    lemma_mem_code_straight(MemOp::Pop, Segment::General, OPERAND_B as nat, unit);
    lemma_mem_code_straight(MemOp::Push, Segment::General, OPERAND_B as nat, unit);
    lemma_straight_concat(pop_a, pop_b);
    assert(straight(subtract));
    lemma_straight_concat(pop_a + pop_b, subtract);
    lemma_run_straight(program, symbols, s, head);
    lemma_exec_concat(pop_a + pop_b, subtract, symbols, s);
    lemma_exec_concat(pop_a, pop_b, symbols, s);
    lemma_pop_direct(Segment::General, OPERAND_A as nat, unit, symbols, s);
    let s1 = exec(pop_a, symbols, s);
    lemma_pop_direct(Segment::General, OPERAND_B as nat, unit, symbols, s1);
    let s2 = exec(pop_b, symbols, s1);
    let x = second(s.ram);
    let y = top(s.ram);
    let w = if op is Lt {
        wrap(y - x)
    } else {
        wrap(x - y)
    };
    let s3 = exec(subtract, symbols, s2);
    assert(s3 == (Machine { a: OPERAND_B as int, d: w, ram: s2.ram, pc: s2.pc + 4 })) by {
        reveal_with_fuel(exec_first, 5);
    }
    assert(s3 == run(program, symbols, s, 18));
    // The boolean is stored.
    let holds = comparison_holds(op, x, y);
    assert(holds == jump_taken(jump, w));
    lemma_boolean(program, jump, id, symbols, s3);
    let s4 = run(program, symbols, s3, boolean_steps(holds));
    lemma_run_split(program, symbols, s, 18, boolean_steps(holds));
    // The boolean is pushed.
    lemma_run_straight(program, symbols, s4, push);
    lemma_push_direct(Segment::General, OPERAND_B as nat, unit, symbols, s4);
    lemma_run_split(program, symbols, s, 18 + boolean_steps(holds), 7);
}

/// Of two words, `eq` holds exactly if they are the same word.
pub proof fn lemma_eq_holds(x: int, y: int)
    requires
        is_word(x),
        is_word(y),
    ensures
        comparison_holds(ArithOp::Eq, x, y) <==> x == y,
{
}

/// Of two words that stand for signed numbers less than 32768 apart, `gt`
/// holds exactly if the first stands for the greater number, and `lt`
/// exactly if it stands for the smaller.
pub proof fn lemma_order_holds(x: int, y: int)
    requires
        is_word(x),
        is_word(y),
        -32768 < signed(x) - signed(y) < 32768,
    ensures
        comparison_holds(ArithOp::Gt, x, y) <==> signed(x) > signed(y),
        comparison_holds(ArithOp::Lt, x, y) <==> signed(x) < signed(y),
{
}

} // verus!
