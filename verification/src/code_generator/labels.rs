//! The labels that the translator generates, and why no two of them are the
//! same text.
//!
//! A generated label ends with the number that the label counter had when
//! the label was made, and the counter grows with every comparison and every
//! call.  The two labels of one comparison have the same number and differ in
//! their first letter.

use vstd::prelude::*;
use vstd::string::*;
use crate::assembly::{Comp, Dest, InstrView};
use crate::code_generator::arithmetic_logic::{
    arith_code, combine_code, false_label, is_comparison, operands_code, true_label, ArithOp,
};
use crate::code_generator::branching::{branch_code, jump_code, BranchKind};
use crate::code_generator::function::{
    access_code, argument_offset, call_code, dereference_top_code, function_def_code,
    install_sp_code, jump_back_code, load_return_address_code, locals_code, offset_code,
    push_label_code, restore_code, restore_frame_code, return_code, return_label, save_frame_code,
    set_argument_base_code, set_local_base_code, stash_frame_end_code, stash_new_sp_code,
    stash_return_address_code, FRAME_WORDS,
};
use crate::code_generator::memory::{direct_cell, mem_code, push_d_code, MemOp, Segment};
use crate::code_generator::syntax::InstructionView;
use crate::code_generator::{
    instruction_code, next_counter, ARG, FRAME_END, LCL, NEW_SP, OPERAND_A, OPERAND_B,
    RETURN_ADDRESS, SP, THAT, THIS,
};
use crate::text::{decimal, is_digit, lemma_decimal_digits, lemma_trailing_number, trailing_number};

verus! {

/// The labels that the translation of an instruction generates, where `id`
/// is the value of the label counter after the translation: two for a
/// comparison, one for a call, none for any other instruction.
pub open spec fn fresh_labels(instr: InstructionView, id: nat) -> Seq<Seq<char>> {
    match instr {
        InstructionView::ArithLogic { op } => if is_comparison(op) {
            seq![true_label(id), false_label(id)]
        } else {
            Seq::empty()
        },
        InstructionView::FunctionCall { name, n_args } => seq![return_label(name, id)],
        _ => Seq::empty(),
    }
}

/// The value of the label counter after the translation of the
/// instructions `instrs`, one after the other.
pub open spec fn counter_after(instrs: Seq<InstructionView>, counter: nat) -> nat
    decreases instrs.len(),
{
    if instrs.len() == 0 {
        counter
    } else {
        next_counter(instrs.last(), counter_after(instrs.drop_last(), counter))
    }
}

/// The labels that the translation of the instructions `instrs` generates,
/// one instruction after the other, in the order in which they are made.
pub open spec fn generated_labels(instrs: Seq<InstructionView>, counter: nat) -> Seq<Seq<char>>
    decreases instrs.len(),
{
    if instrs.len() == 0 {
        Seq::empty()
    } else {
        generated_labels(instrs.drop_last(), counter) + fresh_labels(
            instrs.last(),
            counter_after(instrs, counter),
        )
    }
}

/// The number that a generated label ends with is the number it was made
/// with.
pub proof fn lemma_label_numbers(function: Seq<char>, id: nat)
    ensures
        trailing_number(true_label(id)) == id,
        trailing_number(false_label(id)) == id,
        trailing_number(return_label(function, id)) == id,
        true_label(id) != false_label(id),
{
    reveal_strlit("true_expression");
    reveal_strlit("false_expression");
    reveal_strlit("_ret_");
    let t = "true_expression"@;
    let f = "false_expression"@;
    let r = function + "_ret_"@;
    assert(t.last() == 'n');
    assert(f.last() == 'n');
    assert(r.last() == '_');
    lemma_trailing_number(t, id);
    lemma_trailing_number(f, id);
    lemma_trailing_number(r, id);
    assert(true_label(id)[0] == 't');
    assert(false_label(id)[0] == 'f');
}

/// The counter never falls.
pub proof fn lemma_counter_grows(instrs: Seq<InstructionView>, counter: nat)
    ensures
        counter <= counter_after(instrs, counter),
    decreases instrs.len(),
{
    if instrs.len() > 0 {
        lemma_counter_grows(instrs.drop_last(), counter);
    }
}

/// Every generated label ends with a number greater than the value that
/// the counter had at first and no greater than the value it has at last.
pub proof fn lemma_generated_label_numbers(instrs: Seq<InstructionView>, counter: nat, i: int)
    requires
        0 <= i < generated_labels(instrs, counter).len(),
    ensures
        counter < trailing_number(generated_labels(instrs, counter)[i]) <= counter_after(
            instrs,
            counter,
        ),
    decreases instrs.len(),
{
    if instrs.len() > 0 {
        let before = generated_labels(instrs.drop_last(), counter);
        lemma_counter_grows(instrs.drop_last(), counter);
        if i < before.len() {
            lemma_generated_label_numbers(instrs.drop_last(), counter, i);
        } else {
            let id = counter_after(instrs, counter);
            match instrs.last() {
                InstructionView::FunctionCall { name, n_args } => {
                    lemma_label_numbers(name, id);
                },
                _ => {
                    lemma_label_numbers(Seq::empty(), id);
                },
            }
        }
    }
}

/// No two labels generated in the translation of a sequence of
/// instructions are the same text, whatever the instructions and the names
/// in them are.
pub proof fn lemma_generated_labels_distinct(
    instrs: Seq<InstructionView>,
    counter: nat,
    i: int,
    j: int,
)
    requires
        0 <= i < j < generated_labels(instrs, counter).len(),
    ensures
        generated_labels(instrs, counter)[i] != generated_labels(instrs, counter)[j],
    decreases instrs.len(),
{
    if instrs.len() > 0 {
        let before = generated_labels(instrs.drop_last(), counter);
        let id = counter_after(instrs, counter);
        if j < before.len() {
            lemma_generated_labels_distinct(instrs.drop_last(), counter, i, j);
        } else if i < before.len() {
            lemma_generated_label_numbers(instrs.drop_last(), counter, i);
            lemma_generated_label_numbers(instrs, counter, j);
            assert(generated_labels(instrs, counter)[i] == before[i]);
            match instrs.last() {
                InstructionView::FunctionCall { name, n_args } => {
                    lemma_label_numbers(name, id);
                },
                _ => {
                    lemma_label_numbers(Seq::empty(), id);
                },
            }
        } else {
            lemma_label_numbers(Seq::empty(), id);
        }
    }
}

/// A name that does not end with a decimal digit is none of the labels that
/// the translator generates.
pub proof fn lemma_generated_label_ends_with_digit(
    instrs: Seq<InstructionView>,
    counter: nat,
    i: int,
)
    requires
        0 <= i < generated_labels(instrs, counter).len(),
    ensures
        generated_labels(instrs, counter)[i].len() > 0,
        is_digit(generated_labels(instrs, counter)[i].last()),
    decreases instrs.len(),
{
    if instrs.len() > 0 {
        let before = generated_labels(instrs.drop_last(), counter);
        if i < before.len() {
            lemma_generated_label_ends_with_digit(instrs.drop_last(), counter, i);
        } else {
            let id = counter_after(instrs, counter);
            lemma_decimal_digits(id);
            let d = decimal(id);
            assert(is_digit(d[d.len() - 1]));
        }
    }
}

/// The label that an instruction declares, if it declares one.
pub open spec fn label_of(instr: InstrView) -> Seq<Seq<char>> {
    match instr {
        InstrView::Label(name) => seq![name],
        _ => Seq::empty(),
    }
}

/// The labels that the first `n` instructions of `code` declare, in order.
pub open spec fn declared_first(code: Seq<InstrView>, n: nat) -> Seq<Seq<char>>
    decreases n,
{
    if n == 0 {
        Seq::empty()
    } else {
        declared_first(code, (n - 1) as nat) + label_of(code[n - 1])
    }
}

/// The labels that `code` declares, in order.
pub open spec fn declared_labels(code: Seq<InstrView>) -> Seq<Seq<char>> {
    declared_first(code, code.len())
}

/// The labels that the program itself names in an instruction and that the
/// translation declares: the name of a `label` instruction and the name of a
/// function at its entry.
pub open spec fn named_labels(instr: InstructionView) -> Seq<Seq<char>> {
    match instr {
        InstructionView::Branch { kind, name } => if kind is Label {
            seq![name]
        } else {
            Seq::empty()
        },
        InstructionView::FunctionDef { name, n_locals } => seq![name],
        _ => Seq::empty(),
    }
}

/// Whether `code` declares no label.
pub open spec fn no_labels(code: Seq<InstrView>) -> bool {
    forall|i: int| 0 <= i < code.len() ==> !(#[trigger] code[i] is Label)
}

proof fn lemma_declared_first_prefix(a: Seq<InstrView>, b: Seq<InstrView>, n: nat)
    requires
        n <= a.len(),
        n <= b.len(),
        forall|i: int| 0 <= i < n ==> a[i] == b[i],
    ensures
        declared_first(a, n) == declared_first(b, n),
    decreases n,
{
    if n > 0 {
        lemma_declared_first_prefix(a, b, (n - 1) as nat);
    }
}

proof fn lemma_declared_concat_first(a: Seq<InstrView>, b: Seq<InstrView>, k: nat)
    requires
        k <= b.len(),
    ensures
        declared_first(a + b, a.len() + k) == declared_labels(a) + declared_first(b, k),
    decreases k,
{
    if k == 0 {
        lemma_declared_first_prefix(a + b, a, a.len());
        assert(declared_labels(a) + Seq::<Seq<char>>::empty() =~= declared_labels(a));
    } else {
        lemma_declared_concat_first(a, b, (k - 1) as nat);
        assert((a + b)[a.len() + k - 1] == b[k - 1]);
        assert(declared_labels(a) + declared_first(b, (k - 1) as nat) + label_of(b[k - 1])
            =~= declared_labels(a) + (declared_first(b, (k - 1) as nat) + label_of(b[k - 1])));
    }
}

/// The labels of a concatenation are the labels of its parts.
pub proof fn lemma_declared_concat(a: Seq<InstrView>, b: Seq<InstrView>)
    ensures
        declared_labels(a + b) == declared_labels(a) + declared_labels(b),
        no_labels(a) && no_labels(b) ==> no_labels(a + b),
{
    lemma_declared_concat_first(a, b, b.len());
    if no_labels(a) && no_labels(b) {
        assert forall|i: int| 0 <= i < (a + b).len() implies !(#[trigger] (a + b)[i] is Label) by {
            if i < a.len() {
                assert((a + b)[i] == a[i]);
            } else {
                assert((a + b)[i] == b[i - a.len()]);
            }
        }
    }
}

proof fn lemma_no_labels_first(code: Seq<InstrView>, n: nat)
    requires
        no_labels(code),
        n <= code.len(),
    ensures
        declared_first(code, n) == Seq::<Seq<char>>::empty(),
    decreases n,
{
    if n > 0 {
        lemma_no_labels_first(code, (n - 1) as nat);
        assert(!(code[n - 1] is Label));
        assert(Seq::<Seq<char>>::empty() + Seq::<Seq<char>>::empty() =~= Seq::<Seq<char>>::empty());
    }
}

/// Code without label declarations declares no labels.
pub proof fn lemma_no_labels(code: Seq<InstrView>)
    requires
        no_labels(code),
    ensures
        declared_labels(code) == Seq::<Seq<char>>::empty(),
{
    lemma_no_labels_first(code, code.len());
}

/// A memory access declares no label.
pub proof fn lemma_mem_code_no_labels(op: MemOp, segment: Segment, index: nat, unit: Seq<char>)
    ensures
        no_labels(mem_code(op, segment, index, unit)),
{
    let code = mem_code(op, segment, index, unit);
    assert forall|i: int| 0 <= i < code.len() implies !(#[trigger] code[i] is Label) by {
        assert(!(direct_cell(segment, index, unit) is Label));
    }
}

/// An operation other than a comparison declares no label.
pub proof fn lemma_arith_code_no_labels(op: ArithOp, id: nat, unit: Seq<char>)
    requires
        !is_comparison(op),
    ensures
        no_labels(arith_code(op, id, unit)),
{
    let pop_a = mem_code(MemOp::Pop, Segment::General, OPERAND_A as nat, unit);
    let pop_b = mem_code(MemOp::Pop, Segment::General, OPERAND_B as nat, unit);
    let push = mem_code(MemOp::Push, Segment::General, OPERAND_B as nat, unit);
    lemma_mem_code_no_labels(MemOp::Pop, Segment::General, OPERAND_A as nat, unit);
    lemma_mem_code_no_labels(MemOp::Pop, Segment::General, OPERAND_B as nat, unit);
    lemma_mem_code_no_labels(MemOp::Push, Segment::General, OPERAND_B as nat, unit);
    assert(no_labels(combine_code(op, id)));
    lemma_declared_concat(pop_a, pop_b);
    lemma_declared_concat(operands_code(op, unit), combine_code(op, id));
    lemma_declared_concat(operands_code(op, unit) + combine_code(op, id), push);
}

/// A comparison declares its two labels, the one for the case that it
/// holds first.
pub proof fn lemma_comparison_labels(op: ArithOp, id: nat, unit: Seq<char>)
    requires
        is_comparison(op),
    ensures
        declared_labels(arith_code(op, id, unit)) == seq![true_label(id), false_label(id)],
{
    let pop_a = mem_code(MemOp::Pop, Segment::General, OPERAND_A as nat, unit);
    let pop_b = mem_code(MemOp::Pop, Segment::General, OPERAND_B as nat, unit);
    let push = mem_code(MemOp::Push, Segment::General, OPERAND_B as nat, unit);
    let combine = combine_code(op, id);
    lemma_mem_code_no_labels(MemOp::Pop, Segment::General, OPERAND_A as nat, unit);
    lemma_mem_code_no_labels(MemOp::Pop, Segment::General, OPERAND_B as nat, unit);
    lemma_mem_code_no_labels(MemOp::Push, Segment::General, OPERAND_B as nat, unit);
    lemma_declared_concat(pop_a, pop_b);
    lemma_declared_concat(pop_a + pop_b, combine);
    lemma_declared_concat(pop_a + pop_b + combine, push);
    lemma_no_labels(pop_a + pop_b);
    lemma_no_labels(push);
    assert(combine.len() == 14);
    assert(declared_labels(combine) =~= seq![true_label(id), false_label(id)]) by {
        reveal_with_fuel(declared_first, 15);
    }
    assert(declared_labels(arith_code(op, id, unit)) =~= seq![true_label(id), false_label(id)]);
}

/// A branching instruction declares a label only if it is a `label`
/// instruction, and then the label it names.
pub proof fn lemma_branch_labels(kind: BranchKind, name: Seq<char>, unit: Seq<char>)
    ensures
        declared_labels(branch_code(kind, name, unit)) == if kind is Label {
            seq![name]
        } else {
            Seq::<Seq<char>>::empty()
        },
{
    let pop = mem_code(MemOp::Pop, Segment::General, OPERAND_A as nat, unit);
    lemma_mem_code_no_labels(MemOp::Pop, Segment::General, OPERAND_A as nat, unit);
    lemma_declared_concat(pop, jump_code(kind, name));
    lemma_no_labels(pop);
    assert(declared_labels(jump_code(kind, name)) =~= if kind is Label {
        seq![name]
    } else {
        Seq::<Seq<char>>::empty()
    }) by {
        reveal_with_fuel(declared_first, 5);
    }
    assert(declared_labels(branch_code(kind, name, unit)) =~= if kind is Label {
        seq![name]
    } else {
        Seq::<Seq<char>>::empty()
    });
}

proof fn lemma_locals_no_labels(n: nat, unit: Seq<char>)
    ensures
        no_labels(locals_code(n, unit)),
    decreases n,
{
    if n > 0 {
        lemma_locals_no_labels((n - 1) as nat, unit);
        lemma_mem_code_no_labels(MemOp::Push, Segment::Constant, 0, unit);
        lemma_declared_concat(
            locals_code((n - 1) as nat, unit),
            access_code(MemOp::Push, Segment::Constant, 0, unit),
        );
    }
}

/// The entry of a function declares the name of the function.
pub proof fn lemma_function_def_labels(function: Seq<char>, n_vars: nat, unit: Seq<char>)
    ensures
        declared_labels(function_def_code(function, n_vars, unit)) == seq![function],
{
    let entry = seq![InstrView::Label(function)];
    lemma_locals_no_labels(n_vars, unit);
    lemma_no_labels(locals_code(n_vars, unit));
    lemma_declared_concat(entry, locals_code(n_vars, unit));
    assert(declared_labels(entry) =~= seq![function]) by {
        reveal_with_fuel(declared_first, 2);
    }
    assert(declared_labels(function_def_code(function, n_vars, unit)) =~= seq![function]);
}

proof fn lemma_access4_no_labels(
    a: Seq<InstrView>,
    b: Seq<InstrView>,
    c: Seq<InstrView>,
    d: Seq<InstrView>,
)
    requires
        no_labels(a),
        no_labels(b),
        no_labels(c),
        no_labels(d),
    ensures
        no_labels(a + b + c + d),
{
    lemma_declared_concat(a, b);
    lemma_declared_concat(a + b, c);
    lemma_declared_concat(a + b + c, d);
}

/// A call declares the label of its return site and no other.
pub proof fn lemma_call_labels(function: Seq<char>, n_args: nat, id: nat, unit: Seq<char>)
    ensures
        declared_labels(call_code(function, n_args, id, unit)) == seq![return_label(function, id)],
{
    let label = return_label(function, id);
    let a = push_label_code(label);
    let b = save_frame_code(unit);
    let c = set_argument_base_code(n_args, unit);
    let d = set_local_base_code(unit);
    let e = branch_code(BranchKind::Goto, function, unit);
    let f = seq![InstrView::Label(label)];
    assert(no_labels(a)) by {
        let load = seq![
            InstrView::AtSym(label),
            InstrView::Assign(Dest::D, Comp::A),
        ];
        assert(no_labels(load));
        assert(no_labels(push_d_code()));
        lemma_declared_concat(load, push_d_code());
    }
    assert(no_labels(b)) by {
        lemma_mem_code_no_labels(MemOp::Push, Segment::General, LCL as nat, unit);
        lemma_mem_code_no_labels(MemOp::Push, Segment::General, ARG as nat, unit);
        lemma_mem_code_no_labels(MemOp::Push, Segment::General, THIS as nat, unit);
        lemma_mem_code_no_labels(MemOp::Push, Segment::General, THAT as nat, unit);
        lemma_access4_no_labels(
            access_code(MemOp::Push, Segment::General, LCL as nat, unit),
            access_code(MemOp::Push, Segment::General, ARG as nat, unit),
            access_code(MemOp::Push, Segment::General, THIS as nat, unit),
            access_code(MemOp::Push, Segment::General, THAT as nat, unit),
        );
    }
    assert(no_labels(c)) by {
        lemma_stash_no_labels(
            SP as nat,
            argument_offset(n_args),
            ArithOp::Sub,
            ARG as nat,
            unit,
        );
    }
    assert(no_labels(d)) by {
        lemma_mem_code_no_labels(MemOp::Push, Segment::General, SP as nat, unit);
        lemma_mem_code_no_labels(MemOp::Pop, Segment::General, LCL as nat, unit);
        lemma_declared_concat(
            access_code(MemOp::Push, Segment::General, SP as nat, unit),
            access_code(MemOp::Pop, Segment::General, LCL as nat, unit),
        );
    }
    assert(no_labels(e));
    lemma_declared_concat(a, b);
    lemma_declared_concat(a + b, c);
    lemma_declared_concat(a + b + c, d);
    lemma_declared_concat(a + b + c + d, e);
    lemma_declared_concat(a + b + c + d + e, f);
    lemma_no_labels(a + b + c + d + e);
    assert(declared_labels(f) =~= seq![label]) by {
        reveal_with_fuel(declared_first, 2);
    }
    assert(declared_labels(call_code(function, n_args, id, unit)) =~= seq![label]);
}

proof fn lemma_stash_no_labels(src: nat, c: nat, op: ArithOp, dst: nat, unit: Seq<char>)
    requires
        !is_comparison(op),
    ensures
        no_labels(
            offset_code(c, src, op, unit) + access_code(MemOp::Pop, Segment::General, dst, unit),
        ),
{
    lemma_mem_code_no_labels(MemOp::Push, Segment::Constant, c, unit);
    lemma_mem_code_no_labels(MemOp::Push, Segment::General, src, unit);
    lemma_arith_code_no_labels(op, 0, unit);
    lemma_mem_code_no_labels(MemOp::Pop, Segment::General, dst, unit);
    lemma_access4_no_labels(
        access_code(MemOp::Push, Segment::Constant, c, unit),
        access_code(MemOp::Push, Segment::General, src, unit),
        arith_code(op, 0, unit),
        access_code(MemOp::Pop, Segment::General, dst, unit),
    );
}

proof fn lemma_restore_no_labels(n: nat, unit: Seq<char>)
    ensures
        no_labels(restore_code(n, unit)),
{
    let a = access_code(MemOp::Push, Segment::General, FRAME_END as nat, unit);
    let b = access_code(MemOp::Push, Segment::Constant, n, unit);
    let c = arith_code(ArithOp::Sub, 0, unit);
    let d = dereference_top_code();
    let e = access_code(
        MemOp::Pop,
        Segment::General,
        (FRAME_WORDS - n) as nat,
        unit,
    );
    lemma_mem_code_no_labels(MemOp::Push, Segment::Constant, n, unit);
    lemma_mem_code_no_labels(MemOp::Push, Segment::General, FRAME_END as nat, unit);
    lemma_arith_code_no_labels(ArithOp::Sub, 0, unit);
    lemma_mem_code_no_labels(
        MemOp::Pop,
        Segment::General,
        (FRAME_WORDS - n) as nat,
        unit,
    );
    assert(no_labels(d));
    lemma_access4_no_labels(a, b, c, d);
    lemma_declared_concat(a + b + c + d, e);
}

proof fn lemma_restore_frame_no_labels(n: nat, unit: Seq<char>)
    ensures
        no_labels(restore_frame_code(n, unit)),
    decreases n,
{
    if n > 0 {
        lemma_restore_frame_no_labels((n - 1) as nat, unit);
        lemma_restore_no_labels(n, unit);
        lemma_declared_concat(restore_frame_code((n - 1) as nat, unit), restore_code(n, unit));
    }
}

/// A return declares no label.
pub proof fn lemma_return_labels(unit: Seq<char>)
    ensures
        declared_labels(return_code(unit)) == Seq::<Seq<char>>::empty(),
{
    let a = stash_return_address_code(unit);
    let b = stash_frame_end_code(unit);
    let c = access_code(MemOp::Pop, Segment::Argument, 0, unit);
    let d = stash_new_sp_code(unit);
    let e = restore_frame_code(4, unit);
    let f = install_sp_code(unit);
    let g = jump_back_code();
    assert(no_labels(a)) by {
        lemma_stash_no_labels(
            LCL as nat,
            FRAME_WORDS as nat,
            ArithOp::Sub,
            RETURN_ADDRESS as nat,
            unit,
        );
        assert(no_labels(load_return_address_code()));
        lemma_declared_concat(
            offset_code(FRAME_WORDS as nat, LCL as nat, ArithOp::Sub, unit) + access_code(
                MemOp::Pop,
                Segment::General,
                RETURN_ADDRESS as nat,
                unit,
            ),
            load_return_address_code(),
        );
    }
    assert(no_labels(b)) by {
        lemma_mem_code_no_labels(MemOp::Push, Segment::General, LCL as nat, unit);
        lemma_mem_code_no_labels(MemOp::Pop, Segment::General, FRAME_END as nat, unit);
        lemma_declared_concat(
            access_code(MemOp::Push, Segment::General, LCL as nat, unit),
            access_code(MemOp::Pop, Segment::General, FRAME_END as nat, unit),
        );
    }
    lemma_mem_code_no_labels(MemOp::Pop, Segment::Argument, 0, unit);
    assert(no_labels(d)) by {
        lemma_stash_no_labels(
            ARG as nat,
            1,
            ArithOp::Add,
            NEW_SP as nat,
            unit,
        );
    }
    lemma_restore_frame_no_labels(4, unit);
    assert(no_labels(f)) by {
        lemma_mem_code_no_labels(MemOp::Push, Segment::General, NEW_SP as nat, unit);
        lemma_mem_code_no_labels(MemOp::Pop, Segment::General, SP as nat, unit);
        lemma_declared_concat(
            access_code(MemOp::Push, Segment::General, NEW_SP as nat, unit),
            access_code(MemOp::Pop, Segment::General, SP as nat, unit),
        );
    }
    assert(no_labels(g));
    lemma_declared_concat(a, b);
    lemma_declared_concat(a + b, c);
    lemma_declared_concat(a + b + c, d);
    lemma_declared_concat(a + b + c + d, e);
    lemma_declared_concat(a + b + c + d + e, f);
    lemma_declared_concat(a + b + c + d + e + f, g);
    lemma_no_labels(return_code(unit));
}

/// The labels that the instructions of an instruction of the virtual
/// machine declare are the label that the program names in it, if any, and
/// the labels that the translator generates for it.
pub proof fn lemma_instruction_labels(instr: InstructionView, id: nat, unit: Seq<char>)
    ensures
        declared_labels(instruction_code(instr, id, unit)) == named_labels(instr) + fresh_labels(
            instr,
            id,
        ),
{
    let empty = Seq::<Seq<char>>::empty();
    assert(empty + empty =~= empty);
    match instr {
        InstructionView::MemoryAccess { op, segment, index } => {
            lemma_mem_code_no_labels(op, segment, index, unit);
            lemma_no_labels(mem_code(op, segment, index, unit));
        },
        InstructionView::ArithLogic { op } => {
            if is_comparison(op) {
                lemma_comparison_labels(op, id, unit);
                assert(empty + seq![true_label(id), false_label(id)] =~= seq![
                    true_label(id),
                    false_label(id),
                ]);
            } else {
                lemma_arith_code_no_labels(op, id, unit);
                lemma_no_labels(arith_code(op, id, unit));
            }
        },
        InstructionView::Branch { kind, name } => {
            lemma_branch_labels(kind, name, unit);
            assert(seq![name] + empty =~= seq![name]);
        },
        InstructionView::FunctionDef { name, n_locals } => {
            lemma_function_def_labels(name, n_locals, unit);
            assert(seq![name] + empty =~= seq![name]);
        },
        InstructionView::FunctionCall { name, n_args } => {
            lemma_call_labels(name, n_args, id, unit);
            assert(empty + seq![return_label(name, id)] =~= seq![return_label(name, id)]);
        },
        InstructionView::Return => {
            lemma_return_labels(unit);
        },
    }
}

/// The labels that the program itself names in the instructions `instrs`
/// and that the translation declares, in order.
pub open spec fn all_named_labels(instrs: Seq<InstructionView>) -> Seq<Seq<char>>
    decreases instrs.len(),
{
    if instrs.len() == 0 {
        Seq::empty()
    } else {
        all_named_labels(instrs.drop_last()) + named_labels(instrs.last())
    }
}

/// All the labels that the translation of the instructions `instrs`
/// declares, in the order of their declarations: for each instruction the
/// label that the program names in it, if any, and the labels that the
/// translator generates for it.
pub open spec fn all_labels(instrs: Seq<InstructionView>, counter: nat) -> Seq<Seq<char>>
    decreases instrs.len(),
{
    if instrs.len() == 0 {
        Seq::empty()
    } else {
        all_labels(instrs.drop_last(), counter) + named_labels(instrs.last()) + fresh_labels(
            instrs.last(),
            counter_after(instrs, counter),
        )
    }
}

/// Whether no two labels of a sequence are the same text.
pub open spec fn distinct(labels: Seq<Seq<char>>) -> bool {
    forall|i: int, j: int| 0 <= i < j < labels.len() ==> labels[i] != labels[j]
}

/// Whether no label of one sequence is a label of the other.
pub open spec fn disjoint(a: Seq<Seq<char>>, b: Seq<Seq<char>>) -> bool {
    forall|i: int, j: int| 0 <= i < a.len() && 0 <= j < b.len() ==> a[i] != b[j]
}

/// Every declared label is one that the program names or one that the
/// translator generates.
pub proof fn lemma_label_origin(instrs: Seq<InstructionView>, counter: nat, k: int)
    requires
        0 <= k < all_labels(instrs, counter).len(),
    ensures
        all_named_labels(instrs).contains(all_labels(instrs, counter)[k]) || generated_labels(
            instrs,
            counter,
        ).contains(all_labels(instrs, counter)[k]),
    decreases instrs.len(),
{
    if instrs.len() > 0 {
        let before = instrs.drop_last();
        let a = all_labels(before, counter);
        let n = named_labels(instrs.last());
        let label = all_labels(instrs, counter)[k];
        let named = all_named_labels(instrs);
        let generated = generated_labels(instrs, counter);
        if k < a.len() {
            lemma_label_origin(before, counter, k);
            if all_named_labels(before).contains(label) {
                let i = choose|i: int|
                    0 <= i < all_named_labels(before).len() && all_named_labels(before)[i]
                        == label;
                assert(named[i] == label);
            } else {
                let i = choose|i: int|
                    0 <= i < generated_labels(before, counter).len() && generated_labels(
                        before,
                        counter,
                    )[i] == label;
                assert(generated[i] == label);
            }
        } else if k < a.len() + n.len() {
            assert(named[all_named_labels(before).len() + (k - a.len())] == label);
        } else {
            assert(generated[generated_labels(before, counter).len() + (k - a.len() - n.len())]
                == label);
        }
    }
}

/// Where the labels that the program names are all different and none of
/// them is a label that the translator generates, no two label declarations
/// of the translation declare the same label.
pub proof fn lemma_all_labels_distinct(
    instrs: Seq<InstructionView>,
    counter: nat,
    i: int,
    j: int,
)
    requires
        distinct(all_named_labels(instrs)),
        disjoint(all_named_labels(instrs), generated_labels(instrs, counter)),
        0 <= i < j < all_labels(instrs, counter).len(),
    ensures
        all_labels(instrs, counter)[i] != all_labels(instrs, counter)[j],
    decreases instrs.len(),
{
    if instrs.len() > 0 {
        let before = instrs.drop_last();
        let a = all_labels(before, counter);
        let n = named_labels(instrs.last());
        let named = all_named_labels(instrs);
        let generated = generated_labels(instrs, counter);
        let named_before = all_named_labels(before);
        let generated_before = generated_labels(before, counter);
        let all = all_labels(instrs, counter);
        assert forall|x: int| 0 <= x < named_before.len() implies named_before[x] == named[x] by {}
        assert forall|y: int| 0 <= y < generated_before.len() implies generated_before[y]
            == generated[y] by {}
        if j < a.len() {
            assert(distinct(named_before)) by {
                assert forall|x: int, y: int|
                    0 <= x < y < named_before.len() implies named_before[x] != named_before[y] by {
                    assert(named[x] != named[y]);
                }
            }
            assert(disjoint(named_before, generated_before)) by {
                assert forall|x: int, y: int|
                    0 <= x < named_before.len() && 0 <= y
                        < generated_before.len() implies named_before[x] != generated_before[y] by {
                    assert(named[x] != generated[y]);
                }
            }
            lemma_all_labels_distinct(before, counter, i, j);
        } else {
            // The place of the later label among the named or the generated.
            let j_named = j < a.len() + n.len();
            let jn = named_before.len() + (j - a.len());
            let jg = generated_before.len() + (j - a.len() - n.len());
            if j_named {
                assert(named[jn] == all[j]);
            } else {
                assert(generated[jg] == all[j]);
            }
            if i < a.len() {
                lemma_label_origin(before, counter, i);
                if named_before.contains(all[i]) {
                    let x = choose|x: int| 0 <= x < named_before.len() && named_before[x] == all[i];
                    assert(named[x] == all[i]);
                    if j_named {
                        assert(named[x] != named[jn]);
                    } else {
                        assert(named[x] != generated[jg]);
                    }
                } else {
                    let y = choose|y: int|
                        0 <= y < generated_before.len() && generated_before[y] == all[i];
                    assert(generated[y] == all[i]);
                    if j_named {
                        assert(named[jn] != generated[y]);
                    } else {
                        lemma_generated_labels_distinct(instrs, counter, y, jg);
                    }
                }
            } else if i < a.len() + n.len() {
                let xn = named_before.len() + (i - a.len());
                assert(named[xn] == all[i]);
                if j_named {
                    assert(named[xn] != named[jn]);
                } else {
                    assert(named[xn] != generated[jg]);
                }
            } else {
                let ig = generated_before.len() + (i - a.len() - n.len());
                assert(generated[ig] == all[i]);
                lemma_generated_labels_distinct(instrs, counter, ig, jg);
            }
        }
    }
}

/// The labels of a concatenation of instructions are the labels of its
/// parts, the second part counted from where the first ended.
pub proof fn lemma_all_labels_concat(
    a: Seq<InstructionView>,
    b: Seq<InstructionView>,
    counter: nat,
)
    ensures
        counter_after(a + b, counter) == counter_after(b, counter_after(a, counter)),
        all_labels(a + b, counter) == all_labels(a, counter) + all_labels(
            b,
            counter_after(a, counter),
        ),
    decreases b.len(),
{
    if b.len() == 0 {
        assert(a + b =~= a);
        assert(all_labels(a, counter) + Seq::<Seq<char>>::empty() =~= all_labels(a, counter));
    } else {
        assert((a + b).drop_last() =~= a + b.drop_last());
        assert((a + b).last() == b.last());
        lemma_all_labels_concat(a, b.drop_last(), counter);
        let start = counter_after(a, counter);
        assert(all_labels(a + b, counter) =~= all_labels(a, counter) + all_labels(b, start));
    }
}

} // verus!
