//! Annotated output is plain output with comments, separators and
//! indentation added: what is left of it without them is the plain output.

use vstd::prelude::*;
use crate::assembly::{comp_text, dest_text, render, render_code, InstrView};
use crate::code_generator::arithmetic_logic::{
    arith_body_text, arith_comment, arith_text, combine_code, operands_text, ArithOp,
};
use crate::code_generator::branching::{
    branch_body_text, branch_comment, branch_text, jump_code, BranchKind,
};
use crate::code_generator::function::{
    access_text, argument_offset, call_text, dereference_top_code, function_def_text,
    install_sp_text, jump_back_code, load_return_address_code, locals_text, operation_text,
    push_label_code, restore_comment, restore_frame_text, restore_text, return_label, return_text,
    save_frame_text, set_argument_base_text, set_local_base_text, stash_frame_end_text,
    stash_new_sp_text, stash_return_address_text, FRAME_WORDS,
};
use crate::code_generator::memory::{blank_line, mem_code, mem_comment, mem_text, MemOp, Segment};
use crate::code_generator::program::{
    instructions_text, lemma_program_text_plain, lemma_program_translation,
    lemma_units_outcome_alike, program_code, unit_instructions, units_instructions, units_text,
};
use crate::code_generator::labels::counter_after;
use crate::code_generator::syntax::InstructionView;
use crate::code_generator::{
    bootstrap_text, entry_function, entry_unit, function_comment, init_cells_code,
    instruction_comment, instruction_text, program_outcome, return_comment, SourceUnitView, ARG,
    DEFAULT_PADDING, FRAME_END, LCL, NEW_SP, OPERAND_A, OPERAND_B, RETURN_ADDRESS, SP, THAT, THIS,
};
use crate::utils::{padded, padded_lines, spaces};

verus! {

/// The first position at or after `from` that holds no space, or the length
/// of `s` if there is none.
pub open spec fn indent_end(s: Seq<char>, from: int) -> int
    decreases s.len() - from,
{
    if 0 <= from < s.len() && s[from] == ' ' {
        indent_end(s, from + 1)
    } else {
        from
    }
}

/// The line without the spaces it begins with.
pub open spec fn unindented(s: Seq<char>) -> Seq<char> {
    s.subrange(indent_end(s, 0), s.len() as int)
}

/// Whether the text begins a comment or a separator, or is empty.
pub open spec fn begins_annotation(s: Seq<char>) -> bool {
    s.len() == 0 || s[0] == '\n' || (s.len() >= 2 && s[0] == '/' && s[1] == '/')
}

/// Whether a line is an annotation: after the spaces it begins with comes
/// nothing, a line break, or a comment.
pub open spec fn is_annotation(s: Seq<char>) -> bool {
    begins_annotation(unindented(s))
}

/// What a line contributes to the instructions of a text: nothing if it is
/// an annotation, itself without indentation if it is not.
pub open spec fn code_line(s: Seq<char>) -> Seq<Seq<char>> {
    if is_annotation(s) {
        Seq::empty()
    } else {
        seq![unindented(s)]
    }
}

/// The lines of a text that are no annotations, without their indentation.
pub open spec fn code_lines(text: Seq<Seq<char>>) -> Seq<Seq<char>>
    decreases text.len(),
{
    if text.len() == 0 {
        Seq::empty()
    } else {
        code_lines(text.drop_last()) + code_line(text.last())
    }
}

proof fn lemma_indent_end(s: Seq<char>, from: int)
    requires
        0 <= from <= s.len(),
    ensures
        from <= indent_end(s, from) <= s.len(),
    decreases s.len() - from,
{
    if from < s.len() && s[from] == ' ' {
        lemma_indent_end(s, from + 1);
    }
}

proof fn lemma_indent_end_shift(s: Seq<char>, n: nat, from: int)
    requires
        0 <= from <= s.len(),
    ensures
        indent_end(spaces(n) + s, n + from) == n + indent_end(s, from),
    decreases s.len() - from,
{
    let t = spaces(n) + s;
    if from < s.len() {
        assert(t[n + from] == s[from]);
        if s[from] == ' ' {
            lemma_indent_end_shift(s, n, from + 1);
        }
    }
}

proof fn lemma_indent_end_padded(s: Seq<char>, n: nat, from: int)
    requires
        0 <= from <= n,
    ensures
        indent_end(padded(s, n), from) == n + indent_end(s, 0),
    decreases n - from,
{
    let t = spaces(n) + s;
    if from < n {
        assert(t[from] == ' ');
        lemma_indent_end_padded(s, n, from + 1);
    } else {
        lemma_indent_end_shift(s, n, 0);
    }
}

/// A line behind spaces is the same line without indentation.
pub proof fn lemma_unindented_padded(s: Seq<char>, n: nat)
    ensures
        unindented(padded(s, n)) == unindented(s),
        code_line(padded(s, n)) == code_line(s),
{
    lemma_indent_end_padded(s, n, 0);
    lemma_indent_end(s, 0);
    assert(unindented(padded(s, n)) =~= unindented(s));
}

/// The instructions of a concatenation are those of its parts.
pub proof fn lemma_code_lines_concat(a: Seq<Seq<char>>, b: Seq<Seq<char>>)
    ensures
        code_lines(a + b) == code_lines(a) + code_lines(b),
    decreases b.len(),
{
    if b.len() == 0 {
        assert(a + b =~= a);
        assert(code_lines(a) + code_lines(b) =~= code_lines(a));
    } else {
        assert((a + b).drop_last() =~= a + b.drop_last());
        assert((a + b).last() == b.last());
        lemma_code_lines_concat(a, b.drop_last());
        assert(code_lines(a) + code_lines(b.drop_last()) + code_line(b.last()) =~= code_lines(a)
            + (code_lines(b.drop_last()) + code_line(b.last())));
    }
}

/// Indentation changes nothing of the instructions of a text.
pub proof fn lemma_code_lines_padded(text: Seq<Seq<char>>, n: nat)
    ensures
        code_lines(padded_lines(text, n)) == code_lines(text),
    decreases text.len(),
{
    if text.len() > 0 {
        assert(padded_lines(text, n).drop_last() =~= padded_lines(text.drop_last(), n));
        assert(padded_lines(text, n).last() == padded(text.last(), n));
        lemma_code_lines_padded(text.drop_last(), n);
        lemma_unindented_padded(text.last(), n);
    }
}

/// The text of an instruction is no annotation and has no indentation.
pub proof fn lemma_code_line_render(instr: InstrView)
    ensures
        code_line(render(instr)) == seq![render(instr)],
{
    let line = render(instr);
    match instr {
        InstrView::Assign(dest, comp) => {
            assert(line[0] == dest_text(dest)[0]);
        },
        InstrView::Branch(comp, jump) => {
            assert(line[0] == comp_text(comp)[0]);
        },
        _ => {},
    }
    assert(line.len() > 0 && line[0] != ' ' && line[0] != '\n' && line[0] != '/');
    assert(indent_end(line, 0) == 0);
    assert(unindented(line) =~= line);
}

/// The text of instructions holds no annotation and no indentation.
pub proof fn lemma_code_lines_render(code: Seq<InstrView>)
    ensures
        code_lines(render_code(code)) == render_code(code),
    decreases code.len(),
{
    if code.len() == 0 {
        assert(render_code(code) =~= Seq::<Seq<char>>::empty());
    } else {
        assert(render_code(code).drop_last() =~= render_code(code.drop_last()));
        assert(render_code(code).last() == render(code.last()));
        lemma_code_lines_render(code.drop_last());
        lemma_code_line_render(code.last());
        assert(render_code(code.drop_last()) + seq![render(code.last())] =~= render_code(code));
    }
}

/// A line that begins with a line break or with `//` is an annotation.
pub proof fn lemma_annotation(s: Seq<char>)
    requires
        s.len() > 0,
        s[0] == '\n' || (s.len() >= 2 && s[0] == '/' && s[1] == '/'),
    ensures
        code_line(s) == Seq::<Seq<char>>::empty(),
{
    assert(indent_end(s, 0) == 0);
    assert(unindented(s) =~= s);
}

proof fn lemma_header(comment: Seq<char>)
    requires
        comment.len() >= 2,
        comment[0] == '/',
        comment[1] == '/',
    ensures
        code_lines(seq![blank_line(), comment]) == Seq::<Seq<char>>::empty(),
{
    let header = seq![blank_line(), comment];
    lemma_annotation(blank_line());
    lemma_annotation(comment);
    assert(header.drop_last() =~= seq![blank_line()]);
    assert(seq![blank_line()].drop_last() =~= Seq::<Seq<char>>::empty());
    reveal_with_fuel(code_lines, 3);
    assert(code_lines(header) =~= Seq::<Seq<char>>::empty());
}

/// What is left of the annotated lines of a memory access is its plain
/// lines.
pub proof fn lemma_mem_text_annotated(
    op: MemOp,
    segment: Segment,
    index: nat,
    unit: Seq<char>,
    padding: nat,
)
    ensures
        code_lines(mem_text(op, segment, index, unit, true, padding)) == mem_text(
            op,
            segment,
            index,
            unit,
            false,
            padding,
        ),
{
    let body = render_code(mem_code(op, segment, index, unit));
    let header = seq![blank_line(), mem_comment(op, segment, index)];
    lemma_code_lines_padded(header + body, padding);
    lemma_code_lines_concat(header, body);
    lemma_header(mem_comment(op, segment, index));
    lemma_code_lines_render(mem_code(op, segment, index, unit));
    assert(Seq::<Seq<char>>::empty() + body =~= body);
}

proof fn lemma_access(op: MemOp, segment: Segment, index: nat, unit: Seq<char>)
    ensures
        code_lines(access_text(op, segment, index, unit, true)) == access_text(
            op,
            segment,
            index,
            unit,
            false,
        ),
{
    lemma_mem_text_annotated(op, segment, index, unit, DEFAULT_PADDING as nat);
}

proof fn lemma_concat3(a: Seq<Seq<char>>, b: Seq<Seq<char>>, c: Seq<Seq<char>>)
    ensures
        code_lines(a + b + c) == code_lines(a) + code_lines(b) + code_lines(c),
{
    lemma_code_lines_concat(a, b);
    lemma_code_lines_concat(a + b, c);
}

proof fn lemma_concat4(
    a: Seq<Seq<char>>,
    b: Seq<Seq<char>>,
    c: Seq<Seq<char>>,
    d: Seq<Seq<char>>,
)
    ensures
        code_lines(a + b + c + d) == code_lines(a) + code_lines(b) + code_lines(c) + code_lines(
            d,
        ),
{
    lemma_concat3(a, b, c);
    lemma_code_lines_concat(a + b + c, d);
}

proof fn lemma_concat5(
    a: Seq<Seq<char>>,
    b: Seq<Seq<char>>,
    c: Seq<Seq<char>>,
    d: Seq<Seq<char>>,
    e: Seq<Seq<char>>,
)
    ensures
        code_lines(a + b + c + d + e) == code_lines(a) + code_lines(b) + code_lines(c)
            + code_lines(d) + code_lines(e),
{
    lemma_concat4(a, b, c, d);
    lemma_code_lines_concat(a + b + c + d, e);
}

/// What is left of the annotated lines of an operation is its plain lines.
pub proof fn lemma_arith_text_annotated(
    op: ArithOp,
    id: nat,
    unit: Seq<char>,
    padding: nat,
)
    ensures
        code_lines(arith_text(op, id, unit, true, padding)) == arith_text(
            op,
            id,
            unit,
            false,
            padding,
        ),
{
    let header = seq![blank_line(), arith_comment(op)];
    let body = arith_body_text(op, id, unit, true);
    lemma_code_lines_padded(header + body, padding);
    lemma_code_lines_concat(header, body);
    lemma_header(arith_comment(op));
    let pop_a = mem_text(
        MemOp::Pop,
        Segment::General,
        OPERAND_A as nat,
        unit,
        true,
        DEFAULT_PADDING as nat,
    );
    let pop_b = mem_text(
        MemOp::Pop,
        Segment::General,
        OPERAND_B as nat,
        unit,
        true,
        DEFAULT_PADDING as nat,
    );
    let push = mem_text(
        MemOp::Push,
        Segment::General,
        OPERAND_B as nat,
        unit,
        true,
        DEFAULT_PADDING as nat,
    );
    lemma_mem_text_annotated(
        MemOp::Pop,
        Segment::General,
        OPERAND_A as nat,
        unit,
        DEFAULT_PADDING as nat,
    );
    lemma_mem_text_annotated(
        MemOp::Pop,
        Segment::General,
        OPERAND_B as nat,
        unit,
        DEFAULT_PADDING as nat,
    );
    lemma_mem_text_annotated(
        MemOp::Push,
        Segment::General,
        OPERAND_B as nat,
        unit,
        DEFAULT_PADDING as nat,
    );
    lemma_code_lines_concat(pop_a, pop_b);
    lemma_code_lines_render(combine_code(op, id));
    lemma_concat3(operands_text(op, unit, true), render_code(combine_code(op, id)), push);
    assert(Seq::<Seq<char>>::empty() + arith_body_text(op, id, unit, false) =~= arith_body_text(
        op,
        id,
        unit,
        false,
    ));
}

/// What is left of the annotated lines of a branching instruction is its
/// plain lines.
pub proof fn lemma_branch_text_annotated(
    kind: BranchKind,
    name: Seq<char>,
    unit: Seq<char>,
    padding: nat,
)
    ensures
        code_lines(branch_text(kind, name, unit, true, padding)) == branch_text(
            kind,
            name,
            unit,
            false,
            padding,
        ),
{
    let header = seq![blank_line(), branch_comment(kind, name)];
    let body = branch_body_text(kind, name, unit, true);
    lemma_code_lines_padded(header + body, padding);
    lemma_code_lines_concat(header, body);
    lemma_header(branch_comment(kind, name));
    lemma_mem_text_annotated(
        MemOp::Pop,
        Segment::General,
        OPERAND_A as nat,
        unit,
        DEFAULT_PADDING as nat,
    );
    lemma_code_lines_render(jump_code(kind, name));
    lemma_code_lines_concat(
        mem_text(
            MemOp::Pop,
            Segment::General,
            OPERAND_A as nat,
            unit,
            true,
            DEFAULT_PADDING as nat,
        ),
        render_code(jump_code(kind, name)),
    );
    assert(Seq::<Seq<char>>::empty() + branch_body_text(kind, name, unit, false)
        =~= branch_body_text(kind, name, unit, false));
}

proof fn lemma_operation(op: ArithOp, unit: Seq<char>)
    ensures
        code_lines(operation_text(op, unit, true)) == operation_text(op, unit, false),
{
    lemma_arith_text_annotated(op, 0, unit, DEFAULT_PADDING as nat);
}

proof fn lemma_locals_annotated(n: nat, unit: Seq<char>)
    ensures
        code_lines(locals_text(n, unit, true)) == locals_text(n, unit, false),
    decreases n,
{
    if n > 0 {
        lemma_locals_annotated((n - 1) as nat, unit);
        lemma_access(MemOp::Push, Segment::Constant, 0, unit);
        lemma_code_lines_concat(
            locals_text((n - 1) as nat, unit, true),
            access_text(MemOp::Push, Segment::Constant, 0, unit, true),
        );
    }
}

proof fn lemma_single_render(instr: InstrView)
    ensures
        code_lines(seq![render(instr)]) == seq![render(instr)],
{
    assert(seq![render(instr)] =~= render_code(seq![instr]));
    lemma_code_lines_render(seq![instr]);
}

/// What is left of the annotated lines of a function's entry is its plain
/// lines.
pub proof fn lemma_function_def_text_annotated(function: Seq<char>, n_vars: nat, unit: Seq<char>)
    ensures
        code_lines(function_def_text(function, n_vars, unit, true)) == function_def_text(
            function,
            n_vars,
            unit,
            false,
        ),
{
    lemma_locals_annotated(n_vars, unit);
    lemma_single_render(InstrView::Label(function));
    lemma_code_lines_concat(
        seq![render(InstrView::Label(function))],
        locals_text(n_vars, unit, true),
    );
}

/// What is left of the annotated lines of a call is its plain lines.
pub proof fn lemma_call_text_annotated(function: Seq<char>, n_args: nat, id: nat, unit: Seq<char>)
    ensures
        code_lines(call_text(function, n_args, id, unit, true)) == call_text(
            function,
            n_args,
            id,
            unit,
            false,
        ),
{
    let label = return_label(function, id);
    let a = render_code(push_label_code(label));
    let b = save_frame_text(unit, true);
    let c = set_argument_base_text(n_args, unit, true);
    let d = set_local_base_text(unit, true);
    let e = branch_text(BranchKind::Goto, function, unit, true, DEFAULT_PADDING as nat);
    let f = seq![render(InstrView::Label(label))];
    lemma_concat5(a, b, c, d, e);
    lemma_code_lines_concat(a + b + c + d + e, f);
    lemma_code_lines_render(push_label_code(label));
    lemma_single_render(InstrView::Label(label));
    lemma_branch_text_annotated(BranchKind::Goto, function, unit, DEFAULT_PADDING as nat);
    assert(code_lines(b) == save_frame_text(unit, false)) by {
        lemma_access(MemOp::Push, Segment::General, LCL as nat, unit);
        lemma_access(MemOp::Push, Segment::General, ARG as nat, unit);
        lemma_access(MemOp::Push, Segment::General, THIS as nat, unit);
        lemma_access(MemOp::Push, Segment::General, THAT as nat, unit);
        lemma_concat4(
            access_text(MemOp::Push, Segment::General, LCL as nat, unit, true),
            access_text(MemOp::Push, Segment::General, ARG as nat, unit, true),
            access_text(MemOp::Push, Segment::General, THIS as nat, unit, true),
            access_text(MemOp::Push, Segment::General, THAT as nat, unit, true),
        );
    }
    assert(code_lines(c) == set_argument_base_text(n_args, unit, false)) by {
        lemma_access(MemOp::Push, Segment::Constant, argument_offset(n_args), unit);
        lemma_access(MemOp::Push, Segment::General, SP as nat, unit);
        lemma_operation(ArithOp::Sub, unit);
        lemma_access(MemOp::Pop, Segment::General, ARG as nat, unit);
        lemma_concat4(
            access_text(MemOp::Push, Segment::Constant, argument_offset(n_args), unit, true),
            access_text(MemOp::Push, Segment::General, SP as nat, unit, true),
            operation_text(ArithOp::Sub, unit, true),
            access_text(MemOp::Pop, Segment::General, ARG as nat, unit, true),
        );
    }
    assert(code_lines(d) == set_local_base_text(unit, false)) by {
        lemma_access(MemOp::Push, Segment::General, SP as nat, unit);
        lemma_access(MemOp::Pop, Segment::General, LCL as nat, unit);
        lemma_code_lines_concat(
            access_text(MemOp::Push, Segment::General, SP as nat, unit, true),
            access_text(MemOp::Pop, Segment::General, LCL as nat, unit, true),
        );
    }
}

proof fn lemma_restore_annotated(n: nat, unit: Seq<char>)
    ensures
        code_lines(restore_text(n, unit, true)) == restore_text(n, unit, false),
{
    let header = seq![blank_line(), restore_comment(n)];
    let a = access_text(MemOp::Push, Segment::Constant, n, unit, true);
    let b = access_text(MemOp::Push, Segment::General, FRAME_END as nat, unit, true);
    let c = operation_text(ArithOp::Sub, unit, true);
    let d = render_code(dereference_top_code());
    let e = access_text(MemOp::Pop, Segment::General, (FRAME_WORDS - n) as nat, unit, true);
    assert(code_lines(header) == Seq::<Seq<char>>::empty()) by {
        reveal_strlit("// restoring *(addr - ");
        let comment = restore_comment(n);
        assert(comment[0] == '/' && comment[1] == '/');
        lemma_header(comment);
    }
    lemma_concat3(a, b, c);
    lemma_concat4(header, a + b + c, d, e);
    lemma_access(MemOp::Push, Segment::Constant, n, unit);
    lemma_access(MemOp::Push, Segment::General, FRAME_END as nat, unit);
    lemma_operation(ArithOp::Sub, unit);
    lemma_code_lines_render(dereference_top_code());
    lemma_access(MemOp::Pop, Segment::General, (FRAME_WORDS - n) as nat, unit);
    assert(code_lines(restore_text(n, unit, true)) =~= restore_text(n, unit, false));
}

proof fn lemma_restore_frame_annotated(n: nat, unit: Seq<char>)
    ensures
        code_lines(restore_frame_text(n, unit, true)) == restore_frame_text(n, unit, false),
    decreases n,
{
    if n > 0 {
        lemma_restore_frame_annotated((n - 1) as nat, unit);
        lemma_restore_annotated(n, unit);
        lemma_code_lines_concat(
            restore_frame_text((n - 1) as nat, unit, true),
            restore_text(n, unit, true),
        );
    }
}

/// What is left of the annotated lines of a return is its plain lines.
pub proof fn lemma_return_text_annotated(unit: Seq<char>)
    ensures
        code_lines(return_text(unit, true)) == return_text(unit, false),
{
    let a = stash_return_address_text(unit, true);
    let b = stash_frame_end_text(unit, true);
    let c = access_text(MemOp::Pop, Segment::Argument, 0, unit, true);
    let d = stash_new_sp_text(unit, true);
    let e = restore_frame_text(4, unit, true);
    let f = install_sp_text(unit, true);
    let g = render_code(jump_back_code());
    lemma_concat5(a, b, c, d, e);
    lemma_code_lines_concat(a + b + c + d + e, f);
    lemma_code_lines_concat(a + b + c + d + e + f, g);
    assert(code_lines(a) == stash_return_address_text(unit, false)) by {
        lemma_access(MemOp::Push, Segment::Constant, FRAME_WORDS as nat, unit);
        lemma_access(MemOp::Push, Segment::General, LCL as nat, unit);
        lemma_operation(ArithOp::Sub, unit);
        lemma_access(MemOp::Pop, Segment::General, RETURN_ADDRESS as nat, unit);
        lemma_code_lines_render(load_return_address_code());
        lemma_concat5(
            access_text(MemOp::Push, Segment::Constant, FRAME_WORDS as nat, unit, true),
            access_text(MemOp::Push, Segment::General, LCL as nat, unit, true),
            operation_text(ArithOp::Sub, unit, true),
            access_text(MemOp::Pop, Segment::General, RETURN_ADDRESS as nat, unit, true),
            render_code(load_return_address_code()),
        );
    }
    assert(code_lines(b) == stash_frame_end_text(unit, false)) by {
        lemma_access(MemOp::Push, Segment::General, LCL as nat, unit);
        lemma_access(MemOp::Pop, Segment::General, FRAME_END as nat, unit);
        lemma_code_lines_concat(
            access_text(MemOp::Push, Segment::General, LCL as nat, unit, true),
            access_text(MemOp::Pop, Segment::General, FRAME_END as nat, unit, true),
        );
    }
    lemma_access(MemOp::Pop, Segment::Argument, 0, unit);
    assert(code_lines(d) == stash_new_sp_text(unit, false)) by {
        lemma_access(MemOp::Push, Segment::Constant, 1, unit);
        lemma_access(MemOp::Push, Segment::General, ARG as nat, unit);
        lemma_operation(ArithOp::Add, unit);
        lemma_access(MemOp::Pop, Segment::General, NEW_SP as nat, unit);
        lemma_concat4(
            access_text(MemOp::Push, Segment::Constant, 1, unit, true),
            access_text(MemOp::Push, Segment::General, ARG as nat, unit, true),
            operation_text(ArithOp::Add, unit, true),
            access_text(MemOp::Pop, Segment::General, NEW_SP as nat, unit, true),
        );
    }
    lemma_restore_frame_annotated(4, unit);
    assert(code_lines(f) == install_sp_text(unit, false)) by {
        lemma_access(MemOp::Push, Segment::General, NEW_SP as nat, unit);
        lemma_access(MemOp::Pop, Segment::General, SP as nat, unit);
        lemma_code_lines_concat(
            access_text(MemOp::Push, Segment::General, NEW_SP as nat, unit, true),
            access_text(MemOp::Pop, Segment::General, SP as nat, unit, true),
        );
    }
    lemma_code_lines_render(jump_back_code());
}

/// What is left of the annotated lines of an instruction is its plain
/// lines.
pub proof fn lemma_instruction_text_annotated(instr: InstructionView, id: nat, unit: Seq<char>)
    ensures
        code_lines(instruction_text(instr, id, unit, true)) == instruction_text(
            instr,
            id,
            unit,
            false,
        ),
{
    let comment = instruction_comment(instr, true);
    let empty = Seq::<Seq<char>>::empty();
    assert(code_lines(comment) == empty) by {
        match instr {
            InstructionView::FunctionDef { name, n_locals } => {
                let line = function_comment("function"@, name, n_locals);
                lemma_annotation(line);
                assert(comment.drop_last() =~= empty);
            },
            InstructionView::FunctionCall { name, n_args } => {
                let line = function_comment("call"@, name, n_args);
                lemma_annotation(line);
                assert(comment.drop_last() =~= empty);
            },
            InstructionView::Return => {
                lemma_annotation(return_comment());
                assert(comment.drop_last() =~= empty);
            },
            _ => {},
        }
        reveal_with_fuel(code_lines, 2);
    }
    match instr {
        InstructionView::MemoryAccess { op, segment, index } => {
            lemma_mem_text_annotated(op, segment, index, unit, 0);
            lemma_code_lines_concat(comment, mem_text(op, segment, index, unit, true, 0));
        },
        InstructionView::ArithLogic { op } => {
            lemma_arith_text_annotated(op, id, unit, 0);
            lemma_code_lines_concat(comment, arith_text(op, id, unit, true, 0));
        },
        InstructionView::Branch { kind, name } => {
            lemma_branch_text_annotated(kind, name, unit, 0);
            lemma_code_lines_concat(comment, branch_text(kind, name, unit, true, 0));
        },
        InstructionView::FunctionDef { name, n_locals } => {
            lemma_function_def_text_annotated(name, n_locals, unit);
            lemma_code_lines_concat(comment, function_def_text(name, n_locals, unit, true));
        },
        InstructionView::FunctionCall { name, n_args } => {
            lemma_call_text_annotated(name, n_args, id, unit);
            lemma_code_lines_concat(comment, call_text(name, n_args, id, unit, true));
        },
        InstructionView::Return => {
            lemma_return_text_annotated(unit);
            lemma_code_lines_concat(comment, return_text(unit, true));
        },
    }
}

/// What is left of the annotated lines of a sequence of instructions is
/// its plain lines.
pub proof fn lemma_instructions_text_annotated(
    instrs: Seq<InstructionView>,
    counter: nat,
    unit: Seq<char>,
)
    ensures
        code_lines(instructions_text(instrs, counter, unit, true)) == instructions_text(
            instrs,
            counter,
            unit,
            false,
        ),
    decreases instrs.len(),
{
    if instrs.len() > 0 {
        lemma_instructions_text_annotated(instrs.drop_last(), counter, unit);
        lemma_instruction_text_annotated(instrs.last(), counter_after(instrs, counter), unit);
        lemma_code_lines_concat(
            instructions_text(instrs.drop_last(), counter, unit, true),
            instruction_text(instrs.last(), counter_after(instrs, counter), unit, true),
        );
    }
}

/// What is left of the annotated lines of the bootstrap is its plain lines.
pub proof fn lemma_bootstrap_text_annotated(id: nat)
    ensures
        code_lines(bootstrap_text(id, true)) == bootstrap_text(id, false),
{
    lemma_code_lines_render(init_cells_code());
    lemma_call_text_annotated(entry_function(), 0, id, entry_unit());
    lemma_code_lines_concat(
        render_code(init_cells_code()),
        call_text(entry_function(), 0, id, entry_unit(), true),
    );
}

/// What is left of the annotated lines of source units is their plain lines.
pub proof fn lemma_units_text_annotated(units: Seq<SourceUnitView>, counter: nat)
    ensures
        code_lines(units_text(units, counter, true)) == units_text(units, counter, false),
    decreases units.len(),
{
    if units.len() > 0 {
        lemma_units_text_annotated(units.drop_last(), counter);
        let start = counter_after(units_instructions(units.drop_last()), counter);
        let instrs = unit_instructions(units.last().lines);
        lemma_instructions_text_annotated(instrs, start, units.last().name);
        lemma_code_lines_concat(
            units_text(units.drop_last(), counter, true),
            instructions_text(instrs, start, units.last().name, true),
        );
    }
}

/// Where a program is translated to annotated output, what is left of the
/// output without its annotations is exactly the plain output of the program:
/// the text of the instructions that the program is translated to.
pub proof fn lemma_program_text_annotated(units: Seq<SourceUnitView>, counter: nat)
    requires
        program_outcome(units, counter, true).text is Ok,
    ensures
        program_outcome(units, counter, false).text is Ok,
        code_lines(program_outcome(units, counter, true).text->Ok_0) == program_outcome(
            units,
            counter,
            false,
        ).text->Ok_0,
        code_lines(program_outcome(units, counter, true).text->Ok_0) == render_code(
            program_code(units, counter),
        ),
{
    lemma_units_outcome_alike(units, counter + 1);
    lemma_program_translation(units, counter, true);
    lemma_program_translation(units, counter, false);
    lemma_program_text_plain(units, counter);
    lemma_bootstrap_text_annotated(counter + 1);
    lemma_units_text_annotated(units, counter + 1);
    lemma_code_lines_concat(
        bootstrap_text(counter + 1, true),
        units_text(units, counter + 1, true),
    );
}

} // verus!
