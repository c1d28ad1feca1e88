//! The arithmetic and logical translator: unary and binary operations on the
//! top of the stack, comparisons included.

use vstd::prelude::*;
use vstd::string::*;
use crate::assembly::{
    code_view, lines_view, render_all, render_code, Comp, Dest, Instr, InstrView, Jump,
    lemma_render_code_concat,
};
use crate::code_generator::memory::{
    blank_line, blank_line_string, mem_code, mem_text, outcome_view, translate_mem_access, MemOp,
    Segment,
};
use crate::code_generator::{TranslateError, DEFAULT_PADDING, OPERAND_A, OPERAND_B};
use crate::text::{decimal, decimal_string};
use crate::utils::{add_padding_to_lines, padded_lines, same_text};

verus! {

/// The operations on the top of the stack.
#[derive(Clone, Copy, Debug, PartialEq, Eq, Structural)]
pub enum ArithOp {
    Add,
    Sub,
    Neg,
    Eq,
    Gt,
    Lt,
    And,
    Or,
    Not,
}

/// The keyword of an operation.
pub open spec fn arith_op_name(op: ArithOp) -> Seq<char> {
    match op {
        ArithOp::Add => "add"@,
        ArithOp::Sub => "sub"@,
        ArithOp::Neg => "neg"@,
        ArithOp::Eq => "eq"@,
        ArithOp::Gt => "gt"@,
        ArithOp::Lt => "lt"@,
        ArithOp::And => "and"@,
        ArithOp::Or => "or"@,
        ArithOp::Not => "not"@,
    }
}

/// The operation that a keyword names, if any.
pub open spec fn arith_op_of_name(name: Seq<char>) -> Option<ArithOp> {
    if name == "add"@ {
        Some(ArithOp::Add)
    } else if name == "sub"@ {
        Some(ArithOp::Sub)
    } else if name == "neg"@ {
        Some(ArithOp::Neg)
    } else if name == "eq"@ {
        Some(ArithOp::Eq)
    } else if name == "gt"@ {
        Some(ArithOp::Gt)
    } else if name == "lt"@ {
        Some(ArithOp::Lt)
    } else if name == "and"@ {
        Some(ArithOp::And)
    } else if name == "or"@ {
        Some(ArithOp::Or)
    } else if name == "not"@ {
        Some(ArithOp::Not)
    } else {
        None
    }
}

/// Whether the operation takes one operand only.
pub open spec fn is_unary(op: ArithOp) -> bool {
    op is Neg || op is Not
}

/// Whether the operation is a comparison, which needs a pair of fresh labels.
pub open spec fn is_comparison(op: ArithOp) -> bool {
    op is Eq || op is Gt || op is Lt
}

/// The label that a comparison jumps to when it holds.
pub open spec fn true_label(id: nat) -> Seq<char> {
    "true_expression"@ + decimal(id)
}

/// The label at which both outcomes of a comparison meet again.
pub open spec fn false_label(id: nat) -> Seq<char> {
    "false_expression"@ + decimal(id)
}

/// The value of the label counter after the translation of `op`.
pub open spec fn counter_after(op: ArithOp, counter: nat) -> nat {
    if is_comparison(op) {
        counter + 1
    } else {
        counter
    }
}

/// Stores the canonical boolean in the result cell: all one bits if the jump
/// `jump` on the word in `D` is taken, zero if it is not.
pub open spec fn boolean_code(jump: Jump, id: nat) -> Seq<InstrView> {
    seq![
        InstrView::AtSym(true_label(id)),
        InstrView::Branch(Comp::D, jump),
        InstrView::AtNum(OPERAND_B as nat),
        InstrView::Assign(Dest::M, Comp::Zero),
        InstrView::AtSym(false_label(id)),
        InstrView::Branch(Comp::Zero, Jump::Jmp),
        InstrView::Label(true_label(id)),
        InstrView::AtNum(OPERAND_B as nat),
        InstrView::Assign(Dest::M, Comp::MinusOne),
        InstrView::Label(false_label(id)),
    ]
}

/// Combines the two operand cells, the second operand being absent for a
/// unary operation, and leaves the result in the second.
pub open spec fn combine_code(op: ArithOp, id: nat) -> Seq<InstrView> {
    let load = seq![InstrView::AtNum(OPERAND_A as nat), InstrView::Assign(Dest::D, Comp::M)];
    let second = InstrView::AtNum(OPERAND_B as nat);
    let store = InstrView::Assign(Dest::M, Comp::D);
    match op {
        ArithOp::Add => load + seq![second, InstrView::Assign(Dest::D, Comp::DPlusM), store],
        ArithOp::Sub => load + seq![second, InstrView::Assign(Dest::D, Comp::DMinusM), store],
        ArithOp::Neg => load + seq![InstrView::Assign(Dest::D, Comp::NegD), second, store],
        ArithOp::And => load + seq![second, InstrView::Assign(Dest::D, Comp::MAndD), store],
        ArithOp::Or => load + seq![second, InstrView::Assign(Dest::D, Comp::MOrD), store],
        ArithOp::Not => load + seq![InstrView::Assign(Dest::D, Comp::NotD), second, store],
        ArithOp::Eq => load + seq![second, InstrView::Assign(Dest::D, Comp::MMinusD)]
            + boolean_code(Jump::Jeq, id),
        ArithOp::Gt => load + seq![second, InstrView::Assign(Dest::D, Comp::MMinusD)]
            + boolean_code(Jump::Jgt, id),
        ArithOp::Lt => load + seq![second, InstrView::Assign(Dest::D, Comp::DMinusM)]
            + boolean_code(Jump::Jgt, id),
    }
}

/// The instructions that pop the operands into the operand cells.
pub open spec fn operands_code(op: ArithOp, unit: Seq<char>) -> Seq<InstrView> {
    if is_unary(op) {
        mem_code(MemOp::Pop, Segment::General, OPERAND_A as nat, unit)
    } else {
        mem_code(MemOp::Pop, Segment::General, OPERAND_A as nat, unit) + mem_code(
            MemOp::Pop,
            Segment::General,
            OPERAND_B as nat,
            unit,
        )
    }
}

/// The instructions that an operation is translated to: pop the operands,
/// combine them, push the result.  `id` is the number of the labels of a
/// comparison.
pub open spec fn arith_code(op: ArithOp, id: nat, unit: Seq<char>) -> Seq<InstrView> {
    operands_code(op, unit) + combine_code(op, id) + mem_code(
        MemOp::Push,
        Segment::General,
        OPERAND_B as nat,
        unit,
    )
}

/// The comment that names an operation in annotated output.
pub open spec fn arith_comment(op: ArithOp) -> Seq<char> {
    seq!['/', '/', ' '] + arith_op_name(op)
}

/// The lines that pop the operands.
pub open spec fn operands_text(op: ArithOp, unit: Seq<char>, debug: bool) -> Seq<Seq<char>> {
    if is_unary(op) {
        mem_text(
            MemOp::Pop,
            Segment::General,
            OPERAND_A as nat,
            unit,
            debug,
            DEFAULT_PADDING as nat,
        )
    } else {
        mem_text(
            MemOp::Pop,
            Segment::General,
            OPERAND_A as nat,
            unit,
            debug,
            DEFAULT_PADDING as nat,
        ) + mem_text(
            MemOp::Pop,
            Segment::General,
            OPERAND_B as nat,
            unit,
            debug,
            DEFAULT_PADDING as nat,
        )
    }
}

/// The lines of an operation before the indentation of the whole block.
pub open spec fn arith_body_text(op: ArithOp, id: nat, unit: Seq<char>, debug: bool) -> Seq<
    Seq<char>,
> {
    operands_text(op, unit, debug) + render_code(combine_code(op, id)) + mem_text(
        MemOp::Push,
        Segment::General,
        OPERAND_B as nat,
        unit,
        debug,
        DEFAULT_PADDING as nat,
    )
}

/// The lines that an operation is translated to.  Annotated output puts a
/// separator and a comment before them, annotates the nested memory
/// accesses, and indents the whole block.
pub open spec fn arith_text(
    op: ArithOp,
    id: nat,
    unit: Seq<char>,
    debug: bool,
    padding: nat,
) -> Seq<Seq<char>> {
    if debug {
        padded_lines(
            seq![blank_line(), arith_comment(op)] + arith_body_text(op, id, unit, true),
            padding,
        )
    } else {
        arith_body_text(op, id, unit, false)
    }
}

/// Plain output is exactly the text of the instructions of the operation.
pub proof fn lemma_arith_text_plain(op: ArithOp, id: nat, unit: Seq<char>, padding: nat)
    ensures
        arith_text(op, id, unit, false, padding) == render_code(arith_code(op, id, unit)),
{
    let pop_a = mem_code(MemOp::Pop, Segment::General, OPERAND_A as nat, unit);
    let pop_b = mem_code(MemOp::Pop, Segment::General, OPERAND_B as nat, unit);
    let push_b = mem_code(MemOp::Push, Segment::General, OPERAND_B as nat, unit);
    lemma_render_code_concat(pop_a, pop_b);
    lemma_render_code_concat(operands_code(op, unit), combine_code(op, id));
    lemma_render_code_concat(operands_code(op, unit) + combine_code(op, id), push_b);
}

/// The number of the labels matters to comparisons only.
pub proof fn lemma_arith_ignores_id(
    op: ArithOp,
    id: nat,
    other: nat,
    unit: Seq<char>,
    debug: bool,
    padding: nat,
)
    requires
        !is_comparison(op),
    ensures
        arith_code(op, id, unit) == arith_code(op, other, unit),
        arith_text(op, id, unit, debug, padding) == arith_text(op, other, unit, debug, padding),
{
    assert(combine_code(op, id) == combine_code(op, other));
}

/// Reveals the text of the keywords of this module.
pub proof fn lemma_arith_words()
    ensures
        "add"@ == seq!['a', 'd', 'd'],
        "sub"@ == seq!['s', 'u', 'b'],
        "neg"@ == seq!['n', 'e', 'g'],
        "eq"@ == seq!['e', 'q'],
        "gt"@ == seq!['g', 't'],
        "lt"@ == seq!['l', 't'],
        "and"@ == seq!['a', 'n', 'd'],
        "or"@ == seq!['o', 'r'],
        "not"@ == seq!['n', 'o', 't'],
{
    reveal_strlit("add");
    reveal_strlit("sub");
    reveal_strlit("neg");
    reveal_strlit("eq");
    reveal_strlit("gt");
    reveal_strlit("lt");
    reveal_strlit("and");
    reveal_strlit("or");
    reveal_strlit("not");
    assert("add"@ =~= seq!['a', 'd', 'd']);
    assert("sub"@ =~= seq!['s', 'u', 'b']);
    assert("neg"@ =~= seq!['n', 'e', 'g']);
    assert("eq"@ =~= seq!['e', 'q']);
    assert("gt"@ =~= seq!['g', 't']);
    assert("lt"@ =~= seq!['l', 't']);
    assert("and"@ =~= seq!['a', 'n', 'd']);
    assert("or"@ =~= seq!['o', 'r']);
    assert("not"@ =~= seq!['n', 'o', 't']);
}

/// The keyword of an operation reads back as that operation.
pub proof fn lemma_arith_op_round_trip(op: ArithOp)
    ensures
        arith_op_of_name(arith_op_name(op)) == Some(op),
{
    lemma_arith_words();
    assert("add"@[1] == 'd' && "and"@[1] == 'n' && "sub"@[0] == 's' && "neg"@[1] == 'e' && "not"@[1]
        == 'o' && "eq"@[0] == 'e' && "gt"@[0] == 'g' && "lt"@[0] == 'l' && "or"@[0] == 'o');
    assert("add"@.len() == 3 && "eq"@.len() == 2 && "or"@.len() == 2 && "gt"@.len() == 2);
    assert("lt"@.len() == 2);
}

/// What a request for an operation, given by its keyword, is answered with.
pub open spec fn arith_block_outcome(
    cmd: Seq<char>,
    counter: nat,
    unit: Seq<char>,
    debug: bool,
    padding: nat,
) -> Result<Seq<Seq<char>>, TranslateError> {
    match arith_op_of_name(cmd) {
        None => Err(TranslateError::UnknownKeyword),
        Some(op) => Ok(arith_text(op, counter_after(op, counter), unit, debug, padding)),
    }
}

/// Reads the keyword of an operation.
pub fn parse_arith_op(name: &str) -> (r: Option<ArithOp>)
    ensures
        r == arith_op_of_name(name@),
{
    if same_text(name, "add") {
        Some(ArithOp::Add)
    } else if same_text(name, "sub") {
        Some(ArithOp::Sub)
    } else if same_text(name, "neg") {
        Some(ArithOp::Neg)
    } else if same_text(name, "eq") {
        Some(ArithOp::Eq)
    } else if same_text(name, "gt") {
        Some(ArithOp::Gt)
    } else if same_text(name, "lt") {
        Some(ArithOp::Lt)
    } else if same_text(name, "and") {
        Some(ArithOp::And)
    } else if same_text(name, "or") {
        Some(ArithOp::Or)
    } else if same_text(name, "not") {
        Some(ArithOp::Not)
    } else {
        None
    }
}

/// The keyword of an operation.
pub fn arith_op_keyword(op: ArithOp) -> (s: &'static str)
    ensures
        s@ == arith_op_name(op),
{
    match op {
        ArithOp::Add => "add",
        ArithOp::Sub => "sub",
        ArithOp::Neg => "neg",
        ArithOp::Eq => "eq",
        ArithOp::Gt => "gt",
        ArithOp::Lt => "lt",
        ArithOp::And => "and",
        ArithOp::Or => "or",
        ArithOp::Not => "not",
    }
}

/// Writes the label that a comparison jumps to when it holds.
pub fn true_label_string(id: usize) -> (s: String)
    ensures
        s@ == true_label(id as nat),
{
    let mut s = String::from_str("true_expression");
    let digits = decimal_string(id);
    s.append(digits.as_str());
    s
}

/// Writes the label at which both outcomes of a comparison meet again.
pub fn false_label_string(id: usize) -> (s: String)
    ensures
        s@ == false_label(id as nat),
{
    let mut s = String::from_str("false_expression");
    let digits = decimal_string(id);
    s.append(digits.as_str());
    s
}

fn boolean_instrs(code: &mut Vec<Instr>, jump: Jump, id: usize)
    ensures
        code_view(final(code)@) == code_view(old(code)@) + boolean_code(jump, id as nat),
{
    code.push(Instr::AtSym(true_label_string(id)));
    code.push(Instr::Branch(Comp::D, jump));
    code.push(Instr::AtNum(OPERAND_B));
    code.push(Instr::Assign(Dest::M, Comp::Zero));
    code.push(Instr::AtSym(false_label_string(id)));
    code.push(Instr::Branch(Comp::Zero, Jump::Jmp));
    code.push(Instr::Label(true_label_string(id)));
    code.push(Instr::AtNum(OPERAND_B));
    code.push(Instr::Assign(Dest::M, Comp::MinusOne));
    code.push(Instr::Label(false_label_string(id)));
    assert(code_view(code@) =~= code_view(old(code)@) + boolean_code(jump, id as nat));
}

/// Builds the instructions that combine the operand cells.
pub fn build_combine_code(op: ArithOp, id: usize) -> (code: Vec<Instr>)
    ensures
        code_view(code@) == combine_code(op, id as nat),
{
    let mut code: Vec<Instr> = Vec::new();
    code.push(Instr::AtNum(OPERAND_A));
    code.push(Instr::Assign(Dest::D, Comp::M));
    let ghost load = seq![
        InstrView::AtNum(OPERAND_A as nat),
        InstrView::Assign(Dest::D, Comp::M),
    ];
    assert(code_view(code@) =~= load);
    match op {
        ArithOp::Neg | ArithOp::Not => {
            let comp = match op {
                ArithOp::Neg => Comp::NegD,
                _ => Comp::NotD,
            };
            code.push(Instr::Assign(Dest::D, comp));
            code.push(Instr::AtNum(OPERAND_B));
            code.push(Instr::Assign(Dest::M, Comp::D));
            assert(code_view(code@) =~= load + seq![
                InstrView::Assign(Dest::D, comp),
                InstrView::AtNum(OPERAND_B as nat),
                InstrView::Assign(Dest::M, Comp::D),
            ]);
        },
        ArithOp::Add | ArithOp::Sub | ArithOp::And | ArithOp::Or => {
            let comp = match op {
                ArithOp::Add => Comp::DPlusM,
                ArithOp::Sub => Comp::DMinusM,
                ArithOp::And => Comp::MAndD,
                _ => Comp::MOrD,
            };
            code.push(Instr::AtNum(OPERAND_B));
            code.push(Instr::Assign(Dest::D, comp));
            code.push(Instr::Assign(Dest::M, Comp::D));
            assert(code_view(code@) =~= load + seq![
                InstrView::AtNum(OPERAND_B as nat),
                InstrView::Assign(Dest::D, comp),
                InstrView::Assign(Dest::M, Comp::D),
            ]);
        },
        ArithOp::Eq | ArithOp::Gt | ArithOp::Lt => {
            let comp = match op {
                ArithOp::Lt => Comp::DMinusM,
                _ => Comp::MMinusD,
            };
            let jump = match op {
                ArithOp::Eq => Jump::Jeq,
                _ => Jump::Jgt,
            };
            code.push(Instr::AtNum(OPERAND_B));
            code.push(Instr::Assign(Dest::D, comp));
            assert(code_view(code@) =~= load + seq![
                InstrView::AtNum(OPERAND_B as nat),
                InstrView::Assign(Dest::D, comp),
            ]);
            boolean_instrs(&mut code, jump, id);
        },
    }
    code
}

fn arith_comment_string(op: ArithOp) -> (s: String)
    ensures
        s@ == arith_comment(op),
{
    proof {
        reveal_strlit("// ");
    }
    let mut s = String::from_str("// ");
    s.append(arith_op_keyword(op));
    assert(s@ =~= arith_comment(op));
    s
}

/// Translates an operation on the top of the stack.  A comparison advances
/// the label counter by one and numbers its labels with the new value.
pub fn translate_arith(
    op: ArithOp,
    unit: &str,
    jump_counter: &mut usize,
    is_debug_option: bool,
    padding: usize,
) -> (lines: Vec<String>)
    requires
        is_comparison(op) ==> *old(jump_counter) < usize::MAX,
    ensures
        *final(jump_counter) == counter_after(op, *old(jump_counter) as nat),
        lines_view(lines@) == arith_text(
            op,
            *final(jump_counter) as nat,
            unit@,
            is_debug_option,
            padding as nat,
        ),
{
    let mut block: Vec<String> = Vec::new();
    if is_debug_option {
        block.push(blank_line_string());
        block.push(arith_comment_string(op));
    }
    let ghost head = lines_view(block@);
    assert(head =~= if is_debug_option {
        seq![blank_line(), arith_comment(op)]
    } else {
        Seq::<Seq<char>>::empty()
    });
    let unary = match op {
        ArithOp::Neg | ArithOp::Not => true,
        _ => false,
    };
    let mut pop_a = translate_mem_access(
        MemOp::Pop,
        Segment::General,
        OPERAND_A,
        unit,
        is_debug_option,
        DEFAULT_PADDING,
    );
    let ghost pop_a_view = lines_view(pop_a@);
    block.append(&mut pop_a);
    assert(lines_view(block@) =~= head + pop_a_view);
    if !unary {
        let mut pop_b = translate_mem_access(
            MemOp::Pop,
            Segment::General,
            OPERAND_B,
            unit,
            is_debug_option,
            DEFAULT_PADDING,
        );
        let ghost pop_b_view = lines_view(pop_b@);
        block.append(&mut pop_b);
        assert(lines_view(block@) =~= head + (pop_a_view + pop_b_view));
    }
    assert(lines_view(block@) == head + operands_text(op, unit@, is_debug_option));
    match op {
        ArithOp::Eq | ArithOp::Gt | ArithOp::Lt => {
            *jump_counter = *jump_counter + 1;
        },
        _ => {},
    }
    let code = build_combine_code(op, *jump_counter);
    let mut combine = render_all(&code);
    let ghost combine_view = lines_view(combine@);
    let ghost before_combine = lines_view(block@);
    block.append(&mut combine);
    assert(lines_view(block@) =~= before_combine + combine_view);
    let mut push_b = translate_mem_access(
        MemOp::Push,
        Segment::General,
        OPERAND_B,
        unit,
        is_debug_option,
        DEFAULT_PADDING,
    );
    let ghost push_b_view = lines_view(push_b@);
    let ghost before_push = lines_view(block@);
    block.append(&mut push_b);
    assert(lines_view(block@) =~= before_push + push_b_view);
    assert(lines_view(block@) =~= head + arith_body_text(
        op,
        *jump_counter as nat,
        unit@,
        is_debug_option,
    ));
    if is_debug_option {
        add_padding_to_lines(&block, padding)
    } else {
        assert(lines_view(block@) =~= arith_body_text(op, *jump_counter as nat, unit@, false));
        block
    }
}

/// Generates assembly for an arithmetic or logical command given by its
/// keyword.  A keyword that names no operation is refused and leaves the
/// label counter as it was.
pub fn generate_a_l_code_block(
    a_l_cmd: &str,
    filename: &str,
    jump_counter: &mut usize,
    is_debug_option: bool,
    padding: usize,
) -> (r: Result<Vec<String>, TranslateError>)
    requires
        arith_op_of_name(a_l_cmd@) matches Some(op) && is_comparison(op) ==> *old(jump_counter)
            < usize::MAX,
    ensures
        outcome_view(r) == arith_block_outcome(
            a_l_cmd@,
            *old(jump_counter) as nat,
            filename@,
            is_debug_option,
            padding as nat,
        ),
        *final(jump_counter) == match arith_op_of_name(a_l_cmd@) {
            Some(op) => counter_after(op, *old(jump_counter) as nat),
            None => *old(jump_counter) as nat,
        },
{
    match parse_arith_op(a_l_cmd) {
        None => Err(TranslateError::UnknownKeyword),
        Some(op) => Ok(translate_arith(op, filename, jump_counter, is_debug_option, padding)),
    }
}

} // verus!
