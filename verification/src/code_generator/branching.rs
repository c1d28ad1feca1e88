//! The branching translator: label declarations and jumps.
//!
//! A label is written as the program gives it: its scope is the whole
//! program, and the author of the program keeps the names apart.

use vstd::prelude::*;
use vstd::string::*;
use crate::assembly::{
    append_code, append_line, append_lines, code_view, lemma_render_code_concat, lines_view,
    render_code, Comp, Dest, Instr, InstrView, Jump,
};
use crate::code_generator::memory::{
    blank_line, blank_line_string, mem_code, mem_text, outcome_view, translate_mem_access, MemOp,
    Segment,
};
use crate::code_generator::{TranslateError, DEFAULT_PADDING, OPERAND_A};
use crate::utils::{add_padding_to_lines, padded_lines, same_text};

verus! {

/// The kinds of branching instruction.
#[derive(Clone, Copy, Debug, PartialEq, Eq, Structural)]
pub enum BranchKind {
    /// Declares a jump target.
    Label,
    /// Jumps.
    Goto,
    /// Pops the top of the stack and jumps if it is not zero.
    IfGoto,
}

/// The keyword of a branching instruction.
pub open spec fn branch_kind_name(kind: BranchKind) -> Seq<char> {
    match kind {
        BranchKind::Label => "label"@,
        BranchKind::Goto => "goto"@,
        BranchKind::IfGoto => "if-goto"@,
    }
}

/// The kind of branching instruction that a keyword names, if any.
pub open spec fn branch_kind_of_name(name: Seq<char>) -> Option<BranchKind> {
    if name == "label"@ {
        Some(BranchKind::Label)
    } else if name == "goto"@ {
        Some(BranchKind::Goto)
    } else if name == "if-goto"@ {
        Some(BranchKind::IfGoto)
    } else {
        None
    }
}

/// Reveals the text of the keywords of this module.
pub proof fn lemma_branching_words()
    ensures
        "label"@ == seq!['l', 'a', 'b', 'e', 'l'],
        "goto"@ == seq!['g', 'o', 't', 'o'],
        "if-goto"@ == seq!['i', 'f', '-', 'g', 'o', 't', 'o'],
{
    reveal_strlit("label");
    reveal_strlit("goto");
    reveal_strlit("if-goto");
    assert("label"@ =~= seq!['l', 'a', 'b', 'e', 'l']);
    assert("goto"@ =~= seq!['g', 'o', 't', 'o']);
    assert("if-goto"@ =~= seq!['i', 'f', '-', 'g', 'o', 't', 'o']);
}

/// The keyword of a branching instruction reads back as its kind.
pub proof fn lemma_branch_kind_round_trip(kind: BranchKind)
    ensures
        branch_kind_of_name(branch_kind_name(kind)) == Some(kind),
{
    lemma_branching_words();
    assert("label"@.len() == 5 && "goto"@.len() == 4 && "if-goto"@.len() == 7);
}

/// The instructions of a branching instruction that follow the pop of the
/// condition, if there is one.
pub open spec fn jump_code(kind: BranchKind, name: Seq<char>) -> Seq<InstrView> {
    match kind {
        BranchKind::Label => seq![InstrView::Label(name)],
        BranchKind::Goto => seq![InstrView::AtSym(name), InstrView::Branch(Comp::Zero, Jump::Jmp)],
        BranchKind::IfGoto => seq![
            InstrView::AtNum(OPERAND_A as nat),
            InstrView::Assign(Dest::D, Comp::M),
            InstrView::AtSym(name),
            InstrView::Branch(Comp::D, Jump::Jne),
        ],
    }
}

/// The instructions that a branching instruction is translated to.
pub open spec fn branch_code(kind: BranchKind, name: Seq<char>, unit: Seq<char>) -> Seq<
    InstrView,
> {
    if kind is IfGoto {
        mem_code(MemOp::Pop, Segment::General, OPERAND_A as nat, unit) + jump_code(kind, name)
    } else {
        jump_code(kind, name)
    }
}

/// The comment that names a branching instruction in annotated output.
pub open spec fn branch_comment(kind: BranchKind, name: Seq<char>) -> Seq<char> {
    seq!['/', '/', ' '] + branch_kind_name(kind) + seq![' '] + name
}

/// The lines of a branching instruction before the indentation of the block.
pub open spec fn branch_body_text(
    kind: BranchKind,
    name: Seq<char>,
    unit: Seq<char>,
    debug: bool,
) -> Seq<Seq<char>> {
    if kind is IfGoto {
        mem_text(
            MemOp::Pop,
            Segment::General,
            OPERAND_A as nat,
            unit,
            debug,
            DEFAULT_PADDING as nat,
        ) + render_code(jump_code(kind, name))
    } else {
        render_code(jump_code(kind, name))
    }
}

/// The lines that a branching instruction is translated to.
pub open spec fn branch_text(
    kind: BranchKind,
    name: Seq<char>,
    unit: Seq<char>,
    debug: bool,
    padding: nat,
) -> Seq<Seq<char>> {
    if debug {
        padded_lines(
            seq![blank_line(), branch_comment(kind, name)] + branch_body_text(
                kind,
                name,
                unit,
                true,
            ),
            padding,
        )
    } else {
        branch_body_text(kind, name, unit, false)
    }
}

/// Plain output is exactly the text of the instructions.
pub proof fn lemma_branch_text_plain(
    kind: BranchKind,
    name: Seq<char>,
    unit: Seq<char>,
    padding: nat,
)
    ensures
        branch_text(kind, name, unit, false, padding) == render_code(branch_code(kind, name, unit)),
{
    lemma_render_code_concat(
        mem_code(MemOp::Pop, Segment::General, OPERAND_A as nat, unit),
        jump_code(kind, name),
    );
}

/// What a request for a branching instruction, given by its keyword, is
/// answered with.
pub open spec fn branch_block_outcome(
    keyword: Seq<char>,
    name: Seq<char>,
    unit: Seq<char>,
    debug: bool,
    padding: nat,
) -> Result<Seq<Seq<char>>, TranslateError> {
    match branch_kind_of_name(keyword) {
        None => Err(TranslateError::UnknownKeyword),
        Some(kind) => Ok(branch_text(kind, name, unit, debug, padding)),
    }
}

/// Reads the keyword of a branching instruction.
pub fn parse_branch_kind(name: &str) -> (r: Option<BranchKind>)
    ensures
        r == branch_kind_of_name(name@),
{
    if same_text(name, "label") {
        Some(BranchKind::Label)
    } else if same_text(name, "goto") {
        Some(BranchKind::Goto)
    } else if same_text(name, "if-goto") {
        Some(BranchKind::IfGoto)
    } else {
        None
    }
}

/// The keyword of a branching instruction.
pub fn branch_kind_keyword(kind: BranchKind) -> (s: &'static str)
    ensures
        s@ == branch_kind_name(kind),
{
    match kind {
        BranchKind::Label => "label",
        BranchKind::Goto => "goto",
        BranchKind::IfGoto => "if-goto",
    }
}

/// Builds the instructions that follow the pop of the condition.
pub fn build_jump_code(kind: BranchKind, name: &str) -> (code: Vec<Instr>)
    ensures
        code_view(code@) == jump_code(kind, name@),
{
    let mut code: Vec<Instr> = Vec::new();
    match kind {
        BranchKind::Label => {
            code.push(Instr::Label(String::from_str(name)));
        },
        BranchKind::Goto => {
            code.push(Instr::AtSym(String::from_str(name)));
            code.push(Instr::Branch(Comp::Zero, Jump::Jmp));
        },
        BranchKind::IfGoto => {
            code.push(Instr::AtNum(OPERAND_A));
            code.push(Instr::Assign(Dest::D, Comp::M));
            code.push(Instr::AtSym(String::from_str(name)));
            code.push(Instr::Branch(Comp::D, Jump::Jne));
        },
    }
    assert(code_view(code@) =~= jump_code(kind, name@));
    code
}

fn branch_comment_string(kind: BranchKind, name: &str) -> (s: String)
    ensures
        s@ == branch_comment(kind, name@),
{
    proof {
        reveal_strlit("// ");
        reveal_strlit(" ");
    }
    let mut s = String::from_str("// ");
    s.append(branch_kind_keyword(kind));
    s.append(" ");
    s.append(name);
    assert(s@ =~= branch_comment(kind, name@));
    s
}

/// Translates a branching instruction.
pub fn translate_branch(
    kind: BranchKind,
    name: &str,
    unit: &str,
    is_debug_option: bool,
    padding: usize,
) -> (lines: Vec<String>)
    ensures
        lines_view(lines@) == branch_text(kind, name@, unit@, is_debug_option, padding as nat),
{
    let mut block: Vec<String> = Vec::new();
    assert(lines_view(block@) =~= Seq::<Seq<char>>::empty());
    if is_debug_option {
        append_line(&mut block, blank_line_string());
        append_line(&mut block, branch_comment_string(kind, name));
    }
    let ghost head = lines_view(block@);
    assert(head =~= if is_debug_option {
        seq![blank_line(), branch_comment(kind, name@)]
    } else {
        Seq::<Seq<char>>::empty()
    });
    match kind {
        BranchKind::IfGoto => {
            append_lines(
                &mut block,
                translate_mem_access(
                    MemOp::Pop,
                    Segment::General,
                    OPERAND_A,
                    unit,
                    is_debug_option,
                    DEFAULT_PADDING,
                ),
            );
        },
        _ => {},
    }
    let code = build_jump_code(kind, name);
    append_code(&mut block, &code);
    assert(lines_view(block@) =~= head + branch_body_text(kind, name@, unit@, is_debug_option));
    if is_debug_option {
        add_padding_to_lines(&block, padding)
    } else {
        assert(lines_view(block@) =~= branch_body_text(kind, name@, unit@, false));
        block
    }
}

/// Generates assembly for a branching command given by its keyword.
///
/// For `if-goto` a boolean is expected on top of the stack; the author of
/// the program sees to that.
pub fn generate_branching_block(
    branch_keyword: &str,
    goto_label: &str,
    filename: &str,
    is_debug_option: bool,
    padding: usize,
) -> (r: Result<Vec<String>, TranslateError>)
    ensures
        outcome_view(r) == branch_block_outcome(
            branch_keyword@,
            goto_label@,
            filename@,
            is_debug_option,
            padding as nat,
        ),
{
    match parse_branch_kind(branch_keyword) {
        None => Err(TranslateError::UnknownKeyword),
        Some(kind) => Ok(translate_branch(kind, goto_label, filename, is_debug_option, padding)),
    }
}

} // verus!
