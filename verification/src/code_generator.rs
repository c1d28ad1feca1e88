//! The translation engine: the memory map it relies on, the errors it
//! reports, and the translators of each instruction category.
//!
//! # Memory map
//!
//! | cells      | use                                                    |
//! |------------|--------------------------------------------------------|
//! | 0          | stack pointer                                          |
//! | 1, 2, 3, 4 | base cells of `local`, `argument`, `this`, `that`      |
//! | 5 .. 12    | the `temp` window, eight cells                         |
//! | 13, 14     | operands of the arithmetic and logical translator      |
//! | 15         | computed address of a base-plus-index access           |
//! | 16 .. 252  | cells of `static`, which the assembler gives out       |
//! | 253        | end of the frame that a return unwinds                 |
//! | 254        | return address of the frame that a return unwinds      |
//! | 255        | stack pointer that a return installs                   |
//! | 256 ..     | the stack                                              |

use vstd::prelude::*;
use vstd::string::*;
use crate::assembly::{
    append_code, append_line, append_lines, code_view, lemma_render_code_concat, lines_view,
    render_code, Comp, Dest, Instr, InstrView,
};
use crate::code_generator::arithmetic_logic::{
    arith_code, arith_text, is_comparison, lemma_arith_text_plain, translate_arith,
};
use crate::code_generator::branching::{
    branch_code, branch_text, lemma_branch_text_plain, translate_branch,
};
use crate::code_generator::function::{
    call_code, call_text, function_def_code, function_def_text, generate_function_call,
    generate_function_def, generate_function_return, lemma_call_text_plain,
    lemma_function_def_text_plain, lemma_return_text_plain, return_code, return_text,
};
use crate::code_generator::memory::{mem_code, mem_text, outcome_view, translate_mem_access};
use crate::code_generator::order::{lemma_unit_order, unit_order, unit_order_of};
use crate::code_generator::syntax::{
    instruction_valid, parse, parse_line, Instruction, InstructionView,
};
use crate::text::{decimal, decimal_string};
use crate::utils::{create_output_path, output_path};
use crate::PathType;

pub mod annotation;
pub mod arithmetic_logic;
pub mod branching;
pub mod function;
pub mod labels;
pub mod memory;
pub mod order;
pub mod program;
pub mod syntax;

verus! {

/// The cell that holds the stack pointer.
pub const SP: usize = 0;

/// The base cell of the `local` segment.
pub const LCL: usize = 1;

/// The base cell of the `argument` segment.
pub const ARG: usize = 2;

/// The base cell of the `this` segment.
pub const THIS: usize = 3;

/// The base cell of the `that` segment.
pub const THAT: usize = 4;

/// The first cell of the `temp` window.
pub const TEMP_BASE: usize = 5;

/// The number of cells of the `temp` window.
pub const TEMP_CELLS: usize = 8;

/// Holds the operand popped first by an arithmetic or logical operation.
pub const OPERAND_A: usize = 13;

/// Holds the operand popped second, and then the result.
pub const OPERAND_B: usize = 14;

/// Holds the address computed by a base-plus-index access.
pub const ADDRESS: usize = 15;

/// Holds the end of the frame while a return unwinds it.
pub const FRAME_END: usize = 253;

/// Holds the return address while a return unwinds the frame.
pub const RETURN_ADDRESS: usize = 254;

/// Holds the stack pointer that a return installs at its end.
pub const NEW_SP: usize = 255;

/// The address at which the stack begins.
pub const SP_BASE_ADDRESS: usize = 256;

/// The value that the bootstrap gives to the base cell of `local`.
pub const LCL_BASE_ADDRESS: usize = 1647;

/// The value that the bootstrap gives to the base cell of `argument`.
pub const ARG_BASE_ADDRESS: usize = 1747;

/// The value that the bootstrap gives to the base cell of `this`.
pub const THIS_BASE_ADDRESS: usize = 1847;

/// The value that the bootstrap gives to the base cell of `that`.
pub const THAT_BASE_ADDRESS: usize = 1947;

/// The indentation of a block nested in another, in annotated output.
pub const DEFAULT_PADDING: usize = 4;

/// No indentation.
pub const NO_PADDING: usize = 0;

/// Why a translation was refused.
#[derive(Clone, Copy, Debug, PartialEq, Eq, Structural)]
pub enum TranslateError {
    /// The first word of the line is not an instruction keyword.
    UnknownKeyword,
    /// The instruction lacks an operand.
    MissingOperand,
    /// The segment name is not the name of a segment.
    UnknownSegment,
    /// A pop into the `constant` segment, which is no memory location.
    PopConstant,
    /// An index into the `pointer` segment other than 0 and 1.
    PointerIndex,
    /// A numeric operand that cannot be read as a number, or a number that
    /// the translator cannot compute with.
    BadNumber,
    /// The label counter has reached the largest number it can hold.
    LabelsExhausted,
}

/// Whether `cell` is one of the cells reserved for the translator's own use.
pub open spec fn is_scratch_cell(cell: int) -> bool {
    cell == OPERAND_A || cell == OPERAND_B || cell == ADDRESS || cell == FRAME_END || cell
        == RETURN_ADDRESS || cell == NEW_SP
}

/// Whether `cell` lies in the `temp` window.
pub open spec fn is_temp_cell(cell: int) -> bool {
    TEMP_BASE <= cell < TEMP_BASE + TEMP_CELLS
}

/// Whether `cell` is the stack pointer or a base cell.
pub open spec fn is_pointer_cell(cell: int) -> bool {
    cell == SP || cell == LCL || cell == ARG || cell == THIS || cell == THAT
}

/// The reserved cells are six distinct cells; none lies in the `temp`
/// window, none is the stack pointer or a base cell, and all lie below the
/// stack.
pub proof fn lemma_scratch_cells_disjoint(cell: int)
    requires
        is_scratch_cell(cell),
    ensures
        !is_temp_cell(cell),
        !is_pointer_cell(cell),
        0 <= cell < SP_BASE_ADDRESS,
        OPERAND_A != OPERAND_B,
        OPERAND_A != ADDRESS,
        OPERAND_B != ADDRESS,
        FRAME_END != RETURN_ADDRESS,
        FRAME_END != NEW_SP,
        RETURN_ADDRESS != NEW_SP,
        ADDRESS < FRAME_END,
{
}

/// Whether the translation of the instruction takes a number from the label
/// counter: comparisons and calls, which declare labels, and returns.
pub open spec fn advances_counter(instr: InstructionView) -> bool {
    match instr {
        InstructionView::ArithLogic { op } => is_comparison(op),
        InstructionView::FunctionCall { .. } => true,
        InstructionView::Return => true,
        _ => false,
    }
}

/// The value of the label counter after the translation of the instruction.
pub open spec fn next_counter(instr: InstructionView, counter: nat) -> nat {
    if advances_counter(instr) {
        counter + 1
    } else {
        counter
    }
}

/// The instructions that an instruction of the virtual machine is translated
/// to in the source unit `unit`, where `id` is the value of the label counter
/// after the translation.
pub open spec fn instruction_code(instr: InstructionView, id: nat, unit: Seq<char>) -> Seq<
    InstrView,
> {
    match instr {
        InstructionView::MemoryAccess { op, segment, index } => mem_code(op, segment, index, unit),
        InstructionView::ArithLogic { op } => arith_code(op, id, unit),
        InstructionView::Branch { kind, name } => branch_code(kind, name, unit),
        InstructionView::FunctionDef { name, n_locals } => function_def_code(name, n_locals, unit),
        InstructionView::FunctionCall { name, n_args } => call_code(name, n_args, id, unit),
        InstructionView::Return => return_code(unit),
    }
}

/// The comment before a function's entry or a call in annotated output.
pub open spec fn function_comment(keyword: Seq<char>, name: Seq<char>, n: nat) -> Seq<char> {
    seq!['\n', '/', '/', ' '] + keyword + seq![' '] + name + seq![' '] + decimal(n)
}

/// The comment before a return in annotated output.
pub open spec fn return_comment() -> Seq<char> {
    seq!['\n', '/', '/', ' '] + "return"@
}

/// The comment that annotated output puts before the lines of an
/// instruction, for the instructions of the function protocol.
pub open spec fn instruction_comment(instr: InstructionView, debug: bool) -> Seq<Seq<char>> {
    if !debug {
        Seq::empty()
    } else {
        match instr {
            InstructionView::FunctionDef { name, n_locals } => seq![
                function_comment("function"@, name, n_locals),
            ],
            InstructionView::FunctionCall { name, n_args } => seq![
                function_comment("call"@, name, n_args),
            ],
            InstructionView::Return => seq![return_comment()],
            _ => Seq::empty(),
        }
    }
}

/// The lines that an instruction of the virtual machine is translated to.
pub open spec fn instruction_text(
    instr: InstructionView,
    id: nat,
    unit: Seq<char>,
    debug: bool,
) -> Seq<Seq<char>> {
    instruction_comment(instr, debug) + match instr {
        InstructionView::MemoryAccess { op, segment, index } => mem_text(
            op,
            segment,
            index,
            unit,
            debug,
            NO_PADDING as nat,
        ),
        InstructionView::ArithLogic { op } => arith_text(op, id, unit, debug, NO_PADDING as nat),
        InstructionView::Branch { kind, name } => branch_text(
            kind,
            name,
            unit,
            debug,
            NO_PADDING as nat,
        ),
        InstructionView::FunctionDef { name, n_locals } => function_def_text(
            name,
            n_locals,
            unit,
            debug,
        ),
        InstructionView::FunctionCall { name, n_args } => call_text(name, n_args, id, unit, debug),
        InstructionView::Return => return_text(unit, debug),
    }
}

/// Plain output is exactly the text of the instructions that the
/// instruction is translated to.
pub proof fn lemma_instruction_text_plain(instr: InstructionView, id: nat, unit: Seq<char>)
    ensures
        instruction_text(instr, id, unit, false) == render_code(instruction_code(instr, id, unit)),
{
    let body = render_code(instruction_code(instr, id, unit));
    assert(Seq::<Seq<char>>::empty() + body =~= body);
    match instr {
        InstructionView::MemoryAccess { op, segment, index } => {},
        InstructionView::ArithLogic { op } => {
            lemma_arith_text_plain(op, id, unit, NO_PADDING as nat);
        },
        InstructionView::Branch { kind, name } => {
            lemma_branch_text_plain(kind, name, unit, NO_PADDING as nat);
        },
        InstructionView::FunctionDef { name, n_locals } => {
            lemma_function_def_text_plain(name, n_locals, unit);
        },
        InstructionView::FunctionCall { name, n_args } => {
            lemma_call_text_plain(name, n_args, id, unit);
        },
        InstructionView::Return => {
            lemma_return_text_plain(unit);
        },
    }
}

fn function_comment_string(keyword: &str, name: &str, n: usize) -> (s: String)
    ensures
        s@ == function_comment(keyword@, name@, n as nat),
{
    proof {
        reveal_strlit("\n// ");
        reveal_strlit(" ");
    }
    let mut s = String::from_str("\n// ");
    s.append(keyword);
    s.append(" ");
    s.append(name);
    s.append(" ");
    let digits = decimal_string(n);
    s.append(digits.as_str());
    assert(s@ =~= function_comment(keyword@, name@, n as nat));
    s
}

fn return_comment_string() -> (s: String)
    ensures
        s@ == return_comment(),
{
    proof {
        reveal_strlit("\n// ");
    }
    let mut s = String::from_str("\n// ");
    s.append("return");
    assert(s@ =~= return_comment());
    s
}

/// Translates one instruction in the source unit `unit`.
pub fn translate_instruction(
    instr: &Instruction,
    unit: &str,
    jump_counter: &mut usize,
    is_debug_option: bool,
) -> (lines: Vec<String>)
    requires
        instruction_valid(instr@),
        advances_counter(instr@) ==> *old(jump_counter) < usize::MAX,
    ensures
        *final(jump_counter) == next_counter(instr@, *old(jump_counter) as nat),
        lines_view(lines@) == instruction_text(
            instr@,
            *final(jump_counter) as nat,
            unit@,
            is_debug_option,
        ),
{
    let mut code_block: Vec<String> = Vec::new();
    assert(lines_view(code_block@) =~= Seq::<Seq<char>>::empty());
    match instr {
        Instruction::MemoryAccess { op, segment, index } => {
            append_lines(
                &mut code_block,
                translate_mem_access(*op, *segment, *index, unit, is_debug_option, NO_PADDING),
            );
        },
        Instruction::ArithLogic { op } => {
            append_lines(
                &mut code_block,
                translate_arith(*op, unit, jump_counter, is_debug_option, NO_PADDING),
            );
        },
        Instruction::Branch { kind, name } => {
            append_lines(
                &mut code_block,
                translate_branch(*kind, name.as_str(), unit, is_debug_option, NO_PADDING),
            );
        },
        Instruction::FunctionDef { name, n_locals } => {
            if is_debug_option {
                append_line(
                    &mut code_block,
                    function_comment_string("function", name.as_str(), *n_locals),
                );
            }
            append_lines(
                &mut code_block,
                generate_function_def(name.as_str(), *n_locals, unit, is_debug_option),
            );
        },
        Instruction::FunctionCall { name, n_args } => {
            if is_debug_option {
                append_line(
                    &mut code_block,
                    function_comment_string("call", name.as_str(), *n_args),
                );
            }
            append_lines(
                &mut code_block,
                generate_function_call(
                    name.as_str(),
                    *n_args,
                    unit,
                    jump_counter,
                    is_debug_option,
                ),
            );
        },
        Instruction::Return => {
            if is_debug_option {
                append_line(&mut code_block, return_comment_string());
            }
            append_lines(
                &mut code_block,
                generate_function_return(unit, jump_counter, is_debug_option),
            );
        },
    }
    assert(lines_view(code_block@) =~= instruction_text(
        instr@,
        *jump_counter as nat,
        unit@,
        is_debug_option,
    ));
    code_block
}

/// What the translation of a line gives: the lines of the instruction it
/// holds, none if it holds no instruction, or the reason why it is refused.
pub open spec fn line_outcome(
    line: Seq<char>,
    counter: nat,
    unit: Seq<char>,
    debug: bool,
) -> Result<Seq<Seq<char>>, TranslateError> {
    match parse(line) {
        Err(e) => Err(e),
        Ok(None) => Ok(Seq::empty()),
        Ok(Some(instr)) => if advances_counter(instr) && counter >= usize::MAX {
            Err(TranslateError::LabelsExhausted)
        } else {
            Ok(instruction_text(instr, next_counter(instr, counter), unit, debug))
        },
    }
}

/// The value of the label counter after the translation of a line.
pub open spec fn line_counter(line: Seq<char>, counter: nat) -> nat {
    match parse(line) {
        Ok(Some(instr)) => if advances_counter(instr) && counter >= usize::MAX {
            counter
        } else {
            next_counter(instr, counter)
        },
        _ => counter,
    }
}

/// Translates one line of the source unit `unit`.
pub fn translate_line(
    line: &str,
    unit: &str,
    jump_counter: &mut usize,
    is_debug_option: bool,
) -> (r: Result<Vec<String>, TranslateError>)
    ensures
        outcome_view(r) == line_outcome(
            line@,
            *old(jump_counter) as nat,
            unit@,
            is_debug_option,
        ),
        *final(jump_counter) == line_counter(line@, *old(jump_counter) as nat),
{
    match parse_line(line) {
        Err(e) => Err(e),
        Ok(None) => {
            let lines: Vec<String> = Vec::new();
            assert(lines_view(lines@) =~= Seq::<Seq<char>>::empty());
            Ok(lines)
        },
        Ok(Some(instr)) => {
            let advances = match &instr {
                Instruction::ArithLogic { op } => match op {
                    arithmetic_logic::ArithOp::Eq
                    | arithmetic_logic::ArithOp::Gt
                    | arithmetic_logic::ArithOp::Lt => true,
                    _ => false,
                },
                Instruction::FunctionCall { .. } | Instruction::Return => true,
                _ => false,
            };
            if advances && *jump_counter == usize::MAX {
                Err(TranslateError::LabelsExhausted)
            } else {
                Ok(translate_instruction(&instr, unit, jump_counter, is_debug_option))
            }
        },
    }
}

/// Where the translation of a source unit failed, and why.
#[derive(Clone, Copy, Debug, PartialEq, Eq, Structural)]
pub struct Diagnostic {
    /// The position of the offending line in the unit, counted from 0.
    pub line: usize,
    /// Why the line was refused.
    pub error: TranslateError,
}

/// Where the translation of a program failed, and why.
#[derive(Clone, Copy, Debug, PartialEq, Eq, Structural)]
pub enum ProgramError {
    /// The bootstrap could not be generated.
    Bootstrap { error: TranslateError },
    /// A line of a source unit was refused.
    Unit {
        /// The position of the unit among the units of the program, from 0.
        unit: usize,
        /// The position of the offending line in the unit, from 0.
        line: usize,
        /// Why the line was refused.
        error: TranslateError,
    },
}

/// The result of the translation of a sequence of lines, with the value of
/// the label counter after it.
pub struct UnitOutcome {
    pub text: Result<Seq<Seq<char>>, Diagnostic>,
    pub counter: nat,
}

/// What the translation of the lines of a source unit gives, from the first
/// line to the last: the lines of their instructions in order, or the first
/// line that is refused, with the reason.  After a refusal no line is
/// translated and the label counter stays.
pub open spec fn unit_outcome(
    lines: Seq<Seq<char>>,
    counter: nat,
    unit: Seq<char>,
    debug: bool,
) -> UnitOutcome
    decreases lines.len(),
{
    if lines.len() == 0 {
        UnitOutcome { text: Ok(Seq::empty()), counter }
    } else {
        let before = unit_outcome(lines.drop_last(), counter, unit, debug);
        match before.text {
            Err(_) => before,
            Ok(text) => match line_outcome(lines.last(), before.counter, unit, debug) {
                Err(error) => UnitOutcome {
                    text: Err(Diagnostic { line: (lines.len() - 1) as usize, error }),
                    counter: before.counter,
                },
                Ok(more) => UnitOutcome {
                    text: Ok(text + more),
                    counter: line_counter(lines.last(), before.counter),
                },
            },
        }
    }
}

/// The model of the outcome of the translation of a source unit.
pub open spec fn unit_result_view(r: Result<Vec<String>, Diagnostic>) -> Result<
    Seq<Seq<char>>,
    Diagnostic,
> {
    match r {
        Ok(lines) => Ok(lines_view(lines@)),
        Err(d) => Err(d),
    }
}

/// Translates the lines of the source unit `unit`, which stand in `lines`
/// in their order.
pub fn translate_unit(
    lines: &Vec<String>,
    unit: &str,
    jump_counter: &mut usize,
    is_debug_option: bool,
) -> (r: Result<Vec<String>, Diagnostic>)
    ensures
        unit_result_view(r) == unit_outcome(
            lines_view(lines@),
            *old(jump_counter) as nat,
            unit@,
            is_debug_option,
        ).text,
        *final(jump_counter) == unit_outcome(
            lines_view(lines@),
            *old(jump_counter) as nat,
            unit@,
            is_debug_option,
        ).counter,
{
    let mut code_buffer: Vec<String> = Vec::new();
    let ghost all = lines_view(lines@);
    let ghost start = *jump_counter as nat;
    let mut i: usize = 0;
    assert(all.take(0) =~= Seq::<Seq<char>>::empty());
    assert(lines_view(code_buffer@) =~= Seq::<Seq<char>>::empty());
    while i < lines.len()
        invariant
            i <= lines.len(),
            all == lines_view(lines@),
            start == *old(jump_counter),
            unit_outcome(all.take(i as int), start, unit@, is_debug_option) == (UnitOutcome {
                text: Ok(lines_view(code_buffer@)),
                counter: *jump_counter as nat,
            }),
        decreases lines.len() - i,
    {
        assert(all.take(i + 1).drop_last() =~= all.take(i as int));
        assert(all.take(i + 1).last() == lines@[i as int]@);
        let translated = translate_line(lines[i].as_str(), unit, jump_counter, is_debug_option);
        match translated {
            Err(error) => {
                proof {
                    lemma_unit_outcome_stays_refused(
                        all,
                        i + 1,
                        start,
                        unit@,
                        is_debug_option,
                    );
                }
                return Err(Diagnostic { line: i, error });
            },
            Ok(more) => {
                append_lines(&mut code_buffer, more);
            },
        }
        i = i + 1;
    }
    assert(all.take(i as int) =~= all);
    Ok(code_buffer)
}

/// Once a line is refused, the lines after it change nothing.
pub proof fn lemma_unit_outcome_stays_refused(
    lines: Seq<Seq<char>>,
    k: int,
    counter: nat,
    unit: Seq<char>,
    debug: bool,
)
    requires
        0 <= k <= lines.len(),
        unit_outcome(lines.take(k), counter, unit, debug).text is Err,
    ensures
        unit_outcome(lines, counter, unit, debug) == unit_outcome(
            lines.take(k),
            counter,
            unit,
            debug,
        ),
    decreases lines.len(),
{
    if k == lines.len() {
        assert(lines.take(k) =~= lines);
    } else {
        assert(lines.drop_last().take(k) =~= lines.take(k));
        lemma_unit_outcome_stays_refused(lines.drop_last(), k, counter, unit, debug);
    }
}

/// Gives the cell `cell` the value `value`.
pub open spec fn set_cell_code(cell: nat, value: nat) -> Seq<InstrView> {
    seq![
        InstrView::AtNum(value),
        InstrView::Assign(Dest::D, Comp::A),
        InstrView::AtNum(cell),
        InstrView::Assign(Dest::M, Comp::D),
    ]
}

/// Gives the stack pointer and the four base cells their first values.
pub open spec fn init_cells_code() -> Seq<InstrView> {
    set_cell_code(SP as nat, SP_BASE_ADDRESS as nat) + set_cell_code(
        LCL as nat,
        LCL_BASE_ADDRESS as nat,
    ) + set_cell_code(ARG as nat, ARG_BASE_ADDRESS as nat) + set_cell_code(
        THIS as nat,
        THIS_BASE_ADDRESS as nat,
    ) + set_cell_code(THAT as nat, THAT_BASE_ADDRESS as nat)
}

/// The name of the function at which a program begins.
pub open spec fn entry_function() -> Seq<char> {
    "Sys.init"@
}

/// The source unit to which the call of the entry function is ascribed.
pub open spec fn entry_unit() -> Seq<char> {
    "Sys"@
}

/// The instructions that begin every program: the first values of the cells,
/// then the call numbered `id` of the entry function without arguments.
pub open spec fn bootstrap_code(id: nat) -> Seq<InstrView> {
    init_cells_code() + call_code(entry_function(), 0, id, entry_unit())
}

/// The lines that begin every program.
pub open spec fn bootstrap_text(id: nat, debug: bool) -> Seq<Seq<char>> {
    render_code(init_cells_code()) + call_text(entry_function(), 0, id, entry_unit(), debug)
}

/// Plain output of the bootstrap is exactly the text of its instructions.
pub proof fn lemma_bootstrap_text_plain(id: nat)
    ensures
        bootstrap_text(id, false) == render_code(bootstrap_code(id)),
{
    lemma_call_text_plain(entry_function(), 0, id, entry_unit());
    lemma_render_code_concat(init_cells_code(), call_code(entry_function(), 0, id, entry_unit()));
}

fn set_cell_instrs(code: &mut Vec<Instr>, cell: usize, value: usize)
    ensures
        code_view(final(code)@) == code_view(old(code)@) + set_cell_code(
            cell as nat,
            value as nat,
        ),
{
    code.push(Instr::AtNum(value));
    code.push(Instr::Assign(Dest::D, Comp::A));
    code.push(Instr::AtNum(cell));
    code.push(Instr::Assign(Dest::M, Comp::D));
    assert(code_view(code@) =~= code_view(old(code)@) + set_cell_code(cell as nat, value as nat));
}

/// Generates the lines that begin every program.  The label counter
/// advances by one.
pub fn generate_bootstrapping(jump_counter_ref: &mut usize, is_debug_option: bool) -> (lines: Vec<
    String,
>)
    requires
        *old(jump_counter_ref) < usize::MAX,
    ensures
        *final(jump_counter_ref) == *old(jump_counter_ref) + 1,
        lines_view(lines@) == bootstrap_text(*final(jump_counter_ref) as nat, is_debug_option),
{
    let mut code: Vec<Instr> = Vec::new();
    assert(code_view(code@) =~= Seq::<InstrView>::empty());
    set_cell_instrs(&mut code, SP, SP_BASE_ADDRESS);
    set_cell_instrs(&mut code, LCL, LCL_BASE_ADDRESS);
    set_cell_instrs(&mut code, ARG, ARG_BASE_ADDRESS);
    set_cell_instrs(&mut code, THIS, THIS_BASE_ADDRESS);
    set_cell_instrs(&mut code, THAT, THAT_BASE_ADDRESS);
    assert(code_view(code@) =~= init_cells_code());
    let mut code_block: Vec<String> = Vec::new();
    assert(lines_view(code_block@) =~= Seq::<Seq<char>>::empty());
    append_code(&mut code_block, &code);
    append_lines(
        &mut code_block,
        generate_function_call("Sys.init", 0, "Sys", jump_counter_ref, is_debug_option),
    );
    assert(lines_view(code_block@) =~= bootstrap_text(*jump_counter_ref as nat, is_debug_option));
    code_block
}

/// A source unit: its name, which sets its static cells apart from those of
/// other units, and its lines in order.
#[derive(Debug)]
pub struct SourceUnit {
    pub name: String,
    pub lines: Vec<String>,
}

/// The mathematical model of a [`SourceUnit`].
pub struct SourceUnitView {
    pub name: Seq<char>,
    pub lines: Seq<Seq<char>>,
}

impl View for SourceUnit {
    type V = SourceUnitView;

    open spec fn view(&self) -> SourceUnitView {
        SourceUnitView { name: self.name@, lines: lines_view(self.lines@) }
    }
}

/// The models of a sequence of source units.
pub open spec fn units_view(units: Seq<SourceUnit>) -> Seq<SourceUnitView> {
    units.map_values(|u: SourceUnit| u@)
}

/// The result of the translation of a program or of a part of one, with the
/// value of the label counter after it.
pub struct ProgramOutcome {
    pub text: Result<Seq<Seq<char>>, ProgramError>,
    pub counter: nat,
}

/// What the translation of source units one after the other gives: their
/// lines in order, or the first refusal.
pub open spec fn units_outcome(
    units: Seq<SourceUnitView>,
    counter: nat,
    debug: bool,
) -> ProgramOutcome
    decreases units.len(),
{
    if units.len() == 0 {
        ProgramOutcome { text: Ok(Seq::empty()), counter }
    } else {
        let before = units_outcome(units.drop_last(), counter, debug);
        match before.text {
            Err(_) => before,
            Ok(text) => {
                let unit = units.last();
                let outcome = unit_outcome(unit.lines, before.counter, unit.name, debug);
                match outcome.text {
                    Err(d) => ProgramOutcome {
                        text: Err(
                            ProgramError::Unit {
                                unit: (units.len() - 1) as usize,
                                line: d.line,
                                error: d.error,
                            },
                        ),
                        counter: outcome.counter,
                    },
                    Ok(more) => ProgramOutcome { text: Ok(text + more), counter: outcome.counter },
                }
            },
        }
    }
}

/// What the translation of a program gives: the bootstrap, once, then the
/// lines of its source units in order; or the first refusal.
pub open spec fn program_outcome(
    units: Seq<SourceUnitView>,
    counter: nat,
    debug: bool,
) -> ProgramOutcome {
    if counter >= usize::MAX {
        ProgramOutcome {
            text: Err(ProgramError::Bootstrap { error: TranslateError::LabelsExhausted }),
            counter,
        }
    } else {
        let rest = units_outcome(units, counter + 1, debug);
        match rest.text {
            Err(_) => rest,
            Ok(text) => ProgramOutcome {
                text: Ok(bootstrap_text(counter + 1, debug) + text),
                counter: rest.counter,
            },
        }
    }
}

/// Once a unit is refused, the units after it change nothing.
pub proof fn lemma_units_outcome_stays_refused(
    units: Seq<SourceUnitView>,
    k: int,
    counter: nat,
    debug: bool,
)
    requires
        0 <= k <= units.len(),
        units_outcome(units.take(k), counter, debug).text is Err,
    ensures
        units_outcome(units, counter, debug) == units_outcome(units.take(k), counter, debug),
    decreases units.len(),
{
    if k == units.len() {
        assert(units.take(k) =~= units);
    } else {
        assert(units.drop_last().take(k) =~= units.take(k));
        lemma_units_outcome_stays_refused(units.drop_last(), k, counter, debug);
    }
}

/// The names of source units.
pub open spec fn unit_names(units: Seq<SourceUnitView>) -> Seq<Seq<char>> {
    units.map_values(|u: SourceUnitView| u.name)
}

/// The order in which the source units of a program are translated: by
/// ascending name.
pub open spec fn translation_order(units: Seq<SourceUnitView>) -> Seq<usize> {
    unit_order_of(unit_names(units))
}

/// The source units at the positions that `order` holds, in that order.
pub open spec fn arranged(units: Seq<SourceUnitView>, order: Seq<usize>) -> Seq<SourceUnitView> {
    Seq::new(order.len(), |i: int| units[order[i] as int])
}

/// The source units of a program in the order of their translation.
pub open spec fn in_order(units: Seq<SourceUnitView>) -> Seq<SourceUnitView> {
    arranged(units, translation_order(units))
}

/// The outcome of a translation of arranged units, with the unit of a
/// refusal named by its position among the units as they were given.
pub open spec fn as_given(r: Result<Seq<Seq<char>>, ProgramError>, order: Seq<usize>) -> Result<
    Seq<Seq<char>>,
    ProgramError,
> {
    match r {
        Err(ProgramError::Unit { unit, line, error }) => Err(
            ProgramError::Unit { unit: order[unit as int], line, error },
        ),
        other => other,
    }
}

/// The model of the outcome of the translation of a program.
pub open spec fn program_result_view(r: Result<Vec<String>, ProgramError>) -> Result<
    Seq<Seq<char>>,
    ProgramError,
> {
    match r {
        Ok(lines) => Ok(lines_view(lines@)),
        Err(e) => Err(e),
    }
}

/// The translator of a program: where its output goes, whether the output is
/// annotated, and the label counter, which only ever grows.
pub struct CodeGenerator {
    output_path: String,
    is_debug_option: bool,
    jump_counter: usize,
}

impl CodeGenerator {
    /// The path of the assembly file.
    pub closed spec fn path(&self) -> Seq<char> {
        self.output_path@
    }

    /// Whether the output is annotated.
    pub closed spec fn debug(&self) -> bool {
        self.is_debug_option
    }

    /// The value of the label counter: the number of the label generated
    /// last, 0 if none was.
    pub closed spec fn counter(&self) -> nat {
        self.jump_counter as nat
    }

    /// A translator for the program at `path`, whose label counter is 0.
    pub fn new(path: &str, path_type: &PathType, is_debug_option: bool) -> (generator:
        CodeGenerator)
        ensures
            generator.path() == output_path(path@, *path_type, is_debug_option),
            generator.debug() == is_debug_option,
            generator.counter() == 0,
    {
        CodeGenerator::with_counter(path, path_type, is_debug_option, 0)
    }

    /// A translator for the program at `path` that numbers its labels from
    /// `jump_counter` on: the first label it generates has the number after
    /// `jump_counter`.  This keeps the labels of a program apart that is
    /// translated in several parts, each continuing where the last one ended.
    pub fn with_counter(
        path: &str,
        path_type: &PathType,
        is_debug_option: bool,
        jump_counter: usize,
    ) -> (generator: CodeGenerator)
        ensures
            generator.path() == output_path(path@, *path_type, is_debug_option),
            generator.debug() == is_debug_option,
            generator.counter() == jump_counter,
    {
        let output_path = create_output_path(path, path_type, is_debug_option);
        CodeGenerator { output_path, is_debug_option, jump_counter }
    }

    /// Translates a program: the bootstrap, once, then the source units by
    /// ascending name, whatever the order in which they are given.  Nothing is
    /// kept of a program that is refused; the refusal names the unit by its
    /// position among the units given.
    pub fn generate_code(&mut self, units: &Vec<SourceUnit>) -> (r: Result<
        Vec<String>,
        ProgramError,
    >)
        ensures
            program_result_view(r) == as_given(
                program_outcome(
                    in_order(units_view(units@)),
                    old(self).counter(),
                    old(self).debug(),
                ).text,
                translation_order(units_view(units@)),
            ),
            final(self).counter() == program_outcome(
                in_order(units_view(units@)),
                old(self).counter(),
                old(self).debug(),
            ).counter,
            final(self).debug() == old(self).debug(),
            final(self).path() == old(self).path(),
    {
        if self.jump_counter == usize::MAX {
            return Err(ProgramError::Bootstrap { error: TranslateError::LabelsExhausted });
        }
        let mut names: Vec<String> = Vec::new();
        let mut n: usize = 0;
        while n < units.len()
            invariant
                n <= units.len(),
                names.len() == n,
                forall|k: int| 0 <= k < n ==> (#[trigger] names@[k])@ == units@[k].name@,
            decreases units.len() - n,
        {
            names.push(units[n].name.clone());
            n = n + 1;
        }
        assert(lines_view(names@) =~= unit_names(units_view(units@)));
        let order = unit_order(&names);
        let ghost all = in_order(units_view(units@));
        let ghost debug = self.is_debug_option;
        proof {
            lemma_unit_order(unit_names(units_view(units@)));
        }
        let mut code_buffer = generate_bootstrapping(&mut self.jump_counter, self.is_debug_option);
        let ghost boot = lines_view(code_buffer@);
        let ghost start = self.jump_counter as nat;
        let mut i: usize = 0;
        assert(all.take(0) =~= Seq::<SourceUnitView>::empty());
        assert(boot + Seq::<Seq<char>>::empty() =~= boot);
        while i < order.len()
            invariant
                i <= order.len(),
                order.len() == units.len(),
                order@ == translation_order(units_view(units@)),
                forall|k: int| 0 <= k < order.len() ==> (#[trigger] order@[k]) < units.len(),
                all == in_order(units_view(units@)),
                debug == self.is_debug_option,
                debug == old(self).is_debug_option,
                self.output_path == old(self).output_path,
                old(self).jump_counter < usize::MAX,
                start == old(self).jump_counter + 1,
                boot == bootstrap_text(start, debug),
                units_outcome(all.take(i as int), start, debug).counter == self.jump_counter,
                units_outcome(all.take(i as int), start, debug).text is Ok,
                lines_view(code_buffer@) == boot + units_outcome(
                    all.take(i as int),
                    start,
                    debug,
                ).text->Ok_0,
            decreases order.len() - i,
        {
            assert(all.take(i + 1).drop_last() =~= all.take(i as int));
            assert(all.take(i + 1).last() == units@[order@[i as int] as int]@);
            let unit = &units[order[i]];
            let translated = translate_unit(
                &unit.lines,
                unit.name.as_str(),
                &mut self.jump_counter,
                self.is_debug_option,
            );
            match translated {
                Err(d) => {
                    proof {
                        lemma_units_outcome_stays_refused(all, i + 1, start, debug);
                    }
                    return Err(
                        ProgramError::Unit { unit: order[i], line: d.line, error: d.error },
                    );
                },
                Ok(more) => {
                    let ghost before = lines_view(code_buffer@);
                    let ghost so_far = units_outcome(all.take(i as int), start, debug).text->Ok_0;
                    append_lines(&mut code_buffer, more);
                    assert(lines_view(code_buffer@) =~= boot + (so_far + lines_view(more@)));
                },
            }
            i = i + 1;
        }
        assert(all.take(i as int) =~= all);
        Ok(code_buffer)
    }

    /// Translates the lines of one source unit, continuing the label counter.
    pub fn generate_code_from_file(&mut self, filename: &str, lines: &Vec<String>) -> (r: Result<
        Vec<String>,
        Diagnostic,
    >)
        ensures
            unit_result_view(r) == unit_outcome(
                lines_view(lines@),
                old(self).counter(),
                filename@,
                old(self).debug(),
            ).text,
            final(self).counter() == unit_outcome(
                lines_view(lines@),
                old(self).counter(),
                filename@,
                old(self).debug(),
            ).counter,
            final(self).debug() == old(self).debug(),
            final(self).path() == old(self).path(),
    {
        translate_unit(lines, filename, &mut self.jump_counter, self.is_debug_option)
    }

    /// The path of the assembly file.
    pub fn output_path(&self) -> (path: &String)
        ensures
            path@ == self.path(),
    {
        &self.output_path
    }

    /// Whether the output is annotated.
    pub fn is_debug_option(&self) -> (debug: bool)
        ensures
            debug == self.debug(),
    {
        self.is_debug_option
    }

    /// The value of the label counter.
    pub fn jump_counter(&self) -> (counter: usize)
        ensures
            counter == self.counter(),
    {
        self.jump_counter
    }
}

} // verus!
