//! The memory segment translator: push and pop for each addressing mode.

use vstd::prelude::*;
use vstd::string::*;
use crate::assembly::{code_view, lines_view, render_all, render_code, Comp, Dest, Instr, InstrView};
use crate::code_generator::{TranslateError, ADDRESS, ARG, LCL, SP, TEMP_BASE, THAT, THIS};
use crate::text::{decimal, decimal_string, lemma_numbered_injective};
use crate::utils::{add_padding_to_lines, padded_lines, same_text};

verus! {

/// The direction of a memory access.
#[derive(Clone, Copy, Debug, PartialEq, Eq, Structural)]
pub enum MemOp {
    /// From memory onto the stack.
    Push,
    /// From the stack into memory.
    Pop,
}

/// The addressing modes.
#[derive(Clone, Copy, Debug, PartialEq, Eq, Structural)]
pub enum Segment {
    /// Addressed through the base cell of `local`.
    Local,
    /// Addressed through the base cell of `argument`.
    Argument,
    /// Addressed through the base cell of `this`.
    This,
    /// Addressed through the base cell of `that`.
    That,
    /// No memory location: the index is the value itself.
    Constant,
    /// One cell per index and source unit.
    Static,
    /// The base cells of `this` (index 0) and `that` (index 1) themselves.
    Pointer,
    /// The fixed window of eight cells.
    Temp,
    /// The cell whose address is the index.
    General,
}

/// The keyword of a memory access.
pub open spec fn mem_op_name(op: MemOp) -> Seq<char> {
    match op {
        MemOp::Push => "push"@,
        MemOp::Pop => "pop"@,
    }
}

/// The name of a segment.
pub open spec fn segment_name(segment: Segment) -> Seq<char> {
    match segment {
        Segment::Local => "local"@,
        Segment::Argument => "argument"@,
        Segment::This => "this"@,
        Segment::That => "that"@,
        Segment::Constant => "constant"@,
        Segment::Static => "static"@,
        Segment::Pointer => "pointer"@,
        Segment::Temp => "temp"@,
        Segment::General => "general"@,
    }
}

/// The memory access that a keyword names, if any.
pub open spec fn mem_op_of_name(name: Seq<char>) -> Option<MemOp> {
    if name == "push"@ {
        Some(MemOp::Push)
    } else if name == "pop"@ {
        Some(MemOp::Pop)
    } else {
        None
    }
}

/// The segment that a name names, if any.
pub open spec fn segment_of_name(name: Seq<char>) -> Option<Segment> {
    if name == "local"@ {
        Some(Segment::Local)
    } else if name == "argument"@ {
        Some(Segment::Argument)
    } else if name == "this"@ {
        Some(Segment::This)
    } else if name == "that"@ {
        Some(Segment::That)
    } else if name == "constant"@ {
        Some(Segment::Constant)
    } else if name == "static"@ {
        Some(Segment::Static)
    } else if name == "pointer"@ {
        Some(Segment::Pointer)
    } else if name == "temp"@ {
        Some(Segment::Temp)
    } else if name == "general"@ {
        Some(Segment::General)
    } else {
        None
    }
}

/// Reveals the text of the keywords and names of this module.
pub proof fn lemma_memory_words()
    ensures
        "push"@ == seq!['p', 'u', 's', 'h'],
        "pop"@ == seq!['p', 'o', 'p'],
        "local"@ == seq!['l', 'o', 'c', 'a', 'l'],
        "argument"@ == seq!['a', 'r', 'g', 'u', 'm', 'e', 'n', 't'],
        "this"@ == seq!['t', 'h', 'i', 's'],
        "that"@ == seq!['t', 'h', 'a', 't'],
        "constant"@ == seq!['c', 'o', 'n', 's', 't', 'a', 'n', 't'],
        "static"@ == seq!['s', 't', 'a', 't', 'i', 'c'],
        "pointer"@ == seq!['p', 'o', 'i', 'n', 't', 'e', 'r'],
        "temp"@ == seq!['t', 'e', 'm', 'p'],
        "general"@ == seq!['g', 'e', 'n', 'e', 'r', 'a', 'l'],
        "THIS"@ == seq!['T', 'H', 'I', 'S'],
        "THAT"@ == seq!['T', 'H', 'A', 'T'],
{
    reveal_strlit("push");
    reveal_strlit("pop");
    reveal_strlit("local");
    reveal_strlit("argument");
    reveal_strlit("this");
    reveal_strlit("that");
    reveal_strlit("constant");
    reveal_strlit("static");
    reveal_strlit("pointer");
    reveal_strlit("temp");
    reveal_strlit("general");
    reveal_strlit("THIS");
    reveal_strlit("THAT");
    assert("push"@ =~= seq!['p', 'u', 's', 'h']);
    assert("pop"@ =~= seq!['p', 'o', 'p']);
    assert("local"@ =~= seq!['l', 'o', 'c', 'a', 'l']);
    assert("argument"@ =~= seq!['a', 'r', 'g', 'u', 'm', 'e', 'n', 't']);
    assert("this"@ =~= seq!['t', 'h', 'i', 's']);
    assert("that"@ =~= seq!['t', 'h', 'a', 't']);
    assert("constant"@ =~= seq!['c', 'o', 'n', 's', 't', 'a', 'n', 't']);
    assert("static"@ =~= seq!['s', 't', 'a', 't', 'i', 'c']);
    assert("pointer"@ =~= seq!['p', 'o', 'i', 'n', 't', 'e', 'r']);
    assert("temp"@ =~= seq!['t', 'e', 'm', 'p']);
    assert("general"@ =~= seq!['g', 'e', 'n', 'e', 'r', 'a', 'l']);
    assert("THIS"@ =~= seq!['T', 'H', 'I', 'S']);
    assert("THAT"@ =~= seq!['T', 'H', 'A', 'T']);
}

/// The keyword of a memory access reads back as that access, and the name of
/// a segment as that segment.
pub proof fn lemma_memory_names_round_trip(op: MemOp, segment: Segment)
    ensures
        mem_op_of_name(mem_op_name(op)) == Some(op),
        segment_of_name(segment_name(segment)) == Some(segment),
{
    lemma_memory_words();
    let p = "push"@;
    let l = "local"@;
    let a = "argument"@;
    let t = "this"@;
    let c = "constant"@;
    let s = "static"@;
    let q = "pointer"@;
    let g = "general"@;
    assert(p.len() == 4 && l.len() == 5 && a.len() == 8 && t.len() == 4 && c.len() == 8 && s.len()
        == 6 && q.len() == 7 && g.len() == 7);
    assert(a[0] == 'a' && c[0] == 'c' && t[2] == 'i' && "that"@[2] == 'a' && "temp"@[1] == 'e'
        && q[0] == 'p' && g[0] == 'g');
}

/// Whether the segment is addressed through a base cell.
pub open spec fn is_based(segment: Segment) -> bool {
    segment is Local || segment is Argument || segment is This || segment is That
}

/// The base cell of a segment addressed through one.
pub open spec fn base_cell(segment: Segment) -> nat {
    match segment {
        Segment::Local => LCL as nat,
        Segment::Argument => ARG as nat,
        Segment::This => THIS as nat,
        _ => THAT as nat,
    }
}

/// The symbol of the base cell that an index into `pointer` selects.
pub open spec fn pointer_symbol(index: nat) -> Seq<char> {
    if index == 0 {
        "THIS"@
    } else {
        "THAT"@
    }
}

/// The symbol of the cell that backs index `index` of the `static` segment of
/// the source unit `unit`.
pub open spec fn static_symbol(unit: Seq<char>, index: nat) -> Seq<char> {
    unit + seq!['.'] + decimal(index)
}

/// The cells of the `static` segment have symbols of their own: two of them
/// have the same symbol only if they belong to the same source unit and have
/// the same index.
pub proof fn lemma_static_symbols_distinct(
    unit: Seq<char>,
    index: nat,
    other_unit: Seq<char>,
    other_index: nat,
)
    requires
        static_symbol(unit, index) == static_symbol(other_unit, other_index),
    ensures
        unit == other_unit,
        index == other_index,
{
    let p = unit + seq!['.'];
    let q = other_unit + seq!['.'];
    lemma_numbered_injective(p, index, q, other_index);
    assert(unit =~= p.drop_last());
    assert(other_unit =~= q.drop_last());
}

/// Why the access cannot be translated, if it cannot.
pub open spec fn mem_access_error(op: MemOp, segment: Segment, index: nat) -> Option<
    TranslateError,
> {
    if op is Pop && segment is Constant {
        Some(TranslateError::PopConstant)
    } else if segment is Pointer && index > 1 {
        Some(TranslateError::PointerIndex)
    } else if segment is Temp && TEMP_BASE + index > usize::MAX {
        Some(TranslateError::BadNumber)
    } else {
        None
    }
}

/// Stores `D` at the top of the stack and advances the stack pointer.
pub open spec fn push_d_code() -> Seq<InstrView> {
    seq![
        InstrView::AtNum(SP as nat),
        InstrView::Assign(Dest::A, Comp::M),
        InstrView::Assign(Dest::M, Comp::D),
        InstrView::AtNum(SP as nat),
        InstrView::Assign(Dest::M, Comp::MPlusOne),
    ]
}

/// Moves the stack pointer back and loads `D` with the word it then points at.
pub open spec fn pop_d_code() -> Seq<InstrView> {
    seq![
        InstrView::AtNum(SP as nat),
        InstrView::Assign(Dest::M, Comp::MMinusOne),
        InstrView::AtNum(SP as nat),
        InstrView::Assign(Dest::A, Comp::M),
        InstrView::Assign(Dest::D, Comp::M),
    ]
}

/// Stores the address `base cell + index` in the address cell.
pub open spec fn address_code(segment: Segment, index: nat) -> Seq<InstrView> {
    seq![
        InstrView::AtNum(base_cell(segment)),
        InstrView::Assign(Dest::D, Comp::M),
        InstrView::AtNum(index),
        InstrView::Assign(Dest::D, Comp::DPlusA),
        InstrView::AtNum(ADDRESS as nat),
        InstrView::Assign(Dest::M, Comp::D),
    ]
}

/// The instruction that loads `A` with the address of a cell that is
/// addressed directly: a cell of `temp`, `pointer`, `static` or `general`.
pub open spec fn direct_cell(segment: Segment, index: nat, unit: Seq<char>) -> InstrView {
    match segment {
        Segment::Temp => InstrView::AtNum(TEMP_BASE as nat + index),
        Segment::Pointer => InstrView::AtSym(pointer_symbol(index)),
        Segment::Static => InstrView::AtSym(static_symbol(unit, index)),
        _ => InstrView::AtNum(index),
    }
}

/// The instructions that a memory access is translated to.
pub open spec fn mem_code(op: MemOp, segment: Segment, index: nat, unit: Seq<char>) -> Seq<
    InstrView,
> {
    match op {
        MemOp::Push => {
            if is_based(segment) {
                address_code(segment, index) + seq![
                    InstrView::Assign(Dest::A, Comp::M),
                    InstrView::Assign(Dest::D, Comp::M),
                ] + push_d_code()
            } else if segment is Constant {
                seq![InstrView::AtNum(index), InstrView::Assign(Dest::D, Comp::A)] + push_d_code()
            } else {
                seq![direct_cell(segment, index, unit), InstrView::Assign(Dest::D, Comp::M)]
                    + push_d_code()
            }
        },
        MemOp::Pop => {
            if is_based(segment) {
                address_code(segment, index) + pop_d_code() + seq![
                    InstrView::AtNum(ADDRESS as nat),
                    InstrView::Assign(Dest::A, Comp::M),
                    InstrView::Assign(Dest::M, Comp::D),
                ]
            } else {
                pop_d_code() + seq![
                    direct_cell(segment, index, unit),
                    InstrView::Assign(Dest::M, Comp::D),
                ]
            }
        },
    }
}

/// The line that separates annotated blocks.
pub open spec fn blank_line() -> Seq<char> {
    seq!['\n']
}

/// The comment that names a memory access in annotated output.
pub open spec fn mem_comment(op: MemOp, segment: Segment, index: nat) -> Seq<char> {
    seq!['/', '/', ' '] + mem_op_name(op) + seq![' '] + segment_name(segment) + seq![' ']
        + decimal(index)
}

/// The lines that a memory access is translated to.  Plain output is the
/// text of the instructions; annotated output puts a separator and a comment
/// before them and indents the whole block.
pub open spec fn mem_text(
    op: MemOp,
    segment: Segment,
    index: nat,
    unit: Seq<char>,
    debug: bool,
    padding: nat,
) -> Seq<Seq<char>> {
    if debug {
        padded_lines(
            seq![blank_line(), mem_comment(op, segment, index)] + render_code(
                mem_code(op, segment, index, unit),
            ),
            padding,
        )
    } else {
        render_code(mem_code(op, segment, index, unit))
    }
}

/// The model of the outcome of a translation.
pub open spec fn outcome_view(r: Result<Vec<String>, TranslateError>) -> Result<
    Seq<Seq<char>>,
    TranslateError,
> {
    match r {
        Ok(lines) => Ok(lines_view(lines@)),
        Err(e) => Err(e),
    }
}

/// What a request for a memory access, given by keyword and segment name,
/// is answered with: the lines of the access, or the reason why it is
/// refused.  The segment name is judged first, then the keyword, then the
/// combination.
pub open spec fn mem_block_outcome(
    cmd: Seq<char>,
    segment: Seq<char>,
    index: nat,
    unit: Seq<char>,
    debug: bool,
    padding: nat,
) -> Result<Seq<Seq<char>>, TranslateError> {
    match segment_of_name(segment) {
        None => Err(TranslateError::UnknownSegment),
        Some(seg) => match mem_op_of_name(cmd) {
            None => Err(TranslateError::UnknownKeyword),
            Some(op) => match mem_access_error(op, seg, index) {
                Some(e) => Err(e),
                None => Ok(mem_text(op, seg, index, unit, debug, padding)),
            },
        },
    }
}

/// Reads the keyword of a memory access.
pub fn parse_mem_op(name: &str) -> (r: Option<MemOp>)
    ensures
        r == mem_op_of_name(name@),
{
    if same_text(name, "push") {
        Some(MemOp::Push)
    } else if same_text(name, "pop") {
        Some(MemOp::Pop)
    } else {
        None
    }
}

/// Reads the name of a segment.
pub fn parse_segment(name: &str) -> (r: Option<Segment>)
    ensures
        r == segment_of_name(name@),
{
    if same_text(name, "local") {
        Some(Segment::Local)
    } else if same_text(name, "argument") {
        Some(Segment::Argument)
    } else if same_text(name, "this") {
        Some(Segment::This)
    } else if same_text(name, "that") {
        Some(Segment::That)
    } else if same_text(name, "constant") {
        Some(Segment::Constant)
    } else if same_text(name, "static") {
        Some(Segment::Static)
    } else if same_text(name, "pointer") {
        Some(Segment::Pointer)
    } else if same_text(name, "temp") {
        Some(Segment::Temp)
    } else if same_text(name, "general") {
        Some(Segment::General)
    } else {
        None
    }
}

/// The keyword of a memory access.
pub fn mem_op_keyword(op: MemOp) -> (s: &'static str)
    ensures
        s@ == mem_op_name(op),
{
    match op {
        MemOp::Push => "push",
        MemOp::Pop => "pop",
    }
}

/// The name of a segment.
pub fn segment_keyword(segment: Segment) -> (s: &'static str)
    ensures
        s@ == segment_name(segment),
{
    match segment {
        Segment::Local => "local",
        Segment::Argument => "argument",
        Segment::This => "this",
        Segment::That => "that",
        Segment::Constant => "constant",
        Segment::Static => "static",
        Segment::Pointer => "pointer",
        Segment::Temp => "temp",
        Segment::General => "general",
    }
}

/// Says why an access cannot be translated, if it cannot.
pub fn check_mem_access(op: MemOp, segment: Segment, index: usize) -> (r: Option<TranslateError>)
    ensures
        r == mem_access_error(op, segment, index as nat),
{
    match (op, segment) {
        (MemOp::Pop, Segment::Constant) => Some(TranslateError::PopConstant),
        (_, Segment::Pointer) => {
            if index > 1 {
                Some(TranslateError::PointerIndex)
            } else {
                None
            }
        },
        (_, Segment::Temp) => {
            if index > usize::MAX - TEMP_BASE {
                Some(TranslateError::BadNumber)
            } else {
                None
            }
        },
        _ => None,
    }
}

fn push_d_instrs(code: &mut Vec<Instr>)
    ensures
        code_view(final(code)@) == code_view(old(code)@) + push_d_code(),
{
    code.push(Instr::AtNum(SP));
    code.push(Instr::Assign(Dest::A, Comp::M));
    code.push(Instr::Assign(Dest::M, Comp::D));
    code.push(Instr::AtNum(SP));
    code.push(Instr::Assign(Dest::M, Comp::MPlusOne));
    assert(code_view(code@) =~= code_view(old(code)@) + push_d_code());
}

fn pop_d_instrs(code: &mut Vec<Instr>)
    ensures
        code_view(final(code)@) == code_view(old(code)@) + pop_d_code(),
{
    code.push(Instr::AtNum(SP));
    code.push(Instr::Assign(Dest::M, Comp::MMinusOne));
    code.push(Instr::AtNum(SP));
    code.push(Instr::Assign(Dest::A, Comp::M));
    code.push(Instr::Assign(Dest::D, Comp::M));
    assert(code_view(code@) =~= code_view(old(code)@) + pop_d_code());
}

fn base_cell_of(segment: Segment) -> (cell: usize)
    ensures
        cell == base_cell(segment),
{
    match segment {
        Segment::Local => LCL,
        Segment::Argument => ARG,
        Segment::This => THIS,
        _ => THAT,
    }
}

fn address_instrs(code: &mut Vec<Instr>, segment: Segment, index: usize)
    ensures
        code_view(final(code)@) == code_view(old(code)@) + address_code(segment, index as nat),
{
    code.push(Instr::AtNum(base_cell_of(segment)));
    code.push(Instr::Assign(Dest::D, Comp::M));
    code.push(Instr::AtNum(index));
    code.push(Instr::Assign(Dest::D, Comp::DPlusA));
    code.push(Instr::AtNum(ADDRESS));
    code.push(Instr::Assign(Dest::M, Comp::D));
    assert(code_view(code@) =~= code_view(old(code)@) + address_code(segment, index as nat));
}

/// Writes the symbol of a cell of the `static` segment.
pub fn static_symbol_string(unit: &str, index: usize) -> (s: String)
    ensures
        s@ == static_symbol(unit@, index as nat),
{
    proof {
        reveal_strlit(".");
    }
    let mut s = String::from_str(unit);
    s.append(".");
    let digits = decimal_string(index);
    s.append(digits.as_str());
    assert(s@ =~= static_symbol(unit@, index as nat));
    s
}

fn direct_cell_instr(segment: Segment, index: usize, unit: &str) -> (instr: Instr)
    requires
        segment is Temp ==> TEMP_BASE + index <= usize::MAX,
    ensures
        instr@ == direct_cell(segment, index as nat, unit@),
{
    match segment {
        Segment::Temp => Instr::AtNum(TEMP_BASE + index),
        Segment::Pointer => {
            if index == 0 {
                Instr::AtSym(String::from_str("THIS"))
            } else {
                Instr::AtSym(String::from_str("THAT"))
            }
        },
        Segment::Static => Instr::AtSym(static_symbol_string(unit, index)),
        _ => Instr::AtNum(index),
    }
}

/// Builds the instructions of a memory access.
pub fn build_mem_code(op: MemOp, segment: Segment, index: usize, unit: &str) -> (code: Vec<Instr>)
    requires
        mem_access_error(op, segment, index as nat) is None,
    ensures
        code_view(code@) == mem_code(op, segment, index as nat, unit@),
{
    let mut code: Vec<Instr> = Vec::new();
    assert(code_view(code@) =~= Seq::<InstrView>::empty());
    let based = match segment {
        Segment::Local | Segment::Argument | Segment::This | Segment::That => true,
        _ => false,
    };
    match op {
        MemOp::Push => {
            if based {
                address_instrs(&mut code, segment, index);
                let ghost before = code_view(code@);
                code.push(Instr::Assign(Dest::A, Comp::M));
                code.push(Instr::Assign(Dest::D, Comp::M));
                assert(code_view(code@) =~= before + seq![
                    InstrView::Assign(Dest::A, Comp::M),
                    InstrView::Assign(Dest::D, Comp::M),
                ]);
            } else {
                match segment {
                    Segment::Constant => {
                        code.push(Instr::AtNum(index));
                        code.push(Instr::Assign(Dest::D, Comp::A));
                        assert(code_view(code@) =~= seq![
                            InstrView::AtNum(index as nat),
                            InstrView::Assign(Dest::D, Comp::A),
                        ]);
                    },
                    _ => {
                        code.push(direct_cell_instr(segment, index, unit));
                        code.push(Instr::Assign(Dest::D, Comp::M));
                        assert(code_view(code@) =~= seq![
                            direct_cell(segment, index as nat, unit@),
                            InstrView::Assign(Dest::D, Comp::M),
                        ]);
                    },
                }
            }
            push_d_instrs(&mut code);
        },
        MemOp::Pop => {
            if based {
                address_instrs(&mut code, segment, index);
                pop_d_instrs(&mut code);
                let ghost before = code_view(code@);
                code.push(Instr::AtNum(ADDRESS));
                code.push(Instr::Assign(Dest::A, Comp::M));
                code.push(Instr::Assign(Dest::M, Comp::D));
                assert(code_view(code@) =~= before + seq![
                    InstrView::AtNum(ADDRESS as nat),
                    InstrView::Assign(Dest::A, Comp::M),
                    InstrView::Assign(Dest::M, Comp::D),
                ]);
            } else {
                pop_d_instrs(&mut code);
                let ghost before = code_view(code@);
                code.push(direct_cell_instr(segment, index, unit));
                code.push(Instr::Assign(Dest::M, Comp::D));
                assert(code_view(code@) =~= before + seq![
                    direct_cell(segment, index as nat, unit@),
                    InstrView::Assign(Dest::M, Comp::D),
                ]);
            }
        },
    }
    code
}

/// Writes the comment that names a memory access.
fn mem_comment_string(op: MemOp, segment: Segment, index: usize) -> (s: String)
    ensures
        s@ == mem_comment(op, segment, index as nat),
{
    proof {
        reveal_strlit("// ");
        reveal_strlit(" ");
    }
    let mut s = String::from_str("// ");
    s.append(mem_op_keyword(op));
    s.append(" ");
    s.append(segment_keyword(segment));
    s.append(" ");
    let digits = decimal_string(index);
    s.append(digits.as_str());
    assert(s@ =~= mem_comment(op, segment, index as nat));
    s
}

/// The line that separates annotated blocks.
pub fn blank_line_string() -> (s: String)
    ensures
        s@ == blank_line(),
{
    proof {
        reveal_strlit("\n");
    }
    let s = String::from_str("\n");
    assert(s@ =~= blank_line());
    s
}

/// Translates a memory access.
pub fn translate_mem_access(
    op: MemOp,
    segment: Segment,
    index: usize,
    unit: &str,
    is_debug_option: bool,
    padding: usize,
) -> (lines: Vec<String>)
    requires
        mem_access_error(op, segment, index as nat) is None,
    ensures
        lines_view(lines@) == mem_text(
            op,
            segment,
            index as nat,
            unit@,
            is_debug_option,
            padding as nat,
        ),
{
    let code = build_mem_code(op, segment, index, unit);
    let mut body = render_all(&code);
    if is_debug_option {
        let mut block: Vec<String> = Vec::new();
        block.push(blank_line_string());
        block.push(mem_comment_string(op, segment, index));
        let ghost head = lines_view(block@);
        assert(head =~= seq![blank_line(), mem_comment(op, segment, index as nat)]);
        let ghost body_view = lines_view(body@);
        block.append(&mut body);
        assert(lines_view(block@) =~= head + body_view);
        add_padding_to_lines(&block, padding)
    } else {
        body
    }
}

/// Generates assembly for a push or pop command given by its words.
///
/// `generate_mem_code_block("push", "constant", 10, ..)` translates
/// `push constant 10`.
pub fn generate_mem_code_block(
    mem_cmd: &str,
    mem_segment: &str,
    mem_index: usize,
    filename: &str,
    is_debug_option: bool,
    padding: usize,
) -> (r: Result<Vec<String>, TranslateError>)
    ensures
        outcome_view(r) == mem_block_outcome(
            mem_cmd@,
            mem_segment@,
            mem_index as nat,
            filename@,
            is_debug_option,
            padding as nat,
        ),
{
    let segment = match parse_segment(mem_segment) {
        Some(segment) => segment,
        None => {
            return Err(TranslateError::UnknownSegment);
        },
    };
    let op = match parse_mem_op(mem_cmd) {
        Some(op) => op,
        None => {
            return Err(TranslateError::UnknownKeyword);
        },
    };
    match check_mem_access(op, segment, mem_index) {
        Some(e) => Err(e),
        None => Ok(
            translate_mem_access(op, segment, mem_index, filename, is_debug_option, padding),
        ),
    }
}

} // verus!
