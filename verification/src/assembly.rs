//! The target instruction set: what an instruction is and how it is written.
//!
//! The target machine has an address register `A`, a data register `D` and a
//! word-addressed memory of which `M` names the word at address `A`.  An
//! instruction either loads `A` with a number or with the value of a symbol,
//! assigns the result of a computation to a register or to `M`, jumps to the
//! address in `A` depending on the result of a computation, or declares a
//! label.

use vstd::prelude::*;
use vstd::string::*;
use crate::text::{decimal, decimal_string};

verus! {

/// Where an assignment stores its result.
#[derive(Clone, Copy, Debug, PartialEq, Eq, Structural)]
pub enum Dest {
    A,
    D,
    M,
}

/// The computations that the translator uses.
#[derive(Clone, Copy, Debug, PartialEq, Eq, Structural)]
pub enum Comp {
    Zero,
    MinusOne,
    D,
    A,
    M,
    NegD,
    NotD,
    DPlusA,
    MPlusOne,
    MMinusOne,
    DPlusM,
    MMinusD,
    DMinusM,
    MAndD,
    MOrD,
}

/// The condition under which a jump instruction jumps.
#[derive(Clone, Copy, Debug, PartialEq, Eq, Structural)]
pub enum Jump {
    /// Jump if the result is greater than zero as a signed word.
    Jgt,
    /// Jump if the result is zero.
    Jeq,
    /// Jump if the result is not zero.
    Jne,
    /// Jump always.
    Jmp,
}

/// One line of target assembly.
#[derive(Debug)]
pub enum Instr {
    /// `@n`: load `A` with the number `n`.
    AtNum(usize),
    /// `@name`: load `A` with the value of the symbol `name`.
    AtSym(String),
    /// `dest = comp`.
    Assign(Dest, Comp),
    /// `comp;jump`.
    Branch(Comp, Jump),
    /// `(name)`: declare the label `name` at this position.
    Label(String),
}

/// The mathematical model of an [`Instr`].
pub enum InstrView {
    AtNum(nat),
    AtSym(Seq<char>),
    Assign(Dest, Comp),
    Branch(Comp, Jump),
    Label(Seq<char>),
}

impl View for Instr {
    type V = InstrView;

    open spec fn view(&self) -> InstrView {
        match self {
            Instr::AtNum(n) => InstrView::AtNum(*n as nat),
            Instr::AtSym(name) => InstrView::AtSym(name@),
            Instr::Assign(dest, comp) => InstrView::Assign(*dest, *comp),
            Instr::Branch(comp, jump) => InstrView::Branch(*comp, *jump),
            Instr::Label(name) => InstrView::Label(name@),
        }
    }
}

/// The model of a sequence of instructions.
pub open spec fn code_view(code: Seq<Instr>) -> Seq<InstrView> {
    code.map_values(|i: Instr| i@)
}

/// The views of the lines of a text.
pub open spec fn lines_view(lines: Seq<String>) -> Seq<Seq<char>> {
    lines.map_values(|s: String| s@)
}

/// How a destination is written.
pub open spec fn dest_text(dest: Dest) -> Seq<char> {
    match dest {
        Dest::A => seq!['A'],
        Dest::D => seq!['D'],
        Dest::M => seq!['M'],
    }
}

/// How a computation is written.
pub open spec fn comp_text(comp: Comp) -> Seq<char> {
    match comp {
        Comp::Zero => seq!['0'],
        Comp::MinusOne => seq!['-', '1'],
        Comp::D => seq!['D'],
        Comp::A => seq!['A'],
        Comp::M => seq!['M'],
        Comp::NegD => seq!['-', 'D'],
        Comp::NotD => seq!['!', 'D'],
        Comp::DPlusA => seq!['D', ' ', '+', ' ', 'A'],
        Comp::MPlusOne => seq!['M', ' ', '+', ' ', '1'],
        Comp::MMinusOne => seq!['M', ' ', '-', ' ', '1'],
        Comp::DPlusM => seq!['D', ' ', '+', ' ', 'M'],
        Comp::MMinusD => seq!['M', ' ', '-', ' ', 'D'],
        Comp::DMinusM => seq!['D', ' ', '-', ' ', 'M'],
        Comp::MAndD => seq!['M', ' ', '&', ' ', 'D'],
        Comp::MOrD => seq!['M', ' ', '|', ' ', 'D'],
    }
}

/// How a jump condition is written.
pub open spec fn jump_text(jump: Jump) -> Seq<char> {
    match jump {
        Jump::Jgt => seq!['J', 'G', 'T'],
        Jump::Jeq => seq!['J', 'E', 'Q'],
        Jump::Jne => seq!['J', 'N', 'E'],
        Jump::Jmp => seq!['J', 'M', 'P'],
    }
}

/// The line of assembly text that writes an instruction.
pub open spec fn render(instr: InstrView) -> Seq<char> {
    match instr {
        InstrView::AtNum(n) => seq!['@'] + decimal(n),
        InstrView::AtSym(name) => seq!['@'] + name,
        InstrView::Assign(dest, comp) => dest_text(dest) + seq![' ', '=', ' '] + comp_text(comp),
        InstrView::Branch(comp, jump) => comp_text(comp) + seq![';'] + jump_text(jump),
        InstrView::Label(name) => seq!['('] + name + seq![')'],
    }
}

/// The text of a sequence of instructions, one line each.
pub open spec fn render_code(code: Seq<InstrView>) -> Seq<Seq<char>> {
    code.map_values(|i: InstrView| render(i))
}

/// Rendering distributes over concatenation.
pub proof fn lemma_render_code_concat(a: Seq<InstrView>, b: Seq<InstrView>)
    ensures
        render_code(a + b) == render_code(a) + render_code(b),
{
    assert(render_code(a + b) =~= render_code(a) + render_code(b));
}

fn dest_str(dest: Dest) -> (s: &'static str)
    ensures
        s@ == dest_text(dest),
{
    proof {
        reveal_strlit("A");
        reveal_strlit("D");
        reveal_strlit("M");
    }
    let s = match dest {
        Dest::A => "A",
        Dest::D => "D",
        Dest::M => "M",
    };
    assert(s@ =~= dest_text(dest));
    s
}

fn comp_str(comp: Comp) -> (s: &'static str)
    ensures
        s@ == comp_text(comp),
{
    proof {
        reveal_strlit("0");
        reveal_strlit("-1");
        reveal_strlit("D");
        reveal_strlit("A");
        reveal_strlit("M");
        reveal_strlit("-D");
        reveal_strlit("!D");
        reveal_strlit("D + A");
        reveal_strlit("M + 1");
        reveal_strlit("M - 1");
        reveal_strlit("D + M");
        reveal_strlit("M - D");
        reveal_strlit("D - M");
        reveal_strlit("M & D");
        reveal_strlit("M | D");
    }
    let s = match comp {
        Comp::Zero => "0",
        Comp::MinusOne => "-1",
        Comp::D => "D",
        Comp::A => "A",
        Comp::M => "M",
        Comp::NegD => "-D",
        Comp::NotD => "!D",
        Comp::DPlusA => "D + A",
        Comp::MPlusOne => "M + 1",
        Comp::MMinusOne => "M - 1",
        Comp::DPlusM => "D + M",
        Comp::MMinusD => "M - D",
        Comp::DMinusM => "D - M",
        Comp::MAndD => "M & D",
        Comp::MOrD => "M | D",
    };
    assert(s@ =~= comp_text(comp));
    s
}

fn jump_str(jump: Jump) -> (s: &'static str)
    ensures
        s@ == jump_text(jump),
{
    proof {
        reveal_strlit("JGT");
        reveal_strlit("JEQ");
        reveal_strlit("JNE");
        reveal_strlit("JMP");
    }
    let s = match jump {
        Jump::Jgt => "JGT",
        Jump::Jeq => "JEQ",
        Jump::Jne => "JNE",
        Jump::Jmp => "JMP",
    };
    assert(s@ =~= jump_text(jump));
    s
}

/// Writes one instruction as a line of assembly text.
pub fn render_instr(instr: &Instr) -> (line: String)
    ensures
        line@ == render(instr@),
{
    proof {
        reveal_strlit("@");
        reveal_strlit(" = ");
        reveal_strlit(";");
        reveal_strlit("(");
        reveal_strlit(")");
    }
    match instr {
        Instr::AtNum(n) => {
            let mut line = String::from_str("@");
            let digits = decimal_string(*n);
            line.append(digits.as_str());
            assert(line@ =~= render(instr@));
            line
        },
        Instr::AtSym(name) => {
            let mut line = String::from_str("@");
            line.append(name.as_str());
            assert(line@ =~= render(instr@));
            line
        },
        Instr::Assign(dest, comp) => {
            let mut line = String::from_str(dest_str(*dest));
            line.append(" = ");
            line.append(comp_str(*comp));
            assert(line@ =~= render(instr@));
            line
        },
        Instr::Branch(comp, jump) => {
            let mut line = String::from_str(comp_str(*comp));
            line.append(";");
            line.append(jump_str(*jump));
            assert(line@ =~= render(instr@));
            line
        },
        Instr::Label(name) => {
            let mut line = String::from_str("(");
            line.append(name.as_str());
            line.append(")");
            assert(line@ =~= render(instr@));
            line
        },
    }
}

/// Writes a sequence of instructions as assembly text, one line each.
pub fn render_all(code: &Vec<Instr>) -> (lines: Vec<String>)
    ensures
        lines_view(lines@) == render_code(code_view(code@)),
{
    let mut lines: Vec<String> = Vec::new();
    let mut i: usize = 0;
    while i < code.len()
        invariant
            i <= code.len(),
            lines@.len() == i,
            forall|j: int| 0 <= j < i ==> (#[trigger] lines@[j])@ == render(code@[j]@),
        decreases code.len() - i,
    {
        let line = render_instr(&code[i]);
        lines.push(line);
        i = i + 1;
    }
    assert(lines_view(lines@) =~= render_code(code_view(code@)));
    lines
}

/// Appends the lines of `more` to `block`.
pub fn append_lines(block: &mut Vec<String>, more: Vec<String>)
    ensures
        lines_view(final(block)@) == lines_view(old(block)@) + lines_view(more@),
{
    let mut more = more;
    let ghost added = more@;
    block.append(&mut more);
    assert(lines_view(block@) =~= lines_view(old(block)@) + lines_view(added));
}

/// Appends the text of the instructions `code` to `block`.
pub fn append_code(block: &mut Vec<String>, code: &Vec<Instr>)
    ensures
        lines_view(final(block)@) == lines_view(old(block)@) + render_code(code_view(code@)),
{
    let lines = render_all(code);
    append_lines(block, lines);
}

/// Appends one line to `block`.
pub fn append_line(block: &mut Vec<String>, line: String)
    ensures
        lines_view(final(block)@) == lines_view(old(block)@) + seq![line@],
{
    block.push(line);
    assert(lines_view(block@) =~= lines_view(old(block)@) + seq![line@]);
}

} // verus!
