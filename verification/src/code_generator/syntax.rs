//! The input language: how a line is split into words and read as an
//! instruction.
//!
//! A line is a sequence of words separated by white space.  A line without
//! words and a line whose first word begins with `//` hold no instruction.
//! Any other line holds one instruction, which its first word selects; words
//! after the operands of the instruction are ignored.

use vstd::prelude::*;
use vstd::string::*;
use crate::assembly::lines_view;
use crate::code_generator::arithmetic_logic::{arith_op_of_name, parse_arith_op, ArithOp};
use crate::code_generator::branching::{branch_kind_of_name, parse_branch_kind, BranchKind};
use crate::code_generator::function::FRAME_WORDS;
use crate::code_generator::memory::{
    check_mem_access, mem_access_error, mem_op_of_name, parse_mem_op, parse_segment,
    segment_of_name, MemOp, Segment,
};
use crate::code_generator::TranslateError;
use crate::text::{
    all_digits, chars_of, decimal_value, digit_of, is_digit, lemma_decimal_value_monotone,
};
use crate::utils::same_text;

verus! {

/// Whether `c` separates words: the characters that Unicode calls white
/// space.
pub open spec fn is_space(c: char) -> bool {
    ('\u{9}' <= c && c <= '\u{d}') || c == ' ' || c == '\u{85}' || c == '\u{a0}' || c
        == '\u{1680}' || ('\u{2000}' <= c && c <= '\u{200a}') || c == '\u{2028}' || c
        == '\u{2029}' || c == '\u{202f}' || c == '\u{205f}' || c == '\u{3000}'
}

/// The first position at or after `from` that holds no white space, or the
/// length of `s` if there is none.
pub open spec fn word_start(s: Seq<char>, from: int) -> int
    decreases s.len() - from,
{
    if from < 0 || from >= s.len() || !is_space(s[from]) {
        from
    } else {
        word_start(s, from + 1)
    }
}

/// The first position at or after `from` that holds white space, or the
/// length of `s` if there is none.
pub open spec fn word_end(s: Seq<char>, from: int) -> int
    decreases s.len() - from,
{
    if from < 0 || from >= s.len() || is_space(s[from]) {
        from
    } else {
        word_end(s, from + 1)
    }
}

/// A word start is at or after the place the search began, within the line,
/// and holds no white space.
pub proof fn lemma_word_start(s: Seq<char>, from: int)
    requires
        0 <= from <= s.len(),
    ensures
        from <= word_start(s, from) <= s.len(),
        word_start(s, from) < s.len() ==> !is_space(s[word_start(s, from)]),
        forall|i: int| from <= i < word_start(s, from) ==> is_space(#[trigger] s[i]),
    decreases s.len() - from,
{
    if from < s.len() && is_space(s[from]) {
        lemma_word_start(s, from + 1);
    }
}

/// A word that starts at a character other than white space is not empty,
/// ends within the line, holds no white space, and is followed by white space
/// or by the end of the line.
pub proof fn lemma_word_end(s: Seq<char>, from: int)
    requires
        0 <= from <= s.len(),
    ensures
        from <= word_end(s, from) <= s.len(),
        from < s.len() && !is_space(s[from]) ==> from < word_end(s, from),
        word_end(s, from) < s.len() ==> is_space(s[word_end(s, from)]),
        forall|i: int| from <= i < word_end(s, from) ==> !is_space(#[trigger] s[i]),
    decreases s.len() - from,
{
    if from < s.len() && !is_space(s[from]) {
        lemma_word_end(s, from + 1);
    }
}

/// The words of `s` from position `from` on.
pub open spec fn words_from(s: Seq<char>, from: int) -> Seq<Seq<char>>
    decreases s.len() - from,
{
    let start = word_start(s, from);
    if from < 0 || start >= s.len() {
        Seq::empty()
    } else {
        let end = word_end(s, start);
        proof {
            lemma_word_start(s, from);
            lemma_word_end(s, start);
        }
        seq![s.subrange(start, end)] + words_from(s, end)
    }
}

/// The words of a line.
pub open spec fn words(s: Seq<char>) -> Seq<Seq<char>> {
    words_from(s, 0)
}

/// Whether a word begins a comment.
pub open spec fn is_comment(word: Seq<char>) -> bool {
    word.len() >= 2 && word[0] == '/' && word[1] == '/'
}

/// A numeral without its sign, if it has one.
pub open spec fn unsigned_part(s: Seq<char>) -> Seq<char> {
    if s.len() > 0 && s[0] == '+' {
        s.subrange(1, s.len() as int)
    } else {
        s
    }
}

/// The number that a word writes: an optional `+`, then one or more decimal
/// digits, the whole no greater than the largest `usize`.
pub open spec fn number_of(s: Seq<char>) -> Option<nat> {
    let digits = unsigned_part(s);
    if digits.len() > 0 && all_digits(digits) && decimal_value(digits) <= usize::MAX {
        Some(decimal_value(digits))
    } else {
        None
    }
}

/// The instruction categories, told apart by the first word of a line.
#[derive(Clone, Copy, Debug, PartialEq, Eq, Structural)]
pub enum Keyword {
    /// `return`, `function` or `call`.
    Func,
    /// `pop` or `push`.
    Mem,
    /// One of the nine arithmetic and logical operations.
    Al,
    /// `label`, `if-goto` or `goto`.
    Branch,
}

/// The category that a word selects, if any.
pub open spec fn keyword_of(word: Seq<char>) -> Option<Keyword> {
    if arith_op_of_name(word) is Some {
        Some(Keyword::Al)
    } else if mem_op_of_name(word) is Some {
        Some(Keyword::Mem)
    } else if word == "return"@ || word == "function"@ || word == "call"@ {
        Some(Keyword::Func)
    } else if branch_kind_of_name(word) is Some {
        Some(Keyword::Branch)
    } else {
        None
    }
}

impl Keyword {
    /// The category that a word selects, if any.
    pub fn from(s: &str) -> (r: Option<Keyword>)
        ensures
            r == keyword_of(s@),
    {
        if parse_arith_op(s).is_some() {
            Some(Keyword::Al)
        } else if parse_mem_op(s).is_some() {
            Some(Keyword::Mem)
        } else if same_text(s, "return") || same_text(s, "function") || same_text(s, "call") {
            Some(Keyword::Func)
        } else if parse_branch_kind(s).is_some() {
            Some(Keyword::Branch)
        } else {
            None
        }
    }
}

/// One instruction of the virtual machine.
#[allow(inconsistent_fields)]
#[derive(Debug)]
pub enum Instruction {
    MemoryAccess { op: MemOp, segment: Segment, index: usize },
    ArithLogic { op: ArithOp },
    Branch { kind: BranchKind, name: String },
    FunctionDef { name: String, n_locals: usize },
    FunctionCall { name: String, n_args: usize },
    Return,
}

/// The mathematical model of an [`Instruction`].
#[allow(inconsistent_fields)]
pub enum InstructionView {
    MemoryAccess { op: MemOp, segment: Segment, index: nat },
    ArithLogic { op: ArithOp },
    Branch { kind: BranchKind, name: Seq<char> },
    FunctionDef { name: Seq<char>, n_locals: nat },
    FunctionCall { name: Seq<char>, n_args: nat },
    Return,
}

impl View for Instruction {
    type V = InstructionView;

    open spec fn view(&self) -> InstructionView {
        match self {
            Instruction::MemoryAccess { op, segment, index } => InstructionView::MemoryAccess {
                op: *op,
                segment: *segment,
                index: *index as nat,
            },
            Instruction::ArithLogic { op } => InstructionView::ArithLogic { op: *op },
            Instruction::Branch { kind, name } => InstructionView::Branch {
                kind: *kind,
                name: name@,
            },
            Instruction::FunctionDef { name, n_locals } => InstructionView::FunctionDef {
                name: name@,
                n_locals: *n_locals as nat,
            },
            Instruction::FunctionCall { name, n_args } => InstructionView::FunctionCall {
                name: name@,
                n_args: *n_args as nat,
            },
            Instruction::Return => InstructionView::Return,
        }
    }
}

/// Whether the translator can translate the instruction: the memory access
/// is allowed, and the numbers that the translation computes fit the machine
/// that translates.
pub open spec fn instruction_valid(instr: InstructionView) -> bool {
    match instr {
        InstructionView::MemoryAccess { op, segment, index } => mem_access_error(
            op,
            segment,
            index,
        ) is None,
        InstructionView::FunctionCall { name, n_args } => n_args + FRAME_WORDS + 1 <= usize::MAX,
        _ => true,
    }
}

/// Whether the instruction reaches into the translator's own `general`
/// segment.
pub open spec fn names_general(instr: InstructionView) -> bool {
    instr matches InstructionView::MemoryAccess { segment, .. } && segment is General
}

/// The segment that a program names by `name`, if any.  The `general`
/// segment is the translator's own and has no name in programs.
pub open spec fn program_segment(name: Seq<char>) -> Option<Segment> {
    match segment_of_name(name) {
        Some(Segment::General) => None,
        other => other,
    }
}

/// What a memory access line holds.  The index is read before the segment;
/// it is the whole third word, which must be a number.
pub open spec fn parse_memory_access(op: MemOp, words: Seq<Seq<char>>) -> Result<
    Option<InstructionView>,
    TranslateError,
> {
    if words.len() < 3 {
        Err(TranslateError::MissingOperand)
    } else {
        match number_of(words[2]) {
            None => Err(TranslateError::BadNumber),
            Some(index) => match program_segment(words[1]) {
                None => Err(TranslateError::UnknownSegment),
                Some(segment) => match mem_access_error(op, segment, index) {
                    Some(e) => Err(e),
                    None => Ok(Some(InstructionView::MemoryAccess { op, segment, index })),
                },
            },
        }
    }
}

/// What a line that begins with `function`, `call` or `return` holds.
pub open spec fn parse_function(words: Seq<Seq<char>>) -> Result<
    Option<InstructionView>,
    TranslateError,
> {
    if words[0] == "return"@ {
        Ok(Some(InstructionView::Return))
    } else if words.len() < 3 {
        Err(TranslateError::MissingOperand)
    } else {
        match number_of(words[2]) {
            None => Err(TranslateError::BadNumber),
            Some(n) => if words[0] == "function"@ {
                Ok(Some(InstructionView::FunctionDef { name: words[1], n_locals: n }))
            } else if n + FRAME_WORDS + 1 > usize::MAX {
                Err(TranslateError::BadNumber)
            } else {
                Ok(Some(InstructionView::FunctionCall { name: words[1], n_args: n }))
            },
        }
    }
}

/// What the words of a line hold: no instruction, an instruction, or an
/// error.
pub open spec fn parse_words(words: Seq<Seq<char>>) -> Result<
    Option<InstructionView>,
    TranslateError,
> {
    if words.len() == 0 || is_comment(words[0]) {
        Ok(None)
    } else {
        match keyword_of(words[0]) {
            None => Err(TranslateError::UnknownKeyword),
            Some(Keyword::Al) => Ok(
                Some(InstructionView::ArithLogic { op: arith_op_of_name(words[0])->0 }),
            ),
            Some(Keyword::Mem) => parse_memory_access(mem_op_of_name(words[0])->0, words),
            Some(Keyword::Func) => parse_function(words),
            Some(Keyword::Branch) => if words.len() < 2 {
                Err(TranslateError::MissingOperand)
            } else {
                Ok(
                    Some(
                        InstructionView::Branch {
                            kind: branch_kind_of_name(words[0])->0,
                            name: words[1],
                        },
                    ),
                )
            },
        }
    }
}

/// What a line holds.
pub open spec fn parse(line: Seq<char>) -> Result<Option<InstructionView>, TranslateError> {
    parse_words(words(line))
}

/// The model of the outcome of reading a line.
pub open spec fn parsed_view(r: Result<Option<Instruction>, TranslateError>) -> Result<
    Option<InstructionView>,
    TranslateError,
> {
    match r {
        Ok(Some(instr)) => Ok(Some(instr@)),
        Ok(None) => Ok(None),
        Err(e) => Err(e),
    }
}

/// Every instruction that a line is read as can be translated, and none
/// reaches into the `general` segment.
pub proof fn lemma_parsed_is_valid(line: Seq<char>)
    ensures
        parse(line) matches Ok(Some(instr)) ==> instruction_valid(instr) && !names_general(instr),
{
}

/// Whether `c` separates words.
pub fn is_space_char(c: char) -> (b: bool)
    ensures
        b == is_space(c),
{
    ('\u{9}' <= c && c <= '\u{d}') || c == ' ' || c == '\u{85}' || c == '\u{a0}' || c
        == '\u{1680}' || ('\u{2000}' <= c && c <= '\u{200a}') || c == '\u{2028}' || c
        == '\u{2029}' || c == '\u{202f}' || c == '\u{205f}' || c == '\u{3000}'
}

/// Splits a line into its words.
pub fn split_words(line: &str) -> (out: Vec<String>)
    ensures
        lines_view(out@) == words(line@),
{
    let chars = chars_of(line);
    let n: usize = chars.len();
    let mut out: Vec<String> = Vec::new();
    let mut i: usize = 0;
    assert(lines_view(out@) + words_from(line@, 0) =~= words(line@));
    while i < n
        invariant
            chars@ == line@,
            n == chars.len(),
            i <= n,
            words(line@) == lines_view(out@) + words_from(line@, i as int),
        decreases n - i,
    {
        let mut start: usize = i;
        while start < n && is_space_char(chars[start])
            invariant
                chars@ == line@,
                n == chars.len(),
                i <= start <= n,
                word_start(line@, i as int) == word_start(line@, start as int),
            decreases n - start,
        {
            start = start + 1;
        }
        if start < n {
            let mut end: usize = start + 1;
            while end < n && !is_space_char(chars[end])
                invariant
                    chars@ == line@,
                    n == chars.len(),
                    start < end <= n,
                    !is_space(line@[start as int]),
                    word_end(line@, start as int) == word_end(line@, end as int),
                decreases n - end,
            {
                end = end + 1;
            }
            let word = line.substring_char(start, end);
            let ghost before = lines_view(out@);
            out.push(String::from_str(word));
            assert(lines_view(out@) =~= before + seq![line@.subrange(start as int, end as int)]);
            assert(words_from(line@, i as int) =~= seq![
                line@.subrange(start as int, end as int),
            ] + words_from(line@, end as int));
            i = end;
        } else {
            assert(words_from(line@, i as int) =~= Seq::<Seq<char>>::empty());
            assert(words_from(line@, n as int) =~= Seq::<Seq<char>>::empty());
            i = n;
        }
    }
    assert(words_from(line@, n as int) =~= Seq::<Seq<char>>::empty());
    assert(lines_view(out@) =~= words(line@));
    out
}

/// Reads the characters of a word as a number.
pub fn read_number(word: &Vec<char>) -> (r: Option<usize>)
    ensures
        r matches Some(n) ==> number_of(word@) == Some(n as nat),
        r is None ==> number_of(word@) is None,
{
    let len: usize = word.len();
    let start: usize = if len > 0 && word[0] == '+' {
        1
    } else {
        0
    };
    let ghost digits = unsigned_part(word@);
    assert(digits =~= word@.subrange(start as int, len as int));
    if start == len {
        return None;
    }
    let mut acc: usize = 0;
    let mut i: usize = start;
    assert(digits.take(0) =~= Seq::<char>::empty());
    while i < len
        invariant
            start <= i <= len,
            len == word.len(),
            digits == word@.subrange(start as int, len as int),
            digits == unsigned_part(word@),
            acc == decimal_value(digits.take(i - start)),
            forall|j: int| 0 <= j < i - start ==> is_digit(#[trigger] digits[j]),
        decreases len - i,
    {
        let d: usize = match digit_of(word[i]) {
            Some(d) => d,
            None => {
                assert(!is_digit(digits[i - start]));
                assert(!all_digits(digits));
                return None;
            },
        };
        assert(digits.take(i - start + 1).drop_last() =~= digits.take(i - start));
        assert(digits.take(i - start + 1).last() == word@[i as int]);
        assert(decimal_value(digits.take(i - start + 1)) == acc * 10 + d);
        if acc > (usize::MAX - d) / 10 {
            proof {
                if all_digits(digits) {
                    lemma_decimal_value_monotone(digits, i - start + 1);
                }
            }
            return None;
        }
        acc = acc * 10 + d;
        i = i + 1;
    }
    assert(digits.take(len - start) =~= digits);
    Some(acc)
}

/// Reads a word as a number.
pub fn parse_number(word: &str) -> (r: Option<usize>)
    ensures
        r matches Some(n) ==> number_of(word@) == Some(n as nat),
        r is None ==> number_of(word@) is None,
{
    let chars = chars_of(word);
    read_number(&chars)
}

/// Whether a word begins a comment.
pub fn is_comment_word(word: &str) -> (b: bool)
    ensures
        b == is_comment(word@),
{
    let chars = chars_of(word);
    chars.len() >= 2 && chars[0] == '/' && chars[1] == '/'
}

fn parse_memory_access_words(op: MemOp, words: &Vec<String>) -> (r: Result<
    Option<Instruction>,
    TranslateError,
>)
    ensures
        parsed_view(r) == parse_memory_access(op, lines_view(words@)),
{
    if words.len() < 3 {
        return Err(TranslateError::MissingOperand);
    }
    let index = match parse_number(words[2].as_str()) {
        Some(index) => index,
        None => {
            return Err(TranslateError::BadNumber);
        },
    };
    let segment = match parse_segment(words[1].as_str()) {
        None | Some(Segment::General) => {
            return Err(TranslateError::UnknownSegment);
        },
        Some(segment) => segment,
    };
    match check_mem_access(op, segment, index) {
        Some(e) => Err(e),
        None => Ok(Some(Instruction::MemoryAccess { op, segment, index })),
    }
}

fn parse_function_words(words: &Vec<String>) -> (r: Result<Option<Instruction>, TranslateError>)
    requires
        words.len() >= 1,
    ensures
        parsed_view(r) == parse_function(lines_view(words@)),
{
    if same_text(words[0].as_str(), "return") {
        return Ok(Some(Instruction::Return));
    }
    if words.len() < 3 {
        return Err(TranslateError::MissingOperand);
    }
    let n = match parse_number(words[2].as_str()) {
        Some(n) => n,
        None => {
            return Err(TranslateError::BadNumber);
        },
    };
    if same_text(words[0].as_str(), "function") {
        Ok(Some(Instruction::FunctionDef { name: words[1].clone(), n_locals: n }))
    } else if n > usize::MAX - FRAME_WORDS - 1 {
        Err(TranslateError::BadNumber)
    } else {
        Ok(Some(Instruction::FunctionCall { name: words[1].clone(), n_args: n }))
    }
}

/// Reads the words of a line as an instruction.
pub fn parse_instruction(words: &Vec<String>) -> (r: Result<Option<Instruction>, TranslateError>)
    ensures
        parsed_view(r) == parse_words(lines_view(words@)),
{
    if words.len() == 0 || is_comment_word(words[0].as_str()) {
        return Ok(None);
    }
    let first = words[0].as_str();
    match Keyword::from(first) {
        None => Err(TranslateError::UnknownKeyword),
        Some(Keyword::Al) => match parse_arith_op(first) {
            Some(op) => Ok(Some(Instruction::ArithLogic { op })),
            None => Err(TranslateError::UnknownKeyword),
        },
        Some(Keyword::Mem) => match parse_mem_op(first) {
            Some(op) => parse_memory_access_words(op, words),
            None => Err(TranslateError::UnknownKeyword),
        },
        Some(Keyword::Func) => parse_function_words(words),
        Some(Keyword::Branch) => match parse_branch_kind(first) {
            Some(kind) => {
                if words.len() < 2 {
                    Err(TranslateError::MissingOperand)
                } else {
                    Ok(Some(Instruction::Branch { kind, name: words[1].clone() }))
                }
            },
            None => Err(TranslateError::UnknownKeyword),
        },
    }
}

/// Reads a line: no instruction, an instruction, or an error.
pub fn parse_line(line: &str) -> (r: Result<Option<Instruction>, TranslateError>)
    ensures
        parsed_view(r) == parse(line@),
{
    let words = split_words(line);
    parse_instruction(&words)
}

} // verus!
