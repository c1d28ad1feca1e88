use vm_translator::code_generator::arithmetic_logic::ArithOp;
use vm_translator::code_generator::branching::BranchKind;
use vm_translator::code_generator::memory::{MemOp, Segment};
use vm_translator::code_generator::syntax::{
    parse_line, parse_number, split_words, Instruction, Keyword,
};
use vm_translator::code_generator::TranslateError;

fn parsed(line: &str) -> Instruction {
    parse_line(line).unwrap().unwrap()
}

fn refused(line: &str) -> TranslateError {
    parse_line(line).unwrap_err()
}

#[test]
fn words_are_separated_by_white_space() {
    assert_eq!(split_words("push constant 7"), vec!["push", "constant", "7"]);
    assert_eq!(split_words("  push\tconstant   7 \r"), vec!["push", "constant", "7"]);
    assert_eq!(split_words(""), Vec::<String>::new());
    assert_eq!(split_words(" \t\r\n"), Vec::<String>::new());
    assert_eq!(split_words("a"), vec!["a"]);
    assert_eq!(split_words("\u{a0}x\u{2003}y\u{3000}"), vec!["x", "y"]);
}

#[test]
fn blank_lines_and_comments_hold_no_instruction() {
    assert!(parse_line("").unwrap().is_none());
    assert!(parse_line("   \r").unwrap().is_none());
    assert!(parse_line("// push constant 7").unwrap().is_none());
    assert!(parse_line("//").unwrap().is_none());
    assert!(parse_line("   //indented").unwrap().is_none());
}

#[test]
fn a_single_slash_is_no_comment() {
    assert_eq!(refused("/ add"), TranslateError::UnknownKeyword);
}

#[test]
fn memory_accesses_are_read() {
    match parsed("push constant 7") {
        Instruction::MemoryAccess { op, segment, index } => {
            assert_eq!((op, segment, index), (MemOp::Push, Segment::Constant, 7));
        }
        other => panic!("{:?}", other),
    }
    match parsed("pop local 12\r") {
        Instruction::MemoryAccess { op, segment, index } => {
            assert_eq!((op, segment, index), (MemOp::Pop, Segment::Local, 12));
        }
        other => panic!("{:?}", other),
    }
}

#[test]
fn what_follows_the_operands_is_ignored() {
    match parsed("push static 3 // the counter") {
        Instruction::MemoryAccess { op, segment, index } => {
            assert_eq!((op, segment, index), (MemOp::Push, Segment::Static, 3));
        }
        other => panic!("{:?}", other),
    }
    assert!(matches!(parsed("add // sum"), Instruction::ArithLogic { op: ArithOp::Add }));
}

#[test]
fn operations_are_read() {
    assert!(matches!(parsed("add"), Instruction::ArithLogic { op: ArithOp::Add }));
    assert!(matches!(parsed("not"), Instruction::ArithLogic { op: ArithOp::Not }));
    assert!(matches!(parsed("lt"), Instruction::ArithLogic { op: ArithOp::Lt }));
}

#[test]
fn branching_instructions_are_read() {
    match parsed("if-goto LOOP") {
        Instruction::Branch { kind, name } => {
            assert_eq!(kind, BranchKind::IfGoto);
            assert_eq!(name, "LOOP");
        }
        other => panic!("{:?}", other),
    }
    match parsed("label END") {
        Instruction::Branch { kind, name } => {
            assert_eq!(kind, BranchKind::Label);
            assert_eq!(name, "END");
        }
        other => panic!("{:?}", other),
    }
}

#[test]
fn function_instructions_are_read() {
    match parsed("function Main.f 2") {
        Instruction::FunctionDef { name, n_locals } => {
            assert_eq!(name, "Main.f");
            assert_eq!(n_locals, 2);
        }
        other => panic!("{:?}", other),
    }
    match parsed("call Main.f 0") {
        Instruction::FunctionCall { name, n_args } => {
            assert_eq!(name, "Main.f");
            assert_eq!(n_args, 0);
        }
        other => panic!("{:?}", other),
    }
    assert!(matches!(parsed("return"), Instruction::Return));
}

#[test]
fn an_unknown_keyword_is_refused() {
    assert_eq!(refused("mul"), TranslateError::UnknownKeyword);
    assert_eq!(refused("PUSH constant 1"), TranslateError::UnknownKeyword);
}

#[test]
fn a_missing_operand_is_refused() {
    assert_eq!(refused("push"), TranslateError::MissingOperand);
    assert_eq!(refused("push constant"), TranslateError::MissingOperand);
    assert_eq!(refused("goto"), TranslateError::MissingOperand);
    assert_eq!(refused("function f"), TranslateError::MissingOperand);
    assert_eq!(refused("call"), TranslateError::MissingOperand);
}

#[test]
fn a_bad_number_is_refused() {
    assert_eq!(refused("push constant x"), TranslateError::BadNumber);
    assert_eq!(refused("push constant -1"), TranslateError::BadNumber);
    assert_eq!(refused("call f 2x"), TranslateError::BadNumber);
    assert_eq!(refused("function f two"), TranslateError::BadNumber);
    assert_eq!(
        refused("push constant 99999999999999999999999999"),
        TranslateError::BadNumber
    );
    assert_eq!(refused(&format!("call f {}", usize::MAX - 5)), TranslateError::BadNumber);
    assert!(parse_line(&format!("call f {}", usize::MAX - 6)).is_ok());
}

#[test]
fn the_index_is_read_before_the_segment() {
    assert_eq!(refused("push nowhere x"), TranslateError::BadNumber);
    assert_eq!(refused("push nowhere 1"), TranslateError::UnknownSegment);
}

#[test]
fn the_general_segment_has_no_name_in_programs() {
    assert_eq!(refused("push general 5"), TranslateError::UnknownSegment);
    assert_eq!(refused("pop general 5"), TranslateError::UnknownSegment);
}

#[test]
fn disallowed_accesses_are_refused() {
    assert_eq!(refused("pop constant 0"), TranslateError::PopConstant);
    assert_eq!(refused("push pointer 2"), TranslateError::PointerIndex);
    assert_eq!(refused("pop pointer 7"), TranslateError::PointerIndex);
}

#[test]
fn numbers_are_read_as_decimal() {
    assert_eq!(parse_number("0"), Some(0));
    assert_eq!(parse_number("007"), Some(7));
    assert_eq!(parse_number("+15"), Some(15));
    assert_eq!(parse_number("65535"), Some(65535));
    assert_eq!(parse_number(&usize::MAX.to_string()), Some(usize::MAX));
    assert_eq!(parse_number(""), None);
    assert_eq!(parse_number("+"), None);
    assert_eq!(parse_number("-3"), None);
    assert_eq!(parse_number("1 "), None);
    assert_eq!(parse_number("12a"), None);
    assert_eq!(parse_number("++1"), None);
    assert_eq!(parse_number(&format!("{}0", usize::MAX)), None);
}

#[test]
fn an_index_with_anything_after_its_digits_is_refused() {
    assert_eq!(refused("push constant 7x"), TranslateError::BadNumber);
    assert_eq!(refused("push temp 3//x"), TranslateError::BadNumber);
    assert_eq!(refused("pop local 12;"), TranslateError::BadNumber);
    assert_eq!(refused("push constant 1x2"), TranslateError::BadNumber);
    assert!(parse_line("push constant 7 x").is_ok());
    assert!(parse_line("push constant +7").is_ok());
}

#[test]
fn keywords_select_the_category() {
    assert_eq!(Keyword::from("add"), Some(Keyword::Al));
    assert_eq!(Keyword::from("push"), Some(Keyword::Mem));
    assert_eq!(Keyword::from("pop"), Some(Keyword::Mem));
    assert_eq!(Keyword::from("return"), Some(Keyword::Func));
    assert_eq!(Keyword::from("function"), Some(Keyword::Func));
    assert_eq!(Keyword::from("call"), Some(Keyword::Func));
    assert_eq!(Keyword::from("label"), Some(Keyword::Branch));
    assert_eq!(Keyword::from("if-goto"), Some(Keyword::Branch));
    assert_eq!(Keyword::from("goto"), Some(Keyword::Branch));
    assert_eq!(Keyword::from("gosub"), None);
}
