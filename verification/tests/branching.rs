use vm_translator::code_generator::branching::{
    generate_branching_block, parse_branch_kind, BranchKind,
};
use vm_translator::code_generator::TranslateError;

fn lines(text: &[&str]) -> Vec<String> {
    text.iter().map(|s| s.to_string()).collect()
}

#[test]
fn label_declares_the_name_as_given() {
    let block = generate_branching_block("label", "LOOP", "Foo", false, 0).unwrap();
    assert_eq!(block, lines(&["(LOOP)"]));
}

#[test]
fn goto_jumps_always() {
    let block = generate_branching_block("goto", "END", "Foo", false, 0).unwrap();
    assert_eq!(block, lines(&["@END", "0;JMP"]));
}

#[test]
fn if_goto_pops_and_jumps_on_a_word_other_than_zero() {
    let block = generate_branching_block("if-goto", "LOOP", "Foo", false, 0).unwrap();
    assert_eq!(
        block,
        lines(&[
            "@0", "M = M - 1", "@0", "A = M", "D = M", "@13", "M = D", "@13", "D = M", "@LOOP",
            "D;JNE",
        ])
    );
}

#[test]
fn an_unknown_branching_keyword_is_refused() {
    let r = generate_branching_block("jump", "LOOP", "Foo", false, 0);
    assert_eq!(r, Err(TranslateError::UnknownKeyword));
}

#[test]
fn annotated_branching_has_a_comment() {
    let block = generate_branching_block("goto", "END", "Foo", true, 1).unwrap();
    assert_eq!(block, lines(&[" \n", " // goto END", " @END", " 0;JMP"]));
}

#[test]
fn branching_keywords_are_read() {
    assert_eq!(parse_branch_kind("label"), Some(BranchKind::Label));
    assert_eq!(parse_branch_kind("goto"), Some(BranchKind::Goto));
    assert_eq!(parse_branch_kind("if-goto"), Some(BranchKind::IfGoto));
    assert_eq!(parse_branch_kind("ifgoto"), None);
}
