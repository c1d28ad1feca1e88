use vm_translator::code_generator::arithmetic_logic::{
    false_label_string, generate_a_l_code_block, parse_arith_op, true_label_string, ArithOp,
};
use vm_translator::code_generator::TranslateError;

const POP_13: [&str; 7] = ["@0", "M = M - 1", "@0", "A = M", "D = M", "@13", "M = D"];
const POP_14: [&str; 7] = ["@0", "M = M - 1", "@0", "A = M", "D = M", "@14", "M = D"];
const PUSH_14: [&str; 7] = ["@14", "D = M", "@0", "A = M", "M = D", "@0", "M = M + 1"];

fn block(parts: &[&[&str]]) -> Vec<String> {
    parts.iter().flat_map(|p| p.iter()).map(|s| s.to_string()).collect()
}

#[test]
fn add_pops_two_and_pushes_the_sum() {
    let mut counter = 0;
    let lines = generate_a_l_code_block("add", "Foo", &mut counter, false, 0).unwrap();
    assert_eq!(
        lines,
        block(&[&POP_13, &POP_14, &["@13", "D = M", "@14", "D = D + M", "M = D"], &PUSH_14])
    );
    assert_eq!(counter, 0);
}

#[test]
fn sub_takes_the_word_below_the_top_from_the_top() {
    let mut counter = 3;
    let lines = generate_a_l_code_block("sub", "Foo", &mut counter, false, 0).unwrap();
    assert_eq!(
        lines,
        block(&[&POP_13, &POP_14, &["@13", "D = M", "@14", "D = D - M", "M = D"], &PUSH_14])
    );
    assert_eq!(counter, 3);
}

#[test]
fn and_or_combine_bit_by_bit() {
    let mut counter = 0;
    let and = generate_a_l_code_block("and", "Foo", &mut counter, false, 0).unwrap();
    assert_eq!(and[17], "D = M & D");
    let or = generate_a_l_code_block("or", "Foo", &mut counter, false, 0).unwrap();
    assert_eq!(or[17], "D = M | D");
    assert_eq!(and.len(), 26);
    assert_eq!(or.len(), 26);
}

#[test]
fn neg_and_not_pop_one_operand_only() {
    let mut counter = 0;
    let neg = generate_a_l_code_block("neg", "Foo", &mut counter, false, 0).unwrap();
    assert_eq!(
        neg,
        block(&[&POP_13, &["@13", "D = M", "D = -D", "@14", "M = D"], &PUSH_14])
    );
    let not = generate_a_l_code_block("not", "Foo", &mut counter, false, 0).unwrap();
    assert_eq!(
        not,
        block(&[&POP_13, &["@13", "D = M", "D = !D", "@14", "M = D"], &PUSH_14])
    );
    assert_eq!(counter, 0);
}

#[test]
fn eq_takes_a_number_from_the_counter_for_its_labels() {
    let mut counter = 4;
    let lines = generate_a_l_code_block("eq", "Foo", &mut counter, false, 0).unwrap();
    assert_eq!(counter, 5);
    assert_eq!(
        lines,
        block(&[
            &POP_13,
            &POP_14,
            &[
                "@13",
                "D = M",
                "@14",
                "D = M - D",
                "@true_expression5",
                "D;JEQ",
                "@14",
                "M = 0",
                "@false_expression5",
                "0;JMP",
                "(true_expression5)",
                "@14",
                "M = -1",
                "(false_expression5)",
            ],
            &PUSH_14,
        ])
    );
}

#[test]
fn gt_and_lt_subtract_in_opposite_directions() {
    let mut counter = 0;
    let gt = generate_a_l_code_block("gt", "Foo", &mut counter, false, 0).unwrap();
    assert_eq!(&gt[14..20], &["@13", "D = M", "@14", "D = M - D", "@true_expression1", "D;JGT"]);
    let lt = generate_a_l_code_block("lt", "Foo", &mut counter, false, 0).unwrap();
    assert_eq!(&lt[14..20], &["@13", "D = M", "@14", "D = D - M", "@true_expression2", "D;JGT"]);
    assert_eq!(counter, 2);
    assert_eq!(lt[24], "(true_expression2)");
    assert_eq!(lt[27], "(false_expression2)");
}

#[test]
fn an_unknown_operation_is_refused_and_takes_no_number() {
    let mut counter = 9;
    let r = generate_a_l_code_block("mul", "Foo", &mut counter, false, 0);
    assert_eq!(r, Err(TranslateError::UnknownKeyword));
    assert_eq!(counter, 9);
}

#[test]
fn annotated_output_nests_the_memory_accesses() {
    let mut counter = 0;
    let lines = generate_a_l_code_block("neg", "Foo", &mut counter, true, 0).unwrap();
    assert_eq!(lines[0], "\n");
    assert_eq!(lines[1], "// neg");
    assert_eq!(lines[2], "    \n");
    assert_eq!(lines[3], "    // pop general 13");
    assert_eq!(lines[4], "    @0");
    assert_eq!(lines[11], "@13");
    assert_eq!(lines[16], "    \n");
    assert_eq!(lines[17], "    // push general 14");
    assert_eq!(lines.len(), 25);
    let padded = generate_a_l_code_block("neg", "Foo", &mut counter, true, 3).unwrap();
    assert_eq!(padded[1], "   // neg");
    assert_eq!(padded[4], "       @0");
    assert_eq!(padded[11], "   @13");
}

#[test]
fn labels_are_written_with_their_number() {
    assert_eq!(true_label_string(0), "true_expression0");
    assert_eq!(false_label_string(120), "false_expression120");
}

#[test]
fn operation_keywords_are_read() {
    assert_eq!(parse_arith_op("add"), Some(ArithOp::Add));
    assert_eq!(parse_arith_op("sub"), Some(ArithOp::Sub));
    assert_eq!(parse_arith_op("neg"), Some(ArithOp::Neg));
    assert_eq!(parse_arith_op("eq"), Some(ArithOp::Eq));
    assert_eq!(parse_arith_op("gt"), Some(ArithOp::Gt));
    assert_eq!(parse_arith_op("lt"), Some(ArithOp::Lt));
    assert_eq!(parse_arith_op("and"), Some(ArithOp::And));
    assert_eq!(parse_arith_op("or"), Some(ArithOp::Or));
    assert_eq!(parse_arith_op("not"), Some(ArithOp::Not));
    assert_eq!(parse_arith_op("xor"), None);
}
