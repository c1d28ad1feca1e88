use vm_translator::code_generator::function::{
    generate_function_call, generate_function_def, generate_function_return,
};
use vm_translator::code_generator::memory::generate_mem_code_block;
use vm_translator::code_generator::order::{text_no_later, unit_order};
use vm_translator::code_generator::syntax::parse_line;
use vm_translator::code_generator::{
    generate_bootstrapping, translate_instruction, translate_line, translate_unit, CodeGenerator,
    Diagnostic, ProgramError, SourceUnit, TranslateError,
};
use vm_translator::PathType;

fn lines(text: &[&str]) -> Vec<String> {
    text.iter().map(|s| s.to_string()).collect()
}

fn unit(name: &str, text: &[&str]) -> SourceUnit {
    SourceUnit { name: name.to_string(), lines: lines(text) }
}

#[test]
fn a_new_generator_counts_from_zero() {
    let generator = CodeGenerator::new("dir/Prog", &PathType::Dir, true);
    assert_eq!(generator.jump_counter(), 0);
    assert!(generator.is_debug_option());
    assert_eq!(generator.output_path(), "dir/Prog/Prog.debug.asm");
}

#[test]
fn the_bootstrap_sets_five_cells_and_calls_the_entry() {
    let mut counter = 0;
    let boot = generate_bootstrapping(&mut counter, false);
    assert_eq!(counter, 1);
    assert_eq!(
        boot[..20],
        lines(&[
            "@256", "D = A", "@0", "M = D", "@1647", "D = A", "@1", "M = D", "@1747", "D = A",
            "@2", "M = D", "@1847", "D = A", "@3", "M = D", "@1947", "D = A", "@4", "M = D",
        ])
    );
    let mut again = 0;
    assert_eq!(boot[20..], generate_function_call("Sys.init", 0, "Sys", &mut again, false));
    assert_eq!(boot.last().unwrap(), "(Sys.init_ret_1)");
}

#[test]
fn a_program_has_one_bootstrap_and_its_units_in_order() {
    let mut generator = CodeGenerator::new("Prog", &PathType::Dir, false);
    let units = vec![
        unit("A", &["push static 0", ""]),
        unit("B", &["// nothing", "push static 0"]),
    ];
    let program = generator.generate_code(&units).unwrap();
    let mut counter = 0;
    let mut expected = generate_bootstrapping(&mut counter, false);
    expected.extend(generate_mem_code_block("push", "static", 0, "A", false, 0).unwrap());
    expected.extend(generate_mem_code_block("push", "static", 0, "B", false, 0).unwrap());
    assert_eq!(program, expected);
    assert_eq!(program.iter().filter(|l| *l == "@256").count(), 1);
    assert!(program.contains(&"@A.0".to_string()));
    assert!(program.contains(&"@B.0".to_string()));
    assert_eq!(generator.jump_counter(), 1);
}

#[test]
fn a_program_without_units_is_the_bootstrap() {
    let mut generator = CodeGenerator::new("Prog", &PathType::Dir, false);
    let program = generator.generate_code(&Vec::new()).unwrap();
    let mut counter = 0;
    assert_eq!(program, generate_bootstrapping(&mut counter, false));
}

#[test]
fn generated_labels_of_a_program_are_all_different() {
    let mut generator = CodeGenerator::new("Prog", &PathType::Dir, false);
    let units = vec![
        unit("A", &["eq", "call f 0", "gt", "call f 0", "return", "lt"]),
        unit("B", &["eq", "call f 0", "call g_ret_1 0", "call f_ret_ 1", "eq"]),
    ];
    let program = generator.generate_code(&units).unwrap();
    let mut labels: Vec<&String> = program.iter().filter(|l| l.starts_with('(')).collect();
    assert_eq!(labels.len(), 1 + 2 + 1 + 2 + 1 + 2 + 2 + 1 + 1 + 1 + 2);
    labels.sort();
    labels.dedup();
    assert_eq!(labels.len(), 16);
    assert_eq!(generator.jump_counter(), 12);
}

#[test]
fn the_first_refused_line_is_reported() {
    let mut generator = CodeGenerator::new("Prog", &PathType::Dir, false);
    let units = vec![
        unit("A", &["add", "push constant 1"]),
        unit("B", &["sub", "", "pop constant 0", "bogus"]),
    ];
    let r = generator.generate_code(&units);
    assert_eq!(
        r,
        Err(ProgramError::Unit { unit: 1, line: 2, error: TranslateError::PopConstant })
    );
}

#[test]
fn a_unit_is_translated_line_by_line() {
    let mut generator = CodeGenerator::new("Foo.vm", &PathType::File, false);
    let text = lines(&["push constant 2", "// twice", "", "push constant 2", "eq"]);
    let block = generator.generate_code_from_file("Foo", &text).unwrap();
    let mut counter = 0;
    let mut expected: Vec<String> = Vec::new();
    for line in &text {
        expected.extend(translate_line(line, "Foo", &mut counter, false).unwrap());
    }
    assert_eq!(block, expected);
    assert_eq!(generator.jump_counter(), 1);
    assert_eq!(counter, 1);
    assert!(block.contains(&"(true_expression1)".to_string()));
    assert_eq!(generator.output_path(), "Foo.asm");
}

#[test]
fn a_refused_unit_gives_no_lines() {
    let mut counter = 0;
    let text = lines(&["push constant 2", "push pointer 2", "add"]);
    let r = translate_unit(&text, "Foo", &mut counter, false);
    assert_eq!(r, Err(Diagnostic { line: 1, error: TranslateError::PointerIndex }));
}

#[test]
fn every_kind_of_error_is_reported_with_its_line() {
    let report = |text: &[&str]| {
        let mut counter = 0;
        translate_unit(&lines(text), "Foo", &mut counter, false).unwrap_err()
    };
    assert_eq!(
        report(&["bogus"]),
        Diagnostic { line: 0, error: TranslateError::UnknownKeyword }
    );
    assert_eq!(
        report(&["add", "push local"]),
        Diagnostic { line: 1, error: TranslateError::MissingOperand }
    );
    assert_eq!(
        report(&["", "", "push heap 1"]),
        Diagnostic { line: 2, error: TranslateError::UnknownSegment }
    );
    assert_eq!(
        report(&["pop constant 0"]),
        Diagnostic { line: 0, error: TranslateError::PopConstant }
    );
    assert_eq!(
        report(&["push pointer 2"]),
        Diagnostic { line: 0, error: TranslateError::PointerIndex }
    );
    assert_eq!(
        report(&["push constant seven"]),
        Diagnostic { line: 0, error: TranslateError::BadNumber }
    );
}

#[test]
fn an_exhausted_counter_refuses_what_needs_a_label() {
    let mut counter = usize::MAX;
    assert_eq!(
        translate_line("eq", "Foo", &mut counter, false),
        Err(TranslateError::LabelsExhausted)
    );
    assert_eq!(
        translate_line("call f 0", "Foo", &mut counter, false),
        Err(TranslateError::LabelsExhausted)
    );
    assert_eq!(
        translate_line("return", "Foo", &mut counter, false),
        Err(TranslateError::LabelsExhausted)
    );
    assert!(translate_line("add", "Foo", &mut counter, false).is_ok());
    assert!(translate_line("push constant 1", "Foo", &mut counter, false).is_ok());
    assert_eq!(counter, usize::MAX);
}

#[test]
fn instructions_are_translated_by_their_translators() {
    let mut counter = 0;
    let translate = |line: &str, counter: &mut usize| {
        let instr = parse_line(line).unwrap().unwrap();
        translate_instruction(&instr, "Foo", counter, false)
    };
    assert_eq!(
        translate("function Foo.f 1", &mut counter),
        generate_function_def("Foo.f", 1, "Foo", false)
    );
    let mut other = 0;
    assert_eq!(
        translate("call Foo.f 2", &mut counter),
        generate_function_call("Foo.f", 2, "Foo", &mut other, false)
    );
    assert_eq!(
        translate("return", &mut counter),
        generate_function_return("Foo", &mut other, false)
    );
    assert_eq!(counter, 2);
    assert_eq!(translate("label X", &mut counter), lines(&["(X)"]));
    assert_eq!(translate("goto X", &mut counter), lines(&["@X", "0;JMP"]));
}

#[test]
fn annotated_function_instructions_begin_with_a_comment() {
    let mut counter = 0;
    let translate = |line: &str, counter: &mut usize| {
        let instr = parse_line(line).unwrap().unwrap();
        translate_instruction(&instr, "Foo", counter, true)
    };
    assert_eq!(translate("function Foo.f 0", &mut counter)[0], "\n// function Foo.f 0");
    assert_eq!(translate("call Foo.f 2", &mut counter)[0], "\n// call Foo.f 2");
    assert_eq!(translate("return", &mut counter)[0], "\n// return");
    assert_eq!(translate("add", &mut counter)[..2], lines(&["\n", "// add"]));
}

fn without_annotations(lines: &[String]) -> Vec<String> {
    lines
        .iter()
        .map(|line| line.trim_start_matches(' '))
        .filter(|line| !line.is_empty() && !line.starts_with('\n') && !line.starts_with("//"))
        .map(|line| line.to_string())
        .collect()
}

#[test]
fn annotated_output_without_its_annotations_is_plain_output() {
    let units = vec![
        unit(
            "Sys",
            &["function Sys.init 2", "push constant 1", "neg", "call Main.f 1", "pop temp 0"],
        ),
        unit(
            "Main",
            &[
                "function Main.f 0",
                "push argument 0",
                "push static 1",
                "lt",
                "if-goto Main.end",
                "label Main.end",
                "push constant 3",
                "return",
            ],
        ),
    ];
    let mut plain = CodeGenerator::new("Prog", &PathType::Dir, false);
    let mut annotated = CodeGenerator::new("Prog", &PathType::Dir, true);
    let plain_lines = plain.generate_code(&units).unwrap();
    let annotated_lines = annotated.generate_code(&units).unwrap();
    assert!(annotated_lines.len() > plain_lines.len());
    assert!(annotated_lines.contains(&"\n// call Main.f 1".to_string()));
    assert!(annotated_lines.contains(&"    // push general 14".to_string()));
    assert_eq!(without_annotations(&annotated_lines), plain_lines);
    assert_eq!(without_annotations(&plain_lines), plain_lines);
    assert_eq!(plain.jump_counter(), annotated.jump_counter());
}

#[test]
fn an_exhausted_counter_refuses_the_bootstrap() {
    let mut generator = CodeGenerator::with_counter("Prog", &PathType::Dir, false, usize::MAX);
    let r = generator.generate_code(&vec![unit("Sys", &["add"])]);
    assert_eq!(r, Err(ProgramError::Bootstrap { error: TranslateError::LabelsExhausted }));
    assert_eq!(generator.jump_counter(), usize::MAX);
}

#[test]
fn a_generator_continues_the_numbering_it_is_given() {
    let mut generator = CodeGenerator::with_counter("Prog", &PathType::Dir, false, 40);
    let block = generator.generate_code_from_file("Foo", &lines(&["eq", "call f 0"])).unwrap();
    assert!(block.contains(&"(true_expression41)".to_string()));
    assert!(block.contains(&"(false_expression41)".to_string()));
    assert!(block.contains(&"(f_ret_42)".to_string()));
    assert_eq!(generator.jump_counter(), 42);
}

#[test]
fn a_unit_that_exhausts_the_counter_is_refused_at_that_line() {
    let mut generator = CodeGenerator::with_counter("Prog", &PathType::Dir, false, usize::MAX - 1);
    let r = generator.generate_code_from_file("Foo", &lines(&["add", "eq", "push constant 1", "gt"]));
    assert_eq!(r, Err(Diagnostic { line: 3, error: TranslateError::LabelsExhausted }));
    assert_eq!(generator.jump_counter(), usize::MAX);
}

#[test]
fn an_index_with_a_letter_after_it_refuses_the_unit() {
    let mut generator = CodeGenerator::new("Foo.vm", &PathType::File, false);
    let r = generator.generate_code_from_file("Foo", &lines(&["push constant 7x"]));
    assert_eq!(r, Err(Diagnostic { line: 0, error: TranslateError::BadNumber }));
}

fn names(text: &[&str]) -> Vec<String> {
    lines(text)
}

#[test]
fn units_are_ordered_by_name() {
    assert_eq!(unit_order(&names(&["Sys", "Main", "Array"])), vec![2, 1, 0]);
    assert_eq!(unit_order(&names(&["a", "b", "c"])), vec![0, 1, 2]);
    assert_eq!(unit_order(&names(&["b", "a", "b", "a"])), vec![1, 3, 0, 2]);
    assert_eq!(unit_order(&names(&["ab", "a", "", "B", "aa"])), vec![2, 3, 1, 4, 0]);
    assert_eq!(unit_order(&names(&[])), Vec::<usize>::new());
    assert_eq!(unit_order(&names(&["x"])), vec![0]);
}

#[test]
fn the_order_of_units_is_that_of_sorted_strings() {
    let given = names(&["Sys", "Main", "Memory", "Math", "Output", "Array", "main", "Z", ""]);
    let mut expected = given.clone();
    expected.sort();
    let ordered: Vec<String> = unit_order(&given).iter().map(|i| given[*i].clone()).collect();
    assert_eq!(ordered, expected);
}

#[test]
fn texts_are_compared_as_in_a_dictionary() {
    let chars = |s: &str| s.chars().collect::<Vec<char>>();
    assert!(text_no_later(&chars(""), &chars("")));
    assert!(text_no_later(&chars(""), &chars("a")));
    assert!(!text_no_later(&chars("a"), &chars("")));
    assert!(text_no_later(&chars("Main"), &chars("Sys")));
    assert!(!text_no_later(&chars("Sys"), &chars("Main")));
    assert!(text_no_later(&chars("ab"), &chars("abc")));
    assert!(!text_no_later(&chars("abd"), &chars("abc")));
    assert!(text_no_later(&chars("abc"), &chars("abc")));
}

#[test]
fn a_program_is_translated_alike_however_its_units_are_given() {
    let a = || unit("Array", &["function Array.new 0", "push static 0", "eq", "return"]);
    let m = || unit("Main", &["function Main.main 1", "call Array.new 0", "gt", "return"]);
    let s = || unit("Sys", &["function Sys.init 0", "call Main.main 0", "lt"]);
    let translate = |units: Vec<SourceUnit>| {
        CodeGenerator::new("Prog", &PathType::Dir, false).generate_code(&units).unwrap()
    };
    let first = translate(vec![a(), m(), s()]);
    assert_eq!(translate(vec![s(), m(), a()]), first);
    assert_eq!(translate(vec![m(), s(), a()]), first);
    assert_eq!(translate(vec![s(), a(), m()]), first);
    let array = first.iter().position(|l| l == "(Array.new)").unwrap();
    let main = first.iter().position(|l| l == "(Main.main)").unwrap();
    let sys = first.iter().position(|l| l == "(Sys.init)").unwrap();
    assert!(array < main && main < sys);
}

#[test]
fn a_refusal_names_the_unit_by_its_place_among_the_units_given() {
    let mut generator = CodeGenerator::new("Prog", &PathType::Dir, false);
    let units = vec![
        unit("Sys", &["add", "bogus"]),
        unit("Main", &["add"]),
        unit("Array", &["push constant 1", "push constant", "worse"]),
    ];
    let r = generator.generate_code(&units);
    assert_eq!(
        r,
        Err(ProgramError::Unit { unit: 2, line: 1, error: TranslateError::MissingOperand })
    );
}

#[test]
fn every_label_of_a_program_is_declared_once() {
    let mut generator = CodeGenerator::new("Prog", &PathType::Dir, false);
    let units = vec![
        unit(
            "Main",
            &[
                "function Main.main 0",
                "label Main.loop",
                "push constant 1",
                "push constant 2",
                "lt",
                "if-goto Main.loop",
                "call Sys.wait 0",
                "call Sys.wait 0",
                "eq",
                "label Main.end",
                "return",
            ],
        ),
        unit("Sys", &["function Sys.init 0", "call Main.main 0", "function Sys.wait 0", "return"]),
    ];
    let program = generator.generate_code(&units).unwrap();
    let mut labels: Vec<&String> = program.iter().filter(|l| l.starts_with('(')).collect();
    let declared = labels.len();
    assert_eq!(declared, 1 + 3 + 2 + 2 + 2 + 2 + 1);
    labels.sort();
    labels.dedup();
    assert_eq!(labels.len(), declared);
}
