use vm_translator::code_generator::arithmetic_logic::generate_a_l_code_block;
use vm_translator::code_generator::function::{
    generate_function_call, generate_function_def, generate_function_return, return_label_string,
};
use vm_translator::code_generator::memory::generate_mem_code_block;

fn mem(cmd: &str, segment: &str, index: usize) -> Vec<String> {
    generate_mem_code_block(cmd, segment, index, "Foo", false, 4).unwrap()
}

fn arith(cmd: &str) -> Vec<String> {
    let mut counter = 0;
    generate_a_l_code_block(cmd, "Foo", &mut counter, false, 4).unwrap()
}

fn lines(text: &[&str]) -> Vec<String> {
    text.iter().map(|s| s.to_string()).collect()
}

#[test]
fn a_function_begins_with_its_label_and_its_locals() {
    let block = generate_function_def("Main.f", 2, "Foo", false);
    let mut expected = lines(&["(Main.f)"]);
    expected.extend(mem("push", "constant", 0));
    expected.extend(mem("push", "constant", 0));
    assert_eq!(block, expected);
}

#[test]
fn a_function_without_locals_is_its_label() {
    assert_eq!(generate_function_def("Main.g", 0, "Foo", false), lines(&["(Main.g)"]));
}

#[test]
fn a_call_saves_the_frame_and_sets_the_base_cells() {
    let mut counter = 2;
    let block = generate_function_call("Main.f", 3, "Foo", &mut counter, false);
    assert_eq!(counter, 3);
    let mut expected = lines(&[
        "@Main.f_ret_3",
        "D = A",
        "@0",
        "A = M",
        "M = D",
        "@0",
        "M = M + 1",
    ]);
    expected.extend(mem("push", "general", 1));
    expected.extend(mem("push", "general", 2));
    expected.extend(mem("push", "general", 3));
    expected.extend(mem("push", "general", 4));
    // The stack pointer is read with the constant on the stack: one more
    // than the three arguments and the five words of the frame is taken.
    expected.extend(mem("push", "constant", 9));
    expected.extend(mem("push", "general", 0));
    expected.extend(arith("sub"));
    expected.extend(mem("pop", "general", 2));
    expected.extend(mem("push", "general", 0));
    expected.extend(mem("pop", "general", 1));
    expected.extend(lines(&["@Main.f", "0;JMP", "(Main.f_ret_3)"]));
    assert_eq!(block, expected);
}

#[test]
fn two_calls_of_one_function_have_two_return_sites() {
    let mut counter = 0;
    let first = generate_function_call("Main.f", 0, "Foo", &mut counter, false);
    let second = generate_function_call("Main.f", 0, "Foo", &mut counter, false);
    assert_eq!(first.last().unwrap(), "(Main.f_ret_1)");
    assert_eq!(second.last().unwrap(), "(Main.f_ret_2)");
    assert_eq!(counter, 2);
}

#[test]
fn a_return_unwinds_the_frame_last_saved_first() {
    let mut counter = 0;
    let block = generate_function_return("Foo", &mut counter, false);
    assert_eq!(counter, 1);
    let mut expected: Vec<String> = Vec::new();
    expected.extend(mem("push", "constant", 5));
    expected.extend(mem("push", "general", 1));
    expected.extend(arith("sub"));
    expected.extend(mem("pop", "general", 254));
    expected.extend(lines(&["@254", "A = M", "D = M", "@254", "M = D"]));
    expected.extend(mem("push", "general", 1));
    expected.extend(mem("pop", "general", 253));
    expected.extend(mem("pop", "argument", 0));
    expected.extend(mem("push", "constant", 1));
    expected.extend(mem("push", "general", 2));
    expected.extend(arith("add"));
    expected.extend(mem("pop", "general", 255));
    for n in 1..=4 {
        expected.extend(mem("push", "constant", n));
        expected.extend(mem("push", "general", 253));
        expected.extend(arith("sub"));
        expected.extend(lines(&[
            "@0",
            "A = M - 1",
            "A = M",
            "D = M",
            "@0",
            "A = M - 1",
            "M = D",
        ]));
        expected.extend(mem("pop", "general", 5 - n));
    }
    expected.extend(mem("push", "general", 255));
    expected.extend(mem("pop", "general", 0));
    expected.extend(lines(&["@254", "A = M", "0;JMP"]));
    assert_eq!(block, expected);
}

#[test]
fn the_cells_of_a_return_lie_outside_the_temp_window() {
    let mut counter = 0;
    let block = generate_function_return("Foo", &mut counter, false);
    // `@5` loads the number of words of a frame, not the address of a cell.
    for cell in 6..13 {
        assert!(!block.contains(&format!("@{}", cell)));
    }
    for cell in [253, 254, 255] {
        assert!(block.contains(&format!("@{}", cell)));
    }
}

#[test]
fn annotated_return_comments_each_restored_cell() {
    let mut counter = 0;
    let block = generate_function_return("Foo", &mut counter, true);
    for n in 1..=4 {
        let comment = format!("// restoring *(addr - {})", n);
        let at = block.iter().position(|l| *l == comment).unwrap();
        assert_eq!(block[at - 1], "\n");
    }
    assert_eq!(block.last().unwrap(), "0;JMP");
}

#[test]
fn return_labels_are_written_with_function_and_number() {
    assert_eq!(return_label_string("Sys.init", 1), "Sys.init_ret_1");
    assert_eq!(return_label_string("f", 4096), "f_ret_4096");
}
