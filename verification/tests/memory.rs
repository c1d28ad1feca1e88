use vm_translator::code_generator::memory::{
    generate_mem_code_block, parse_segment, static_symbol_string, translate_mem_access, MemOp,
    Segment,
};
use vm_translator::code_generator::TranslateError;

fn lines(text: &[&str]) -> Vec<String> {
    text.iter().map(|s| s.to_string()).collect()
}

#[test]
fn push_constant_loads_the_value_and_pushes_it() {
    let block = generate_mem_code_block("push", "constant", 7, "Foo", false, 0).unwrap();
    assert_eq!(
        block,
        lines(&["@7", "D = A", "@0", "A = M", "M = D", "@0", "M = M + 1"])
    );
}

#[test]
fn pop_constant_is_refused() {
    let r = generate_mem_code_block("pop", "constant", 0, "Foo", false, 0);
    assert_eq!(r, Err(TranslateError::PopConstant));
}

#[test]
fn push_pointer_2_is_refused() {
    let r = generate_mem_code_block("push", "pointer", 2, "Foo", false, 0);
    assert_eq!(r, Err(TranslateError::PointerIndex));
}

#[test]
fn pop_pointer_2_is_refused() {
    let r = generate_mem_code_block("pop", "pointer", 2, "Foo", false, 0);
    assert_eq!(r, Err(TranslateError::PointerIndex));
}

#[test]
fn an_unknown_segment_is_refused_before_the_command_is_looked_at() {
    let r = generate_mem_code_block("peek", "heap", 0, "Foo", false, 0);
    assert_eq!(r, Err(TranslateError::UnknownSegment));
}

#[test]
fn an_unknown_command_is_refused() {
    let r = generate_mem_code_block("peek", "local", 0, "Foo", false, 0);
    assert_eq!(r, Err(TranslateError::UnknownKeyword));
}

#[test]
fn a_temp_index_beyond_the_machine_is_refused() {
    let r = generate_mem_code_block("push", "temp", usize::MAX - 4, "Foo", false, 0);
    assert_eq!(r, Err(TranslateError::BadNumber));
    assert!(generate_mem_code_block("push", "temp", usize::MAX - 5, "Foo", false, 0).is_ok());
}

#[test]
fn push_local_goes_through_the_address_cell() {
    let block = generate_mem_code_block("push", "local", 3, "Foo", false, 0).unwrap();
    assert_eq!(
        block,
        lines(&[
            "@1", "D = M", "@3", "D = D + A", "@15", "M = D", "A = M", "D = M", "@0", "A = M",
            "M = D", "@0", "M = M + 1",
        ])
    );
}

#[test]
fn pop_that_goes_through_the_address_cell() {
    let block = generate_mem_code_block("pop", "that", 2, "Foo", false, 0).unwrap();
    assert_eq!(
        block,
        lines(&[
            "@4", "D = M", "@2", "D = D + A", "@15", "M = D", "@0", "M = M - 1", "@0", "A = M",
            "D = M", "@15", "A = M", "M = D",
        ])
    );
}

#[test]
fn the_base_cells_are_1_to_4() {
    let first = |segment: &str| {
        generate_mem_code_block("push", segment, 0, "Foo", false, 0).unwrap()[0].clone()
    };
    assert_eq!(first("local"), "@1");
    assert_eq!(first("argument"), "@2");
    assert_eq!(first("this"), "@3");
    assert_eq!(first("that"), "@4");
}

#[test]
fn temp_is_a_window_from_cell_5() {
    let push = generate_mem_code_block("push", "temp", 2, "Foo", false, 0).unwrap();
    assert_eq!(
        push,
        lines(&["@7", "D = M", "@0", "A = M", "M = D", "@0", "M = M + 1"])
    );
    let pop = generate_mem_code_block("pop", "temp", 7, "Foo", false, 0).unwrap();
    assert_eq!(
        pop,
        lines(&["@0", "M = M - 1", "@0", "A = M", "D = M", "@12", "M = D"])
    );
}

#[test]
fn pointer_selects_this_and_that() {
    let push = generate_mem_code_block("push", "pointer", 0, "Foo", false, 0).unwrap();
    assert_eq!(push[0], "@THIS");
    let pop = generate_mem_code_block("pop", "pointer", 1, "Foo", false, 0).unwrap();
    assert_eq!(
        pop,
        lines(&["@0", "M = M - 1", "@0", "A = M", "D = M", "@THAT", "M = D"])
    );
}

#[test]
fn static_cells_are_named_by_unit_and_index() {
    let push = generate_mem_code_block("push", "static", 3, "Foo", false, 0).unwrap();
    assert_eq!(push[0], "@Foo.3");
    let pop = generate_mem_code_block("pop", "static", 12, "Bar", false, 0).unwrap();
    assert_eq!(pop[5], "@Bar.12");
    assert_eq!(static_symbol_string("Main", 0), "Main.0");
}

#[test]
fn static_0_of_two_units_has_two_symbols() {
    let a = generate_mem_code_block("push", "static", 0, "First", false, 0).unwrap();
    let b = generate_mem_code_block("push", "static", 0, "Second", false, 0).unwrap();
    assert_eq!(a[0], "@First.0");
    assert_eq!(b[0], "@Second.0");
    assert_ne!(a[0], b[0]);
    assert_eq!(a[1..], b[1..]);
}

#[test]
fn general_is_the_cell_of_that_address() {
    let push = generate_mem_code_block("push", "general", 255, "Foo", false, 0).unwrap();
    assert_eq!(
        push,
        lines(&["@255", "D = M", "@0", "A = M", "M = D", "@0", "M = M + 1"])
    );
    let pop = generate_mem_code_block("pop", "general", 13, "Foo", false, 0).unwrap();
    assert_eq!(
        pop,
        lines(&["@0", "M = M - 1", "@0", "A = M", "D = M", "@13", "M = D"])
    );
}

#[test]
fn annotated_output_has_a_separator_and_a_comment() {
    let block = generate_mem_code_block("push", "constant", 10, "Foo", true, 0).unwrap();
    assert_eq!(
        block,
        lines(&[
            "\n",
            "// push constant 10",
            "@10",
            "D = A",
            "@0",
            "A = M",
            "M = D",
            "@0",
            "M = M + 1",
        ])
    );
}

#[test]
fn annotated_output_is_indented_by_the_padding() {
    let block = generate_mem_code_block("pop", "temp", 0, "Foo", true, 2).unwrap();
    assert_eq!(
        block,
        lines(&[
            "  \n",
            "  // pop temp 0",
            "  @0",
            "  M = M - 1",
            "  @0",
            "  A = M",
            "  D = M",
            "  @5",
            "  M = D",
        ])
    );
}

#[test]
fn plain_output_ignores_the_padding() {
    let a = generate_mem_code_block("pop", "temp", 0, "Foo", false, 4).unwrap();
    let b = generate_mem_code_block("pop", "temp", 0, "Foo", false, 0).unwrap();
    assert_eq!(a, b);
}

#[test]
fn the_typed_translator_gives_the_same_lines() {
    let typed = translate_mem_access(MemOp::Push, Segment::Static, 4, "Foo", false, 0);
    let named = generate_mem_code_block("push", "static", 4, "Foo", false, 0).unwrap();
    assert_eq!(typed, named);
}

#[test]
fn segment_names_are_read() {
    assert_eq!(parse_segment("local"), Some(Segment::Local));
    assert_eq!(parse_segment("argument"), Some(Segment::Argument));
    assert_eq!(parse_segment("this"), Some(Segment::This));
    assert_eq!(parse_segment("that"), Some(Segment::That));
    assert_eq!(parse_segment("constant"), Some(Segment::Constant));
    assert_eq!(parse_segment("static"), Some(Segment::Static));
    assert_eq!(parse_segment("pointer"), Some(Segment::Pointer));
    assert_eq!(parse_segment("temp"), Some(Segment::Temp));
    assert_eq!(parse_segment("general"), Some(Segment::General));
    assert_eq!(parse_segment("Local"), None);
    assert_eq!(parse_segment(""), None);
}
