use vm_translator::assembly::{render_all, render_instr, Comp, Dest, Instr, Jump};
use vm_translator::text::{chars_of, decimal_string, digit_of};
use vm_translator::utils::{
    add_padding, add_padding_to_lines, batch_string, contains_name, create_output_path,
    directory_name_string, same_text, trim_vm_suffixes,
};
use vm_translator::PathType;

#[test]
fn padding_puts_spaces_before_the_text() {
    assert_eq!(add_padding(&String::from("hello"), 2), "  hello");
    assert_eq!(add_padding(&String::from("hello"), 0), "hello");
    assert_eq!(add_padding(&String::new(), 3), "   ");
}

#[test]
fn padding_lines_pads_each_line() {
    let lines = vec!["a".to_string(), "".to_string(), "b c".to_string()];
    assert_eq!(add_padding_to_lines(&lines, 1), vec![" a", " ", " b c"]);
    assert_eq!(add_padding_to_lines(&lines, 0), lines);
}

#[test]
fn the_output_of_a_file_has_asm_for_vm() {
    assert_eq!(create_output_path("dir/Foo.vm", &PathType::File, false), "dir/Foo.asm");
    assert_eq!(create_output_path("dir/Foo.vm", &PathType::File, true), "dir/Foo.debug.asm");
    assert_eq!(create_output_path("Foo.vm.vm", &PathType::File, false), "Foo.asm");
    assert_eq!(create_output_path("Foo", &PathType::File, false), "Foo.asm");
    assert_eq!(create_output_path("Foo.vmx", &PathType::File, false), "Foo.vmx.asm");
}

#[test]
fn the_output_of_a_directory_lies_in_it_and_has_its_name() {
    assert_eq!(
        create_output_path("a/test_directory", &PathType::Dir, true),
        "a/test_directory/test_directory.debug.asm"
    );
    assert_eq!(create_output_path("a/b", &PathType::Dir, false), "a/b/b.asm");
    assert_eq!(create_output_path("a/b/", &PathType::Dir, false), "a/b/b.asm");
    assert_eq!(create_output_path("b", &PathType::Dir, false), "b/b.asm");
    assert_eq!(create_output_path("/x/y//", &PathType::Dir, false), "/x/y//y.asm");
    assert_eq!(create_output_path("", &PathType::Dir, false), ".asm");
}

#[test]
fn a_dot_that_follows_a_component_is_no_component() {
    assert_eq!(create_output_path("a/b/.", &PathType::Dir, false), "a/b/./b.asm");
    assert_eq!(create_output_path("a/./", &PathType::Dir, false), "a/./a.asm");
    assert_eq!(create_output_path("a/b/././/", &PathType::Dir, true), "a/b/././/b.debug.asm");
    assert_eq!(create_output_path("a/./b", &PathType::Dir, false), "a/./b/b.asm");
    assert_eq!(create_output_path(".", &PathType::Dir, false), "./..asm");
    assert_eq!(create_output_path("./.", &PathType::Dir, false), "././..asm");
    assert_eq!(create_output_path("./a", &PathType::Dir, false), "./a/a.asm");
    assert_eq!(create_output_path("a/..", &PathType::Dir, false), "a/../...asm");
    assert_eq!(create_output_path("a/.b", &PathType::Dir, false), "a/.b/.b.asm");
}

#[test]
fn the_output_of_the_root_directory_begins_at_the_root() {
    assert_eq!(create_output_path("/", &PathType::Dir, false), "/.asm");
    assert_eq!(create_output_path("//", &PathType::Dir, false), "/.asm");
    assert_eq!(create_output_path("/.", &PathType::Dir, true), "/.debug.asm");
}

#[test]
fn the_library_names_directories_as_std_does() {
    for path in [
        "a/b", "a/b/", "a/b/.", "a/./", "a/./b", ".", "./.", "./a", "a/..", "/", "//", "/.",
        "/x/y//", "a//b", "..", "a/.b", "a/b./", "./", "x",
    ] {
        let std_path = std::path::Path::new(path);
        let last = std_path.iter().last().unwrap().to_str().unwrap();
        assert_eq!(directory_name_string(path), last, "the name of {:?}", path);
        let mut expected = std_path.to_path_buf();
        expected.push(format!("{}.asm", last));
        assert_eq!(
            create_output_path(path, &PathType::Dir, false),
            expected.to_str().unwrap(),
            "the output of {:?}",
            path
        );
    }
}

#[test]
fn vm_suffixes_are_trimmed() {
    assert_eq!(trim_vm_suffixes("Main.vm"), "Main");
    assert_eq!(trim_vm_suffixes("Main"), "Main");
    assert_eq!(trim_vm_suffixes("a.vm.vm"), "a");
    assert_eq!(trim_vm_suffixes(".vm"), "");
    assert_eq!(trim_vm_suffixes("vm"), "vm");
}

#[test]
fn the_name_of_a_directory_is_its_last_component() {
    assert_eq!(directory_name_string("a/b/c"), "c");
    assert_eq!(directory_name_string("a/b/c///"), "c");
    assert_eq!(directory_name_string("c"), "c");
    assert_eq!(directory_name_string("/"), "/");
    assert_eq!(directory_name_string("a/b/."), "b");
    assert_eq!(directory_name_string("./."), ".");
    assert_eq!(directory_name_string(""), "");
}

#[test]
fn a_batch_ends_each_line_and_adds_one_break() {
    let lines = vec!["@1".to_string(), "D = M".to_string()];
    assert_eq!(batch_string(&lines), "@1\nD = M\n\n");
    assert_eq!(batch_string(&Vec::new()), "\n");
    assert_eq!(batch_string(&vec!["\n".to_string()]), "\n\n\n");
}

#[test]
fn names_are_found_among_names() {
    let names = vec!["Main".to_string(), "Sys".to_string()];
    assert!(contains_name(&names, "Sys"));
    assert!(contains_name(&names, "Main"));
    assert!(!contains_name(&names, "sys"));
    assert!(!contains_name(&Vec::new(), "Sys"));
}

#[test]
fn texts_are_compared_by_content() {
    assert!(same_text("push", "push"));
    assert!(!same_text("push", "pop"));
    assert!(same_text("", ""));
}

#[test]
fn numbers_are_written_in_decimal() {
    assert_eq!(decimal_string(0), "0");
    assert_eq!(decimal_string(7), "7");
    assert_eq!(decimal_string(10), "10");
    assert_eq!(decimal_string(65535), "65535");
    assert_eq!(decimal_string(usize::MAX), usize::MAX.to_string());
}

#[test]
fn digits_are_told_from_other_characters() {
    assert_eq!(digit_of('0'), Some(0));
    assert_eq!(digit_of('9'), Some(9));
    assert_eq!(digit_of('a'), None);
    assert_eq!(digit_of('\u{0663}'), None);
    assert_eq!(chars_of("a\u{e9}b"), vec!['a', '\u{e9}', 'b']);
}

#[test]
fn instructions_are_written_as_assembly() {
    assert_eq!(render_instr(&Instr::AtNum(15)), "@15");
    assert_eq!(render_instr(&Instr::AtSym("Foo.3".to_string())), "@Foo.3");
    assert_eq!(render_instr(&Instr::Label("LOOP".to_string())), "(LOOP)");
    assert_eq!(render_instr(&Instr::Assign(Dest::A, Comp::MMinusOne)), "A = M - 1");
    assert_eq!(render_instr(&Instr::Assign(Dest::M, Comp::MinusOne)), "M = -1");
    assert_eq!(render_instr(&Instr::Assign(Dest::D, Comp::NotD)), "D = !D");
    assert_eq!(render_instr(&Instr::Assign(Dest::D, Comp::NegD)), "D = -D");
    assert_eq!(render_instr(&Instr::Assign(Dest::D, Comp::DPlusA)), "D = D + A");
    assert_eq!(render_instr(&Instr::Assign(Dest::D, Comp::DPlusM)), "D = D + M");
    assert_eq!(render_instr(&Instr::Assign(Dest::D, Comp::DMinusM)), "D = D - M");
    assert_eq!(render_instr(&Instr::Assign(Dest::D, Comp::MMinusD)), "D = M - D");
    assert_eq!(render_instr(&Instr::Assign(Dest::D, Comp::MAndD)), "D = M & D");
    assert_eq!(render_instr(&Instr::Assign(Dest::D, Comp::MOrD)), "D = M | D");
    assert_eq!(render_instr(&Instr::Assign(Dest::M, Comp::MPlusOne)), "M = M + 1");
    assert_eq!(render_instr(&Instr::Assign(Dest::M, Comp::Zero)), "M = 0");
    assert_eq!(render_instr(&Instr::Assign(Dest::D, Comp::A)), "D = A");
    assert_eq!(render_instr(&Instr::Assign(Dest::A, Comp::M)), "A = M");
    assert_eq!(render_instr(&Instr::Assign(Dest::M, Comp::D)), "M = D");
    assert_eq!(render_instr(&Instr::Branch(Comp::D, Jump::Jgt)), "D;JGT");
    assert_eq!(render_instr(&Instr::Branch(Comp::D, Jump::Jeq)), "D;JEQ");
    assert_eq!(render_instr(&Instr::Branch(Comp::D, Jump::Jne)), "D;JNE");
    assert_eq!(render_instr(&Instr::Branch(Comp::Zero, Jump::Jmp)), "0;JMP");
    let code = vec![Instr::AtNum(0), Instr::Assign(Dest::A, Comp::M)];
    assert_eq!(render_all(&code), vec!["@0", "A = M"]);
}
