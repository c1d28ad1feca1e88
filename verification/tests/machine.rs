// Runs the assembly that the translator emits on a small simulator of the
// target machine and checks what the programs compute.

use std::collections::HashMap;

use vm_translator::code_generator::arithmetic_logic::generate_a_l_code_block;
use vm_translator::code_generator::branching::generate_branching_block;
use vm_translator::code_generator::function::{
    generate_function_call, generate_function_def, generate_function_return,
};
use vm_translator::code_generator::memory::generate_mem_code_block;
use vm_translator::code_generator::{generate_bootstrapping, CodeGenerator, SourceUnit};
use vm_translator::PathType;

struct Simulator {
    rom: Vec<String>,
    symbols: HashMap<String, u16>,
    ram: Vec<u16>,
    a: u16,
    d: u16,
    pc: usize,
}

fn squeeze(line: &str) -> String {
    line.chars().filter(|c| !c.is_whitespace()).collect()
}

fn load(lines: &[String]) -> Simulator {
    let mut symbols: HashMap<String, u16> = HashMap::new();
    for (name, value) in [("SP", 0u16), ("LCL", 1), ("ARG", 2), ("THIS", 3), ("THAT", 4)] {
        symbols.insert(name.to_string(), value);
    }
    let mut rom: Vec<String> = Vec::new();
    for line in lines {
        let text = squeeze(line);
        if text.is_empty() || text.starts_with("//") {
            continue;
        }
        if text.starts_with('(') {
            let name = text[1..text.len() - 1].to_string();
            let before = symbols.insert(name.clone(), rom.len() as u16);
            assert!(before.is_none(), "label {} declared twice", name);
        } else {
            rom.push(text);
        }
    }
    let mut next_variable: u16 = 16;
    for text in &rom {
        if let Some(name) = text.strip_prefix('@') {
            if name.parse::<u32>().is_err() && !symbols.contains_key(name) {
                symbols.insert(name.to_string(), next_variable);
                next_variable += 1;
            }
        }
    }
    Simulator { rom, symbols, ram: vec![0; 65536], a: 0, d: 0, pc: 0 }
}

impl Simulator {
    fn operand(&self, name: &str) -> u16 {
        match name {
            "0" => 0,
            "1" => 1,
            "A" => self.a,
            "D" => self.d,
            "M" => self.ram[self.a as usize],
            other => panic!("operand {}", other),
        }
    }

    fn compute(&self, comp: &str) -> u16 {
        if comp == "-1" {
            return 0xffff;
        }
        if let Some(rest) = comp.strip_prefix('-') {
            return self.operand(rest).wrapping_neg();
        }
        if let Some(rest) = comp.strip_prefix('!') {
            return !self.operand(rest);
        }
        for (position, c) in comp.char_indices().skip(1) {
            let left = self.operand(&comp[..position]);
            let right = || self.operand(&comp[position + 1..]);
            match c {
                '+' => return left.wrapping_add(right()),
                '-' => return left.wrapping_sub(right()),
                '&' => return left & right(),
                '|' => return left | right(),
                _ => {}
            }
        }
        self.operand(comp)
    }

    fn step(&mut self) {
        let text = self.rom[self.pc].clone();
        self.pc += 1;
        if let Some(name) = text.strip_prefix('@') {
            self.a = match name.parse::<u32>() {
                Ok(n) => n as u16,
                Err(_) => self.symbols[name],
            };
            return;
        }
        let (dest, rest) = match text.split_once('=') {
            Some((dest, rest)) => (dest, rest),
            None => ("", text.as_str()),
        };
        let (comp, jump) = match rest.split_once(';') {
            Some((comp, jump)) => (comp, jump),
            None => (rest, ""),
        };
        let value = self.compute(comp);
        let address = self.a as usize;
        if dest.contains('M') {
            self.ram[address] = value;
        }
        if dest.contains('A') {
            self.a = value;
        }
        if dest.contains('D') {
            self.d = value;
        }
        let signed = value as i16;
        let taken = match jump {
            "" => false,
            "JGT" => signed > 0,
            "JEQ" => signed == 0,
            "JNE" => signed != 0,
            "JMP" => true,
            other => panic!("jump {}", other),
        };
        if taken {
            self.pc = address;
        }
    }

    // Runs until the position leaves the program or reaches `stop`.
    fn run_to(&mut self, stop: usize) {
        let mut steps = 0;
        while self.pc < self.rom.len() && self.pc != stop {
            self.step();
            steps += 1;
            assert!(steps < 1_000_000, "the program does not end");
        }
    }

    fn run(&mut self) {
        let end = self.rom.len();
        self.run_to(end);
    }

    fn top(&self) -> u16 {
        self.ram[self.ram[0] as usize - 1]
    }
}

fn mem(cmd: &str, segment: &str, index: usize, unit: &str) -> Vec<String> {
    generate_mem_code_block(cmd, segment, index, unit, false, 0).unwrap()
}

fn arith(cmd: &str, counter: &mut usize) -> Vec<String> {
    generate_a_l_code_block(cmd, "Test", counter, false, 0).unwrap()
}

fn with_stack_at(lines: &[String], sp: u16) -> Simulator {
    let mut machine = load(lines);
    machine.ram[0] = sp;
    machine
}

#[test]
fn seven_plus_eight_is_fifteen() {
    let mut counter = 0;
    let mut program = mem("push", "constant", 7, "Test");
    program.extend(mem("push", "constant", 8, "Test"));
    program.extend(arith("add", &mut counter));
    let mut machine = with_stack_at(&program, 256);
    machine.run();
    assert_eq!(machine.top(), 15);
    assert_eq!(machine.ram[0], 257);
    assert_eq!(counter, 0);
}

#[test]
fn negating_five_gives_its_twos_complement() {
    let mut counter = 0;
    let mut program = mem("push", "constant", 5, "Test");
    program.extend(arith("neg", &mut counter));
    let mut machine = with_stack_at(&program, 256);
    machine.run();
    assert_eq!(machine.top(), 0xfffb);
    assert_eq!(machine.top() as i16, -5);
    assert_eq!(machine.ram[0], 257);
}

#[test]
fn sub_takes_the_first_pushed_from_the_second() {
    let mut counter = 0;
    let mut program = mem("push", "constant", 3, "Test");
    program.extend(mem("push", "constant", 10, "Test"));
    program.extend(arith("sub", &mut counter));
    let mut machine = with_stack_at(&program, 256);
    machine.run();
    assert_eq!(machine.top(), 7);
    assert_eq!(machine.ram[0], 257);
}

#[test]
fn seven_then_eight_then_sub_is_one() {
    let mut counter = 0;
    let mut program = mem("push", "constant", 7, "Test");
    program.extend(mem("push", "constant", 8, "Test"));
    program.extend(arith("sub", &mut counter));
    let mut machine = with_stack_at(&program, 256);
    machine.run();
    assert_eq!(machine.top(), 1);
}

#[test]
fn sub_wraps_below_zero() {
    let mut counter = 0;
    let mut program = mem("push", "constant", 1, "Test");
    program.extend(mem("push", "constant", 0, "Test"));
    program.extend(arith("sub", &mut counter));
    let mut machine = with_stack_at(&program, 256);
    machine.run();
    assert_eq!(machine.top(), 0xffff);
}

#[test]
fn add_wraps_at_sixteen_bits() {
    let mut counter = 0;
    let mut program = mem("push", "constant", 32767, "Test");
    program.extend(mem("push", "constant", 32767, "Test"));
    program.extend(arith("add", &mut counter));
    program.extend(mem("push", "constant", 2, "Test"));
    program.extend(arith("add", &mut counter));
    let mut machine = with_stack_at(&program, 256);
    machine.run();
    assert_eq!(machine.top(), 0);
}

#[test]
fn and_or_not_work_bit_by_bit() {
    let mut counter = 0;
    let mut program = mem("push", "constant", 12, "Test");
    program.extend(mem("push", "constant", 10, "Test"));
    program.extend(arith("and", &mut counter));
    program.extend(mem("push", "constant", 12, "Test"));
    program.extend(mem("push", "constant", 10, "Test"));
    program.extend(arith("or", &mut counter));
    program.extend(mem("push", "constant", 12, "Test"));
    program.extend(arith("not", &mut counter));
    let mut machine = with_stack_at(&program, 256);
    machine.run();
    assert_eq!(machine.ram[256], 8);
    assert_eq!(machine.ram[257], 14);
    assert_eq!(machine.ram[258], !12u16);
    assert_eq!(machine.ram[0], 259);
}

fn compare(cmd: &str, first: usize, second: usize) -> u16 {
    let mut counter = 0;
    let mut program = mem("push", "constant", first, "Test");
    program.extend(mem("push", "constant", second, "Test"));
    program.extend(arith(cmd, &mut counter));
    assert_eq!(counter, 1);
    let mut machine = with_stack_at(&program, 256);
    machine.run();
    assert_eq!(machine.ram[0], 257);
    machine.top()
}

#[test]
fn comparisons_leave_a_canonical_boolean() {
    assert_eq!(compare("eq", 4, 4), 0xffff);
    assert_eq!(compare("eq", 4, 5), 0);
    assert_eq!(compare("gt", 5, 4), 0xffff);
    assert_eq!(compare("gt", 4, 5), 0);
    assert_eq!(compare("gt", 4, 4), 0);
    assert_eq!(compare("lt", 4, 5), 0xffff);
    assert_eq!(compare("lt", 5, 4), 0);
    assert_eq!(compare("lt", 4, 4), 0);
}

#[test]
fn two_comparisons_in_one_program_have_labels_of_their_own() {
    let mut counter = 0;
    let mut program = mem("push", "constant", 1, "Test");
    program.extend(mem("push", "constant", 2, "Test"));
    program.extend(arith("lt", &mut counter));
    program.extend(mem("push", "constant", 3, "Test"));
    program.extend(mem("push", "constant", 3, "Test"));
    program.extend(arith("eq", &mut counter));
    program.extend(arith("and", &mut counter));
    assert_eq!(counter, 2);
    let mut machine = with_stack_at(&program, 256);
    machine.run();
    assert_eq!(machine.top(), 0xffff);
    assert_eq!(machine.ram[0], 257);
}

fn push_then_pop(segment: &str, index: usize, cell: usize) {
    let mut program = mem("push", segment, index, "Unit");
    program.extend(mem("pop", segment, index, "Unit"));
    let mut machine = with_stack_at(&program, 300);
    machine.ram[1] = 1000;
    machine.ram[2] = 1100;
    machine.ram[3] = 1200;
    machine.ram[4] = 1300;
    machine.ram[cell] = 4321;
    let before = machine.ram[cell];
    machine.run();
    assert_eq!(machine.ram[0], 300);
    assert_eq!(machine.ram[cell], before);
    assert_eq!(machine.ram[300], before);
}

#[test]
fn push_then_pop_changes_neither_stack_pointer_nor_cell() {
    push_then_pop("local", 3, 1003);
    push_then_pop("argument", 0, 1100);
    push_then_pop("this", 7, 1207);
    push_then_pop("that", 1, 1301);
    push_then_pop("temp", 2, 7);
    push_then_pop("static", 5, 16);
    push_then_pop("general", 2000, 2000);
}

#[test]
fn push_then_pop_of_pointer_keeps_the_base_cells() {
    let mut program = mem("push", "pointer", 0, "Unit");
    program.extend(mem("pop", "pointer", 0, "Unit"));
    program.extend(mem("push", "pointer", 1, "Unit"));
    program.extend(mem("pop", "pointer", 1, "Unit"));
    let mut machine = with_stack_at(&program, 300);
    machine.ram[3] = 1200;
    machine.ram[4] = 1300;
    machine.run();
    assert_eq!(machine.ram[0], 300);
    assert_eq!(machine.ram[3], 1200);
    assert_eq!(machine.ram[4], 1300);
}

#[test]
fn pop_pointer_sets_the_base_cell_to_the_top_of_the_stack() {
    let mut program = mem("push", "constant", 3030, "Unit");
    program.extend(mem("pop", "pointer", 0, "Unit"));
    program.extend(mem("push", "constant", 3040, "Unit"));
    program.extend(mem("pop", "pointer", 1, "Unit"));
    let mut machine = with_stack_at(&program, 300);
    machine.run();
    assert_eq!(machine.ram[3], 3030);
    assert_eq!(machine.ram[4], 3040);
    assert_eq!(machine.ram[0], 300);
}

#[test]
fn pop_local_stores_the_top_of_the_stack() {
    let mut program = mem("push", "constant", 99, "Unit");
    program.extend(mem("pop", "local", 2, "Unit"));
    let mut machine = with_stack_at(&program, 300);
    machine.ram[1] = 1000;
    machine.run();
    assert_eq!(machine.ram[1002], 99);
    assert_eq!(machine.ram[0], 300);
}

#[test]
fn static_cells_of_two_units_are_two_cells() {
    let mut program = mem("push", "constant", 11, "First");
    program.extend(mem("pop", "static", 0, "First"));
    program.extend(mem("push", "constant", 22, "Second"));
    program.extend(mem("pop", "static", 0, "Second"));
    program.extend(mem("push", "static", 0, "First"));
    program.extend(mem("push", "static", 0, "Second"));
    let mut machine = with_stack_at(&program, 300);
    machine.run();
    assert_ne!(machine.symbols["First.0"], machine.symbols["Second.0"]);
    assert_eq!(machine.ram[300], 11);
    assert_eq!(machine.ram[301], 22);
}

#[test]
fn call_and_return_give_the_caller_its_frame_back() {
    let mut counter = 0;
    let mut program: Vec<String> = Vec::new();
    program.extend(mem("push", "constant", 41, "Main"));
    program.extend(mem("push", "constant", 42, "Main"));
    program.extend(generate_function_call("Main.f", 2, "Main", &mut counter, false));
    let after_call = load(&program).rom.len();
    program.extend(mem("push", "constant", 9, "Main"));
    program.extend(generate_function_def("Main.f", 3, "Main", false));
    program.extend(generate_function_return("Main", &mut counter, false));
    assert_eq!(counter, 2);
    let mut machine = with_stack_at(&program, 300);
    machine.ram[1] = 1000;
    machine.ram[2] = 1100;
    machine.ram[3] = 1200;
    machine.ram[4] = 1300;
    machine.ram[299] = 77;
    machine.run_to(after_call);
    assert_eq!(machine.pc, after_call);
    assert_eq!(machine.ram[1], 1000);
    assert_eq!(machine.ram[2], 1100);
    assert_eq!(machine.ram[3], 1200);
    assert_eq!(machine.ram[4], 1300);
    assert_eq!(machine.ram[0], 301);
    assert_eq!(machine.top(), 0);
    assert_eq!(machine.ram[299], 77);
}

#[test]
fn a_call_builds_the_frame() {
    let mut counter = 6;
    let mut program: Vec<String> = Vec::new();
    program.extend(generate_function_call("Main.g", 1, "Main", &mut counter, false));
    program.extend(generate_function_def("Main.g", 0, "Main", false));
    let entry = load(&program).symbols["Main.g"] as usize;
    let mut machine = with_stack_at(&program, 310);
    machine.ram[1] = 1000;
    machine.ram[2] = 1100;
    machine.ram[3] = 1200;
    machine.ram[4] = 1300;
    machine.run_to(entry);
    assert_eq!(machine.ram[310], machine.symbols["Main.g_ret_7"]);
    assert_eq!(&machine.ram[311..315], &[1000, 1100, 1200, 1300]);
    assert_eq!(machine.ram[0], 315);
    assert_eq!(machine.ram[1], 315);
    assert_eq!(machine.ram[2], 309);
}

#[test]
fn a_function_returns_the_sum_of_its_arguments() {
    let mut generator = CodeGenerator::new("Prog", &PathType::Dir, false);
    let unit = |name: &str, text: &[&str]| SourceUnit {
        name: name.to_string(),
        lines: text.iter().map(|s| s.to_string()).collect(),
    };
    let units = vec![
        unit(
            "Sys",
            &[
                "// the entry",
                "function Sys.init 0",
                "push constant 20",
                "push constant 22",
                "call Main.sum 2",
                "pop static 0",
                "label Sys.halt",
                "goto Sys.halt",
            ],
        ),
        unit(
            "Main",
            &[
                "function Main.sum 1",
                "push argument 0",
                "push argument 1",
                "add",
                "pop local 0",
                "push local 0",
                "push constant 42",
                "eq",
                "if-goto Main.right",
                "push constant 0",
                "return",
                "label Main.right",
                "push local 0",
                "return",
            ],
        ),
    ];
    let program = generator.generate_code(&units).unwrap();
    let mut machine = load(&program);
    let halt = machine.symbols["Sys.halt"] as usize;
    machine.run_to(halt);
    let cell = machine.symbols["Sys.0"] as usize;
    assert_eq!(machine.ram[cell], 42);
    assert_eq!(machine.ram[0], 261);
}

#[test]
fn the_bootstrap_sets_the_cells_and_calls_the_entry() {
    let mut counter = 0;
    let mut program = generate_bootstrapping(&mut counter, false);
    program.extend(generate_function_def("Sys.init", 0, "Sys", false));
    assert_eq!(counter, 1);
    let entry = load(&program).symbols["Sys.init"] as usize;
    let mut machine = load(&program);
    machine.run_to(entry);
    assert_eq!(machine.pc, entry);
    assert_eq!(machine.ram[256], machine.symbols["Sys.init_ret_1"]);
    assert_eq!(&machine.ram[257..261], &[1647, 1747, 1847, 1947]);
    assert_eq!(machine.ram[0], 261);
    assert_eq!(machine.ram[1], 261);
    assert_eq!(machine.ram[2], 256);
}

#[test]
fn annotated_output_runs_like_plain_output() {
    let mut counter = 0;
    let mut program = generate_mem_code_block("push", "constant", 7, "Test", true, 4).unwrap();
    program.extend(generate_mem_code_block("push", "constant", 8, "Test", true, 0).unwrap());
    program.extend(generate_a_l_code_block("add", "Test", &mut counter, true, 2).unwrap());
    let mut machine = with_stack_at(&program, 256);
    machine.run();
    assert_eq!(machine.top(), 15);
}

fn branch(keyword: &str, label: &str) -> Vec<String> {
    generate_branching_block(keyword, label, "Test", false, 0).unwrap()
}

// Pushes `condition`, branches on it over a push of 1, and pushes 2.
fn stack_after_if_goto(condition: usize) -> Vec<u16> {
    let mut program = mem("push", "constant", condition, "Test");
    program.extend(branch("if-goto", "SKIP"));
    program.extend(mem("push", "constant", 1, "Test"));
    program.extend(branch("label", "SKIP"));
    program.extend(mem("push", "constant", 2, "Test"));
    let mut machine = with_stack_at(&program, 256);
    machine.run();
    machine.ram[256..machine.ram[0] as usize].to_vec()
}

#[test]
fn if_goto_jumps_on_any_word_but_zero() {
    assert_eq!(stack_after_if_goto(0), vec![1, 2]);
    assert_eq!(stack_after_if_goto(1), vec![2]);
    assert_eq!(stack_after_if_goto(5), vec![2]);
    assert_eq!(stack_after_if_goto(65535), vec![2]);
    assert_eq!(stack_after_if_goto(32768), vec![2]);
}

#[test]
fn goto_jumps_always_and_changes_no_cell() {
    let mut program = mem("push", "constant", 7, "Test");
    program.extend(branch("goto", "END"));
    program.extend(mem("push", "constant", 8, "Test"));
    program.extend(branch("label", "END"));
    let mut machine = with_stack_at(&program, 256);
    machine.run();
    assert_eq!(machine.ram[0], 257);
    assert_eq!(machine.top(), 7);
}

#[test]
fn comparisons_compare_signed_words() {
    // 65535 stands for -1, which is less than 1.
    assert_eq!(compare("lt", 65535, 1), 0xffff);
    assert_eq!(compare("gt", 65535, 1), 0);
    assert_eq!(compare("gt", 1, 65535), 0xffff);
    assert_eq!(compare("eq", 65535, 65535), 0xffff);
}
