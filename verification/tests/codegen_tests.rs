use frust::ast::{BinaryOp, Expr, UnaryOp, VarType};
use frust::codegen::CodeGenContext;
use frust::inst::{Instruction, Opcode, Reg, Type};
use frust::lexer::lexer;
use frust::parser::Parser;
use std::collections::HashMap;

fn parse(source: &str) -> Vec<Expr> {
    Parser::new(lexer(source).unwrap()).parse().unwrap()
}

fn compile(source: &str) -> Result<CodeGenContext, (CodeGenContext, String)> {
    let mut generator = CodeGenContext::new();
    for expr in &parse(source) {
        assert!(generator.can_generate(expr));
        if let Err(message) = generator.generate(expr) {
            return Err((generator, message));
        }
    }
    Ok(generator)
}

fn render(generator: &CodeGenContext) -> Vec<String> {
    generator.instructions().iter().map(|i| i.to_string()).collect()
}

fn lines(source: &str) -> Vec<String> {
    render(&compile(source).ok().unwrap())
}

/// A machine of 32-bit words that runs the instructions which are emitted.
struct Machine {
    pc: i64,
    registers: HashMap<String, u32>,
    memory: HashMap<i64, u32>,
    visits: HashMap<i64, u64>,
}

fn read(machine: &Machine, reg: Reg) -> u32 {
    match reg {
        Reg::Zero => 0,
        other => *machine.registers.get(&other.to_string()).unwrap_or(&0),
    }
}

fn write(machine: &mut Machine, reg: Reg, value: u32) {
    match reg {
        Reg::Zero => {}
        other => {
            machine.registers.insert(other.to_string(), value);
        }
    }
}

fn truth(b: bool) -> u32 {
    if b {
        1
    } else {
        0
    }
}

fn run(code: &[Instruction], limit: u64) -> Machine {
    let mut machine = Machine { pc: 0, registers: HashMap::new(), memory: HashMap::new(), visits: HashMap::new() };
    let mut steps = 0;
    while machine.pc >= 0 && (machine.pc as usize) < code.len() {
        assert!(steps < limit, "the program does not end");
        steps += 1;
        *machine.visits.entry(machine.pc).or_insert(0) += 1;
        let i = &code[machine.pc as usize];
        match (i.notation(), i.opcode()) {
            (Type::R, opcode) => {
                let a = read(&machine, i.rs1().unwrap());
                let b = read(&machine, i.rs2().unwrap());
                let value = match opcode {
                    Opcode::Add => a.wrapping_add(b),
                    Opcode::Sub => a.wrapping_sub(b),
                    Opcode::Mul => a.wrapping_mul(b),
                    Opcode::Div => {
                        if b == 0 {
                            u32::MAX
                        } else {
                            (a as i32).wrapping_div(b as i32) as u32
                        }
                    }
                    Opcode::Rem => {
                        if b == 0 {
                            a
                        } else {
                            (a as i32).wrapping_rem(b as i32) as u32
                        }
                    }
                    Opcode::And => a & b,
                    Opcode::Or => a | b,
                    Opcode::Xor => a ^ b,
                    Opcode::Slt => truth((a as i32) < (b as i32)),
                    Opcode::SetEq => truth(a == b),
                    Opcode::Sne => truth(a != b),
                    Opcode::Sge => truth((a as i32) >= (b as i32)),
                    other => panic!("no arithmetic: {:?}", other),
                };
                write(&mut machine, i.rd().unwrap(), value);
                machine.pc += 1;
            }
            (Type::I, Opcode::Addi) => {
                let value = read(&machine, i.rs1().unwrap()).wrapping_add(i.imm().unwrap());
                write(&mut machine, i.rd().unwrap(), value);
                machine.pc += 1;
            }
            (Type::I, Opcode::Lui) => {
                write(&mut machine, i.rd().unwrap(), i.imm().unwrap().wrapping_mul(0x1000));
                machine.pc += 1;
            }
            (Type::I, Opcode::Lw) => {
                let address = read(&machine, i.rs1().unwrap()) as i64 + i.imm().unwrap() as i64;
                let value = *machine.memory.get(&address).unwrap_or(&0);
                write(&mut machine, i.rd().unwrap(), value);
                machine.pc += 1;
            }
            (Type::I, Opcode::Beq) => {
                if read(&machine, i.rd().unwrap()) == read(&machine, i.rs1().unwrap()) {
                    machine.pc += i.imm().unwrap() as i32 as i64;
                } else {
                    machine.pc += 1;
                }
            }
            (Type::S, Opcode::Sw) => {
                let address = read(&machine, i.rs1().unwrap()) as i64 + i.imm().unwrap() as i64;
                let value = read(&machine, i.rs2().unwrap());
                machine.memory.insert(address, value);
                machine.pc += 1;
            }
            (Type::J, Opcode::Jal) => {
                machine.pc += i.imm().unwrap() as i32 as i64;
            }
            other => panic!("not modelled: {:?}", other),
        }
    }
    machine
}

fn run_source(source: &str) -> Machine {
    let generator = compile(source).ok().unwrap();
    run(generator.instructions(), 100_000)
}

/// The word in the slot at `offset` from the stack pointer.
fn slot(machine: &Machine, offset: i64) -> Option<u32> {
    machine.memory.get(&(32 + offset)).copied()
}

#[test]
fn a_new_context_reserves_the_stack_frame() {
    let generator = CodeGenContext::new();
    assert_eq!(render(&generator), vec!["addi x2, x0, 32"]);
    let first = &generator.instructions()[0];
    assert_eq!(first.notation(), Type::I);
    assert_eq!(first.opcode(), Opcode::Addi);
    assert_eq!(first.rd(), Some(Reg::StackPointer));
    assert_eq!(first.rs1(), Some(Reg::Zero));
    assert_eq!(first.rs2(), None);
    assert_eq!(first.imm(), Some(32));
}

#[test]
fn a_number_is_loaded_in_two_halves() {
    assert_eq!(lines("5"), vec!["addi x2, x0, 32", "lui x5, 0", "addi x5, x5, 5"]);
    assert_eq!(lines("4095")[1..], ["lui x5, 0", "addi x5, x5, 4095"]);
    assert_eq!(lines("4096")[1..], ["lui x5, 1", "addi x5, x5, 0"]);
    assert_eq!(lines("305419896")[1..], ["lui x5, 74565", "addi x5, x5, 1656"]);
}

#[test]
fn the_halves_of_65536_make_65536() {
    let generator = compile("65536").ok().unwrap();
    let code = generator.instructions();
    assert_eq!(code.len(), 3);
    assert_eq!(code[1].opcode(), Opcode::Lui);
    assert_eq!(code[1].rd(), Some(Reg::Temp(0)));
    assert_eq!(code[1].imm(), Some(16));
    assert_eq!(code[2].opcode(), Opcode::Addi);
    assert_eq!(code[2].rd(), Some(Reg::Temp(0)));
    assert_eq!(code[2].rs1(), Some(Reg::Temp(0)));
    assert_eq!(code[2].imm(), Some(0));
    assert_eq!((code[1].imm().unwrap() << 12) + code[2].imm().unwrap(), 65536);
    assert_eq!(render(&generator)[1..], ["lui x5, 16", "addi x5, x5, 0"]);
    assert_eq!(read(&run(code, 10), Reg::Temp(0)), 65536);
}

#[test]
fn the_halves_make_the_lowest_32_bits_of_every_number() {
    for n in [0i64, 1, 4095, 4096, 65535, 65536, 0x7fff_ffff, 0xffff_ffff, 0x1_0000_0005, -1, i64::MAX, i64::MIN] {
        let mut generator = CodeGenContext::new();
        generator.generate(&Expr::Number(n)).unwrap();
        let code = generator.instructions();
        let upper = code[1].imm().unwrap();
        let lower = code[2].imm().unwrap();
        assert!(upper < (1 << 20));
        assert!(lower < (1 << 12));
        assert_eq!((upper << 12) | lower, n as u32);
    }
}

#[test]
fn a_truth_value_is_loaded_as_zero_or_one() {
    assert_eq!(lines("true")[1..], ["addi x5, x0, 1"]);
    assert_eq!(lines("false")[1..], ["addi x5, x0, 0"]);
}

#[test]
fn variables_get_slots_in_order() {
    assert_eq!(
        lines("let a: num = 1; let b: num = 2; a = a + b;"),
        vec![
            "addi x2, x0, 32",
            "lui x5, 0",
            "addi x5, x5, 1",
            "sw x2, 32, x5",
            "lui x5, 0",
            "addi x5, x5, 2",
            "sw x2, 40, x5",
            "lw x5, x2, 32",
            "addi x6, x5, 0",
            "lw x5, x2, 40",
            "add x5, x6, x5",
            "sw x2, 32, x5",
        ]
    );
}

#[test]
fn two_variables_do_not_clobber_each_other() {
    let machine = run_source("let a: num = 1; let b: num = 2; a = a + b;");
    assert_eq!(slot(&machine, 32), Some(3));
    assert_eq!(slot(&machine, 40), Some(2));
    assert_eq!(machine.memory.len(), 2);
}

#[test]
fn the_slots_go_on_beyond_the_frame() {
    let out = lines("let a: num = 0; let b: num = 0; let c: num = 0; let d: num = 0; let e: num = 0; e = e;");
    assert_eq!(out[3], "sw x2, 32, x5");
    assert_eq!(out[6], "sw x2, 40, x5");
    assert_eq!(out[9], "sw x2, 48, x5");
    assert_eq!(out[12], "sw x2, 56, x5");
    assert_eq!(out[15], "sw x2, 64, x5");
    assert_eq!(out[16], "lw x5, x2, 64");
}

#[test]
fn a_second_declaration_takes_a_new_slot() {
    let out = lines("let a: num = 1; let a: num = 2; a");
    assert_eq!(out[3], "sw x2, 32, x5");
    assert_eq!(out[6], "sw x2, 40, x5");
    assert_eq!(out[7], "lw x5, x2, 40");
}

#[test]
fn a_variable_that_is_declared_again_is_the_new_one_from_there_on() {
    let machine = run_source(
        "let a: num = 1; let b: num = a + 1; let a: num = 5; let c: num = a + b; a = a * c; let d: num = a;",
    );
    // a at 32, b at 40, the second a at 48, c at 56, d at 64
    assert_eq!(slot(&machine, 32), Some(1));
    assert_eq!(slot(&machine, 40), Some(2));
    assert_eq!(slot(&machine, 48), Some(35));
    assert_eq!(slot(&machine, 56), Some(7));
    assert_eq!(slot(&machine, 64), Some(35));
}

#[test]
fn a_block_may_declare_its_own_variable_again() {
    let machine = run_source(
        "let a: num = 1; if a == 1 { let t: num = a + 1; let t: num = a + 2; a = t; } else { let u: num = 9; } let b: num = a;",
    );
    // a at 32, t at 40 and 48, u at 56, b at 64
    assert_eq!(slot(&machine, 32), Some(3));
    assert_eq!(slot(&machine, 40), Some(2));
    assert_eq!(slot(&machine, 48), Some(3));
    assert_eq!(slot(&machine, 56), None);
    assert_eq!(slot(&machine, 64), Some(3));
}

#[test]
fn a_declaration_in_a_block_that_does_not_run_still_takes_the_name() {
    let machine = run_source("let x: num = 1; if false { let x: num = 2; } let y: num = x;");
    // x at 32, the x of the block at 40, y at 48: y is read from the slot that was never written
    assert_eq!(slot(&machine, 32), Some(1));
    assert_eq!(slot(&machine, 40), None);
    assert_eq!(slot(&machine, 48), Some(0));
}

#[test]
fn two_names_declared_in_a_row_get_slots_that_do_not_overlap() {
    let out = lines("let first: num = 1; let second: num = 2; let third: num = first + second;");
    assert_eq!(out[3], "sw x2, 32, x5");
    assert_eq!(out[6], "sw x2, 40, x5");
    assert_eq!(out[7], "lw x5, x2, 32");
    assert_eq!(out[9], "lw x5, x2, 40");
    assert_eq!(out[11], "sw x2, 48, x5");
    let machine = run_source("let first: num = 1; let second: num = 2; let third: num = first + second;");
    assert_eq!(slot(&machine, 32), Some(1));
    assert_eq!(slot(&machine, 40), Some(2));
    assert_eq!(slot(&machine, 48), Some(3));
}

#[test]
fn a_declaration_counts_from_its_own_value_on() {
    assert_eq!(lines("let a: num = a;")[1..], ["lw x5, x2, 32", "sw x2, 32, x5"]);
}

#[test]
fn reading_an_undeclared_variable_fails() {
    let (generator, message) = compile("y").err().unwrap();
    assert_eq!(message, "Variable y not declared");
    assert_eq!(render(&generator), vec!["addi x2, x0, 32"]);
}

#[test]
fn assigning_an_undeclared_variable_fails_after_its_value() {
    let (generator, message) = compile("let a: num = 1; total = a;").err().unwrap();
    assert_eq!(message, "Variable total not declared");
    assert_eq!(render(&generator)[4..], ["lw x5, x2, 32"]);
}

#[test]
fn nothing_is_appended_after_the_failing_operation() {
    let (generator, message) = compile("let a: num = 1; a = a + missing; a = 2;").err().unwrap();
    assert_eq!(message, "Variable missing not declared");
    assert_eq!(
        render(&generator),
        vec!["addi x2, x0, 32", "lui x5, 0", "addi x5, x5, 1", "sw x2, 32, x5", "lw x5, x2, 32", "addi x6, x5, 0"]
    );
    let (generator, message) = compile("if ghost { let a: num = 1; }").err().unwrap();
    assert_eq!(message, "Variable ghost not declared");
    assert_eq!(generator.instructions().len(), 1);
    let (generator, message) = compile("while true { x = 1; }").err().unwrap();
    assert_eq!(message, "Variable x not declared");
    assert_eq!(render(&generator)[1..], ["addi x5, x0, 1", "beq x5, x0, 0", "lui x5, 0", "addi x5, x5, 1"]);
}

#[test]
fn the_first_undeclared_variable_is_named() {
    let (_, message) = compile("p = q;").err().unwrap();
    assert_eq!(message, "Variable q not declared");
    let (_, message) = compile("p + q").err().unwrap();
    assert_eq!(message, "Variable p not declared");
}

#[test]
fn every_binary_operator_with_an_instruction() {
    for (op, mnemonic) in [
        ("+", "add"),
        ("-", "sub"),
        ("*", "mul"),
        ("/", "div"),
        ("%", "rem"),
        ("&&", "and"),
        ("||", "or"),
        ("==", "seq"),
        ("!=", "sne"),
        ("<", "slt"),
        (">=", "sge"),
    ] {
        let out = lines(&format!("true {} false", op));
        assert_eq!(out[1..], ["addi x5, x0, 1", "addi x6, x5, 0", "addi x5, x0, 0", &format!("{} x5, x6, x5", mnemonic)]);
    }
}

#[test]
fn the_operators_without_instruction_are_refused() {
    let (generator, message) = compile("true > false").err().unwrap();
    assert_eq!(message, "Operator > not supported");
    assert_eq!(render(&generator)[1..], ["addi x5, x0, 1", "addi x6, x5, 0", "addi x5, x0, 0"]);
    let (_, message) = compile("true <= false").err().unwrap();
    assert_eq!(message, "Operator <= not supported");
    let (_, message) = compile("missing > 1").err().unwrap();
    assert_eq!(message, "Variable missing not declared");
}

#[test]
fn a_prefix_operator_is_an_exclusive_or_with_a_mask() {
    assert_eq!(lines("!true")[1..], ["addi x5, x0, 1", "lui x6, 0", "addi x6, x6, 1", "xor x5, x6, x5"]);
    assert_eq!(
        lines("-true")[1..],
        ["addi x5, x0, 1", "lui x6, 1048575", "addi x6, x6, 4095", "xor x5, x6, x5"]
    );
}

#[test]
fn a_conditional_without_else() {
    assert_eq!(
        lines("let x: num = 0; if true { x = 1; } x = 2;")[4..],
        [
            "addi x5, x0, 1",
            "beq x5, x0, 4",
            "lui x5, 0",
            "addi x5, x5, 1",
            "sw x2, 32, x5",
            "lui x5, 0",
            "addi x5, x5, 2",
            "sw x2, 32, x5",
        ]
    );
    assert_eq!(lines("if true { }")[1..], ["addi x5, x0, 1", "beq x5, x0, 1"]);
}

#[test]
fn a_conditional_with_else() {
    assert_eq!(
        lines("if false { let x: num = 1; } else { let x: num = 2; }"),
        vec![
            "addi x2, x0, 32",
            "addi x5, x0, 0",
            "beq x5, x0, 5",
            "lui x5, 0",
            "addi x5, x5, 1",
            "sw x2, 32, x5",
            "jal x0, 4",
            "lui x5, 0",
            "addi x5, x5, 2",
            "sw x2, 40, x5",
        ]
    );
    assert_eq!(lines("if true { } else { }")[1..], ["addi x5, x0, 1", "beq x5, x0, 2", "jal x0, 1"]);
}

#[test]
fn a_false_condition_skips_the_first_block() {
    let generator = compile("if false { let x: num = 1; } else { let x: num = 2; }").ok().unwrap();
    let machine = run(generator.instructions(), 1000);
    assert_eq!(slot(&machine, 32), None);
    assert_eq!(slot(&machine, 40), Some(2));
    for skipped in 3..=6 {
        assert_eq!(machine.visits.get(&skipped), None);
    }
    for reached in [0, 1, 2, 7, 8, 9] {
        assert_eq!(machine.visits.get(&reached), Some(&1));
    }
    assert_eq!(machine.pc, 10);
}

#[test]
fn a_true_condition_skips_the_second_block() {
    let generator = compile("if true { let x: num = 1; } else { let x: num = 2; }").ok().unwrap();
    let machine = run(generator.instructions(), 1000);
    assert_eq!(slot(&machine, 32), Some(1));
    assert_eq!(slot(&machine, 40), None);
    for skipped in 7..=9 {
        assert_eq!(machine.visits.get(&skipped), None);
    }
    assert_eq!(machine.pc, 10);
}

#[test]
fn a_loop_jumps_back_to_its_condition() {
    assert_eq!(
        lines("let i: num = 0; while i < 3 { i = i + 1; }")[4..],
        [
            "lw x5, x2, 32",
            "addi x6, x5, 0",
            "lui x5, 0",
            "addi x5, x5, 3",
            "slt x5, x6, x5",
            "beq x5, x0, 8",
            "lw x5, x2, 32",
            "addi x6, x5, 0",
            "lui x5, 0",
            "addi x5, x5, 1",
            "add x5, x6, x5",
            "sw x2, 32, x5",
            "jal x0, 4294967284",
        ]
    );
    assert_eq!(lines("while false { }")[1..], ["addi x5, x0, 0", "beq x5, x0, 2", "jal x0, 4294967294"]);
}

#[test]
fn a_loop_tests_its_condition_once_for_every_turn_and_once_more() {
    let generator = compile("let i: num = 0; while i < 3 { i = i + 1; }").ok().unwrap();
    let machine = run(generator.instructions(), 1000);
    assert_eq!(slot(&machine, 32), Some(3));
    // the condition begins at 4, its branch is at 9, the body at 10 to 15, the jump at 16
    for of_condition in 4..=9 {
        assert_eq!(machine.visits.get(&of_condition), Some(&4));
    }
    for of_body in 10..=16 {
        assert_eq!(machine.visits.get(&of_body), Some(&3));
    }
    assert_eq!(machine.pc, 17);
}

#[test]
fn a_loop_whose_condition_is_false_runs_no_turn() {
    let generator = compile("let i: num = 7; while i < 3 { i = i + 1; }").ok().unwrap();
    let machine = run(generator.instructions(), 1000);
    assert_eq!(slot(&machine, 32), Some(7));
    assert_eq!(machine.visits.get(&4), Some(&1));
    assert_eq!(machine.visits.get(&10), None);
}

#[test]
fn a_loop_is_lowered_once_however_often_it_turns() {
    let few = lines("let i: num = 0; while i < 3 { i = i + 1; }");
    let many = lines("let i: num = 0; while i < 4000 { i = i + 1; }");
    assert_eq!(few.len(), many.len());
}

#[test]
fn expressions_of_a_single_level_compute_their_value() {
    let machine = run_source("let y: num = 3 * 4; let x: num = 2 + y;");
    assert_eq!(slot(&machine, 32), Some(12));
    assert_eq!(slot(&machine, 40), Some(14));
    let machine = run_source(
        "let a: num = 17; let b: num = 5; let q: num = a / b; let r: num = a % b; let d: num = b - a; \
         let l: bool = a < b; let g: bool = a >= b; let e: bool = a == b; let n: bool = a != b; \
         let both: bool = l && g; let any: bool = l || g;",
    );
    assert_eq!(slot(&machine, 32 + 16), Some(3));
    assert_eq!(slot(&machine, 32 + 24), Some(2));
    assert_eq!(slot(&machine, 32 + 32), Some(-12i32 as u32));
    assert_eq!(slot(&machine, 32 + 40), Some(0));
    assert_eq!(slot(&machine, 32 + 48), Some(1));
    assert_eq!(slot(&machine, 32 + 56), Some(0));
    assert_eq!(slot(&machine, 32 + 64), Some(1));
    assert_eq!(slot(&machine, 32 + 72), Some(0));
    assert_eq!(slot(&machine, 32 + 80), Some(1));
}

#[test]
fn a_program_of_statements_computes_what_it_means() {
    // the sum of 1 to 10, and the count of the odd numbers among them
    let machine = run_source(
        "let i: num = 1; let sum: num = 0; let odd: num = 0; let two: num = 2; \
         while i < 11 { sum = sum + i; let r: num = i % two; if r == 1 { odd = odd + 1; } else { } i = i + 1; }",
    );
    assert_eq!(slot(&machine, 32), Some(11));
    assert_eq!(slot(&machine, 40), Some(55));
    assert_eq!(slot(&machine, 48), Some(5));
}

#[test]
fn a_nested_right_operand_overwrites_the_saved_left_operand() {
    // 2 + 3 * 4: the product saves its own left operand over the 2
    let machine = run_source("let x: num = 2 + 3 * 4;");
    assert_eq!(slot(&machine, 32), Some(15));
    // a nested left operand does no harm
    let machine = run_source("let x: num = 3 * 4 + 2;");
    assert_eq!(slot(&machine, 32), Some(14));
}

#[test]
fn a_number_with_an_upper_part_is_loaded_whole() {
    let machine = run_source("let x: num = 65541;");
    assert_eq!(slot(&machine, 32), Some(65541));
    let machine = run_source("let x: num = 4096 + 0; let y: num = 4095 + 1; let z: num = 4294967295;");
    assert_eq!(slot(&machine, 32), Some(4096));
    assert_eq!(slot(&machine, 40), Some(4096));
    assert_eq!(slot(&machine, 48), Some(u32::MAX));
}

#[test]
fn the_two_instructions_of_a_number_leave_the_number_in_the_register() {
    for n in [0i64, 1, 4095, 4096, 65535, 65536, 0x7fff_ffff, 0xffff_ffff, 0x1_0000_0005, -1, i64::MAX, i64::MIN] {
        let mut generator = CodeGenContext::new();
        generator.generate(&Expr::Number(n)).unwrap();
        let machine = run(generator.instructions(), 10);
        assert_eq!(read(&machine, Reg::Temp(0)), n as u32);
    }
}

#[test]
fn the_prefix_operators_compute_their_values() {
    let machine = run_source(
        "let t: bool = true; let f: bool = false; let a: bool = !t; let b: bool = !f; \
         let x: num = 5; let y: num = -x; let z: num = -0; let w: num = -y;",
    );
    assert_eq!(slot(&machine, 32 + 16), Some(0));
    assert_eq!(slot(&machine, 32 + 24), Some(1));
    assert_eq!(slot(&machine, 32 + 40), Some(-6i32 as u32));
    assert_eq!(slot(&machine, 32 + 48), Some(-1i32 as u32));
    assert_eq!(slot(&machine, 32 + 56), Some(5));
}

#[test]
fn the_mask_of_the_prefix_minus_is_all_ones() {
    let generator = compile("-true").ok().unwrap();
    let machine = run(generator.instructions(), 10);
    assert_eq!(read(&machine, Reg::Temp(1)), u32::MAX);
    assert_eq!(read(&machine, Reg::Temp(0)), u32::MAX - 1);
    let generator = compile("!true").ok().unwrap();
    let machine = run(generator.instructions(), 10);
    assert_eq!(read(&machine, Reg::Temp(1)), 1);
    assert_eq!(read(&machine, Reg::Temp(0)), 0);
}

#[test]
fn every_expression_within_reach_can_be_generated() {
    let generator = CodeGenContext::new();
    for expr in &parse("let x: num = 1; while x < 2 { x = -x; }") {
        assert!(generator.can_generate(expr));
    }
}

#[test]
fn trees_are_lowered_as_they_are() {
    let mut generator = CodeGenContext::new();
    let tree = Expr::Let {
        name: "n".to_string(),
        var_type: VarType::Bool,
        expr: Box::new(Expr::Unary {
            op: UnaryOp::Not,
            expr: Box::new(Expr::Binary {
                left: Box::new(Expr::Number(-1)),
                op: BinaryOp::Mod,
                right: Box::new(Expr::Bool(true)),
            }),
        }),
    };
    assert_eq!(generator.generate(&tree), Ok(()));
    assert_eq!(
        render(&generator)[1..],
        [
            "lui x5, 1048575",
            "addi x5, x5, 4095",
            "addi x6, x5, 0",
            "addi x5, x0, 1",
            "rem x5, x6, x5",
            "lui x6, 0",
            "addi x6, x6, 1",
            "xor x5, x6, x5",
            "sw x2, 32, x5",
        ]
    );
}
