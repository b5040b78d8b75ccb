use miniasm::isa::{Asm, ArtithmeticsOptcode, Instruction, compile_asm};
use miniasm::interpreter::Interpreter;
use miniasm::syntax::parse_lines;

fn assemble(lines: &[&str]) -> Vec<Instruction> {
    let owned: Vec<String> = lines.iter().map(|l| l.to_string()).collect();
    let prog: Vec<Asm> = parse_lines(&owned).expect("program should parse");
    compile_asm(&prog).expect("program should assemble")
}

#[test]
fn add_overflow_sets_overflow_and_negative() {
    let mut m = Interpreter::new(vec![], 0);
    let r = m.arithmetics(ArtithmeticsOptcode::Add, 2147483647, 1);
    assert_eq!(r, -2147483648);
    assert_eq!(m.flag_bits(), 0b110);
}

#[test]
fn sub_zero_sets_zero_only() {
    let mut m = Interpreter::new(vec![], 0);
    let r = m.arithmetics(ArtithmeticsOptcode::Sub, 0, 0);
    assert_eq!(r, 0);
    assert_eq!(m.flag_bits(), 0b001);
}

#[test]
fn xor_equal_sets_zero_only() {
    let mut m = Interpreter::new(vec![], 0);
    let r = m.arithmetics(ArtithmeticsOptcode::Xor, 5, 5);
    assert_eq!(r, 0);
    assert_eq!(m.flag_bits(), 0b001);
}

#[test]
fn more_flag_cases() {
    let mut m = Interpreter::new(vec![], 0);
    assert_eq!(m.arithmetics(ArtithmeticsOptcode::Add, -1, 1), 0);
    assert_eq!(m.flag_bits(), 0b001);
    assert_eq!(m.arithmetics(ArtithmeticsOptcode::Sub, 0, -2147483648), -2147483648);
    assert_eq!(m.flag_bits(), 0b110);
    assert_eq!(m.arithmetics(ArtithmeticsOptcode::Sub, 3, 5), -2);
    assert_eq!(m.flag_bits(), 0b010);
    assert_eq!(m.arithmetics(ArtithmeticsOptcode::Xor, 5, 3), 6);
    assert_eq!(m.flag_bits(), 0b000);
    assert_eq!(m.arithmetics(ArtithmeticsOptcode::Xor, -1, 0), -1);
    assert_eq!(m.flag_bits(), 0b010);
}

#[test]
fn quick_arithmetic_uses_immediate() {
    let code = assemble(&["addq r1 <- r0, 42", "subq r1 <- r1, -8"]);
    let mut m = Interpreter::new(code, 0);
    m.run(100).unwrap();
    assert!(m.is_halted());
    assert_eq!(m.read_register(1), 50);
}

#[test]
fn memory_load_and_store() {
    let code = assemble(&[
        "addq r2 <- r0, 3",
        "addq r1 <- r0, 77",
        "stq r1 -> r2, 2",
        "ldq r5 <- r2, 2",
    ]);
    let mut m = Interpreter::new(code, 16);
    m.run(100).unwrap();
    assert_eq!(m.read_memory(5), 77);
    assert_eq!(m.read_register(5), 77);
}

#[test]
fn unconditional_jump_skips() {
    let code = assemble(&[
        "brq-0 end",
        "addq r1 <- r0, 1",
        "end:",
        "addq r2 <- r0, 2",
    ]);
    let mut m = Interpreter::new(code, 0);
    m.run(100).unwrap();
    assert!(m.is_halted());
    assert_eq!(m.read_register(1), 0);
    assert_eq!(m.read_register(2), 2);
}

#[test]
fn conditional_jump_on_zero_flag() {
    // brq-9: selector 1, checks the zero flag: taken when zero is set
    let taken = assemble(&[
        "sub r3 <- r0, r0",
        "brq-9 end",
        "addq r1 <- r0, 1",
        "end:",
    ]);
    let mut m = Interpreter::new(taken, 0);
    m.run(100).unwrap();
    assert_eq!(m.read_register(1), 0);

    let untaken = assemble(&[
        "addq r3 <- r0, 7",
        "brq-9 end",
        "addq r1 <- r0, 1",
        "end:",
    ]);
    let mut m2 = Interpreter::new(untaken, 0);
    m2.run(100).unwrap();
    assert_eq!(m2.read_register(1), 1);
}

#[test]
fn zero_step_budget_changes_nothing() {
    let code = assemble(&["addq r1 <- r0, 1"]);
    let mut m = Interpreter::new(code, 0);
    m.run(0).unwrap();
    assert!(!m.is_halted());
    assert_eq!(m.read_register(1), 0);
}

#[test]
fn noop_only_advances() {
    let code = vec![Instruction::Noop, Instruction::Noop];
    let mut m = Interpreter::new(code, 0);
    m.run(10).unwrap();
    assert!(m.is_halted());
}

#[test]
fn run_out_of_fuel_stops_mid_program() {
    let code = assemble(&["loop:", "addq r1 <- r1, 1", "brq-0 loop"]);
    let mut m = Interpreter::new(code, 0);
    m.run(6).unwrap();
    assert!(!m.is_halted());
    assert_eq!(m.read_register(1), 3);
}

#[test]
fn negative_effective_address_faults() {
    let code = assemble(&["ldq r1 <- r0, -1"]);
    let mut m = Interpreter::new(code, 1024);
    let e = m.run(10).unwrap_err();
    assert_eq!(e.address, 0xFFFFFFFF);
    assert!(!m.is_halted());
}

#[test]
fn store_past_end_faults() {
    let code = assemble(&["addq r2 <- r0, 100", "stq r1 -> r2, 0"]);
    let mut m = Interpreter::new(code, 100);
    let e = m.run(10).unwrap_err();
    assert_eq!(e.address, 100);
}

#[test]
fn bubble_sort_sorts_seeded_memory() {
    let code = assemble(&[
        "# bubble sort over memory[r1 .. r1+r2)",
        "add r3 <- r2, r0",
        "add r8 <- r1, r2",
        "subq r8 <- r8, 1",
        "outer:",
        "add r4 <- r1, r0",
        "inner:",
        "ldq r5 <- r4, 0",
        "ldq r6 <- r4, 1",
        "sub r7 <- r6, r5",
        "brq-2 noswap",
        "stq r6 -> r4, 0",
        "stq r5 -> r4, 1",
        "noswap:",
        "addq r4 <- r4, 1",
        "sub r9 <- r8, r4",
        "brq-3 inner",
        "subq r3 <- r3, 1",
        "brq-3 outer",
    ]);
    let mut m = Interpreter::new(code, 1024);
    let seed = [5, 3, -8, 1023, 6, 3, 9, 0, 99, 1];
    for (i, v) in seed.iter().enumerate() {
        m.write_memory(i, *v);
    }
    m.write_register(1, 0);
    m.write_register(2, 10);
    m.run(1_000_000).unwrap();
    assert!(m.is_halted());
    let result: Vec<i32> = (0..10).map(|i| m.read_memory(i)).collect();
    assert_eq!(result, vec![-8, 0, 1, 3, 3, 5, 6, 9, 99, 1023]);
}
