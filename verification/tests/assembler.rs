use miniasm::isa::{Asm, AsmError, ArtithmeticsOptcode, Instruction, MemOpt, ShortArithmeticsOptcode, compile_asm};
use miniasm::encode::{compile_instruction, compile_opt, decode_instruction};
use miniasm::syntax::{parse_line, parse_lines};

fn parse_program(lines: &[&str]) -> Vec<Asm> {
    let owned: Vec<String> = lines.iter().map(|l| l.to_string()).collect();
    parse_lines(&owned).expect("program should parse")
}

#[test]
fn as_long_maps_quick_to_long() {
    assert_eq!(ShortArithmeticsOptcode::Addq.as_long(), ArtithmeticsOptcode::Add);
    assert_eq!(ShortArithmeticsOptcode::Subq.as_long(), ArtithmeticsOptcode::Sub);
}

#[test]
fn parse_arithmetic_line() {
    let a = parse_line("add r1 <- r2, r3").unwrap();
    assert_eq!(
        a,
        Asm::Instruction(Instruction::Arithmetic {
            optcode: ArtithmeticsOptcode::Add,
            target: 1,
            left: 2,
            right: 3,
        })
    );
}

#[test]
fn parse_whitespace_insensitive() {
    let a = parse_line("  sub   r10   <-   r20 ,  r30  ").unwrap();
    assert_eq!(
        a,
        Asm::Instruction(Instruction::Arithmetic {
            optcode: ArtithmeticsOptcode::Sub,
            target: 10,
            left: 20,
            right: 30,
        })
    );
}

#[test]
fn parse_quick_and_mem_and_raw() {
    assert_eq!(
        parse_line("addq r1 <- r2, -5").unwrap(),
        Asm::Instruction(Instruction::ArithmeticQuick {
            optcode: ShortArithmeticsOptcode::Addq,
            target: 1,
            left: 2,
            right_value: -5,
        })
    );
    assert_eq!(
        parse_line("subq r255 <- r0, 127").unwrap(),
        Asm::Instruction(Instruction::ArithmeticQuick {
            optcode: ShortArithmeticsOptcode::Subq,
            target: 255,
            left: 0,
            right_value: 127,
        })
    );
    assert_eq!(
        parse_line("ldq r4 <- r5, -8").unwrap(),
        Asm::Instruction(Instruction::Mem {
            optcode: MemOpt::Ldq,
            value_reg: 4,
            addr: 5,
            offset: -8,
        })
    );
    assert_eq!(
        parse_line("stq r4 -> r5, 3").unwrap(),
        Asm::Instruction(Instruction::Mem {
            optcode: MemOpt::Stq,
            value_reg: 4,
            addr: 5,
            offset: 3,
        })
    );
    assert_eq!(
        parse_line("brq-raw-9 -3").unwrap(),
        Asm::Instruction(Instruction::Jump { ivnz: 9, offset: -3 })
    );
}

#[test]
fn parse_label_jump_comment() {
    assert_eq!(parse_line("loop:").unwrap(), Asm::Label("loop".to_string()));
    assert_eq!(parse_line("  loop :  ").unwrap(), Asm::Label("loop".to_string()));
    assert_eq!(
        parse_line("brq-3 loop").unwrap(),
        Asm::Jump { label: "loop".to_string(), ivnz: 3 }
    );
    assert_eq!(
        parse_line("# a comment: with a colon").unwrap(),
        Asm::Comment(" a comment: with a colon".to_string())
    );
}

#[test]
fn labels_may_look_like_keywords() {
    assert_eq!(parse_line("add:").unwrap(), Asm::Label("add".to_string()));
    assert_eq!(parse_line("addition:").unwrap(), Asm::Label("addition".to_string()));
    assert_eq!(parse_line("brq-raw-5:").unwrap(), Asm::Label("brq-raw-5".to_string()));
}

#[test]
fn empty_comment_is_a_comment() {
    assert_eq!(parse_line("#").unwrap(), Asm::Comment("".to_string()));
    assert_eq!(parse_line("   #tail").unwrap(), Asm::Comment("tail".to_string()));
}

#[test]
fn parse_rejects_malformed_lines() {
    for bad in [
        "",
        "   ",
        "frobnicate r1",
        "add r1 <- r2",
        "add r1 <- r2, 5",
        "addq r1 <- r2, r3",
        "add r300 <- r1, r2",
        "addq r1 <- r2, 128",
        "addq r1 <- r2, -129",
        "brq-300 loop",
        "add r1 <- r2, r3 trailing",
    ] {
        let e = parse_line(bad).expect_err(bad);
        assert_eq!(e.line, bad);
    }
    assert!(parse_line("addq r1 <- r2, -128").is_ok());
    assert!(parse_line("brq-15 loop").is_ok());
}

#[test]
fn assemble_single_arithmetic_line() {
    let prog = parse_program(&["add r1 <- r2, r3"]);
    let code = compile_asm(&prog).unwrap();
    assert_eq!(
        code,
        vec![Instruction::Arithmetic {
            optcode: ArtithmeticsOptcode::Add,
            target: 1,
            left: 2,
            right: 3,
        }]
    );
    assert_eq!(compile_opt(&code), "0=>X\"0001_0203\",\n");
}

#[test]
fn encode_exact_words() {
    assert_eq!(
        compile_instruction(Instruction::Arithmetic {
            optcode: ArtithmeticsOptcode::Xor,
            target: 9,
            left: 0,
            right: 255,
        }),
        0x070900FF
    );
    assert_eq!(
        compile_instruction(Instruction::ArithmeticQuick {
            optcode: ShortArithmeticsOptcode::Subq,
            target: 3,
            left: 3,
            right_value: -1,
        }),
        0x110303FF
    );
    assert_eq!(
        compile_instruction(Instruction::Mem {
            optcode: MemOpt::Stq,
            value_reg: 5,
            addr: 6,
            offset: -8,
        }),
        0x310506F8
    );
    assert_eq!(
        compile_instruction(Instruction::Jump { ivnz: 5, offset: -1 }),
        0x510500FF
    );
}

#[test]
fn decode_recovers_encoded_instructions() {
    let samples = [
        Instruction::Arithmetic { optcode: ArtithmeticsOptcode::Add, target: 0, left: 0, right: 0 },
        Instruction::Arithmetic { optcode: ArtithmeticsOptcode::Sub, target: 255, left: 1, right: 2 },
        Instruction::Arithmetic { optcode: ArtithmeticsOptcode::Xor, target: 7, left: 7, right: 7 },
        Instruction::ArithmeticQuick {
            optcode: ShortArithmeticsOptcode::Addq, target: 1, left: 2, right_value: -128 },
        Instruction::ArithmeticQuick {
            optcode: ShortArithmeticsOptcode::Subq, target: 1, left: 2, right_value: 127 },
        Instruction::Mem { optcode: MemOpt::Ldq, value_reg: 10, addr: 20, offset: -1 },
        Instruction::Mem { optcode: MemOpt::Stq, value_reg: 30, addr: 40, offset: 0 },
        Instruction::Jump { ivnz: 15, offset: -100 },
        Instruction::Jump { ivnz: 0, offset: 100 },
    ];
    for ins in samples {
        assert_eq!(decode_instruction(compile_instruction(ins)), Some(ins));
    }
    assert_eq!(decode_instruction(0xFF000000), None);
}

#[test]
fn assembling_twice_is_deterministic() {
    let lines = [
        "# determinism probe",
        "start:",
        "addq r1 <- r1, 1",
        "sub r2 <- r2, r1",
        "brq-3 start",
    ];
    let p1 = parse_program(&lines);
    let p2 = parse_program(&lines);
    let c1 = compile_asm(&p1).unwrap();
    let c2 = compile_asm(&p2).unwrap();
    assert_eq!(c1, c2);
    assert_eq!(compile_opt(&c1), compile_opt(&c2));
}

#[test]
fn backward_jump_offset_is_label_minus_jump_address() {
    let prog = parse_program(&[
        "l1:",
        "add r1 <- r1, r2",
        "xor r2 <- r2, r2",
        "brq-0 l1",
    ]);
    let code = compile_asm(&prog).unwrap();
    // the jump stands at address 2; l1 names address 0
    assert_eq!(code[2], Instruction::Jump { ivnz: 0, offset: 0 - 2 });
}

#[test]
fn forward_jump_offset_is_label_minus_jump_address() {
    let prog = parse_program(&[
        "brq-0 end",
        "add r1 <- r1, r2",
        "end:",
        "xor r2 <- r2, r2",
    ]);
    let code = compile_asm(&prog).unwrap();
    assert_eq!(code[0], Instruction::Jump { ivnz: 0, offset: 2 });
}

#[test]
fn trailing_labels_leave_no_noop() {
    let prog = parse_program(&[
        "add r1 <- r1, r2",
        "# comment consumes no address",
        "end:",
        "done:",
    ]);
    let code = compile_asm(&prog).unwrap();
    assert_eq!(code.len(), 1);
    assert_ne!(*code.last().unwrap(), Instruction::Noop);
}

#[test]
fn unresolved_label_is_reported() {
    let prog = parse_program(&["add r1 <- r1, r2", "brq-3 nowhere"]);
    let e = compile_asm(&prog).unwrap_err();
    assert_eq!(e, AsmError::UnresolvedLabel { index: 1, label: "nowhere".to_string() });
}

#[test]
fn out_of_range_offset_is_reported() {
    let mut prog = vec![Asm::Label("start".to_string())];
    for _ in 0..200 {
        prog.push(Asm::Instruction(Instruction::Arithmetic {
            optcode: ArtithmeticsOptcode::Add,
            target: 0,
            left: 0,
            right: 0,
        }));
    }
    prog.push(Asm::Jump { label: "start".to_string(), ivnz: 0 });
    let e = compile_asm(&prog).unwrap_err();
    assert_eq!(e, AsmError::OffsetOutOfRange { index: 201 });
    // a jump just in range still assembles
    let mut near = vec![Asm::Label("start".to_string())];
    for _ in 0..128 {
        near.push(Asm::Instruction(Instruction::Arithmetic {
            optcode: ArtithmeticsOptcode::Add,
            target: 0,
            left: 0,
            right: 0,
        }));
    }
    near.push(Asm::Jump { label: "start".to_string(), ivnz: 0 });
    let code = compile_asm(&near).unwrap();
    assert_eq!(code[128], Instruction::Jump { ivnz: 0, offset: -128 });
}

#[test]
fn duplicate_label_last_wins() {
    let prog = parse_program(&[
        "l:",
        "add r1 <- r1, r2",
        "l:",
        "add r1 <- r1, r2",
        "brq-0 l",
    ]);
    let code = compile_asm(&prog).unwrap();
    assert_eq!(code[2], Instruction::Jump { ivnz: 0, offset: -1 });
}

#[test]
fn explicit_noop_padding_in_the_middle_is_kept() {
    let prog = vec![
        Asm::Instruction(Instruction::Noop),
        Asm::Instruction(Instruction::Arithmetic {
            optcode: ArtithmeticsOptcode::Add,
            target: 0,
            left: 0,
            right: 0,
        }),
        Asm::Instruction(Instruction::Noop),
    ];
    let code = compile_asm(&prog).unwrap();
    assert_eq!(code.len(), 2);
    assert_eq!(code[0], Instruction::Noop);
}

#[test]
fn listing_renders_every_slot_index() {
    let prog = parse_program(&[
        "add r1 <- r2, r3",
        "subq r4 <- r4, -1",
        "brq-raw-0 1",
    ]);
    let code = compile_asm(&prog).unwrap();
    let text = compile_opt(&code);
    assert_eq!(text, "0=>X\"0001_0203\",\n1=>X\"1104_04FF\",\n2=>X\"5100_0001\",\n");
}

#[test]
fn parse_lines_reports_first_bad_line() {
    let lines: Vec<String> = vec![
        "add r1 <- r2, r3".to_string(),
        "not a statement !".to_string(),
        "also bad".to_string(),
    ];
    let e = parse_lines(&lines).unwrap_err();
    assert_eq!(e.line, "not a statement !");
}
