//! Binary encoder: packs an instruction into its 32-bit form and
//! renders an instruction sequence as a hex-constant text listing.

use vstd::prelude::*;
use crate::isa::{ArtithmeticsOptcode, ShortArithmeticsOptcode, MemOpt, Instruction};
use crate::isa::{AsmView, compile_spec, first_bad};

verus! {

/// Opcode byte of a register-register arithmetic operation.
pub open spec fn arith_opcode(op: ArtithmeticsOptcode) -> u8 {
    match op {
        ArtithmeticsOptcode::Add => 0x00,
        ArtithmeticsOptcode::Sub => 0x01,
        ArtithmeticsOptcode::Xor => 0x07,
    }
}

/// Opcode byte of a quick arithmetic operation.
pub open spec fn quick_opcode(op: ShortArithmeticsOptcode) -> u8 {
    match op {
        ShortArithmeticsOptcode::Addq => 0x10,
        ShortArithmeticsOptcode::Subq => 0x11,
    }
}

/// Opcode byte of a memory operation.
pub open spec fn mem_opcode(op: MemOpt) -> u8 {
    match op {
        MemOpt::Ldq => 0x30,
        MemOpt::Stq => 0x31,
    }
}

/// The unsigned byte that reinterprets a signed 8-bit value.
pub open spec fn u8_of_i8(x: i8) -> u8 {
    if x >= 0 { x as u8 } else { (x + 256) as u8 }
}

/// The signed 8-bit value whose unsigned reinterpretation is `b`.
pub open spec fn i8_of_u8(b: u8) -> i8 {
    if b < 128 { b as i8 } else { (b - 256) as i8 }
}

/// A 32-bit word from its four bytes, high byte first.
pub open spec fn word_of(b3: u8, b2: u8, b1: u8, b0: u8) -> u32 {
    ((b3 as int) * 0x1000000 + (b2 as int) * 0x10000 + (b1 as int) * 0x100 + (b0 as int)) as u32
}

/// The packed 32-bit form of an instruction: byte 3 the opcode, bytes
/// 2..0 the operands, signed operands reinterpreted as unsigned bytes.
/// Meaningful for every instruction except `Noop`.
pub open spec fn encode_spec(ins: Instruction) -> u32 {
    match ins {
        Instruction::Arithmetic { optcode, target, left, right } =>
            word_of(arith_opcode(optcode), target, left, right),
        Instruction::ArithmeticQuick { optcode, target, left, right_value } =>
            word_of(quick_opcode(optcode), target, left, u8_of_i8(right_value)),
        Instruction::Mem { optcode, value_reg, addr, offset } =>
            word_of(mem_opcode(optcode), value_reg, addr, u8_of_i8(offset)),
        Instruction::Jump { ivnz, offset } =>
            word_of(0x51, ivnz, 0x00, u8_of_i8(offset)),
        Instruction::Noop => 0,
    }
}

/// The instruction whose packed form is `w`, if the opcode byte is one
/// the encoder emits. Byte 1 of a jump word is ignored, as the packed
/// layout leaves it unused.
pub open spec fn decode_spec(w: u32) -> Option<Instruction> {
    let b3 = w / 0x1000000;
    let b2 = (w / 0x10000) % 0x100;
    let b1 = (w / 0x100) % 0x100;
    let b0 = w % 0x100;
    if b3 == 0x00 {
        Some(Instruction::Arithmetic {
            optcode: ArtithmeticsOptcode::Add, target: b2 as u8, left: b1 as u8, right: b0 as u8 })
    } else if b3 == 0x01 {
        Some(Instruction::Arithmetic {
            optcode: ArtithmeticsOptcode::Sub, target: b2 as u8, left: b1 as u8, right: b0 as u8 })
    } else if b3 == 0x07 {
        Some(Instruction::Arithmetic {
            optcode: ArtithmeticsOptcode::Xor, target: b2 as u8, left: b1 as u8, right: b0 as u8 })
    } else if b3 == 0x10 {
        Some(Instruction::ArithmeticQuick {
            optcode: ShortArithmeticsOptcode::Addq, target: b2 as u8, left: b1 as u8,
            right_value: i8_of_u8(b0 as u8) })
    } else if b3 == 0x11 {
        Some(Instruction::ArithmeticQuick {
            optcode: ShortArithmeticsOptcode::Subq, target: b2 as u8, left: b1 as u8,
            right_value: i8_of_u8(b0 as u8) })
    } else if b3 == 0x30 {
        Some(Instruction::Mem {
            optcode: MemOpt::Ldq, value_reg: b2 as u8, addr: b1 as u8,
            offset: i8_of_u8(b0 as u8) })
    } else if b3 == 0x31 {
        Some(Instruction::Mem {
            optcode: MemOpt::Stq, value_reg: b2 as u8, addr: b1 as u8,
            offset: i8_of_u8(b0 as u8) })
    } else if b3 == 0x51 {
        Some(Instruction::Jump { ivnz: b2 as u8, offset: i8_of_u8(b0 as u8) })
    } else {
        None
    }
}

/// The four bytes of `word_of` are recovered by division and remainder.
proof fn lemma_word_bytes(b3: u8, b2: u8, b1: u8, b0: u8)
    ensures
        word_of(b3, b2, b1, b0) / 0x1000000 == b3,
        (word_of(b3, b2, b1, b0) / 0x10000) % 0x100 == b2,
        (word_of(b3, b2, b1, b0) / 0x100) % 0x100 == b1,
        word_of(b3, b2, b1, b0) % 0x100 == b0,
{
    let w = word_of(b3, b2, b1, b0) as int;
    vstd::arithmetic::div_mod::lemma_fundamental_div_mod_converse(
        w, 0x1000000, b3 as int, (b2 as int) * 0x10000 + (b1 as int) * 0x100 + (b0 as int));
    vstd::arithmetic::div_mod::lemma_fundamental_div_mod_converse(
        w, 0x10000, (b3 as int) * 0x100 + (b2 as int), (b1 as int) * 0x100 + (b0 as int));
    vstd::arithmetic::div_mod::lemma_fundamental_div_mod_converse(
        w / 0x10000, 0x100, b3 as int, b2 as int);
    vstd::arithmetic::div_mod::lemma_fundamental_div_mod_converse(
        w, 0x100, (b3 as int) * 0x10000 + (b2 as int) * 0x100 + (b1 as int), b0 as int);
    vstd::arithmetic::div_mod::lemma_fundamental_div_mod_converse(
        w / 0x100, 0x100, (b3 as int) * 0x100 + (b2 as int), b1 as int);
    vstd::arithmetic::div_mod::lemma_fundamental_div_mod_converse(
        w, 0x100, (w / 0x100), b0 as int);
}

/// Decoding an encoded bit pattern reproduces the original instruction,
/// for every representable field value of every encodable instruction.
pub proof fn lemma_encode_decode(ins: Instruction)
    requires
        !(ins matches Instruction::Noop),
    ensures
        decode_spec(encode_spec(ins)) == Some(ins),
{
    match ins {
        Instruction::Arithmetic { optcode, target, left, right } => {
            lemma_word_bytes(arith_opcode(optcode), target, left, right);
        },
        Instruction::ArithmeticQuick { optcode, target, left, right_value } => {
            lemma_word_bytes(quick_opcode(optcode), target, left, u8_of_i8(right_value));
        },
        Instruction::Mem { optcode, value_reg, addr, offset } => {
            lemma_word_bytes(mem_opcode(optcode), value_reg, addr, u8_of_i8(offset));
        },
        Instruction::Jump { ivnz, offset } => {
            lemma_word_bytes(0x51, ivnz, 0x00, u8_of_i8(offset));
        },
        Instruction::Noop => {},
    }
}

/// Packs an instruction into its 32-bit form. Encoding a `Noop` is a
/// programming error, never reachable from valid assembler output, so
/// it is excluded here rather than reported.
pub fn compile_instruction(ins: Instruction) -> (r: u32)
    requires
        !(ins matches Instruction::Noop),
    ensures
        r == encode_spec(ins),
{
    match ins {
        Instruction::Arithmetic { optcode, target, left, right } => {
            let op: u8 = match optcode {
                ArtithmeticsOptcode::Add => 0x00,
                ArtithmeticsOptcode::Sub => 0x01,
                ArtithmeticsOptcode::Xor => 0x07,
            };
            word_pack(op, target, left, right)
        },
        Instruction::ArithmeticQuick { optcode, target, left, right_value } => {
            let op: u8 = match optcode {
                ShortArithmeticsOptcode::Addq => 0x10,
                ShortArithmeticsOptcode::Subq => 0x11,
            };
            word_pack(op, target, left, unsigned_byte(right_value))
        },
        Instruction::Mem { optcode, value_reg, addr, offset } => {
            let op: u8 = match optcode {
                MemOpt::Ldq => 0x30,
                MemOpt::Stq => 0x31,
            };
            word_pack(op, value_reg, addr, unsigned_byte(offset))
        },
        Instruction::Jump { ivnz, offset } => {
            word_pack(0x51, ivnz, 0x00, unsigned_byte(offset))
        },
        Instruction::Noop => {
            // excluded by the precondition
            0
        },
    }
}

/// The instruction a packed 32-bit word decodes to, if its opcode byte
/// is one the encoder emits.
pub fn decode_instruction(w: u32) -> (r: Option<Instruction>)
    ensures
        r == decode_spec(w),
{
    let b3 = w / 0x1000000;
    let b2 = (w / 0x10000) % 0x100;
    let b1 = (w / 0x100) % 0x100;
    let b0 = w % 0x100;
    let t = b2 as u8;
    let l = b1 as u8;
    let v = b0 as u8;
    if b3 == 0x00 {
        Some(Instruction::Arithmetic { optcode: ArtithmeticsOptcode::Add, target: t, left: l, right: v })
    } else if b3 == 0x01 {
        Some(Instruction::Arithmetic { optcode: ArtithmeticsOptcode::Sub, target: t, left: l, right: v })
    } else if b3 == 0x07 {
        Some(Instruction::Arithmetic { optcode: ArtithmeticsOptcode::Xor, target: t, left: l, right: v })
    } else if b3 == 0x10 {
        Some(Instruction::ArithmeticQuick { optcode: ShortArithmeticsOptcode::Addq, target: t, left: l, right_value: signed_byte(v) })
    } else if b3 == 0x11 {
        Some(Instruction::ArithmeticQuick { optcode: ShortArithmeticsOptcode::Subq, target: t, left: l, right_value: signed_byte(v) })
    } else if b3 == 0x30 {
        Some(Instruction::Mem { optcode: MemOpt::Ldq, value_reg: t, addr: l, offset: signed_byte(v) })
    } else if b3 == 0x31 {
        Some(Instruction::Mem { optcode: MemOpt::Stq, value_reg: t, addr: l, offset: signed_byte(v) })
    } else if b3 == 0x51 {
        Some(Instruction::Jump { ivnz: t, offset: signed_byte(v) })
    } else {
        None
    }
}

/// Packs four bytes into a word, high byte first.
fn word_pack(b3: u8, b2: u8, b1: u8, b0: u8) -> (r: u32)
    ensures
        r == word_of(b3, b2, b1, b0),
{
    (b3 as u32) * 0x1000000 + (b2 as u32) * 0x10000 + (b1 as u32) * 0x100 + (b0 as u32)
}

/// Reinterprets a signed byte as unsigned.
fn unsigned_byte(x: i8) -> (r: u8)
    ensures
        r == u8_of_i8(x),
{
    if x >= 0 { x as u8 } else { ((x as i32) + 256) as u8 }
}

/// Reinterprets an unsigned byte as signed.
fn signed_byte(b: u8) -> (r: i8)
    ensures
        r == i8_of_u8(b),
{
    if b < 128 { b as i8 } else { ((b as i32) - 256) as i8 }
}

/// The byte of a decimal digit.
pub open spec fn dec_digit(n: int) -> u8 {
    (0x30 + n) as u8
}

/// The decimal digits of a nonnegative number, most significant first.
pub open spec fn dec_bytes(n: int) -> Seq<u8>
    decreases n,
{
    if n < 10 {
        seq![dec_digit(n)]
    } else {
        dec_bytes(n / 10).push(dec_digit(n % 10))
    }
}

/// The byte of a hexadecimal digit, upper case.
pub open spec fn hex_digit(n: int) -> u8 {
    if n < 10 {
        (0x30 + n) as u8
    } else {
        (0x41 + (n - 10)) as u8
    }
}

/// The four hexadecimal digits of a 16-bit value, most significant
/// first.
pub open spec fn hex4_bytes(v: int) -> Seq<u8> {
    seq![
        hex_digit(v / 0x1000 % 0x10),
        hex_digit(v / 0x100 % 0x10),
        hex_digit(v / 0x10 % 0x10),
        hex_digit(v % 0x10),
    ]
}

/// One listing line: the slot index, then the packed word as an
/// address-indexed hex constant, `<index>=>X"<high16>_<low16>",` with a
/// trailing newline.
pub open spec fn line_bytes(i: int, w: u32) -> Seq<u8> {
    dec_bytes(i) + seq![0x3du8, 0x3eu8, 0x58u8, 0x22u8] + hex4_bytes(w as int / 0x10000)
        + seq![0x5fu8] + hex4_bytes(w as int % 0x10000) + seq![0x22u8, 0x2cu8, 0x0au8]
}

/// The hex-constant listing of the first `k` instructions.
pub open spec fn listing_bytes(ins: Seq<Instruction>, k: int) -> Seq<u8>
    decreases k,
{
    if k <= 0 {
        Seq::empty()
    } else {
        listing_bytes(ins, k - 1) + line_bytes(k - 1, encode_spec(ins[k - 1]))
    }
}

/// The listing as text: its bytes are all ASCII, read as characters.
pub open spec fn listing_chars(ins: Seq<Instruction>) -> Seq<char> {
    listing_bytes(ins, ins.len() as int).map_values(|b: u8| b as char)
}

/// Decimal digits are ASCII.
proof fn lemma_dec_bytes_ascii(n: int)
    requires
        n >= 0,
    ensures
        forall|i: int| 0 <= i < dec_bytes(n).len() ==> dec_bytes(n)[i] < 128,
    decreases n,
{
    if n >= 10 {
        lemma_dec_bytes_ascii(n / 10);
        assert forall|i: int| 0 <= i < dec_bytes(n).len()
            implies dec_bytes(n)[i] < 128 by {
            if i < dec_bytes(n / 10).len() {
                assert(dec_bytes(n)[i] == dec_bytes(n / 10)[i]);
            } else {
                assert(dec_bytes(n)[i] == dec_digit(n % 10));
            }
        }
    }
}

/// A listing line is ASCII.
proof fn lemma_line_ascii(i: int, w: u32)
    requires
        i >= 0,
    ensures
        forall|k: int| 0 <= k < line_bytes(i, w).len() ==> line_bytes(i, w)[k] < 128,
{
    lemma_dec_bytes_ascii(i);
}

/// A listing is ASCII.
proof fn lemma_listing_ascii(ins: Seq<Instruction>, k: int)
    ensures
        forall|j: int| 0 <= j < listing_bytes(ins, k).len() ==> listing_bytes(ins, k)[j] < 128,
    decreases k,
{
    if k > 0 {
        lemma_listing_ascii(ins, k - 1);
        lemma_line_ascii(k - 1, encode_spec(ins[k - 1]));
        let pre = listing_bytes(ins, k - 1);
        let ln = line_bytes(k - 1, encode_spec(ins[k - 1]));
        assert forall|j: int| 0 <= j < listing_bytes(ins, k).len()
            implies listing_bytes(ins, k)[j] < 128 by {
            if j < pre.len() {
                assert(listing_bytes(ins, k)[j] == pre[j]);
            } else {
                assert(listing_bytes(ins, k)[j] == ln[j - pre.len()]);
            }
        }
    }
}

/// Appends the decimal digits of `n`.
fn push_dec(out: &mut Vec<u8>, n: usize)
    ensures
        final(out)@ == old(out)@ + dec_bytes(n as int),
    decreases n,
{
    if n < 10 {
        out.push(0x30 + n as u8);
        proof {
            assert(out@ =~= old(out)@ + dec_bytes(n as int));
        }
    } else {
        push_dec(out, n / 10);
        out.push(0x30 + (n % 10) as u8);
        proof {
            assert(out@ =~= old(out)@ + dec_bytes(n as int));
        }
    }
}

/// The byte of one hexadecimal digit.
fn hex_digit_byte(d: u32) -> (r: u8)
    requires
        d < 16,
    ensures
        r == hex_digit(d as int),
{
    if d < 10 {
        0x30 + d as u8
    } else {
        0x41 + (d - 10) as u8
    }
}

/// Appends the four hexadecimal digits of a 16-bit value.
fn push_hex4(out: &mut Vec<u8>, v: u32)
    requires
        v < 0x10000,
    ensures
        final(out)@ == old(out)@ + hex4_bytes(v as int),
{
    out.push(hex_digit_byte(v / 0x1000 % 0x10));
    out.push(hex_digit_byte(v / 0x100 % 0x10));
    out.push(hex_digit_byte(v / 0x10 % 0x10));
    out.push(hex_digit_byte(v % 0x10));
    proof {
        assert(out@ =~= old(out)@ + hex4_bytes(v as int));
    }
}

/// Appends one listing line for the word `w` at slot `i`.
fn push_line(out: &mut Vec<u8>, i: usize, w: u32)
    ensures
        final(out)@ == old(out)@ + line_bytes(i as int, w),
{
    push_dec(out, i);
    out.push(0x3d);  // '='
    out.push(0x3e);  // '>'
    out.push(0x58);  // 'X'
    out.push(0x22);  // '"'
    push_hex4(out, w / 0x10000);
    out.push(0x5f);  // '_'
    push_hex4(out, w % 0x10000);
    out.push(0x22);  // '"'
    out.push(0x2c);  // ','
    out.push(0x0a);  // newline
    proof {
        assert(out@ =~= old(out)@ + line_bytes(i as int, w));
    }
}

/// Relies on String::from_utf8: a sequence of ASCII bytes decodes to
/// exactly those code points, as characters, and cannot be rejected.
#[verifier::external_body]
fn ascii_string(bytes: Vec<u8>) -> (r: String)
    requires
        forall|k: int| 0 <= k < bytes@.len() ==> bytes@[k] < 128,
    ensures
        r@ == bytes@.map_values(|b: u8| b as char),
{
    match String::from_utf8(bytes) {
        Ok(s) => s,
        Err(_) => String::new(),
    }
}

/// Renders the hex-constant listing of an instruction sequence, one
/// line per instruction. A residual `Noop` is a programming error,
/// excluded here as in `compile_instruction`.
pub fn compile_opt(ins: &Vec<Instruction>) -> (r: String)
    requires
        forall|k: int| 0 <= k < ins@.len() ==> ins@[k] != Instruction::Noop,
    ensures
        r@ == listing_chars(ins@),
{
    let mut bytes: Vec<u8> = Vec::new();
    let mut i: usize = 0;
    while i < ins.len()
        invariant
            i <= ins@.len(),
            forall|k: int| 0 <= k < ins@.len() ==> ins@[k] != Instruction::Noop,
            bytes@ == listing_bytes(ins@, i as int),
        decreases ins@.len() - i,
    {
        let w = compile_instruction(ins[i]);
        push_line(&mut bytes, i, w);
        i = i + 1;
    }
    proof {
        lemma_listing_ascii(ins@, ins@.len() as int);
    }
    ascii_string(bytes)
}

/// Assembly is deterministic: identical statement sequences yield the
/// identical resolution outcome, identical instruction sequences, and
/// identical listing text. The contracts of `compile_asm` and
/// `compile_opt` pin their results to `compile_spec` and
/// `listing_chars`, so two runs over equal inputs agree exactly.
pub proof fn lemma_assembly_deterministic(a: Seq<AsmView>, b: Seq<AsmView>)
    requires
        a == b,
    ensures
        first_bad(a) == first_bad(b),
        compile_spec(a) == compile_spec(b),
        listing_chars(compile_spec(a)) == listing_chars(compile_spec(b)),
{
}

} // verus!
