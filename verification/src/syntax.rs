//! Syntax model: the grammar mapping one source line to one statement.
//!
//! Recognized forms, whitespace-insensitive and line-anchored (any
//! amount of blank space may stand between tokens):
//! - arithmetic: `<op> r<target> <- r<left>, r<right>`, op `add`, `sub`, `xor`;
//! - quick arithmetic: `<op> r<target> <- r<left>, <int>`, op `addq`, `subq`;
//! - memory: `<op> r<value> <- r<addr>, <int>` (or `->`), op `ldq`, `stq`;
//! - raw jump: `brq-raw-<mask> <int>`, an already-resolved relative jump;
//! - label definition: `<name>:`;
//! - symbolic jump: `brq-<mask> <name>`;
//! - comment: `#<text>`.
//!
//! A line starting (after blank space) with `#` is always a comment;
//! otherwise the instruction forms are tried first, then a label
//! definition, then a symbolic jump, and the first form that matches
//! the whole line wins. A name extends to the next blank, `:` or `#`.

use vstd::prelude::*;
use crate::isa::{Asm, AsmView, ArtithmeticsOptcode, ShortArithmeticsOptcode, MemOpt, Instruction};

verus! {

/// A line that matches no grammar form; fatal for the whole assembly.
#[derive(Debug, Clone, PartialEq, Eq)]
pub struct SyntaxError {
    /// The offending line, verbatim.
    pub line: String,
}

impl View for SyntaxError {
    type V = Seq<char>;

    open spec fn view(&self) -> Seq<char> {
        self.line@
    }
}

/// Blank space between tokens.
pub open spec fn is_space(c: char) -> bool {
    c == ' ' || c == '\t' || c == '\r'
}

/// A decimal digit.
pub open spec fn is_digit(c: char) -> bool {
    0x30 <= c as u32 <= 0x39
}

/// The value of a decimal digit.
pub open spec fn digit_val(c: char) -> int {
    c as u32 - 0x30
}

/// A character a name may contain: anything but blank space, `:`, `#`.
pub open spec fn is_name_char(c: char) -> bool {
    !is_space(c) && c != ':' && c != '#'
}

/// The position of the first non-blank character at or after `i`.
pub open spec fn skip_ws(s: Seq<char>, i: int) -> int
    decreases s.len() - i,
{
    if 0 <= i < s.len() && is_space(s[i]) {
        skip_ws(s, i + 1)
    } else {
        i
    }
}

/// The end of the run of decimal digits starting at `i`.
pub open spec fn num_end(s: Seq<char>, i: int) -> int
    decreases s.len() - i,
{
    if 0 <= i < s.len() && is_digit(s[i]) {
        num_end(s, i + 1)
    } else {
        i
    }
}

/// The value of the digits `s[i..j)`.
pub open spec fn num_val(s: Seq<char>, i: int, j: int) -> int
    decreases j - i,
{
    if j <= i {
        0
    } else {
        num_val(s, i, j - 1) * 10 + digit_val(s[j - 1])
    }
}

/// The end of the run of name characters starting at `i`.
pub open spec fn name_end(s: Seq<char>, i: int) -> int
    decreases s.len() - i,
{
    if 0 <= i < s.len() && is_name_char(s[i]) {
        name_end(s, i + 1)
    } else {
        i
    }
}

/// Whether the literal `p` stands at position `i` of `s`.
pub open spec fn lit_at(s: Seq<char>, i: int, p: Seq<char>) -> bool {
    &&& 0 <= i
    &&& i + p.len() <= s.len()
    &&& forall|k: int| 0 <= k < p.len() ==> s[i + k] == p[k]
}

/// An unsigned decimal number at `i` that fits a byte: its value and
/// its end.
pub open spec fn u8_at(s: Seq<char>, i: int) -> Option<(u8, int)> {
    let j = num_end(s, i);
    if j > i && num_val(s, i, j) <= 255 {
        Some((num_val(s, i, j) as u8, j))
    } else {
        None::<(u8, int)>
    }
}

/// A signed decimal number at `i` (optional leading `-`) that fits a
/// signed byte: its value and its end.
pub open spec fn i8_at(s: Seq<char>, i: int) -> Option<(i8, int)> {
    if 0 <= i < s.len() && s[i] == '-' {
        let j = num_end(s, i + 1);
        if j > i + 1 && num_val(s, i + 1, j) <= 128 {
            Some(((0 - num_val(s, i + 1, j)) as i8, j))
        } else {
            None::<(i8, int)>
        }
    } else {
        let j = num_end(s, i);
        if j > i && num_val(s, i, j) <= 127 {
            Some((num_val(s, i, j) as i8, j))
        } else {
            None::<(i8, int)>
        }
    }
}

/// A register operand `r<index>` at `i`: its index and its end.
pub open spec fn reg_at(s: Seq<char>, i: int) -> Option<(u8, int)> {
    if 0 <= i < s.len() && s[i] == 'r' {
        u8_at(s, i + 1)
    } else {
        None::<(u8, int)>
    }
}

/// The tail of a register-register arithmetic line after its keyword:
/// `r<target> <- r<left>, r<right>`, anchored to the end.
pub open spec fn arith_tail(s: Seq<char>, i: int, op: ArtithmeticsOptcode) -> Option<Instruction> {
    match reg_at(s, skip_ws(s, i)) {
        None => None::<Instruction>,
        Some((target, i1)) => {
            let i2 = skip_ws(s, i1);
            if !lit_at(s, i2, "<-"@) {
                None::<Instruction>
            } else {
                match reg_at(s, skip_ws(s, i2 + 2)) {
                    None => None::<Instruction>,
                    Some((left, i3)) => {
                        let i4 = skip_ws(s, i3);
                        if !(0 <= i4 < s.len() && s[i4] == ',') {
                            None::<Instruction>
                        } else {
                            match reg_at(s, skip_ws(s, i4 + 1)) {
                                None => None::<Instruction>,
                                Some((right, i5)) => {
                                    if skip_ws(s, i5) == s.len() {
                                        Some(Instruction::Arithmetic { optcode: op, target, left, right })
                                    } else {
                                        None::<Instruction>
                                    }
                                },
                            }
                        }
                    },
                }
            }
        },
    }
}

/// The tail of a quick arithmetic line after its keyword:
/// `r<target> <- r<left>, <int>`, anchored to the end.
pub open spec fn quick_tail(s: Seq<char>, i: int, op: ShortArithmeticsOptcode) -> Option<Instruction> {
    match reg_at(s, skip_ws(s, i)) {
        None => None::<Instruction>,
        Some((target, i1)) => {
            let i2 = skip_ws(s, i1);
            if !lit_at(s, i2, "<-"@) {
                None::<Instruction>
            } else {
                match reg_at(s, skip_ws(s, i2 + 2)) {
                    None => None::<Instruction>,
                    Some((left, i3)) => {
                        let i4 = skip_ws(s, i3);
                        if !(0 <= i4 < s.len() && s[i4] == ',') {
                            None::<Instruction>
                        } else {
                            match i8_at(s, skip_ws(s, i4 + 1)) {
                                None => None::<Instruction>,
                                Some((value, i5)) => {
                                    if skip_ws(s, i5) == s.len() {
                                        Some(Instruction::ArithmeticQuick { optcode: op, target, left, right_value: value })
                                    } else {
                                        None::<Instruction>
                                    }
                                },
                            }
                        }
                    },
                }
            }
        },
    }
}

/// The tail of a memory line after its keyword:
/// `r<value> <- r<addr>, <int>` with `<-` or `->`, anchored to the end.
/// The arrow's direction is not semantically distinguishing.
pub open spec fn mem_tail(s: Seq<char>, i: int, op: MemOpt) -> Option<Instruction> {
    match reg_at(s, skip_ws(s, i)) {
        None => None::<Instruction>,
        Some((value_reg, i1)) => {
            let i2 = skip_ws(s, i1);
            if !(lit_at(s, i2, "<-"@) || lit_at(s, i2, "->"@)) {
                None::<Instruction>
            } else {
                match reg_at(s, skip_ws(s, i2 + 2)) {
                    None => None::<Instruction>,
                    Some((addr, i3)) => {
                        let i4 = skip_ws(s, i3);
                        if !(0 <= i4 < s.len() && s[i4] == ',') {
                            None::<Instruction>
                        } else {
                            match i8_at(s, skip_ws(s, i4 + 1)) {
                                None => None::<Instruction>,
                                Some((offset, i5)) => {
                                    if skip_ws(s, i5) == s.len() {
                                        Some(Instruction::Mem { optcode: op, value_reg, addr, offset })
                                    } else {
                                        None::<Instruction>
                                    }
                                },
                            }
                        }
                    },
                }
            }
        },
    }
}

/// The tail of a raw jump line after `brq-raw-`: the mask digits, then
/// a signed offset, anchored to the end.
pub open spec fn raw_jump_tail(s: Seq<char>, i: int) -> Option<Instruction> {
    match u8_at(s, i) {
        None => None::<Instruction>,
        Some((mask, j)) => {
            match i8_at(s, skip_ws(s, j)) {
                None => None::<Instruction>,
                Some((offset, j2)) => {
                    if skip_ws(s, j2) == s.len() {
                        Some(Instruction::Jump { ivnz: mask, offset })
                    } else {
                        None::<Instruction>
                    }
                },
            }
        },
    }
}

/// An instruction line at `i`: the forms are tried in a fixed order;
/// quick keywords stand before their prefixes.
pub open spec fn instr_spec(s: Seq<char>, i: int) -> Option<Instruction> {
    if lit_at(s, i, "addq"@) {
        quick_tail(s, i + 4, ShortArithmeticsOptcode::Addq)
    } else if lit_at(s, i, "subq"@) {
        quick_tail(s, i + 4, ShortArithmeticsOptcode::Subq)
    } else if lit_at(s, i, "add"@) {
        arith_tail(s, i + 3, ArtithmeticsOptcode::Add)
    } else if lit_at(s, i, "sub"@) {
        arith_tail(s, i + 3, ArtithmeticsOptcode::Sub)
    } else if lit_at(s, i, "xor"@) {
        arith_tail(s, i + 3, ArtithmeticsOptcode::Xor)
    } else if lit_at(s, i, "ldq"@) {
        mem_tail(s, i + 3, MemOpt::Ldq)
    } else if lit_at(s, i, "stq"@) {
        mem_tail(s, i + 3, MemOpt::Stq)
    } else if lit_at(s, i, "brq-raw-"@) {
        raw_jump_tail(s, i + 8)
    } else {
        None::<Instruction>
    }
}

/// A label-definition line at `i`: `<name>:`, anchored to the end.
pub open spec fn label_spec(s: Seq<char>, i: int) -> Option<Seq<char>> {
    let j = name_end(s, i);
    if j > i {
        let k = skip_ws(s, j);
        if 0 <= k < s.len() && s[k] == ':' && skip_ws(s, k + 1) == s.len() {
            Some(s.subrange(i, j))
        } else {
            None::<Seq<char>>
        }
    } else {
        None::<Seq<char>>
    }
}

/// A symbolic-jump line at `i`: `brq-<mask> <name>`, anchored to the
/// end: the mask and the name.
pub open spec fn symjump_spec(s: Seq<char>, i: int) -> Option<(u8, Seq<char>)> {
    if lit_at(s, i, "brq-"@) {
        match u8_at(s, i + 4) {
            None => None::<(u8, Seq<char>)>,
            Some((mask, j)) => {
                let k = skip_ws(s, j);
                let e = name_end(s, k);
                if e > k && skip_ws(s, e) == s.len() {
                    Some((mask, s.subrange(k, e)))
                } else {
                    None::<(u8, Seq<char>)>
                }
            },
        }
    } else {
        None::<(u8, Seq<char>)>
    }
}

/// The statement a whole line parses to, if any: a comment if `#`
/// opens it, else the first matching form among instruction, label
/// definition, and symbolic jump.
pub open spec fn line_spec(s: Seq<char>) -> Option<AsmView> {
    let i = skip_ws(s, 0);
    if 0 <= i < s.len() && s[i] == '#' {
        Some(AsmView::Comment(s.subrange(i + 1, s.len() as int)))
    } else {
        match instr_spec(s, i) {
            Some(ins) => Some(AsmView::Instruction(ins)),
            None => match label_spec(s, i) {
                Some(name) => Some(AsmView::Label(name)),
                None => match symjump_spec(s, i) {
                    Some((mask, label)) => Some(AsmView::Jump { label, ivnz: mask }),
                    None => None::<AsmView>,
                },
            },
        }
    }
}

/// The grammar has no placeholder form: no line parses to a `Noop`
/// instruction, so an assembled parsed program holds none anywhere.
pub proof fn lemma_grammar_emits_no_placeholder(s: Seq<char>)
    ensures
        line_spec(s) != Some(AsmView::Instruction(Instruction::Noop)),
{
}

/// The characters of a line, as a vector.
fn collect_chars(s: &str) -> (v: Vec<char>)
    ensures
        v@ == s@,
{
    let n = s.unicode_len();
    let mut v: Vec<char> = Vec::new();
    let mut i: usize = 0;
    while i < n
        invariant
            i <= n,
            n == s@.len(),
            v@ == s@.subrange(0, i as int),
        decreases n - i,
    {
        v.push(s.get_char(i));
        proof {
            assert(v@ =~= s@.subrange(0, (i + 1) as int));
        }
        i = i + 1;
    }
    proof {
        assert(s@.subrange(0, n as int) =~= s@);
    }
    v
}

/// Whether `c` is blank space.
fn space_char(c: char) -> (b: bool)
    ensures
        b == is_space(c),
{
    c == ' ' || c == '\t' || c == '\r'
}

/// Whether `c` is a decimal digit.
fn digit_char(c: char) -> (b: bool)
    ensures
        b == is_digit(c),
{
    let u = c as u32;
    0x30 <= u && u <= 0x39
}

/// Whether `c` may stand in a name.
fn name_char(c: char) -> (b: bool)
    ensures
        b == is_name_char(c),
{
    !space_char(c) && c != ':' && c != '#'
}

/// The position of the first non-blank character at or after `i`.
fn skip_ws_at(v: &Vec<char>, i: usize) -> (r: usize)
    requires
        i <= v@.len(),
    ensures
        r == skip_ws(v@, i as int),
        i <= r <= v@.len(),
{
    let mut j = i;
    while j < v.len() && space_char(v[j])
        invariant
            i <= j <= v@.len(),
            skip_ws(v@, i as int) == skip_ws(v@, j as int),
        decreases v@.len() - j,
    {
        j = j + 1;
    }
    j
}

/// The end of the run of name characters starting at `i`.
fn name_end_at(v: &Vec<char>, i: usize) -> (r: usize)
    requires
        i <= v@.len(),
    ensures
        r == name_end(v@, i as int),
        i <= r <= v@.len(),
{
    let mut j = i;
    while j < v.len() && name_char(v[j])
        invariant
            i <= j <= v@.len(),
            name_end(v@, i as int) == name_end(v@, j as int),
        decreases v@.len() - j,
    {
        j = j + 1;
    }
    j
}

/// Scans the digit run at `i`: its end, and its value capped just
/// above a byte, enough to decide every range check the grammar makes.
fn digits_at(v: &Vec<char>, i: usize) -> (r: (u32, usize))
    requires
        i <= v@.len(),
    ensures
        r.1 == num_end(v@, i as int),
        i <= r.1 <= v@.len(),
        num_val(v@, i as int, r.1 as int) <= 255 ==> r.0 == num_val(v@, i as int, r.1 as int),
        num_val(v@, i as int, r.1 as int) > 255 ==> r.0 > 255,
{
    let mut j = i;
    let mut acc: u32 = 0;
    while j < v.len() && digit_char(v[j])
        invariant
            i <= j <= v@.len(),
            num_end(v@, i as int) == num_end(v@, j as int),
            acc <= 2569,
            num_val(v@, i as int, j as int) <= 255 ==> acc == num_val(v@, i as int, j as int),
            num_val(v@, i as int, j as int) > 255 ==> acc > 255,
        decreases v@.len() - j,
    {
        let d = (v[j] as u32) - 0x30;
        if acc <= 255 {
            acc = acc * 10 + d;
        }
        proof {
            assert(num_val(v@, i as int, (j + 1) as int)
                == num_val(v@, i as int, j as int) * 10 + digit_val(v@[j as int]));
        }
        j = j + 1;
    }
    (acc, j)
}

/// An unsigned decimal number at `i` that fits a byte.
fn parse_u8_at(v: &Vec<char>, i: usize) -> (r: Option<(u8, usize)>)
    requires
        i <= v@.len(),
    ensures
        r matches Some(p) ==> u8_at(v@, i as int) == Some((p.0, p.1 as int)) && i <= p.1 <= v@.len(),
        r is None ==> u8_at(v@, i as int) is None,
{
    let (acc, j) = digits_at(v, i);
    if j > i && acc <= 255 {
        Some((acc as u8, j))
    } else {
        None
    }
}

/// A signed decimal number at `i` that fits a signed byte.
fn parse_i8_at(v: &Vec<char>, i: usize) -> (r: Option<(i8, usize)>)
    requires
        i <= v@.len(),
    ensures
        r matches Some(p) ==> i8_at(v@, i as int) == Some((p.0, p.1 as int)) && i <= p.1 <= v@.len(),
        r is None ==> i8_at(v@, i as int) is None,
{
    if i < v.len() && v[i] == '-' {
        let (acc, j) = digits_at(v, i + 1);
        if j > i + 1 && acc <= 128 {
            Some(((0 - (acc as i32)) as i8, j))
        } else {
            None
        }
    } else {
        let (acc, j) = digits_at(v, i);
        if j > i && acc <= 127 {
            Some(((acc as u8) as i8, j))
        } else {
            None
        }
    }
}

/// A register operand `r<index>` at `i`.
fn parse_reg_at(v: &Vec<char>, i: usize) -> (r: Option<(u8, usize)>)
    requires
        i <= v@.len(),
    ensures
        r matches Some(p) ==> reg_at(v@, i as int) == Some((p.0, p.1 as int)) && i <= p.1 <= v@.len(),
        r is None ==> reg_at(v@, i as int) is None,
{
    if i < v.len() && v[i] == 'r' {
        parse_u8_at(v, i + 1)
    } else {
        None
    }
}

/// Whether the literal `p` stands at position `i`.
fn match_lit(v: &Vec<char>, i: usize, p: &str) -> (b: bool)
    requires
        i <= v@.len(),
    ensures
        b == lit_at(v@, i as int, p@),
{
    let pl = p.unicode_len();
    if pl > v.len() - i {
        return false;
    }
    let mut k: usize = 0;
    while k < pl
        invariant
            k <= pl,
            pl == p@.len(),
            i + pl <= v@.len(),
            v@.len() <= usize::MAX,
            forall|t: int| 0 <= t < k ==> v@[i + t] == p@[t],
        decreases pl - k,
    {
        proof {
            assert(i + k < v@.len());
        }
        let idx: usize = i + k;
        if v[idx] != p.get_char(k) {
            return false;
        }
        k = k + 1;
    }
    true
}

/// The tail of a register-register arithmetic line.
fn parse_arith_tail(v: &Vec<char>, i: usize, op: ArtithmeticsOptcode) -> (r: Option<Instruction>)
    requires
        i <= v@.len(),
    ensures
        r == arith_tail(v@, i as int, op),
{
    proof {
        assert(v@.len() == v.len());
        reveal_strlit("<-");
    }
    match parse_reg_at(v, skip_ws_at(v, i)) {
        None => None,
        Some((target, i1)) => {
            let i2 = skip_ws_at(v, i1);
            if !match_lit(v, i2, "<-") {
                None
            } else {
                match parse_reg_at(v, skip_ws_at(v, i2 + 2)) {
                    None => None,
                    Some((left, i3)) => {
                        let i4 = skip_ws_at(v, i3);
                        if !(i4 < v.len() && v[i4] == ',') {
                            None
                        } else {
                            match parse_reg_at(v, skip_ws_at(v, i4 + 1)) {
                                None => None,
                                Some((right, i5)) => {
                                    if skip_ws_at(v, i5) == v.len() {
                                        Some(Instruction::Arithmetic { optcode: op, target, left, right })
                                    } else {
                                        None
                                    }
                                },
                            }
                        }
                    },
                }
            }
        },
    }
}

/// The tail of a quick arithmetic line.
fn parse_quick_tail(v: &Vec<char>, i: usize, op: ShortArithmeticsOptcode) -> (r: Option<Instruction>)
    requires
        i <= v@.len(),
    ensures
        r == quick_tail(v@, i as int, op),
{
    proof {
        assert(v@.len() == v.len());
        reveal_strlit("<-");
    }
    match parse_reg_at(v, skip_ws_at(v, i)) {
        None => None,
        Some((target, i1)) => {
            let i2 = skip_ws_at(v, i1);
            if !match_lit(v, i2, "<-") {
                None
            } else {
                match parse_reg_at(v, skip_ws_at(v, i2 + 2)) {
                    None => None,
                    Some((left, i3)) => {
                        let i4 = skip_ws_at(v, i3);
                        if !(i4 < v.len() && v[i4] == ',') {
                            None
                        } else {
                            match parse_i8_at(v, skip_ws_at(v, i4 + 1)) {
                                None => None,
                                Some((value, i5)) => {
                                    if skip_ws_at(v, i5) == v.len() {
                                        Some(Instruction::ArithmeticQuick {
                                            optcode: op, target, left, right_value: value })
                                    } else {
                                        None
                                    }
                                },
                            }
                        }
                    },
                }
            }
        },
    }
}

/// The tail of a memory line.
fn parse_mem_tail(v: &Vec<char>, i: usize, op: MemOpt) -> (r: Option<Instruction>)
    requires
        i <= v@.len(),
    ensures
        r == mem_tail(v@, i as int, op),
{
    proof {
        assert(v@.len() == v.len());
        reveal_strlit("<-");
        reveal_strlit("->");
    }
    match parse_reg_at(v, skip_ws_at(v, i)) {
        None => None,
        Some((value_reg, i1)) => {
            let i2 = skip_ws_at(v, i1);
            if !(match_lit(v, i2, "<-") || match_lit(v, i2, "->")) {
                None
            } else {
                match parse_reg_at(v, skip_ws_at(v, i2 + 2)) {
                    None => None,
                    Some((addr, i3)) => {
                        let i4 = skip_ws_at(v, i3);
                        if !(i4 < v.len() && v[i4] == ',') {
                            None
                        } else {
                            match parse_i8_at(v, skip_ws_at(v, i4 + 1)) {
                                None => None,
                                Some((offset, i5)) => {
                                    if skip_ws_at(v, i5) == v.len() {
                                        Some(Instruction::Mem { optcode: op, value_reg, addr, offset })
                                    } else {
                                        None
                                    }
                                },
                            }
                        }
                    },
                }
            }
        },
    }
}

/// The tail of a raw jump line after `brq-raw-`.
fn parse_raw_jump_tail(v: &Vec<char>, i: usize) -> (r: Option<Instruction>)
    requires
        i <= v@.len(),
    ensures
        r == raw_jump_tail(v@, i as int),
{
    proof {
        assert(v@.len() == v.len());
    }
    match parse_u8_at(v, i) {
        None => None,
        Some((mask, j)) => {
            match parse_i8_at(v, skip_ws_at(v, j)) {
                None => None,
                Some((offset, j2)) => {
                    if skip_ws_at(v, j2) == v.len() {
                        Some(Instruction::Jump { ivnz: mask, offset })
                    } else {
                        None
                    }
                },
            }
        },
    }
}

/// An instruction line at `i`.
fn parse_instruction(v: &Vec<char>, i: usize) -> (r: Option<Instruction>)
    requires
        i <= v@.len(),
    ensures
        r == instr_spec(v@, i as int),
{
    proof {
        assert(v@.len() == v.len());
        reveal_strlit("addq");
        reveal_strlit("subq");
        reveal_strlit("add");
        reveal_strlit("sub");
        reveal_strlit("xor");
        reveal_strlit("ldq");
        reveal_strlit("stq");
        reveal_strlit("brq-raw-");
    }
    if match_lit(v, i, "addq") {
        parse_quick_tail(v, i + 4, ShortArithmeticsOptcode::Addq)
    } else if match_lit(v, i, "subq") {
        parse_quick_tail(v, i + 4, ShortArithmeticsOptcode::Subq)
    } else if match_lit(v, i, "add") {
        parse_arith_tail(v, i + 3, ArtithmeticsOptcode::Add)
    } else if match_lit(v, i, "sub") {
        parse_arith_tail(v, i + 3, ArtithmeticsOptcode::Sub)
    } else if match_lit(v, i, "xor") {
        parse_arith_tail(v, i + 3, ArtithmeticsOptcode::Xor)
    } else if match_lit(v, i, "ldq") {
        parse_mem_tail(v, i + 3, MemOpt::Ldq)
    } else if match_lit(v, i, "stq") {
        parse_mem_tail(v, i + 3, MemOpt::Stq)
    } else if match_lit(v, i, "brq-raw-") {
        parse_raw_jump_tail(v, i + 8)
    } else {
        None
    }
}

/// A label-definition line at `i`.
fn parse_label(s: &str, v: &Vec<char>, i: usize) -> (r: Option<Asm>)
    requires
        v@ == s@,
        i <= v@.len(),
    ensures
        r matches Some(a) ==> (label_spec(s@, i as int) matches Some(name) && a@ == AsmView::Label(name)),
        r is None ==> label_spec(s@, i as int) is None,
{
    proof {
        assert(v@.len() == v.len());
    }
    let j = name_end_at(v, i);
    if j > i {
        let k = skip_ws_at(v, j);
        if k < v.len() && v[k] == ':' && skip_ws_at(v, k + 1) == v.len() {
            let name = s.substring_char(i, j).to_owned();
            Some(Asm::Label(name))
        } else {
            None
        }
    } else {
        None
    }
}

/// A symbolic-jump line at `i`.
fn parse_symjump(s: &str, v: &Vec<char>, i: usize) -> (r: Option<Asm>)
    requires
        v@ == s@,
        i <= v@.len(),
    ensures
        r matches Some(a) ==> (symjump_spec(s@, i as int) matches Some(p)
            && a@ == (AsmView::Jump { label: p.1, ivnz: p.0 })),
        r is None ==> symjump_spec(s@, i as int) is None,
{
    proof {
        assert(v@.len() == v.len());
        reveal_strlit("brq-");
    }
    if match_lit(v, i, "brq-") {
        match parse_u8_at(v, i + 4) {
            None => None,
            Some((mask, j)) => {
                let k = skip_ws_at(v, j);
                let e = name_end_at(v, k);
                if e > k && skip_ws_at(v, e) == v.len() {
                    let label = s.substring_char(k, e).to_owned();
                    Some(Asm::Jump { label, ivnz: mask })
                } else {
                    None
                }
            },
        }
    } else {
        None
    }
}

/// Parses one source line into exactly one statement, or reports the
/// offending line.
pub fn parse_line(s: &str) -> (r: Result<Asm, SyntaxError>)
    ensures
        r matches Ok(a) ==> line_spec(s@) == Some(a@),
        r matches Err(e) ==> line_spec(s@) == None::<AsmView> && e@ == s@,
{
    let v = collect_chars(s);
    let i = skip_ws_at(&v, 0);
    if i < v.len() && v[i] == '#' {
        let n = v.len();
        let text = s.substring_char(i + 1, n).to_owned();
        return Ok(Asm::Comment(text));
    }
    match parse_instruction(&v, i) {
        Some(ins) => Ok(Asm::Instruction(ins)),
        None => match parse_label(s, &v, i) {
            Some(a) => Ok(a),
            None => match parse_symjump(s, &v, i) {
                Some(a) => Ok(a),
                None => Err(SyntaxError { line: s.to_owned() }),
            },
        },
    }
}

/// The views of a sequence of source lines.
pub open spec fn line_views(lines: Seq<String>) -> Seq<Seq<char>> {
    lines.map_values(|l: String| l@)
}

/// The position of the first line that matches no grammar form, at or
/// after `k`.
pub open spec fn first_syntax_err(lines: Seq<Seq<char>>, k: int) -> Option<int>
    decreases lines.len() - k,
{
    if k < 0 || k >= lines.len() {
        None::<int>
    } else if line_spec(lines[k]) is None {
        Some(k)
    } else {
        first_syntax_err(lines, k + 1)
    }
}

/// Parses an ordered sequence of source lines, one statement per line,
/// stopping at the first line that matches no grammar form.
pub fn parse_lines(lines: &Vec<String>) -> (r: Result<Vec<Asm>, SyntaxError>)
    ensures
        (r is Ok) <==> first_syntax_err(line_views(lines@), 0) is None,
        r matches Ok(v) ==> v@.len() == lines@.len()
            && forall|k: int| 0 <= k < lines@.len()
                ==> line_spec(lines@[k]@) == Some(#[trigger] v@[k]@),
        r matches Err(e) ==> (first_syntax_err(line_views(lines@), 0) matches Some(k)
            && e@ == lines@[k]@),
{
    let ghost lv = line_views(lines@);
    let mut out: Vec<Asm> = Vec::new();
    let mut k: usize = 0;
    while k < lines.len()
        invariant
            k <= lines@.len(),
            lv == line_views(lines@),
            lv.len() == lines@.len(),
            out@.len() == k,
            forall|j: int| 0 <= j < k ==> line_spec(lines@[j]@) == Some(#[trigger] out@[j]@),
            first_syntax_err(lv, 0) == first_syntax_err(lv, k as int),
        decreases lines@.len() - k,
    {
        match parse_line(lines[k].as_str()) {
            Ok(a) => {
                out.push(a);
            },
            Err(e) => {
                proof {
                    assert(first_syntax_err(lv, k as int) == Some(k as int));
                }
                return Err(e);
            },
        }
        k = k + 1;
    }
    Ok(out)
}

} // verus!
