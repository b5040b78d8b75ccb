//! Statement and instruction model, and the two-pass assembler that
//! resolves symbolic jumps to relative offsets.

use vstd::prelude::*;

verus! {

/// Register-register arithmetic operation.
#[derive(Debug, Clone, Copy, PartialEq, Eq, Structural)]
pub enum ArtithmeticsOptcode {
    Add,
    Sub,
    Xor,
}

/// Register-immediate arithmetic operation; semantically the matching
/// long operation with an immediate right operand.
#[derive(Debug, Clone, Copy, PartialEq, Eq, Structural)]
pub enum ShortArithmeticsOptcode {
    Addq,
    Subq,
}

/// The register-register operation a quick operation computes.
pub open spec fn long_of(op: ShortArithmeticsOptcode) -> ArtithmeticsOptcode {
    match op {
        ShortArithmeticsOptcode::Addq => ArtithmeticsOptcode::Add,
        ShortArithmeticsOptcode::Subq => ArtithmeticsOptcode::Sub,
    }
}

impl ShortArithmeticsOptcode {
    /// The register-register operation this quick operation computes.
    pub fn as_long(self) -> (r: ArtithmeticsOptcode)
        ensures
            r == long_of(self),
    {
        match self {
            ShortArithmeticsOptcode::Addq => ArtithmeticsOptcode::Add,
            ShortArithmeticsOptcode::Subq => ArtithmeticsOptcode::Sub,
        }
    }
}

/// Memory operation: load from or store to a register-relative address.
#[derive(Debug, Clone, Copy, PartialEq, Eq, Structural)]
pub enum MemOpt {
    Ldq,
    Stq,
}

/// A resolved, encodable instruction. Register indices are unsigned
/// 8-bit; immediates and offsets are signed 8-bit. `Noop` is a
/// placeholder that valid assembler output never ends with.
#[derive(Debug, Clone, Copy, PartialEq, Eq, Structural)]
#[allow(inconsistent_fields)]
pub enum Instruction {
    Arithmetic { optcode: ArtithmeticsOptcode, target: u8, left: u8, right: u8 },
    ArithmeticQuick { optcode: ShortArithmeticsOptcode, target: u8, left: u8, right_value: i8 },
    Mem { optcode: MemOpt, value_reg: u8, addr: u8, offset: i8 },
    /// Short relative jump; only the 4 low bits of `ivnz` select flags.
    Jump { ivnz: u8, offset: i8 },
    Noop,
}

/// One parsed source line: an instruction, a label definition, a
/// symbolic jump awaiting resolution, or a comment.
#[derive(Debug, Clone, PartialEq, Eq)]
pub enum Asm {
    Instruction(Instruction),
    Label(String),
    Jump { label: String, ivnz: u8 },
    Comment(String),
}

/// Mathematical image of a statement: label and comment text as
/// character sequences.
pub enum AsmView {
    Instruction(Instruction),
    Label(Seq<char>),
    Jump { label: Seq<char>, ivnz: u8 },
    Comment(Seq<char>),
}

impl View for Asm {
    type V = AsmView;

    open spec fn view(&self) -> AsmView {
        match self {
            Asm::Instruction(ins) => AsmView::Instruction(*ins),
            Asm::Label(name) => AsmView::Label(name@),
            Asm::Jump { label, ivnz } => AsmView::Jump { label: label@, ivnz: *ivnz },
            Asm::Comment(text) => AsmView::Comment(text@),
        }
    }
}

/// Error from assembling a statement sequence; `index` is the position
/// of the offending statement in the input.
#[derive(Debug, Clone, PartialEq, Eq)]
pub enum AsmError {
    /// A symbolic jump references a name no label defines.
    UnresolvedLabel { index: usize, label: String },
    /// A resolved relative jump offset does not fit a signed byte.
    OffsetOutOfRange { index: usize },
}

/// Mathematical image of an assembly error.
pub enum AsmErrorView {
    UnresolvedLabel { index: int, label: Seq<char> },
    OffsetOutOfRange { index: int },
}

impl View for AsmError {
    type V = AsmErrorView;

    open spec fn view(&self) -> AsmErrorView {
        match self {
            AsmError::UnresolvedLabel { index, label } =>
                AsmErrorView::UnresolvedLabel { index: *index as int, label: label@ },
            AsmError::OffsetOutOfRange { index } =>
                AsmErrorView::OffsetOutOfRange { index: *index as int },
        }
    }
}

/// The statement views of a statement sequence.
pub open spec fn stmt_views(prog: Seq<Asm>) -> Seq<AsmView> {
    prog.map_values(|a: Asm| a@)
}

/// Whether a statement occupies an instruction slot. Labels and
/// comments are transparent to addressing.
pub open spec fn emits(v: AsmView) -> bool {
    ||| v matches AsmView::Instruction(_)
    ||| v matches AsmView::Jump { .. }
}

/// The address of the instruction slot statement `k` would occupy: the
/// number of slot-occupying statements before it. Addresses are dense,
/// starting at 0.
pub open spec fn stmt_address(prog: Seq<AsmView>, k: int) -> int
    decreases k,
{
    if k <= 0 {
        0
    } else {
        stmt_address(prog, k - 1) + (if emits(prog[k - 1]) { 1int } else { 0int })
    }
}

/// The label bindings made by the first `k` statements: each label
/// definition binds its name to the address the next instruction would
/// occupy. A duplicate definition silently overwrites: the last wins.
pub open spec fn label_map_prefix(prog: Seq<AsmView>, k: int) -> Map<Seq<char>, int>
    decreases k,
{
    if k <= 0 {
        Map::empty()
    } else {
        let m = label_map_prefix(prog, k - 1);
        match prog[k - 1] {
            AsmView::Label(name) => m.insert(name, stmt_address(prog, k - 1)),
            _ => m,
        }
    }
}

/// The label bindings of the whole statement sequence (pass 1).
pub open spec fn label_map(prog: Seq<AsmView>) -> Map<Seq<char>, int> {
    label_map_prefix(prog, prog.len() as int)
}

/// The label a jump statement references.
pub open spec fn jump_label(v: AsmView) -> Seq<char> {
    match v {
        AsmView::Jump { label, .. } => label,
        _ => Seq::empty(),
    }
}

/// The relative offset a jump statement resolves to: the address bound
/// to its label minus the address of the jump itself.
pub open spec fn jump_rel(prog: Seq<AsmView>, k: int) -> int {
    label_map(prog)[jump_label(prog[k])] - stmt_address(prog, k)
}

/// Whether statement `k` assembles without error: every statement but a
/// jump does; a jump needs its label bound and its offset in range.
pub open spec fn jump_ok(prog: Seq<AsmView>, k: int) -> bool {
    match prog[k] {
        AsmView::Jump { label, .. } => {
            &&& label_map(prog).contains_key(label)
            &&& -128 <= jump_rel(prog, k) <= 127
        },
        _ => true,
    }
}

/// The position of the first statement that fails to assemble, at or
/// after `k`.
pub open spec fn first_bad_from(prog: Seq<AsmView>, k: int) -> Option<int>
    decreases prog.len() - k,
{
    if k < 0 || k >= prog.len() {
        None::<int>
    } else if !jump_ok(prog, k) {
        Some(k)
    } else {
        first_bad_from(prog, k + 1)
    }
}

/// The position of the first statement that fails to assemble, if any.
pub open spec fn first_bad(prog: Seq<AsmView>) -> Option<int> {
    first_bad_from(prog, 0)
}

/// The error the assembler reports for the offending statement `k`.
pub open spec fn err_view_at(prog: Seq<AsmView>, k: int) -> AsmErrorView {
    if !label_map(prog).contains_key(jump_label(prog[k])) {
        AsmErrorView::UnresolvedLabel { index: k, label: jump_label(prog[k]) }
    } else {
        AsmErrorView::OffsetOutOfRange { index: k }
    }
}

/// The instruction statement `k` contributes to its slot (pass 2): a
/// plain instruction as written, a symbolic jump rewritten into an
/// address-relative jump.
pub open spec fn resolved(prog: Seq<AsmView>, k: int) -> Instruction {
    match prog[k] {
        AsmView::Instruction(ins) => ins,
        AsmView::Jump { label, ivnz } => Instruction::Jump {
            ivnz,
            offset: jump_rel(prog, k) as i8,
        },
        _ => Instruction::Noop,
    }
}

/// The instruction sequence the first `k` statements emit, before
/// trailing-placeholder trimming.
pub open spec fn emitted_prefix(prog: Seq<AsmView>, k: int) -> Seq<Instruction>
    decreases k,
{
    if k <= 0 {
        Seq::empty()
    } else {
        emitted_prefix(prog, k - 1) + (if emits(prog[k - 1]) {
            seq![resolved(prog, k - 1)]
        } else {
            Seq::empty()
        })
    }
}

/// The instruction sequence the whole statement sequence emits, before
/// trimming.
pub open spec fn emitted(prog: Seq<AsmView>) -> Seq<Instruction> {
    emitted_prefix(prog, prog.len() as int)
}

/// Drops trailing `Noop` placeholders.
pub open spec fn trim_noops(s: Seq<Instruction>) -> Seq<Instruction>
    decreases s.len(),
{
    if s.len() > 0 && s.last() == Instruction::Noop {
        trim_noops(s.drop_last())
    } else {
        s
    }
}

/// What assembling a statement sequence yields when every jump
/// resolves: the emitted instructions, trailing placeholders trimmed.
pub open spec fn compile_spec(prog: Seq<AsmView>) -> Seq<Instruction> {
    trim_noops(emitted(prog))
}

/// The name a label statement defines.
pub open spec fn label_name(v: AsmView) -> Seq<char> {
    match v {
        AsmView::Label(name) => name,
        _ => Seq::empty(),
    }
}

/// The condition mask of a jump statement.
pub open spec fn jump_mask(v: AsmView) -> u8 {
    match v {
        AsmView::Jump { ivnz, .. } => ivnz,
        _ => 0,
    }
}

/// Slot addresses never decrease along the statement sequence.
proof fn lemma_address_monotonic(prog: Seq<AsmView>, k: int, n: int)
    requires
        0 <= k <= n,
    ensures
        stmt_address(prog, k) <= stmt_address(prog, n),
    decreases n - k,
{
    if k < n {
        lemma_address_monotonic(prog, k, n - 1);
    }
}

/// The first `k` statements emit exactly `stmt_address(prog, k)`
/// instructions.
proof fn lemma_emitted_len(prog: Seq<AsmView>, k: int)
    requires
        k >= 0,
    ensures
        emitted_prefix(prog, k).len() == stmt_address(prog, k),
    decreases k,
{
    if k > 0 {
        lemma_emitted_len(prog, k - 1);
    }
}

/// A slot-occupying statement's instruction stands at its address in
/// the emitted sequence.
proof fn lemma_emitted_index(prog: Seq<AsmView>, k: int, n: int)
    requires
        0 <= k < n,
        emits(prog[k]),
    ensures
        stmt_address(prog, k) < emitted_prefix(prog, n).len(),
        emitted_prefix(prog, n)[stmt_address(prog, k)] == resolved(prog, k),
    decreases n,
{
    lemma_emitted_len(prog, k);
    lemma_emitted_len(prog, n);
    if n == k + 1 {
    } else {
        lemma_emitted_index(prog, k, n - 1);
        lemma_emitted_len(prog, n - 1);
        lemma_address_monotonic(prog, k + 1, n - 1);
    }
}

/// Trimming removes a suffix: a slot holding something other than a
/// placeholder survives it, unchanged and at its place.
proof fn lemma_trim_index(s: Seq<Instruction>, i: int)
    requires
        0 <= i < s.len(),
        s[i] != Instruction::Noop,
    ensures
        trim_noops(s).len() <= s.len(),
        i < trim_noops(s).len(),
        trim_noops(s)[i] == s[i],
    decreases s.len(),
{
    if s.len() > 0 && s.last() == Instruction::Noop {
        assert(s.drop_last()[i] == s[i]);
        lemma_trim_index(s.drop_last(), i);
    }
}

/// Trimming leaves no trailing placeholder.
proof fn lemma_trim_last(s: Seq<Instruction>)
    ensures
        trim_noops(s).len() > 0 ==> trim_noops(s).last() != Instruction::Noop,
    decreases s.len(),
{
    if s.len() > 0 && s.last() == Instruction::Noop {
        lemma_trim_last(s.drop_last());
    }
}

/// The assembled sequence never ends in a placeholder: in particular, a
/// program whose tail consists only of label definitions or comments
/// yields an instruction sequence with no trailing `Noop`.
pub proof fn lemma_no_trailing_noop(prog: Seq<AsmView>)
    ensures
        compile_spec(prog).len() > 0 ==> compile_spec(prog).last() != Instruction::Noop,
{
    lemma_trim_last(emitted(prog));
}

/// The bindings of the first `n` statements give a label its slot
/// address, once no later definition among them overrides it.
proof fn lemma_label_address_prefix(prog: Seq<AsmView>, k: int, n: int)
    requires
        0 <= k < n <= prog.len(),
        prog[k] matches AsmView::Label(_),
        forall|j: int| k < j < n && (#[trigger] prog[j] matches AsmView::Label(_))
            ==> label_name(prog[j]) != label_name(prog[k]),
    ensures
        label_map_prefix(prog, n).contains_key(label_name(prog[k])),
        label_map_prefix(prog, n)[label_name(prog[k])] == stmt_address(prog, k),
    decreases n,
{
    if n > k + 1 {
        lemma_label_address_prefix(prog, k, n - 1);
    }
}

/// A label definition binds its name to the address of the next
/// instruction slot, provided no later definition reuses the name.
pub proof fn lemma_label_address(prog: Seq<AsmView>, k: int)
    requires
        0 <= k < prog.len(),
        prog[k] matches AsmView::Label(_),
        forall|j: int| k < j < prog.len() && (#[trigger] prog[j] matches AsmView::Label(_))
            ==> label_name(prog[j]) != label_name(prog[k]),
    ensures
        label_map(prog).contains_key(label_name(prog[k])),
        label_map(prog)[label_name(prog[k])] == stmt_address(prog, k),
{
    lemma_label_address_prefix(prog, k, prog.len() as int);
}

/// A symbolic jump that assembles resolves to a relative jump standing
/// at the jump's own address, whose offset is the address bound to its
/// label minus that address, and whose mask is carried over unchanged.
pub proof fn lemma_jump_offset(prog: Seq<AsmView>, j: int)
    requires
        0 <= j < prog.len(),
        prog[j] matches AsmView::Jump { .. },
        jump_ok(prog, j),
    ensures
        stmt_address(prog, j) < compile_spec(prog).len(),
        compile_spec(prog)[stmt_address(prog, j)] == (Instruction::Jump {
            ivnz: jump_mask(prog[j]),
            offset: jump_rel(prog, j) as i8,
        }),
        (jump_rel(prog, j) as i8) as int
            == label_map(prog)[jump_label(prog[j])] - stmt_address(prog, j),
{
    lemma_emitted_index(prog, j, prog.len() as int);
    lemma_address_monotonic(prog, 0, j);
    let s = emitted(prog);
    let e = stmt_address(prog, j);
    assert(s[e] == resolved(prog, j));
    assert(s[e] != Instruction::Noop);
    lemma_trim_index(s, e);
    assert(resolved(prog, j) == (Instruction::Jump {
        ivnz: jump_mask(prog[j]),
        offset: jump_rel(prog, j) as i8,
    }));
}

/// A statement `L1: <instr>` followed later by a jump to `L1` resolves
/// to the offset (address of the instruction after `L1`) minus (address
/// of the jump instruction), provided no later definition reuses `L1`.
pub proof fn lemma_symbolic_jump_resolution(prog: Seq<AsmView>, k: int, j: int)
    requires
        0 <= k < prog.len(),
        0 <= j < prog.len(),
        prog[k] matches AsmView::Label(_),
        prog[j] matches AsmView::Jump { .. },
        jump_label(prog[j]) == label_name(prog[k]),
        forall|i: int| k < i < prog.len() && (#[trigger] prog[i] matches AsmView::Label(_))
            ==> label_name(prog[i]) != label_name(prog[k]),
        jump_ok(prog, j),
    ensures
        stmt_address(prog, j) < compile_spec(prog).len(),
        compile_spec(prog)[stmt_address(prog, j)] matches Instruction::Jump { ivnz, offset }
            && offset as int == stmt_address(prog, k) - stmt_address(prog, j)
            && ivnz == jump_mask(prog[j]),
{
    lemma_label_address(prog, k);
    lemma_jump_offset(prog, j);
}

/// The bindings an association list of label definitions makes, later
/// entries overriding earlier ones.
pub open spec fn table_map(t: Seq<(String, usize)>) -> Map<Seq<char>, int>
    decreases t.len(),
{
    if t.len() == 0 {
        Map::empty()
    } else {
        table_map(t.drop_last()).insert(t.last().0@, t.last().1 as int)
    }
}

/// Looks a name up in the label table; the latest binding wins.
fn lookup_label(table: &Vec<(String, usize)>, name: &String) -> (r: Option<usize>)
    ensures
        match r {
            Some(a) => table_map(table@).contains_key(name@)
                && table_map(table@)[name@] == a as int,
            None => !table_map(table@).contains_key(name@),
        },
{
    let mut found: Option<usize> = None;
    let mut j: usize = 0;
    while j < table.len()
        invariant
            j <= table.len(),
            match found {
                Some(a) => table_map(table@.subrange(0, j as int)).contains_key(name@)
                    && table_map(table@.subrange(0, j as int))[name@] == a as int,
                None => !table_map(table@.subrange(0, j as int)).contains_key(name@),
            },
        decreases table.len() - j,
    {
        proof {
            assert(table@.subrange(0, j + 1 as int).drop_last() =~= table@.subrange(0, j as int));
            assert(table@.subrange(0, j + 1 as int).last() == table@[j as int]);
        }
        if table[j].0 == *name {
            found = Some(table[j].1);
        }
        j = j + 1;
    }
    proof {
        assert(table@.subrange(0, table@.len() as int) =~= table@);
    }
    found
}

/// Two-pass assembler. Pass 1 binds each label to the address the next
/// instruction would occupy; pass 2 rewrites each symbolic jump into an
/// address-relative jump and fails on the first jump whose label is
/// unbound or whose offset does not fit a signed byte. Trailing `Noop`
/// placeholders are trimmed from the result; internal ones are kept.
pub fn compile_asm(prog: &Vec<Asm>) -> (r: Result<Vec<Instruction>, AsmError>)
    ensures
        (r is Ok) <==> first_bad(stmt_views(prog@)) is None,
        r matches Ok(v) ==> v@ == compile_spec(stmt_views(prog@)),
        r matches Err(e) ==> {
            &&& first_bad(stmt_views(prog@)) matches Some(k) && e@ == err_view_at(stmt_views(prog@), k)
        },
{
    let ghost pv = stmt_views(prog@);
    // pass 1: bind labels
    let mut table: Vec<(String, usize)> = Vec::new();
    let mut addr: usize = 0;
    let mut k: usize = 0;
    while k < prog.len()
        invariant
            k <= prog.len(),
            pv == stmt_views(prog@),
            pv.len() == prog.len(),
            addr <= k,
            addr as int == stmt_address(pv, k as int),
            table_map(table@) =~= label_map_prefix(pv, k as int),
        decreases prog.len() - k,
    {
        match &prog[k] {
            Asm::Instruction(_) => { addr = addr + 1; },
            Asm::Jump { .. } => { addr = addr + 1; },
            Asm::Label(name) => {
                let ghost old_table = table@;
                table.push((name.clone(), addr));
                proof {
                    assert(table@.drop_last() =~= old_table);
                }
            },
            Asm::Comment(_) => {},
        }
        k = k + 1;
    }
    proof {
        assert(table_map(table@) =~= label_map(pv));
    }
    // pass 2: emit instructions, resolving jumps
    let mut out: Vec<Instruction> = Vec::new();
    k = 0;
    while k < prog.len()
        invariant
            k <= prog.len(),
            pv == stmt_views(prog@),
            pv.len() == prog.len(),
            table_map(table@) =~= label_map(pv),
            out@ == emitted_prefix(pv, k as int),
            out@.len() == stmt_address(pv, k as int),
            first_bad(pv) == first_bad_from(pv, k as int),
        decreases prog.len() - k,
    {
        match &prog[k] {
            Asm::Instruction(ins) => {
                out.push(*ins);
                proof {
                    assert(out@ =~= emitted_prefix(pv, k + 1 as int));
                }
            },
            Asm::Jump { label, ivnz } => {
                match lookup_label(&table, label) {
                    None => {
                        return Err(AsmError::UnresolvedLabel { index: k, label: label.clone() });
                    },
                    Some(a) => {
                        let here = out.len();
                        let rel: i8;
                        if a >= here {
                            let d = a - here;
                            if d > 127 {
                                return Err(AsmError::OffsetOutOfRange { index: k });
                            }
                            rel = d as i8;
                        } else {
                            let d = here - a;
                            if d > 128 {
                                return Err(AsmError::OffsetOutOfRange { index: k });
                            }
                            rel = (0 - (d as i32)) as i8;
                        }
                        out.push(Instruction::Jump { ivnz: *ivnz, offset: rel });
                        proof {
                            assert(rel as int == jump_rel(pv, k as int));
                            assert(out@ =~= emitted_prefix(pv, k + 1 as int));
                        }
                    },
                }
            },
            Asm::Label(_) => {
                proof {
                    assert(out@ =~= emitted_prefix(pv, k + 1 as int));
                }
            },
            Asm::Comment(_) => {
                proof {
                    assert(out@ =~= emitted_prefix(pv, k + 1 as int));
                }
            },
        }
        k = k + 1;
    }
    proof {
        assert(out@ == emitted(pv));
    }
    // trim trailing placeholders
    while out.len() > 0 && out[out.len() - 1] == Instruction::Noop
        invariant
            trim_noops(out@) == trim_noops(emitted(pv)),
        decreases out.len(),
    {
        proof {
            assert(out@.last() == Instruction::Noop);
        }
        out.pop();
    }
    proof {
        assert(trim_noops(out@) == out@);
    }
    Ok(out)
}

} // verus!
