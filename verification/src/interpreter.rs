//! ISA simulator: executes an instruction sequence against a register
//! file, flat memory, program counter, and flag byte, mirroring what
//! the packed binary would exhibit on hardware.

use vstd::prelude::*;
use crate::isa::{ArtithmeticsOptcode, Instruction, MemOpt, long_of};

verus! {

/// Mathematical image of the machine: its code, flat memory, register
/// file, program counter, and flag byte.
pub struct MachineView {
    pub code: Seq<Instruction>,
    pub memory: Seq<i32>,
    pub rx: Seq<i32>,
    pub code_pointer: u32,
    pub flags: u8,
}

/// A memory access outside the allocated array; fatal, halts the run.
#[derive(Debug, Clone, Copy, PartialEq, Eq, Structural)]
pub struct MemoryFaultError {
    /// The out-of-range effective address.
    pub address: u32,
}

/// Two's-complement wrap of a sum or difference of two 32-bit values.
pub open spec fn wrap_signed(x: int) -> i32 {
    if x > 0x7fffffff {
        (x - 0x100000000) as i32
    } else if x < -0x80000000 {
        (x + 0x100000000) as i32
    } else {
        x as i32
    }
}

/// The unsigned reinterpretation of a signed 32-bit value.
pub open spec fn unsigned_of(x: i32) -> u32 {
    if x >= 0 { x as u32 } else { (x + 0x100000000) as u32 }
}

/// The program counter after a taken relative jump, with 32-bit
/// wrapping arithmetic.
pub open spec fn pc_jump(pc: u32, off: i8) -> u32 {
    let t = pc + off;
    if t < 0 {
        (t + 0x100000000) as u32
    } else if t > 0xffffffff {
        (t - 0x100000000) as u32
    } else {
        t as u32
    }
}

/// The stored result of an arithmetic operation: wrapped addition or
/// subtraction, or bitwise exclusive-or.
pub open spec fn arith_result(op: ArtithmeticsOptcode, left: i32, right: i32) -> i32 {
    match op {
        ArtithmeticsOptcode::Add => wrap_signed(left + right),
        ArtithmeticsOptcode::Sub => wrap_signed(left - right),
        ArtithmeticsOptcode::Xor => left ^ right,
    }
}

/// The flag byte: overflow is bit 2, negative bit 1, zero bit 0.
pub open spec fn flags_byte(overflow: bool, negative: bool, zero: bool) -> u8 {
    ((if overflow { 4int } else { 0int })
        + (if negative { 2int } else { 0int })
        + (if zero { 1int } else { 0int })) as u8
}

/// Whether an arithmetic operation overflows: its exact signed result
/// does not fit 32 bits. Exclusive-or never overflows.
pub open spec fn arith_overflow(op: ArtithmeticsOptcode, left: i32, right: i32) -> bool {
    match op {
        ArtithmeticsOptcode::Add => !(-0x80000000 <= left + right <= 0x7fffffff),
        ArtithmeticsOptcode::Sub => !(-0x80000000 <= left - right <= 0x7fffffff),
        ArtithmeticsOptcode::Xor => false,
    }
}

/// The flag byte after an arithmetic operation: flags are cleared, then
/// overflow, negative and zero derived from the wrapped result.
pub open spec fn arith_flags(op: ArtithmeticsOptcode, left: i32, right: i32) -> u8 {
    flags_byte(
        arith_overflow(op, left, right),
        arith_result(op, left, right) < 0,
        arith_result(op, left, right) == 0,
    )
}

/// Whether a jump with condition mask `ivnz` is taken under `flags`:
/// the mask's low 3 bits select flags, whose disjunction must equal the
/// mask's selector bit.
pub open spec fn should_jump_spec(ivnz: u8, flags: u8) -> bool {
    let i = ivnz >> 3;
    let checked = ivnz & flags;
    let v = (checked >> 2) & 1;
    let n = (checked >> 1) & 1;
    let z = checked & 1;
    i == (n | v | z)
}

/// Whether the machine has halted: the program counter left the code.
pub open spec fn halted(m: MachineView) -> bool {
    m.code_pointer as int >= m.code.len()
}

/// Well-formedness: a full register file, and code a 32-bit program
/// counter can address.
pub open spec fn machine_wf(m: MachineView) -> bool {
    &&& m.rx.len() == 256
    &&& m.code.len() <= 0xffffffff
}

/// The effective address of the memory instruction at the program
/// counter: address register plus signed displacement, with wrapping
/// arithmetic, reinterpreted unsigned.
pub open spec fn fault_addr(m: MachineView) -> u32 {
    match m.code[m.code_pointer as int] {
        Instruction::Mem { addr, offset, .. } =>
            unsigned_of(wrap_signed(m.rx[addr as int] + offset)),
        _ => 0,
    }
}

/// One dispatch step of the running machine (the program counter is
/// within the code): `None` is a memory fault, `Some` the next state.
pub open spec fn step_spec(m: MachineView) -> Option<MachineView> {
    match m.code[m.code_pointer as int] {
        Instruction::Arithmetic { optcode, target, left, right } => Some(MachineView {
            rx: m.rx.update(target as int, arith_result(optcode, m.rx[left as int], m.rx[right as int])),
            flags: arith_flags(optcode, m.rx[left as int], m.rx[right as int]),
            code_pointer: (m.code_pointer + 1) as u32,
            ..m
        }),
        Instruction::ArithmeticQuick { optcode, target, left, right_value } => Some(MachineView {
            rx: m.rx.update(target as int, arith_result(long_of(optcode), m.rx[left as int], right_value as i32)),
            flags: arith_flags(long_of(optcode), m.rx[left as int], right_value as i32),
            code_pointer: (m.code_pointer + 1) as u32,
            ..m
        }),
        Instruction::Jump { ivnz, offset } => Some(MachineView {
            code_pointer: if should_jump_spec(ivnz, m.flags) {
                pc_jump(m.code_pointer, offset)
            } else {
                (m.code_pointer + 1) as u32
            },
            ..m
        }),
        Instruction::Mem { optcode, value_reg, addr, offset } => {
            let ea = unsigned_of(wrap_signed(m.rx[addr as int] + offset));
            if ea as int >= m.memory.len() {
                None::<MachineView>
            } else {
                match optcode {
                    MemOpt::Ldq => Some(MachineView {
                        rx: m.rx.update(value_reg as int, m.memory[ea as int]),
                        code_pointer: (m.code_pointer + 1) as u32,
                        ..m
                    }),
                    MemOpt::Stq => Some(MachineView {
                        memory: m.memory.update(ea as int, m.rx[value_reg as int]),
                        code_pointer: (m.code_pointer + 1) as u32,
                        ..m
                    }),
                }
            }
        },
        Instruction::Noop => Some(MachineView {
            code_pointer: (m.code_pointer + 1) as u32,
            ..m
        }),
    }
}

/// The machine after at most `n` dispatch steps: stops early once
/// halted; `None` if a step faults.
pub open spec fn steps_spec(m: MachineView, n: nat) -> Option<MachineView>
    decreases n,
{
    if n == 0 {
        Some(m)
    } else if halted(m) {
        Some(m)
    } else {
        match step_spec(m) {
            None => None::<MachineView>,
            Some(m2) => steps_spec(m2, (n - 1) as nat),
        }
    }
}

/// A run of `n` steps followed by one more successful step is a run of
/// `n + 1` steps.
proof fn lemma_steps_extend(m0: MachineView, n: nat, m1: MachineView, m2: MachineView)
    requires
        steps_spec(m0, n) == Some(m1),
        !halted(m1),
        step_spec(m1) == Some(m2),
    ensures
        steps_spec(m0, n + 1) == Some(m2),
    decreases n,
{
    if n == 0 {
        assert(m1 == m0);
        assert(steps_spec(m0, n + 1) == steps_spec(m2, 0nat));
        assert(steps_spec(m2, 0nat) == Some(m2));
    } else if halted(m0) {
        assert(m1 == m0);
        assert(false);
    } else {
        let m_next = step_spec(m0).unwrap();
        assert(steps_spec(m0, n) == steps_spec(m_next, (n - 1) as nat));
        lemma_steps_extend(m_next, (n - 1) as nat, m1, m2);
        assert(steps_spec(m_next, ((n - 1) as nat) + 1) == Some(m2));
        assert(((n - 1) as nat) + 1 == n);
        assert(steps_spec(m0, n + 1) == steps_spec(m_next, n));
    }
}

/// The simulated machine.
pub struct Interpreter {
    code: Vec<Instruction>,
    memory: Vec<i32>,
    rx: Vec<i32>,
    code_pointer: u32,
    flags: u8,
}

impl View for Interpreter {
    type V = MachineView;

    closed spec fn view(&self) -> MachineView {
        MachineView {
            code: self.code@,
            memory: self.memory@,
            rx: self.rx@,
            code_pointer: self.code_pointer,
            flags: self.flags,
        }
    }
}

impl Interpreter {
    /// Well-formedness of the machine.
    pub open spec fn wf(&self) -> bool {
        machine_wf(self@)
    }

    /// A fresh machine: the given code, `mem_size` zeroed memory cells,
    /// 256 zeroed registers, the counter at 0, no flags set.
    pub fn new(code: Vec<Instruction>, mem_size: usize) -> (r: Self)
        requires
            code@.len() <= 0xffffffff,
        ensures
            r.wf(),
            r@.code == code@,
            r@.memory.len() == mem_size,
            forall|k: int| 0 <= k < mem_size ==> r@.memory[k] == 0i32,
            forall|k: int| 0 <= k < 256 ==> r@.rx[k] == 0i32,
            r@.code_pointer == 0,
            r@.flags == 0,
    {
        let mut memory: Vec<i32> = Vec::new();
        while memory.len() < mem_size
            invariant
                memory@.len() <= mem_size,
                forall|k: int| 0 <= k < memory@.len() ==> memory@[k] == 0i32,
            decreases mem_size - memory@.len(),
        {
            memory.push(0);
        }
        let mut rx: Vec<i32> = Vec::new();
        while rx.len() < 256
            invariant
                rx@.len() <= 256,
                forall|k: int| 0 <= k < rx@.len() ==> rx@[k] == 0i32,
            decreases 256 - rx@.len(),
        {
            rx.push(0);
        }
        Interpreter { code, memory, rx, code_pointer: 0, flags: 0 }
    }

    /// The value of a memory cell.
    pub fn read_memory(&self, index: usize) -> (r: i32)
        requires
            index < self@.memory.len(),
        ensures
            r == self@.memory[index as int],
    {
        self.memory[index]
    }

    /// Overwrites one memory cell; used to seed initial memory.
    pub fn write_memory(&mut self, index: usize, value: i32)
        requires
            index < old(self)@.memory.len(),
        ensures
            final(self)@ == (MachineView { memory: old(self)@.memory.update(index as int, value), ..old(self)@ }),
    {
        self.memory.set(index, value);
    }

    /// The value of a register.
    pub fn read_register(&self, index: usize) -> (r: i32)
        requires
            self.wf(),
            index < 256,
        ensures
            r == self@.rx[index as int],
    {
        self.rx[index]
    }

    /// Overwrites one register; used to seed initial registers.
    pub fn write_register(&mut self, index: usize, value: i32)
        requires
            old(self).wf(),
            index < 256,
        ensures
            final(self).wf(),
            final(self)@ == (MachineView { rx: old(self)@.rx.update(index as int, value), ..old(self)@ }),
    {
        self.rx.set(index, value);
    }

    /// The flag byte.
    pub fn flag_bits(&self) -> (r: u8)
        ensures
            r == self@.flags,
    {
        self.flags
    }

    fn clear_flags(&mut self)
        ensures
            final(self)@ == (MachineView { flags: 0, ..old(self)@ }),
    {
        self.flags = 0;
    }

    fn set_overflow(&mut self)
        ensures
            final(self)@ == (MachineView { flags: old(self)@.flags | 0x4, ..old(self)@ }),
    {
        self.flags = self.flags | 0x4;
    }

    fn set_negative(&mut self)
        ensures
            final(self)@ == (MachineView { flags: old(self)@.flags | 0x2, ..old(self)@ }),
    {
        self.flags = self.flags | 0x2;
    }

    fn set_zero(&mut self)
        ensures
            final(self)@ == (MachineView { flags: old(self)@.flags | 0x1, ..old(self)@ }),
    {
        self.flags = self.flags | 0x1;
    }

    /// Computes one arithmetic operation, clearing and then setting the
    /// flag byte to reflect its outcome, and returns the wrapped result.
    pub fn arithmetics(&mut self, op: ArtithmeticsOptcode, left: i32, right: i32) -> (r: i32)
        ensures
            r == arith_result(op, left, right),
            final(self)@ == (MachineView { flags: arith_flags(op, left, right), ..old(self)@ }),
    {
        proof {
            assert(0u8 | 4u8 == 4u8 && 0u8 | 2u8 == 2u8 && 0u8 | 1u8 == 1u8
                && 4u8 | 2u8 == 6u8 && 4u8 | 1u8 == 5u8) by (bit_vector);
        }
        self.clear_flags();
        match op {
            ArtithmeticsOptcode::Add => {
                let wide: i64 = left as i64 + right as i64;
                if wide > 0x7fffffff || wide < -0x80000000 {
                    self.set_overflow();
                }
                let result: i32 = if wide > 0x7fffffff {
                    (wide - 0x100000000i64) as i32
                } else if wide < -0x80000000 {
                    (wide + 0x100000000i64) as i32
                } else {
                    wide as i32
                };
                if result == 0 {
                    self.set_zero();
                }
                if result < 0 {
                    self.set_negative();
                }
                result
            },
            ArtithmeticsOptcode::Sub => {
                let wide: i64 = left as i64 - right as i64;
                if wide > 0x7fffffff || wide < -0x80000000 {
                    self.set_overflow();
                }
                let result: i32 = if wide > 0x7fffffff {
                    (wide - 0x100000000i64) as i32
                } else if wide < -0x80000000 {
                    (wide + 0x100000000i64) as i32
                } else {
                    wide as i32
                };
                if result == 0 {
                    self.set_zero();
                }
                if result < 0 {
                    self.set_negative();
                }
                result
            },
            ArtithmeticsOptcode::Xor => {
                let result: i32 = left ^ right;
                if result < 0 {
                    self.set_negative();
                }
                if result == 0 {
                    self.set_zero();
                }
                result
            },
        }
    }

    /// Whether the jump condition holds of the current flags.
    pub fn should_jump(&self, ivnz: u8) -> (r: bool)
        ensures
            r == should_jump_spec(ivnz, self@.flags),
    {
        let i = ivnz >> 3;
        let checked = ivnz & self.flags;
        let v = (checked >> 2) & 1;
        let n = (checked >> 1) & 1;
        let z = checked & 1;
        i == (n | v | z)
    }

    /// Fetches and dispatches the instruction at the program counter.
    /// An out-of-range memory access reports a fault and leaves the
    /// machine unchanged.
    pub fn step(&mut self) -> (r: Result<(), MemoryFaultError>)
        requires
            old(self).wf(),
            !halted(old(self)@),
        ensures
            final(self).wf(),
            r matches Ok(_) ==> step_spec(old(self)@) == Some(final(self)@),
            r matches Err(e) ==> {
                &&& step_spec(old(self)@) == None::<MachineView>
                &&& final(self)@ == old(self)@
                &&& e.address == fault_addr(old(self)@)
            },
    {
        let ins = self.code[self.code_pointer as usize];
        match ins {
            Instruction::Arithmetic { optcode, target, left, right } => {
                let l = self.rx[left as usize];
                let rv = self.rx[right as usize];
                let res = self.arithmetics(optcode, l, rv);
                self.rx.set(target as usize, res);
                self.code_pointer = self.code_pointer + 1;
                Ok(())
            },
            Instruction::ArithmeticQuick { optcode, target, left, right_value } => {
                let l = self.rx[left as usize];
                let long = optcode.as_long();
                let res = self.arithmetics(long, l, right_value as i32);
                self.rx.set(target as usize, res);
                self.code_pointer = self.code_pointer + 1;
                Ok(())
            },
            Instruction::Jump { ivnz, offset } => {
                if self.should_jump(ivnz) {
                    self.code_pointer = pc_add(self.code_pointer, offset);
                } else {
                    self.code_pointer = self.code_pointer + 1;
                }
                Ok(())
            },
            Instruction::Mem { optcode, value_reg, addr, offset } => {
                let base = self.rx[addr as usize];
                let ea32 = wrap_add(base, offset as i32);
                let ea = unsigned_addr(ea32);
                if (ea as usize) < self.memory.len() {
                    match optcode {
                        MemOpt::Ldq => {
                            let v = self.memory[ea as usize];
                            self.rx.set(value_reg as usize, v);
                        },
                        MemOpt::Stq => {
                            let v = self.rx[value_reg as usize];
                            self.memory.set(ea as usize, v);
                        },
                    }
                    self.code_pointer = self.code_pointer + 1;
                    Ok(())
                } else {
                    Err(MemoryFaultError { address: ea })
                }
            },
            Instruction::Noop => {
                self.code_pointer = self.code_pointer + 1;
                Ok(())
            },
        }
    }

    /// Whether the program counter has left the code.
    pub fn is_halted(&self) -> (r: bool)
        ensures
            r == halted(self@),
    {
        !((self.code_pointer as usize) < self.code.len())
    }

    /// Runs dispatch steps until the program counter leaves the code, a
    /// memory access faults, or `max_steps` steps have been taken. On
    /// success the machine is exactly `max_steps` steps (halting early
    /// counts as stopping) from the initial state; on a fault it stands
    /// at the faulting instruction, unchanged by it.
    pub fn run(&mut self, max_steps: u64) -> (r: Result<(), MemoryFaultError>)
        requires
            old(self).wf(),
        ensures
            final(self).wf(),
            exists|n: nat| steps_spec(old(self)@, n) == Some(final(self)@),
            (r is Ok) <==> steps_spec(old(self)@, max_steps as nat) is Some,
            r matches Ok(_) ==> steps_spec(old(self)@, max_steps as nat) == Some(final(self)@),
            r matches Err(e) ==> {
                &&& !halted(final(self)@)
                &&& step_spec(final(self)@) == None::<MachineView>
                &&& e.address == fault_addr(final(self)@)
            },
    {
        let mut fuel: u64 = max_steps;
        proof {
            assert(steps_spec(old(self)@, 0) == Some(old(self)@));
        }
        while fuel > 0 && (self.code_pointer as usize) < self.code.len()
            invariant
                self.wf(),
                fuel <= max_steps,
                exists|n: nat| steps_spec(old(self)@, n) == Some(self@),
                steps_spec(old(self)@, max_steps as nat) == steps_spec(self@, fuel as nat),
            decreases fuel,
        {
            let ghost pre = self@;
            match self.step() {
                Ok(_) => {
                    proof {
                        let n = choose|n: nat| steps_spec(old(self)@, n) == Some(pre);
                        lemma_steps_extend(old(self)@, n, pre, self@);
                    }
                },
                Err(e) => {
                    proof {
                        assert(steps_spec(pre, fuel as nat) == None::<MachineView>);
                    }
                    return Err(e);
                },
            }
            fuel = fuel - 1;
        }
        proof {
            assert(steps_spec(self@, fuel as nat) == Some(self@));
        }
        Ok(())
    }
}

/// Wrapped 32-bit signed addition.
fn wrap_add(a: i32, b: i32) -> (r: i32)
    ensures
        r == wrap_signed(a + b),
{
    let wide: i64 = a as i64 + b as i64;
    if wide > 0x7fffffff {
        (wide - 0x100000000i64) as i32
    } else if wide < -0x80000000 {
        (wide + 0x100000000i64) as i32
    } else {
        wide as i32
    }
}

/// The unsigned reinterpretation of a signed 32-bit value.
fn unsigned_addr(x: i32) -> (r: u32)
    ensures
        r == unsigned_of(x),
{
    if x >= 0 {
        x as u32
    } else {
        ((x as i64) + 0x100000000i64) as u32
    }
}

/// The program counter after a taken relative jump.
fn pc_add(pc: u32, off: i8) -> (r: u32)
    ensures
        r == pc_jump(pc, off),
{
    let t: i64 = pc as i64 + off as i64;
    if t < 0 {
        (t + 0x100000000i64) as u32
    } else if t > 0xffffffffi64 {
        (t - 0x100000000i64) as u32
    } else {
        t as u32
    }
}

} // verus!
