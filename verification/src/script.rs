use vstd::prelude::*;
use crate::cursor::{ByteCursor, CursorModel, le_bytes16, le_bytes32, lemma_le_bytes16, lemma_le_bytes32};
use crate::dictionary::{forward, rotl32};
use crate::error::{Result, VoltError};

verus! {

/// A register value.
#[derive(Debug, Clone, Copy)]
pub enum Value {
    Nil,
    Bool(bool),
    I32(i32),
    U32(u32),
    Timestamp(u64),
}

/// A station command instruction.
#[derive(Debug, Clone, Copy)]
pub enum Instruction {
    LoadI32 { dst: u8, value: i32 },
    LoadU32 { dst: u8, value: u32 },
    Add { dst: u8, a: u8, b: u8 },
    Xor { dst: u8, a: u8, b: u8 },
    CompareGt { dst: u8, a: u8, b: u8 },
    JumpIf { reg: u8, offset: i8 },
    PinWindow { start: u8, len: u8 },
    Grow { count: u16 },
    Resume { dst: u8, salt: u8 },
    Emit { reg: u8 },
    Halt,
}

/// A decoded script.
#[derive(Debug, Clone)]
pub struct Program {
    pub script_id: u32,
    pub register_count: u16,
    pub instructions: Vec<Instruction>,
}

pub struct ProgramView {
    pub script_id: u32,
    pub register_count: u16,
    pub instructions: Seq<Instruction>,
}

impl View for Program {
    type V = ProgramView;

    open spec fn view(&self) -> ProgramView {
        ProgramView {
            script_id: self.script_id,
            register_count: self.register_count,
            instructions: self.instructions@,
        }
    }
}

/// What running a script produced.
#[derive(Debug, Clone)]
pub struct ExecutionReport {
    pub script_id: u32,
    pub emitted: Vec<u32>,
    pub steps: u32,
    pub checksum: u32,
}

pub struct ReportView {
    pub script_id: u32,
    pub emitted: Seq<u32>,
    pub steps: u32,
    pub checksum: u32,
}

impl View for ExecutionReport {
    type V = ReportView;

    open spec fn view(&self) -> ReportView {
        ReportView { script_id: self.script_id, emitted: self.emitted@, steps: self.steps, checksum: self.checksum }
    }
}

/// A pinned run of registers: where it starts, how long it is and the
/// generation it was pinned in.
#[derive(Clone, Copy)]
pub struct RegisterWindow {
    pub start: usize,
    pub len: usize,
    pub generation: u32,
}

pub open spec fn rotl8(x: u8) -> u8 {
    ((x << 1u8) | (x >> 7u8)) as u8
}

pub open spec fn rotr8(x: u8) -> u8 {
    ((x >> 1u8) | (x << 7u8)) as u8
}

/// Decoding the instruction whose opcode has just been read; an unknown
/// opcode stands for an `Xor` of registers taken from its bits.
pub open spec fn decode_ins(op: u8, c: CursorModel) -> (Result<Instruction>, CursorModel) {
    if op == 0x01 {
        match c.read_u8() {
            (Err(e), c1) => (Err(e), c1),
            (Ok(dst), c1) => match c1.read_i32() {
                (Err(e), c2) => (Err(e), c2),
                (Ok(value), c2) => (Ok(Instruction::LoadI32 { dst, value }), c2),
            },
        }
    } else if op == 0x02 {
        match c.read_u8() {
            (Err(e), c1) => (Err(e), c1),
            (Ok(dst), c1) => match c1.read_u32() {
                (Err(e), c2) => (Err(e), c2),
                (Ok(value), c2) => (Ok(Instruction::LoadU32 { dst, value }), c2),
            },
        }
    } else if op == 0x03 || op == 0x04 || op == 0x05 {
        match c.read_u8() {
            (Err(e), c1) => (Err(e), c1),
            (Ok(dst), c1) => match c1.read_u8() {
                (Err(e), c2) => (Err(e), c2),
                (Ok(a), c2) => match c2.read_u8() {
                    (Err(e), c3) => (Err(e), c3),
                    (Ok(b), c3) => (
                        Ok(
                            if op == 0x03 {
                                Instruction::Add { dst, a, b }
                            } else if op == 0x04 {
                                Instruction::Xor { dst, a, b }
                            } else {
                                Instruction::CompareGt { dst, a, b }
                            },
                        ),
                        c3,
                    ),
                },
            },
        }
    } else if op == 0x06 {
        match c.read_u8() {
            (Err(e), c1) => (Err(e), c1),
            (Ok(reg), c1) => match c1.read_i8() {
                (Err(e), c2) => (Err(e), c2),
                (Ok(offset), c2) => (Ok(Instruction::JumpIf { reg, offset }), c2),
            },
        }
    } else if op == 0x07 {
        match c.read_u8() {
            (Err(e), c1) => (Err(e), c1),
            (Ok(start), c1) => match c1.read_u8() {
                (Err(e), c2) => (Err(e), c2),
                (Ok(len), c2) => (Ok(Instruction::PinWindow { start, len }), c2),
            },
        }
    } else if op == 0x08 {
        match c.read_u16() {
            (Err(e), c1) => (Err(e), c1),
            (Ok(count), c1) => (Ok(Instruction::Grow { count }), c1),
        }
    } else if op == 0x09 {
        match c.read_u8() {
            (Err(e), c1) => (Err(e), c1),
            (Ok(dst), c1) => match c1.read_u8() {
                (Err(e), c2) => (Err(e), c2),
                (Ok(salt), c2) => (Ok(Instruction::Resume { dst, salt }), c2),
            },
        }
    } else if op == 0x0a {
        match c.read_u8() {
            (Err(e), c1) => (Err(e), c1),
            (Ok(reg), c1) => (Ok(Instruction::Emit { reg }), c1),
        }
    } else if op == 0xff {
        (Ok(Instruction::Halt), c)
    } else {
        (Ok(Instruction::Xor { dst: op & 15u8, a: rotl8(op) & 15u8, b: rotr8(op) & 15u8 }), c)
    }
}

/// Most instructions a program may hold.
pub open spec fn max_instructions() -> int {
    4096
}

/// The instructions that remain in `c`, after `ins`.
pub open spec fn program_from(c: CursorModel, ins: Seq<Instruction>) -> Result<Seq<Instruction>>
    decreases c.remaining(),
{
    if c.remaining() <= 0 || ins.len() >= max_instructions() {
        Ok(ins)
    } else {
        match c.read_u8() {
            (Err(e), _) => Err(e),
            (Ok(op), c1) => match decode_ins(op, c1) {
                (Err(e), _) => Err(e),
                (Ok(i), c2) => {
                    proof {
                        lemma_decode_forward(op, c1);
                    }
                    program_from(c2, ins.push(i))
                },
            },
        }
    }
}

pub proof fn lemma_decode_forward(op: u8, c: CursorModel)
    ensures
        forward(c, decode_ins(op, c).1),
{
}

pub open spec fn clamp_registers(n: u16) -> u16 {
    if n < 4 { 4 } else if n > 256 { 256 } else { n }
}

/// A program: a script id when four bytes remain, a register count
/// (clamped to 4..=256) when two remain, then instructions; no instruction
/// means a single `Halt`.
pub open spec fn program_header(data: Seq<u8>) -> (u32, u16, CursorModel) {
    let c = CursorModel::fresh(data, "script program");
    let (id, c1) = if c.remaining() >= 4 {
        let (r, c1) = c.read_u32();
        (r->Ok_0, c1)
    } else {
        (0u32, c)
    };
    let (regs, c2) = if c1.remaining() >= 2 {
        let (r, c2) = c1.read_u16();
        (clamp_registers(r->Ok_0), c2)
    } else {
        (16u16, c1)
    };
    (id, regs, c2)
}

pub open spec fn program_spec(data: Seq<u8>) -> Result<ProgramView> {
    let (id, regs, c2) = program_header(data);
    match program_from(c2, seq![]) {
        Err(e) => Err(e),
        Ok(ins) => Ok(
            ProgramView {
                script_id: id,
                register_count: regs,
                instructions: if ins.len() == 0 { seq![Instruction::Halt] } else { ins },
            },
        ),
    }
}

pub open spec fn value_i32(v: Value) -> i32 {
    match v {
        Value::I32(x) => x,
        Value::U32(x) => x as i32,
        Value::Bool(b) => if b { 1 } else { 0 },
        Value::Timestamp(x) => x as i32,
        Value::Nil => 0,
    }
}

pub open spec fn value_u32(v: Value) -> u32 {
    match v {
        Value::I32(x) => x as u32,
        Value::U32(x) => x,
        Value::Bool(b) => if b { 1 } else { 0 },
        Value::Timestamp(x) => x as u32,
        Value::Nil => 0,
    }
}

pub open spec fn value_truthy(v: Value) -> bool {
    match v {
        Value::Bool(b) => b,
        Value::I32(x) => x != 0,
        Value::U32(x) => x != 0,
        Value::Timestamp(x) => x != 0,
        Value::Nil => false,
    }
}

/// The 32 bits a value contributes to a window digest.
pub open spec fn value_bits_spec(v: Value) -> u32 {
    match v {
        Value::Nil => 0,
        Value::Bool(b) => if b { 1 } else { 0 },
        Value::I32(x) => x as u32,
        Value::U32(x) => x,
        Value::Timestamp(x) => (x as u32) ^ ((x >> 32u64) as u32),
    }
}

/// The machine state: registers, pinned window, generation and emitted
/// values.
pub struct VmView {
    pub registers: Seq<Value>,
    pub window: Option<RegisterWindow>,
    pub generation: u32,
    pub emitted: Seq<u32>,
}

pub open spec fn wrap_add32(a: u32, b: u32) -> u32 {
    ((a as int + b as int) % 0x1_0000_0000) as u32
}

/// The digest of a pinned window: from `acc`, for each of its first `n`
/// registers, rotate by 5 and xor in the register's bits plus its index.
pub open spec fn window_digest(regs: Seq<Value>, start: int, n: nat, acc: u32) -> u32
    decreases n,
{
    if n == 0 {
        acc
    } else {
        let a = window_digest(regs, start, (n - 1) as nat, acc);
        let i = n - 1;
        rotl32(a, 5) ^ wrap_add32(value_bits_spec(regs[start + i]), i as u32)
    }
}

/// The registers after growing: timestamps `977 * index` appended up to
/// `target`.
pub open spec fn grown(regs: Seq<Value>, target: int) -> Seq<Value>
    decreases target - regs.len(),
{
    if regs.len() >= target {
        regs
    } else {
        grown(
            regs.push(Value::Timestamp(((regs.len() * 977) % 0x1_0000_0000_0000_0000) as u64)),
            target,
        )
    }
}

impl VmView {
    pub open spec fn fresh(register_count: u16) -> VmView {
        VmView {
            registers: Seq::new(register_count as nat, |i: int| Value::Nil),
            window: None,
            generation: 1,
            emitted: seq![],
        }
    }

    pub open spec fn wf(self) -> bool {
        match self.window {
            Some(w) => w.start + w.len <= self.registers.len(),
            None => true,
        }
    }

    pub open spec fn get(self, reg: u8) -> Value {
        if self.registers.len() == 0 { Value::Nil } else { self.registers[reg as int % self.registers.len() as int] }
    }

    /// Setting a register (an empty register file first gets one register).
    pub open spec fn set(self, reg: u8, v: Value) -> VmView {
        let regs = if self.registers.len() == 0 { seq![Value::Nil] } else { self.registers };
        VmView { registers: regs.update(reg as int % regs.len() as int, v), ..self }
    }

    pub open spec fn pin(self, start: int, len: int) -> VmView {
        if self.registers.len() == 0 || len == 0 {
            self
        } else {
            let n = self.registers.len() as int;
            let s = if start < n - 1 { start } else { n - 1 };
            let l = if len < n - s { len } else { n - s };
            VmView {
                window: Some(RegisterWindow { start: s as usize, len: l as usize, generation: self.generation }),
                ..self
            }
        }
    }

    pub open spec fn grow(self, count: int) -> VmView {
        let c = if count < 4096 { count } else { 4096 };
        let target = if self.registers.len() + c > usize::MAX { usize::MAX as int } else { self.registers.len() + c };
        VmView {
            registers: grown(self.registers, target),
            generation: wrap_add32(self.generation, 1),
            ..self
        }
    }

    pub open spec fn resume(self, dst: int, salt: u8) -> VmView {
        match self.window {
            None => self,
            Some(w) => if w.len == 0 {
                self
            } else {
                let n = if w.len < 64 { w.len as nat } else { 64 };
                let acc = window_digest(self.registers, w.start as int, n, (salt as u32) ^ w.generation);
                if self.registers.len() == 0 {
                    self
                } else {
                    VmView {
                        registers: self.registers.update(dst % self.registers.len() as int, Value::U32(acc)),
                        ..self
                    }
                }
            },
        }
    }

    /// One instruction at `ip`: the state after it and the next `ip`, or
    /// `None` for a halt.
    pub open spec fn step(self, ins: Instruction, ip: int) -> Option<(VmView, int)> {
        match ins {
            Instruction::LoadI32 { dst, value } => Some((self.set(dst, Value::I32(value)), ip + 1)),
            Instruction::LoadU32 { dst, value } => Some((self.set(dst, Value::U32(value)), ip + 1)),
            Instruction::Add { dst, a, b } => Some(
                (
                    self.set(
                        dst,
                        Value::I32(
                            vstd::wrapping::i32_specs::wrapping_add(value_i32(self.get(a)), value_i32(self.get(b))),
                        ),
                    ),
                    ip + 1,
                ),
            ),
            Instruction::Xor { dst, a, b } => Some(
                (self.set(dst, Value::U32(value_u32(self.get(a)) ^ value_u32(self.get(b)))), ip + 1),
            ),
            Instruction::CompareGt { dst, a, b } => Some(
                (self.set(dst, Value::Bool(value_i32(self.get(a)) > value_i32(self.get(b)))), ip + 1),
            ),
            Instruction::JumpIf { reg, offset } => Some(
                (self, if value_truthy(self.get(reg)) { ip + offset } else { ip + 1 }),
            ),
            Instruction::PinWindow { start, len } => Some((self.pin(start as int, len as int), ip + 1)),
            Instruction::Grow { count } => Some((self.grow(count as int), ip + 1)),
            Instruction::Resume { dst, salt } => Some((self.resume(dst as int, salt), ip + 1)),
            Instruction::Emit { reg } => Some(
                (VmView { emitted: self.emitted.push(value_u32(self.get(reg))), ..self }, ip + 1),
            ),
            Instruction::Halt => None,
        }
    }

    /// Running from `ip` with `steps` taken: the final state and step count.
    /// A run stops at a halt, when `ip` leaves the program, or after 10000
    /// steps.
    pub open spec fn run(self, prog: Seq<Instruction>, ip: int, steps: u32) -> (VmView, u32)
        decreases 10000 - steps,
    {
        if ip < 0 || ip >= prog.len() || steps >= 10000 {
            (self, steps)
        } else {
            match self.step(prog[ip], ip) {
                None => (self, (steps + 1) as u32),
                Some((vm, ip2)) => vm.run(prog, ip2, (steps + 1) as u32),
            }
        }
    }
}

/// The checksum of the emitted values, folded from the script id.
pub open spec fn emit_checksum(seed: u32, s: Seq<u32>) -> u32
    decreases s.len(),
{
    if s.len() == 0 {
        seed
    } else {
        rotl32(emit_checksum(seed, s.drop_last()), 3) ^ s.last()
    }
}

/// What running a program reports.
pub open spec fn report_spec(p: ProgramView) -> ReportView {
    let (vm, steps) = VmView::fresh(p.register_count).run(p.instructions, 0, 0);
    ReportView {
        script_id: p.script_id,
        emitted: vm.emitted,
        steps,
        checksum: emit_checksum(p.script_id, vm.emitted),
    }
}

pub open spec fn compile_and_run_spec(data: Seq<u8>) -> Result<ReportView> {
    match program_spec(data) {
        Err(e) => Err(e),
        Ok(p) => Ok(report_spec(p)),
    }
}

/// Decodes a script and runs it.
pub fn compile_and_run(data: &[u8]) -> (r: Result<ExecutionReport>)
    ensures
        match r {
            Ok(rep) => compile_and_run_spec(data@) == Ok::<ReportView, VoltError>(rep@),
            Err(e) => compile_and_run_spec(data@) == Err::<ReportView, VoltError>(e),
        },
{
    let program = parse_program(data)?;
    let vm = Vm::new(program.register_count);
    Ok(vm.execute(&program))
}

/// Decodes a script.
pub fn parse_program(data: &[u8]) -> (r: Result<Program>)
    ensures
        match r {
            Ok(p) => program_spec(data@) == Ok::<ProgramView, VoltError>(p@),
            Err(e) => program_spec(data@) == Err::<ProgramView, VoltError>(e),
        },
{
    let mut cur = ByteCursor::new(data, "script program");
    let script_id = if cur.remaining() >= 4 {
        match cur.read_u32() {
            Ok(v) => v,
            Err(_) => 0,
        }
    } else {
        0
    };
    let register_count = if cur.remaining() >= 2 {
        let n = match cur.read_u16() {
            Ok(v) => v,
            Err(_) => 0,
        };
        if n < 4 { 4 } else if n > 256 { 256 } else { n }
    } else {
        16
    };
    let mut instructions: Vec<Instruction> = Vec::new();
    let ghost c2 = cur@;
    assert((script_id, register_count, c2) == program_header(data@));
    while cur.remaining() > 0 && instructions.len() < 4096
        invariant
            (script_id, register_count, c2) == program_header(data@),
            program_from(c2, seq![]) == program_from(cur@, instructions@),
        decreases cur@.remaining(),
    {
        let opcode = cur.read_u8()?;
        let ins = decode_instruction(opcode, &mut cur)?;
        instructions.push(ins);
        proof {
            lemma_decode_forward(opcode, cur@);
        }
    }
    assert(instructions@ =~= seq![] || instructions@.len() > 0);
    if instructions.len() == 0 {
        instructions.push(Instruction::Halt);
        assert(instructions@ =~= seq![Instruction::Halt]);
    }
    Ok(Program { script_id, register_count, instructions })
}

fn decode_instruction(opcode: u8, cur: &mut ByteCursor<'_>) -> (r: Result<Instruction>)
    ensures
        (r, final(cur)@) == decode_ins(opcode, old(cur)@),
{
    if opcode == 0x01 {
        let dst = cur.read_u8()?;
        let value = cur.read_i32()?;
        Ok(Instruction::LoadI32 { dst, value })
    } else if opcode == 0x02 {
        let dst = cur.read_u8()?;
        let value = cur.read_u32()?;
        Ok(Instruction::LoadU32 { dst, value })
    } else if opcode == 0x03 || opcode == 0x04 || opcode == 0x05 {
        let dst = cur.read_u8()?;
        let a = cur.read_u8()?;
        let b = cur.read_u8()?;
        if opcode == 0x03 {
            Ok(Instruction::Add { dst, a, b })
        } else if opcode == 0x04 {
            Ok(Instruction::Xor { dst, a, b })
        } else {
            Ok(Instruction::CompareGt { dst, a, b })
        }
    } else if opcode == 0x06 {
        let reg = cur.read_u8()?;
        let offset = cur.read_i8()?;
        Ok(Instruction::JumpIf { reg, offset })
    } else if opcode == 0x07 {
        let start = cur.read_u8()?;
        let len = cur.read_u8()?;
        Ok(Instruction::PinWindow { start, len })
    } else if opcode == 0x08 {
        let count = cur.read_u16()?;
        Ok(Instruction::Grow { count })
    } else if opcode == 0x09 {
        let dst = cur.read_u8()?;
        let salt = cur.read_u8()?;
        Ok(Instruction::Resume { dst, salt })
    } else if opcode == 0x0a {
        let reg = cur.read_u8()?;
        Ok(Instruction::Emit { reg })
    } else if opcode == 0xff {
        Ok(Instruction::Halt)
    } else {
        Ok(
            Instruction::Xor {
                dst: opcode & 15,
                a: ((opcode << 1) | (opcode >> 7)) & 15,
                b: ((opcode >> 1) | (opcode << 7)) & 15,
            },
        )
    }
}

struct Vm {
    registers: Vec<Value>,
    window: Option<RegisterWindow>,
    generation: u32,
    emitted: Vec<u32>,
}

impl View for Vm {
    type V = VmView;

    closed spec fn view(&self) -> VmView {
        VmView {
            registers: self.registers@,
            window: self.window,
            generation: self.generation,
            emitted: self.emitted@,
        }
    }
}

impl Vm {
    fn new(register_count: u16) -> (r: Self)
        ensures
            r@ == VmView::fresh(register_count),
    {
        let mut registers: Vec<Value> = Vec::new();
        let mut i: u16 = 0;
        while i < register_count
            invariant
                0 <= i <= register_count,
                registers@ =~= Seq::new(i as nat, |k: int| Value::Nil),
            decreases register_count - i,
        {
            registers.push(Value::Nil);
            i = i + 1;
        }
        let r = Self { registers, window: None, generation: 1, emitted: Vec::new() };
        assert(r@.emitted =~= seq![]);
        r
    }

    fn execute(self, program: &Program) -> (r: ExecutionReport)
        requires
            self@.wf(),
        ensures
            ({
                let (vm, steps) = self@.run(program@.instructions, 0, 0);
                r@ == (ReportView {
                    script_id: program.script_id,
                    emitted: vm.emitted,
                    steps,
                    checksum: emit_checksum(program.script_id, vm.emitted),
                })
            }),
    {
        let mut vm = self;
        let ghost start = vm@;
        let mut ip: usize = 0;
        let mut steps: u32 = 0;
        let mut done = false;
        let n = program.instructions.len();
        while !done && ip < n && steps < 10000
            invariant
                n == program@.instructions.len(),
                vm@.wf(),
                steps <= 10000,
                !done ==> start.run(program@.instructions, 0, 0) == vm@.run(program@.instructions, ip as int, steps),
                done ==> start.run(program@.instructions, 0, 0) == (vm@, steps),
            decreases 10000 - steps,
        {
            let ins = program.instructions[ip];
            steps = steps + 1;
            match ins {
                Instruction::LoadI32 { dst, value } => vm.set(dst, Value::I32(value)),
                Instruction::LoadU32 { dst, value } => vm.set(dst, Value::U32(value)),
                Instruction::Add { dst, a, b } => {
                    let v = vm.get_i32(a).wrapping_add(vm.get_i32(b));
                    vm.set(dst, Value::I32(v));
                },
                Instruction::Xor { dst, a, b } => {
                    let v = vm.get_u32(a) ^ vm.get_u32(b);
                    vm.set(dst, Value::U32(v));
                },
                Instruction::CompareGt { dst, a, b } => {
                    let v = vm.get_i32(a) > vm.get_i32(b);
                    vm.set(dst, Value::Bool(v));
                },
                Instruction::JumpIf { reg, offset } => {},
                Instruction::PinWindow { start, len } => vm.pin_window(start as usize, len as usize),
                Instruction::Grow { count } => vm.grow(count as usize),
                Instruction::Resume { dst, salt } => vm.resume_window(dst as usize, salt),
                Instruction::Emit { reg } => {
                    let v = vm.get_u32(reg);
                    vm.emitted.push(v);
                },
                Instruction::Halt => {
                    done = true;
                },
            }
            if !done {
                match ins {
                    Instruction::JumpIf { reg, offset } => {
                        if vm.truthy(reg) {
                            let target = ip as i128 + offset as i128;
                            if target < 0 || target >= n as i128 {
                                assert(vm@.run(program@.instructions, target as int, steps) == (vm@, steps));
                                done = true;
                            } else {
                                ip = target as usize;
                            }
                        } else {
                            ip = ip + 1;
                        }
                    },
                    _ => {
                        ip = ip + 1;
                    },
                }
            }
        }
        let mut checksum = program.script_id;
        let mut i: usize = 0;
        while i < vm.emitted.len()
            invariant
                0 <= i <= vm.emitted@.len(),
                checksum == emit_checksum(program.script_id, vm.emitted@.take(i as int)),
            decreases vm.emitted@.len() - i,
        {
            assert(vm.emitted@.take(i + 1).drop_last() == vm.emitted@.take(i as int));
            checksum = ((checksum << 3) | (checksum >> 29)) ^ vm.emitted[i];
            i = i + 1;
        }
        assert(vm.emitted@.take(vm.emitted@.len() as int) == vm.emitted@);
        ExecutionReport { script_id: program.script_id, emitted: vm.emitted, steps, checksum }
    }

    fn set(&mut self, reg: u8, value: Value)
        requires
            old(self)@.wf(),
        ensures
            final(self)@ == old(self)@.set(reg, value),
            final(self)@.wf(),
    {
        if self.registers.len() == 0 {
            self.registers.push(Value::Nil);
            assert(self.registers@ =~= seq![Value::Nil]);
        }
        let idx = reg as usize % self.registers.len();
        self.registers.set(idx, value);
    }

    fn get(&self, reg: u8) -> (r: Value)
        ensures
            r == self@.get(reg),
    {
        if self.registers.len() == 0 {
            return Value::Nil;
        }
        self.registers[reg as usize % self.registers.len()]
    }

    fn get_i32(&self, reg: u8) -> (r: i32)
        ensures
            r == value_i32(self@.get(reg)),
    {
        match self.get(reg) {
            Value::I32(v) => v,
            Value::U32(v) => v as i32,
            Value::Bool(v) => if v { 1 } else { 0 },
            Value::Timestamp(v) => v as i32,
            Value::Nil => 0,
        }
    }

    fn get_u32(&self, reg: u8) -> (r: u32)
        ensures
            r == value_u32(self@.get(reg)),
    {
        match self.get(reg) {
            Value::I32(v) => v as u32,
            Value::U32(v) => v,
            Value::Bool(v) => if v { 1 } else { 0 },
            Value::Timestamp(v) => v as u32,
            Value::Nil => 0,
        }
    }

    fn truthy(&self, reg: u8) -> (r: bool)
        ensures
            r == value_truthy(self@.get(reg)),
    {
        match self.get(reg) {
            Value::Bool(v) => v,
            Value::I32(v) => v != 0,
            Value::U32(v) => v != 0,
            Value::Timestamp(v) => v != 0,
            Value::Nil => false,
        }
    }

    fn pin_window(&mut self, start: usize, len: usize)
        requires
            old(self)@.wf(),
        ensures
            final(self)@ == old(self)@.pin(start as int, len as int),
            final(self)@.wf(),
    {
        if self.registers.len() == 0 || len == 0 {
            return;
        }
        let n = self.registers.len();
        let s = if start < n - 1 { start } else { n - 1 };
        let l = if len < n - s { len } else { n - s };
        self.window = Some(RegisterWindow { start: s, len: l, generation: self.generation });
    }

    fn grow(&mut self, count: usize)
        requires
            old(self)@.wf(),
        ensures
            final(self)@ == old(self)@.grow(count as int),
            final(self)@.wf(),
    {
        let c = if count < 4096 { count } else { 4096 };
        let target = self.registers.len().saturating_add(c);
        while self.registers.len() < target
            invariant
                old(self)@.grow(count as int).registers == grown(self@.registers, target as int),
                self@ == (VmView { registers: self@.registers, ..old(self)@ }),
                self@.registers.len() >= old(self)@.registers.len(),
            decreases target - self@.registers.len(),
        {
            let value = Value::Timestamp((self.registers.len() as u64).wrapping_mul(977));
            self.registers.push(value);
        }
        self.generation = self.generation.wrapping_add(1);
    }

    fn resume_window(&mut self, dst: usize, salt: u8)
        requires
            old(self)@.wf(),
        ensures
            final(self)@ == old(self)@.resume(dst as int, salt),
            final(self)@.wf(),
    {
        let window = match self.window {
            Some(w) => w,
            None => {
                return;
            },
        };
        if window.len == 0 {
            return;
        }
        let mut acc = (salt as u32) ^ window.generation;
        let n = if window.len < 64 { window.len } else { 64 };
        let rl = self.registers.len();
        let mut i: usize = 0;
        while i < n
            invariant
                rl == self@.registers.len(),
                0 <= i <= n <= window.len,
                window.start + window.len <= self@.registers.len(),
                self@ == old(self)@,
                self@.window == Some(window),
                acc == window_digest(self@.registers, window.start as int, i as nat, (salt as u32) ^ window.generation),
            decreases n - i,
        {
            let v = self.registers[window.start + i];
            acc = ((acc << 5) | (acc >> 27)) ^ value_bits(v).wrapping_add(i as u32);
            i = i + 1;
        }
        if self.registers.len() > 0 {
            let idx = dst % self.registers.len();
            self.registers.set(idx, Value::U32(acc));
        }
    }
}

fn value_bits(v: Value) -> (r: u32)
    ensures
        r == value_bits_spec(v),
{
    match v {
        Value::Nil => 0,
        Value::Bool(b) => if b { 1 } else { 0 },
        Value::I32(x) => x as u32,
        Value::U32(x) => x,
        Value::Timestamp(x) => (x as u32) ^ ((x >> 32) as u32),
    }
}

proof fn lemma_run_bounded(vm: VmView, prog: Seq<Instruction>, ip: int, steps: u32)
    requires
        steps <= 10000,
        vm.emitted.len() <= steps,
    ensures
        vm.run(prog, ip, steps).1 <= 10000,
        vm.run(prog, ip, steps).0.emitted.len() <= vm.run(prog, ip, steps).1,
    decreases 10000 - steps,
{
    if !(ip < 0 || ip >= prog.len() || steps >= 10000) {
        match vm.step(prog[ip], ip) {
            None => {},
            Some((vm2, ip2)) => {
                assert(vm2.emitted.len() <= vm.emitted.len() + 1);
                lemma_run_bounded(vm2, prog, ip2, (steps + 1) as u32);
            },
        }
    }
}

/// A script runs at most 10000 steps and emits at most one value per step.
pub proof fn script_run_is_bounded(data: Seq<u8>)
    requires
        compile_and_run_spec(data) is Ok,
    ensures
        compile_and_run_spec(data)->Ok_0.steps <= 10000,
        compile_and_run_spec(data)->Ok_0.emitted.len() <= compile_and_run_spec(data)->Ok_0.steps,
{
    let p = program_spec(data)->Ok_0;
    lemma_run_bounded(VmView::fresh(p.register_count), p.instructions, 0, 0);
}

/// What each register instruction does, read through the registers: the
/// destination then holds the instruction's value, every register that does
/// not share the destination's slot keeps its value, nothing is emitted,
/// and execution goes on at the next instruction.
pub proof fn register_instructions_set_their_destination(vm: VmView, ip: int, dst: u8, a: u8, b: u8, vi: i32, vu: u32)
    requires
        vm.registers.len() > 0,
    ensures
        ({
            let n = vm.registers.len() as int;
            let results = seq![
                (Instruction::LoadI32 { dst, value: vi }, Value::I32(vi)),
                (Instruction::LoadU32 { dst, value: vu }, Value::U32(vu)),
                (
                    Instruction::Add { dst, a, b },
                    Value::I32((((value_i32(vm.get(a)) as int + value_i32(vm.get(b)) as int) + 0x8000_0000)
                        % 0x1_0000_0000 - 0x8000_0000) as i32),
                ),
                (Instruction::Xor { dst, a, b }, Value::U32(value_u32(vm.get(a)) ^ value_u32(vm.get(b)))),
                (Instruction::CompareGt { dst, a, b }, Value::Bool(value_i32(vm.get(a)) > value_i32(vm.get(b)))),
            ];
            forall|k: int|
                0 <= k < 5 ==> {
                    let (ins, v) = #[trigger] results[k];
                    let (vm2, ip2) = vm.step(ins, ip)->Some_0;
                    &&& vm.step(ins, ip) is Some
                    &&& ip2 == ip + 1
                    &&& vm2.get(dst) == v
                    &&& vm2.registers.len() == n
                    &&& vm2.emitted == vm.emitted
                    &&& forall|r: u8| (r as int) % n != (dst as int) % n ==> #[trigger] vm2.get(r) == vm.get(r)
                }
        }),
{
    let n = vm.registers.len() as int;
    let sum = value_i32(vm.get(a)) as int + value_i32(vm.get(b)) as int;
    let w = vstd::wrapping::i32_specs::wrapping_add(value_i32(vm.get(a)), value_i32(vm.get(b)));
    assert(w == (((sum + 0x8000_0000) % 0x1_0000_0000 - 0x8000_0000) as i32)) by {
        assert(-0x1_0000_0000 <= sum < 0x1_0000_0000);
        if sum > i32::MAX {
            assert((sum + 0x8000_0000) % 0x1_0000_0000 == sum + 0x8000_0000 - 0x1_0000_0000);
        } else if sum < i32::MIN {
            assert((sum + 0x8000_0000) % 0x1_0000_0000 == sum + 0x8000_0000 + 0x1_0000_0000);
        } else {
            assert((sum + 0x8000_0000) % 0x1_0000_0000 == sum + 0x8000_0000);
        }
    }
}

/// Emit appends the register's value read as 32 bits and leaves the
/// registers alone; a jump moves by its offset exactly when its register
/// is truthy; halt stops.
pub proof fn control_instructions(vm: VmView, ip: int, reg: u8, offset: i8)
    ensures
        vm.step(Instruction::Emit { reg }, ip) == Some(
            (VmView { emitted: vm.emitted.push(value_u32(vm.get(reg))), ..vm }, ip + 1),
        ),
        vm.step(Instruction::JumpIf { reg, offset }, ip) == Some(
            (vm, if value_truthy(vm.get(reg)) { ip + offset } else { ip + 1 }),
        ),
        vm.step(Instruction::Halt, ip) is None,
{
}

/// Loading two numbers, xoring them and emitting the result, on a fresh
/// machine with at least three registers, emits exactly their xor, in five
/// steps.
pub proof fn xor_program_emits_xor(n: u16, x: u32, y: u32)
    requires
        3 <= n,
    ensures
        ({
            let prog = seq![
                Instruction::LoadU32 { dst: 0, value: x },
                Instruction::LoadU32 { dst: 1, value: y },
                Instruction::Xor { dst: 2, a: 0, b: 1 },
                Instruction::Emit { reg: 2 },
                Instruction::Halt,
            ];
            let (vm, steps) = VmView::fresh(n).run(prog, 0, 0);
            vm.emitted == seq![x ^ y] && steps == 5
        }),
{
    let prog = seq![
        Instruction::LoadU32 { dst: 0, value: x },
        Instruction::LoadU32 { dst: 1, value: y },
        Instruction::Xor { dst: 2, a: 0, b: 1 },
        Instruction::Emit { reg: 2 },
        Instruction::Halt,
    ];
    let m = n as int;
    assert(0int % m == 0 && 1int % m == 1 && 2int % m == 2) by (nonlinear_arith)
        requires
            m >= 3,
    ;
    let v0 = VmView::fresh(n);
    let v1 = v0.set(0, Value::U32(x));
    let v2 = v1.set(1, Value::U32(y));
    let v3 = v2.set(2, Value::U32(x ^ y));
    assert(v1.registers.len() == m && v2.registers.len() == m);
    assert(v2.get(0) == Value::U32(x));
    assert(v2.get(1) == Value::U32(y));
    assert(v3.get(2) == Value::U32(x ^ y));
    let v4 = VmView { emitted: v3.emitted.push(x ^ y), ..v3 };
    assert(v4.run(prog, 4, 4) == (v4, 5u32));
    assert(v3.run(prog, 3, 3) == v4.run(prog, 4, 4));
    assert(v2.run(prog, 2, 2) == v3.run(prog, 3, 3));
    assert(v1.run(prog, 1, 1) == v2.run(prog, 2, 2));
    assert(v0.run(prog, 0, 0) == v1.run(prog, 1, 1));
    assert(v4.emitted =~= seq![x ^ y]);
}

/// The bytecode of an instruction: its opcode, then its operands, wider
/// ones little-endian.
pub open spec fn encode_ins(i: Instruction) -> Seq<u8> {
    match i {
        Instruction::LoadI32 { dst, value } => seq![0x01u8, dst] + le_bytes32(value as u32),
        Instruction::LoadU32 { dst, value } => seq![0x02u8, dst] + le_bytes32(value),
        Instruction::Add { dst, a, b } => seq![0x03u8, dst, a, b],
        Instruction::Xor { dst, a, b } => seq![0x04u8, dst, a, b],
        Instruction::CompareGt { dst, a, b } => seq![0x05u8, dst, a, b],
        Instruction::JumpIf { reg, offset } => seq![0x06u8, reg, offset as u8],
        Instruction::PinWindow { start, len } => seq![0x07u8, start, len],
        Instruction::Grow { count } => seq![0x08u8, (count & 0xffu16) as u8, (count >> 8u16) as u8],
        Instruction::Resume { dst, salt } => seq![0x09u8, dst, salt],
        Instruction::Emit { reg } => seq![0x0au8, reg],
        Instruction::Halt => seq![0xffu8],
    }
}

proof fn lemma_decode_at(i: Instruction, c: CursorModel)
    requires
        0 <= c.pos,
        c.pos + encode_ins(i).len() <= c.data.len(),
        c.data.subrange(c.pos, c.pos + encode_ins(i).len()) == encode_ins(i),
    ensures
        c.read_u8() == (Ok::<u8, VoltError>(encode_ins(i)[0]), c.advance(1)),
        decode_ins(encode_ins(i)[0], c.advance(1)) == (Ok::<Instruction, VoltError>(i), c.advance(
            encode_ins(i).len() as int,
        )),
{
    let e = encode_ins(i);
    let d = c.data;
    let p = c.pos;
    assert forall|k: int| 0 <= k < e.len() implies d[p + k] == #[trigger] e[k] by {
        assert(d.subrange(p, p + e.len())[k] == d[p + k]);
    }
    assert(d[p] == e[0]);
    match i {
        Instruction::LoadI32 { dst, value } => {
            lemma_le_bytes32(value as u32);
            assert(d[p + 1] == e[1]);
            assert(d.subrange(p + 2, p + 6) =~= le_bytes32(value as u32)) by {
                assert forall|k: int| 0 <= k < 4 implies #[trigger] d.subrange(p + 2, p + 6)[k] == le_bytes32(value as u32)[k] by {
                    assert(d[p + 2 + k] == e[2 + k]);
                }
            }
            assert(((value as u32) as i32) == value) by (bit_vector);
        },
        Instruction::LoadU32 { dst, value } => {
            lemma_le_bytes32(value);
            assert(d[p + 1] == e[1]);
            assert(d.subrange(p + 2, p + 6) =~= le_bytes32(value)) by {
                assert forall|k: int| 0 <= k < 4 implies #[trigger] d.subrange(p + 2, p + 6)[k] == le_bytes32(value)[k] by {
                    assert(d[p + 2 + k] == e[2 + k]);
                }
            }
        },
        Instruction::Add { dst, a, b } => {
            assert(d[p + 1] == e[1] && d[p + 2] == e[2] && d[p + 3] == e[3]);
        },
        Instruction::Xor { dst, a, b } => {
            assert(d[p + 1] == e[1] && d[p + 2] == e[2] && d[p + 3] == e[3]);
        },
        Instruction::CompareGt { dst, a, b } => {
            assert(d[p + 1] == e[1] && d[p + 2] == e[2] && d[p + 3] == e[3]);
        },
        Instruction::JumpIf { reg, offset } => {
            assert(d[p + 1] == e[1] && d[p + 2] == e[2]);
            assert(((offset as u8) as i8) == offset) by (bit_vector);
        },
        Instruction::PinWindow { start, len } => {
            assert(d[p + 1] == e[1] && d[p + 2] == e[2]);
        },
        Instruction::Grow { count } => {
            let lo = (count & 0xffu16) as u8;
            let hi = (count >> 8u16) as u8;
            assert(count & 0xffu16 < 256 && (count & 0xffu16) + 256 * (count >> 8u16) == count) by (bit_vector);
            assert(d.subrange(p + 1, p + 3) =~= seq![lo, hi]) by {
                assert(d[p + 1] == e[1] && d[p + 2] == e[2]);
            }
        },
        Instruction::Resume { dst, salt } => {
            assert(d[p + 1] == e[1] && d[p + 2] == e[2]);
        },
        Instruction::Emit { reg } => {
            assert(d[p + 1] == e[1]);
        },
        Instruction::Halt => {},
    }
}

/// Every instruction's bytecode decodes back to that instruction, whatever
/// follows it, and decoding reads exactly its bytes.
pub proof fn instruction_encoding_round_trips(i: Instruction, rest: Seq<u8>)
    ensures
        ({
            let c = CursorModel::fresh(encode_ins(i) + rest, "script program");
            &&& c.read_u8() == (Ok::<u8, VoltError>(encode_ins(i)[0]), c.advance(1))
            &&& decode_ins(encode_ins(i)[0], c.advance(1)) == (Ok::<Instruction, VoltError>(i), c.advance(
                encode_ins(i).len() as int,
            ))
        }),
{
    let c = CursorModel::fresh(encode_ins(i) + rest, "script program");
    assert(c.data.subrange(0, encode_ins(i).len() as int) =~= encode_ins(i));
    lemma_decode_at(i, c);
}

proof fn lemma_header_at(data: Seq<u8>, id: u32, n: u16)
    requires
        data.len() >= 6,
        data.subrange(0, 4) == le_bytes32(id),
        data.subrange(4, 6) == le_bytes16(n),
    ensures
        program_header(data) == (id, clamp_registers(n), CursorModel::fresh(data, "script program").advance(6)),
{
    lemma_le_bytes32(id);
    lemma_le_bytes16(n);
}

/// The length of an instruction's bytecode.
pub open spec fn ins_len(i: Instruction) -> int {
    encode_ins(i).len() as int
}

proof fn lemma_program_step(c: CursorModel, ins: Seq<Instruction>, i: Instruction)
    requires
        0 <= c.pos,
        c.pos + ins_len(i) <= c.data.len(),
        c.data.subrange(c.pos, c.pos + ins_len(i)) == encode_ins(i),
        ins.len() < max_instructions(),
    ensures
        program_from(c, ins) == program_from(c.advance(ins_len(i)), ins.push(i)),
{
    lemma_decode_at(i, c);
}

/// A script made of a header (script id, then register count, both
/// little-endian) and the bytecode of "load x into r0, load y into r1, xor
/// them into r2, emit r2, halt" reports its script id, emits exactly x ^ y
/// in five steps and carries the checksum (id rotated left by 3) ^ (x ^ y),
/// whatever the register count.
pub proof fn xor_script_reports_xor(id: u32, n: u16, x: u32, y: u32)
    ensures
        ({
            let data = le_bytes32(id) + le_bytes16(n) + encode_ins(
                Instruction::LoadU32 { dst: 0, value: x },
            ) + encode_ins(Instruction::LoadU32 { dst: 1, value: y }) + encode_ins(
                Instruction::Xor { dst: 2, a: 0, b: 1 },
            ) + encode_ins(Instruction::Emit { reg: 2 }) + encode_ins(Instruction::Halt);
            compile_and_run_spec(data) == Ok::<ReportView, VoltError>(
                ReportView {
                    script_id: id,
                    emitted: seq![x ^ y],
                    steps: 5,
                    checksum: ((id << 3u32) | (id >> 29u32)) ^ (x ^ y),
                },
            )
        }),
{
    let i0 = Instruction::LoadU32 { dst: 0, value: x };
    let i1 = Instruction::LoadU32 { dst: 1, value: y };
    let i2 = Instruction::Xor { dst: 2, a: 0, b: 1 };
    let i3 = Instruction::Emit { reg: 2 };
    let i4 = Instruction::Halt;
    let hb = le_bytes16(n);
    let data = le_bytes32(id) + hb + encode_ins(i0) + encode_ins(i1) + encode_ins(i2) + encode_ins(i3) + encode_ins(i4);
    assert(data.subrange(0, 4) =~= le_bytes32(id));
    assert(data.subrange(4, 6) =~= hb);
    lemma_header_at(data, id, n);
    assert(data.subrange(6, 12) =~= encode_ins(i0));
    assert(data.subrange(12, 18) =~= encode_ins(i1));
    assert(data.subrange(18, 22) =~= encode_ins(i2));
    assert(data.subrange(22, 24) =~= encode_ins(i3));
    assert(data.subrange(24, 25) =~= encode_ins(i4));
    let c = CursorModel::fresh(data, "script program");
    let e = Seq::<Instruction>::empty();
    lemma_program_step(c.advance(6), e, i0);
    lemma_program_step(c.advance(12), e.push(i0), i1);
    lemma_program_step(c.advance(18), e.push(i0).push(i1), i2);
    lemma_program_step(c.advance(22), e.push(i0).push(i1).push(i2), i3);
    lemma_program_step(c.advance(24), e.push(i0).push(i1).push(i2).push(i3), i4);
    assert(e.push(i0).push(i1).push(i2).push(i3).push(i4) =~= seq![i0, i1, i2, i3, i4]);
    let prog = seq![i0, i1, i2, i3, i4];
    assert(program_spec(data) == Ok::<ProgramView, VoltError>(
        ProgramView { script_id: id, register_count: clamp_registers(n), instructions: prog },
    ));
    xor_program_emits_xor(clamp_registers(n), x, y);
    assert(seq![x ^ y].drop_last() =~= Seq::<u32>::empty());
    assert(emit_checksum(id, Seq::<u32>::empty()) == id);
    assert(emit_checksum(id, seq![x ^ y]) == rotl32(id, 3) ^ (x ^ y));
}

} // verus!



