use vstd::prelude::*;

use crate::text::{
    append_bytes, ascii_chars, ascii_string, decimal, decimal_digits, hex_word, hex_word_digits,
    is_ascii_bytes, lemma_digits_ascii,
};

use crate::bus::{
    instruction_fetch, instruction_fetch_defined, memory_access, memory_access_defined, Bus,
    BusModel, ReadByte, ReadHalfWord, ReadWord, WriteByte, WriteHalfWord, WriteWord,
};
use crate::cpu_types::{
    cause_after_write, cause_with_excode, gprs_after_write, cop0_op_of, cop0_reg_of, cop0_readable, cop0_writable, cop_common_op_of,
    exception_code, funct_of, op_code_of, sr_with_mode_bits, Cop0Instruction, Cop0Reg,
    Cop0Registers, CopCommonInstruction, Exception, Instruction, InstructionFunct, InstructionOp,
    Registers,
};

verus! {

/// The COP0 registers as plain values.
pub struct Cop0Model {
    pub bpc: u32,
    pub bda: u32,
    pub tar: u32,
    pub dcic: u32,
    pub bad_vaddr: u32,
    pub bdam: u32,
    pub bpcm: u32,
    pub sr: u32,
    pub cause: u32,
    pub epc: u32,
    pub prid: u32,
}

pub open spec fn cop0_model(c: &Cop0Registers) -> Cop0Model {
    Cop0Model {
        bpc: c.bpc,
        bda: c.bda,
        tar: c.tar,
        dcic: c.dcic,
        bad_vaddr: c.bad_vaddr,
        bdam: c.bdam,
        bpcm: c.bpcm,
        sr: c.sr@,
        cause: c.cause@,
        epc: c.epc,
        prid: c.prid,
    }
}

/// The value that MFC0 reads.
pub open spec fn cop0_read(c: Cop0Model, reg: Cop0Reg) -> u32 {
    match reg {
        Cop0Reg::BPC => c.bpc,
        Cop0Reg::CAUSE => c.cause,
        Cop0Reg::EPC => c.epc,
        _ => c.sr,
    }
}

/// The registers after MTC0 wrote `value` to `reg`.
pub open spec fn cop0_written(c: Cop0Model, reg: Cop0Reg, value: u32) -> Cop0Model {
    match reg {
        Cop0Reg::BDA => Cop0Model { bda: value, ..c },
        Cop0Reg::BDAM => Cop0Model { bdam: value, ..c },
        Cop0Reg::BPC => Cop0Model { bpc: value, ..c },
        Cop0Reg::BPCM => Cop0Model { bpcm: value, ..c },
        Cop0Reg::CAUSE => Cop0Model { cause: cause_after_write(c.cause, value), ..c },
        Cop0Reg::DCIC => Cop0Model { dcic: value, ..c },
        Cop0Reg::JUMPDEST => Cop0Model { tar: value, ..c },
        _ => Cop0Model { sr: value, ..c },
    }
}

/// The state of the CPU.
pub struct CpuModel {
    /// Instructions executed.
    pub cycle: usize,
    /// Address of the instruction being executed.
    pub current_instruction_pc: u32,
    /// The instruction word being executed.
    pub instruction: u32,
    /// The 32 general-purpose registers.
    pub gprs: Seq<u32>,
    pub hi: u32,
    pub lo: u32,
    pub pc: u32,
    pub npc: u32,
    pub cop0: Cop0Model,
    pub frame_done: bool,
}

pub open spec fn ins(s: CpuModel) -> Instruction {
    Instruction { bits: s.instruction }
}

pub open spec fn reg(s: CpuModel, index: u8) -> u32 {
    s.gprs[index as int]
}

pub open spec fn with_reg(s: CpuModel, index: u8, value: u32) -> CpuModel {
    CpuModel { gprs: gprs_after_write(s.gprs, index, value), ..s }
}

pub open spec fn with_npc(s: CpuModel, npc: u32) -> CpuModel {
    CpuModel { npc, ..s }
}

/// A 16-bit immediate sign-extended.
pub open spec fn sext(immediate: u16) -> i32 {
    immediate as i16 as i32
}

/// `a + b` modulo 2^32.
pub open spec fn add_wrapping(a: u32, b: u32) -> u32 {
    if a + b > u32::MAX {
        (a + b - 0x1_0000_0000) as u32
    } else {
        (a + b) as u32
    }
}

/// `a - b` modulo 2^32.
pub open spec fn sub_wrapping(a: u32, b: u32) -> u32 {
    if a - b < 0 {
        (a - b + 0x1_0000_0000) as u32
    } else {
        (a - b) as u32
    }
}

/// Whether the cache is isolated: SR bit 16.
pub open spec fn cache_isolated(s: CpuModel) -> bool {
    ((s.cop0.sr >> 16u32) & 1) == 1
}

/// A register read as a two's complement number.
pub open spec fn signed(x: u32) -> int {
    if x < 0x8000_0000 {
        x as int
    } else {
        x - 0x1_0000_0000
    }
}

/// An integer taken modulo 2^32.
pub open spec fn wrap32(x: int) -> u32 {
    (x % 0x1_0000_0000) as u32
}

/// Division rounding toward zero.
pub open spec fn div_toward_zero(a: int, b: int) -> int {
    let q = (if a < 0 { -a } else { a }) / (if b < 0 { -b } else { b });
    if (a < 0) != (b < 0) { -q } else { q }
}

/// The remainder of division rounding toward zero: it takes the sign of the dividend.
pub open spec fn rem_toward_zero(a: int, b: int) -> int {
    let r = (if a < 0 { -a } else { a }) % (if b < 0 { -b } else { b });
    if a < 0 { -r } else { r }
}

// ---------------------------------------------------------------------------
// Instruction semantics. `s` is the state after the instruction was fetched:
// `pc` is already the address of the following instruction (the delay slot).
// `None` marks an instruction that cannot be executed.

/// The sign-extended offset of an immediate-format instruction, in bytes
/// from the delay slot, added to `pc`, as a branch computes it.
pub open spec fn branch_target(s: CpuModel) -> int {
    (s.pc as i32) as int + (sext(ins(s).immediate_bits()) as int) * 4
}

pub open spec fn branch_target_fits(s: CpuModel) -> bool {
    i32::MIN <= branch_target(s) <= i32::MAX
}

/// Takes the branch if `taken` (the target must fit in an `i32`).
pub open spec fn branch_if(s: CpuModel, taken: bool) -> Option<CpuModel> {
    if !taken {
        Some(s)
    } else if branch_target_fits(s) {
        Some(with_npc(s, branch_target(s) as u32))
    } else {
        None
    }
}

/// The data address of a load or store: base register plus sign-extended offset.
pub open spec fn data_address(s: CpuModel) -> int {
    (reg(s, ins(s).rs_bits()) as i32) as int + sext(ins(s).immediate_bits()) as int
}

pub open spec fn data_address_fits(s: CpuModel) -> bool {
    i32::MIN <= data_address(s) <= i32::MAX
}

/// A load of `width` bytes into `rt`, the value passed through `extend`
/// (sign or zero extension): `None` if the address overflows or the bus
/// cannot serve it.
pub open spec fn load_spec(s: CpuModel, bus: BusModel, width: nat, signed_load: bool) -> Option<(CpuModel, BusModel)> {
    if !data_address_fits(s) {
        None
    } else {
        let address = data_address(s) as u32;
        if !memory_access_defined(width, false, address, cache_isolated(s)) {
            None
        } else {
            let o = memory_access(width, false, address, 0, cache_isolated(s), bus);
            let value = if !signed_load {
                o.value
            } else if width == 1 {
                ((o.value & 0xFF) as i8 as i32) as u32
            } else {
                ((o.value & 0xFFFF) as i16 as i32) as u32
            };
            Some((with_reg(s, ins(s).rt_bits(), value), o.bus))
        }
    }
}

/// A store of the low `width` bytes of `rt`.
pub open spec fn store_spec(s: CpuModel, bus: BusModel, width: nat) -> Option<(CpuModel, BusModel)> {
    if !data_address_fits(s) {
        None
    } else {
        let address = data_address(s) as u32;
        if !memory_access_defined(width, true, address, cache_isolated(s)) {
            None
        } else {
            let rt_value = reg(s, ins(s).rt_bits());
            let value = if width == 1 {
                rt_value & 0xFF
            } else if width == 2 {
                rt_value & 0xFFFF
            } else {
                rt_value
            };
            Some((s, memory_access(width, true, address, value, cache_isolated(s), bus).bus))
        }
    }
}

/// Fetches the instruction at `pc`: `pc` moves to `npc`, `npc` one word on.
pub open spec fn fetch_spec(s: CpuModel, bus: BusModel) -> CpuModel {
    CpuModel {
        instruction: instruction_fetch(bus, s.pc),
        pc: s.npc,
        npc: (s.npc + 4) as u32,
        ..s
    }
}

pub open spec fn fetch_defined(s: CpuModel) -> bool {
    instruction_fetch_defined(s.pc) && s.npc + 4 <= u32::MAX
}

/// SR after an exception: the mode bits move two places up (current to
/// previous, previous to old), within the six-bit field.
pub open spec fn sr_after_exception(sr: u32) -> u32 {
    sr_with_mode_bits(sr, (((sr & 0x3F) as u8) << 2u8) as u8)
}

/// SR after RFE: the mode bits move two places down, the old pair staying.
pub open spec fn sr_after_rfe(sr: u32) -> u32 {
    let m = (sr & 0x3F) as u8;
    sr_with_mode_bits(sr, (m & 0b110000) | (m >> 2u8))
}

/// An exception: EPC takes the address of the current instruction, CAUSE
/// the code, SR saves the mode, execution continues at the general
/// vector (0x80000080, or 0xBFC00180 with boot vectors) after refetching.
pub open spec fn exception_spec(s: CpuModel, bus: BusModel, e: Exception) -> Option<CpuModel> {
    let sr = sr_after_exception(s.cop0.sr);
    let base: u32 = if ((sr >> 22u32) & 1) == 1 {
        0xbfc00100
    } else {
        0x80000000
    };
    let s1 = CpuModel {
        cop0: Cop0Model {
            epc: s.current_instruction_pc,
            cause: cause_with_excode(s.cop0.cause, exception_code(e)),
            sr,
            ..s.cop0
        },
        npc: base | 0x80,
        ..s
    };
    if fetch_defined(s1) {
        Some(fetch_spec(s1, bus))
    } else {
        None
    }
}

/// DIV: quotient to LO, remainder to HI, both rounding toward zero; a zero
/// divisor gives -1 (or 1 for a negative dividend) and the dividend;
/// -2^31 / -1 gives -2^31 and 0.
pub open spec fn div_spec(s: CpuModel) -> CpuModel {
    let rs = reg(s, ins(s).rs_bits());
    let rt = reg(s, ins(s).rt_bits());
    let num = signed(rs);
    let denom = signed(rt);
    if denom == 0 {
        CpuModel { lo: if num >= 0 { 0xFFFFFFFFu32 } else { 1u32 }, hi: rs, ..s }
    } else if rs == 0x80000000 && rt == 0xFFFFFFFF {
        CpuModel { lo: 0x80000000, hi: 0, ..s }
    } else {
        CpuModel { lo: wrap32(div_toward_zero(num, denom)), hi: wrap32(rem_toward_zero(num, denom)), ..s }
    }
}

/// DIVU: quotient to LO, remainder to HI; a zero divisor gives 0xFFFFFFFF and the dividend.
pub open spec fn divu_spec(s: CpuModel) -> CpuModel {
    let rs = reg(s, ins(s).rs_bits());
    let rt = reg(s, ins(s).rt_bits());
    if rt == 0 {
        CpuModel { lo: 0xFFFFFFFF, hi: rs, ..s }
    } else {
        CpuModel { lo: rs / rt, hi: rs % rt, ..s }
    }
}

/// A register-format instruction other than SYSCALL.
pub open spec fn register_funct_spec(s: CpuModel) -> Option<CpuModel> {
    let i = ins(s);
    let rs = reg(s, i.rs_bits());
    let rt = reg(s, i.rt_bits());
    match funct_of(i.funct_bits()) {
        Some(InstructionFunct::ADDU) => Some(with_reg(s, i.rd_bits(), add_wrapping(rs, rt))),
        Some(InstructionFunct::AND) => Some(with_reg(s, i.rd_bits(), rs & rt)),
        Some(InstructionFunct::DIV) => Some(div_spec(s)),
        Some(InstructionFunct::DIVU) => Some(divu_spec(s)),
        Some(InstructionFunct::JALR) => {
            let linked = with_reg(s, i.rd_bits(), s.npc);
            Some(with_npc(linked, reg(linked, i.rs_bits())))
        },
        Some(InstructionFunct::JR) => Some(with_npc(s, rs)),
        Some(InstructionFunct::MFHI) => Some(with_reg(s, i.rd_bits(), s.hi)),
        Some(InstructionFunct::MFLO) => Some(with_reg(s, i.rd_bits(), s.lo)),
        Some(InstructionFunct::MTHI) => Some(CpuModel { hi: rs, ..s }),
        Some(InstructionFunct::MTLO) => Some(CpuModel { lo: rs, ..s }),
        Some(InstructionFunct::OR) => Some(with_reg(s, i.rd_bits(), rt | rs)),
        Some(InstructionFunct::SLL) => Some(with_reg(s, i.rd_bits(), rt << i.shamt_bits())),
        Some(InstructionFunct::SLLV) => Some(with_reg(s, i.rd_bits(), rt << (rs & 0x1F))),
        Some(InstructionFunct::SLT) => Some(
            with_reg(s, i.rd_bits(), if (rs as i32) < (rt as i32) { 1u32 } else { 0u32 }),
        ),
        Some(InstructionFunct::SLTU) => Some(
            with_reg(s, i.rd_bits(), if rs < rt { 1u32 } else { 0u32 }),
        ),
        Some(InstructionFunct::SRA) => Some(
            with_reg(s, i.rd_bits(), ((rt as i32) >> i.shamt_bits()) as u32),
        ),
        Some(InstructionFunct::SRL) => Some(with_reg(s, i.rd_bits(), rt >> i.shamt_bits())),
        Some(InstructionFunct::SUBU) => Some(with_reg(s, i.rd_bits(), sub_wrapping(rs, rt))),
        _ => None,
    }
}

/// ADD: rd gets rs plus rt; a signed overflow traps with an arithmetic
/// overflow exception and leaves rd alone.
pub open spec fn add_spec(s: CpuModel, bus: BusModel) -> Option<CpuModel> {
    let i = ins(s);
    let sum = (reg(s, i.rs_bits()) as i32) + (reg(s, i.rt_bits()) as i32);
    if i32::MIN <= sum <= i32::MAX {
        Some(with_reg(s, i.rd_bits(), sum as i32 as u32))
    } else {
        exception_spec(s, bus, Exception::Ov)
    }
}

/// A register-format instruction.
pub open spec fn funct_spec(s: CpuModel, bus: BusModel) -> Option<CpuModel> {
    if funct_of(ins(s).funct_bits()) == Some(InstructionFunct::SYSCALL) {
        exception_spec(s, bus, Exception::Syscall)
    } else if funct_of(ins(s).funct_bits()) == Some(InstructionFunct::ADD) {
        add_spec(s, bus)
    } else {
        register_funct_spec(s)
    }
}

/// A COP0 instruction: MFC0 and MTC0 on the registers that have them, RFE,
/// and the TLB commands (no-ops on this CPU).
pub open spec fn cop0_spec(s: CpuModel) -> Option<CpuModel> {
    let i = ins(s);
    if i.is_cop_common_spec() {
        match cop_common_op_of(i.cop_common_op_bits()) {
            Some(CopCommonInstruction::MFCN) => match cop0_reg_of(i.rd_bits()) {
                Some(r) => if cop0_readable(r) {
                    Some(with_reg(s, i.rt_bits(), cop0_read(s.cop0, r)))
                } else {
                    None
                },
                None => None,
            },
            Some(CopCommonInstruction::MTCN) => match cop0_reg_of(i.rd_bits()) {
                Some(r) => if cop0_writable(r) {
                    Some(CpuModel { cop0: cop0_written(s.cop0, r, reg(s, i.rt_bits())), ..s })
                } else {
                    None
                },
                None => None,
            },
            _ => None,
        }
    } else {
        match cop0_op_of(i.funct_bits()) {
            Some(Cop0Instruction::RFE) => Some(
                CpuModel { cop0: Cop0Model { sr: sr_after_rfe(s.cop0.sr), ..s.cop0 }, ..s },
            ),
            Some(_) => Some(s),
            None => None,
        }
    }
}

/// Pairs a CPU-only outcome with the unchanged bus.
pub open spec fn cpu_only(o: Option<CpuModel>, bus: BusModel) -> Option<(CpuModel, BusModel)> {
    match o {
        Some(s) => Some((s, bus)),
        None => None,
    }
}

/// The regimm branches (BLTZ, BGEZ, BLTZAL, BGEZAL): the link to r31
/// happens when bits 20..17 of rt are 1000, taken or not, and before the
/// condition register is read.
pub open spec fn regimm_spec(s: CpuModel) -> Option<CpuModel> {
    let i = ins(s);
    let rt = i.rt_bits();
    let linked = if (rt & 0x1E) == 0x10 {
        with_reg(s, 31, s.npc)
    } else {
        s
    };
    let rs_value = reg(linked, i.rs_bits());
    let is_bgez = (rt & 1) == 1;
    branch_if(linked, ((rs_value as i32) < 0) != is_bgez)
}

/// A jump within the current 256 MB region.
pub open spec fn jump_target(s: CpuModel) -> u32 {
    (s.pc & 0xF0000000) | (ins(s).target_bits() << 2u32)
}

/// An instruction that neither reads nor writes through the bus (other
/// than the register-format ones).
pub open spec fn cpu_op_spec(s: CpuModel) -> Option<CpuModel> {
    let i = ins(s);
    let rs = reg(s, i.rs_bits());
    let rt = reg(s, i.rt_bits());
    let imm = i.immediate_bits();
    match op_code_of(i.op_bits()) {
        Some(InstructionOp::ADDIU) => Some(with_reg(s, i.rt_bits(), add_wrapping(rs, sext(imm) as u32))),
        Some(InstructionOp::ANDI) => Some(with_reg(s, i.rt_bits(), rs & (imm as u32))),
        Some(InstructionOp::B) => regimm_spec(s),
        Some(InstructionOp::BEQ) => branch_if(s, rs == rt),
        Some(InstructionOp::BGTZ) => branch_if(s, (rs as i32) > 0),
        Some(InstructionOp::BLEZ) => branch_if(s, (rs as i32) <= 0),
        Some(InstructionOp::BNE) => branch_if(s, rs != rt),
        Some(InstructionOp::COP0) => cop0_spec(s),
        Some(InstructionOp::LUI) => Some(with_reg(s, i.rt_bits(), (imm as u32) << 16u32)),
        Some(InstructionOp::J) => Some(with_npc(s, jump_target(s))),
        Some(InstructionOp::JAL) => Some(with_npc(with_reg(s, 31, s.npc), jump_target(s))),
        Some(InstructionOp::ORI) => Some(with_reg(s, i.rt_bits(), rs | (imm as u32))),
        Some(InstructionOp::SLTI) => Some(
            with_reg(s, i.rt_bits(), if (rs as i32) < sext(imm) { 1u32 } else { 0u32 }),
        ),
        Some(InstructionOp::SLTIU) => Some(
            with_reg(s, i.rt_bits(), if rs < (sext(imm) as u32) { 1u32 } else { 0u32 }),
        ),
        Some(InstructionOp::COP1) | Some(InstructionOp::COP3) | Some(InstructionOp::LWC0) | Some(
            InstructionOp::LWC1,
        ) | Some(InstructionOp::LWC3) | Some(InstructionOp::SWC0) | Some(InstructionOp::SWC1) | Some(
            InstructionOp::SWC3,
        ) => Some(s),
        _ => None,
    }
}

/// ADDI: rt gets rs plus the sign-extended immediate; a signed overflow
/// traps with an arithmetic overflow exception and leaves rt alone.
pub open spec fn addi_spec(s: CpuModel, bus: BusModel) -> Option<CpuModel> {
    let i = ins(s);
    let rs = reg(s, i.rs_bits());
    let sum = (rs as i32) + sext(i.immediate_bits());
    if i32::MIN <= sum <= i32::MAX {
        Some(with_reg(s, i.rt_bits(), sum as i32 as u32))
    } else {
        exception_spec(s, bus, Exception::Ov)
    }
}

/// The instruction in `s.instruction`, executed.
pub open spec fn instruction_spec(s: CpuModel, bus: BusModel) -> Option<(CpuModel, BusModel)> {
    match op_code_of(ins(s).op_bits()) {
        Some(InstructionOp::FUNCT) => cpu_only(funct_spec(s, bus), bus),
        Some(InstructionOp::ADDI) => cpu_only(addi_spec(s, bus), bus),
        Some(InstructionOp::LB) => load_spec(s, bus, 1, true),
        Some(InstructionOp::LBU) => load_spec(s, bus, 1, false),
        Some(InstructionOp::LH) => load_spec(s, bus, 2, true),
        Some(InstructionOp::LHU) => load_spec(s, bus, 2, false),
        Some(InstructionOp::LW) => load_spec(s, bus, 4, false),
        Some(InstructionOp::SB) => store_spec(s, bus, 1),
        Some(InstructionOp::SW) => store_spec(s, bus, 4),
        Some(InstructionOp::SH) => store_spec(s, bus, 2),
        _ => cpu_only(cpu_op_spec(s), bus),
    }
}

/// `after` is the outcome `o` if there is one (and `ok` says so), or else
/// `before` unchanged.
pub open spec fn applied(ok: bool, before: CpuModel, after: CpuModel, o: Option<CpuModel>) -> bool {
    match o {
        Some(x) => ok && after == x,
        None => !ok && after == before,
    }
}

/// As `applied`, for an outcome that involves the bus.
pub open spec fn applied_with_bus(
    ok: bool,
    before: CpuModel,
    after: CpuModel,
    bus_before: BusModel,
    bus_after: BusModel,
    o: Option<(CpuModel, BusModel)>,
) -> bool {
    match o {
        Some((x, b)) => ok && after == x && bus_after == b,
        None => !ok && after == before && bus_after == bus_before,
    }
}

/// The CPU after a step that cannot be done: unchanged when the
/// instruction cannot be fetched (or the cycle count is at its limit);
/// otherwise with the instruction fetched, which stays so, and nothing of
/// its execution applied.
pub open spec fn failed_step(s: CpuModel, bus: BusModel) -> CpuModel {
    let s0 = CpuModel { current_instruction_pc: s.pc, ..s };
    if !fetch_defined(s0) || s.cycle >= usize::MAX {
        s
    } else {
        fetch_spec(s0, bus)
    }
}

/// One CPU step: remember the address of the instruction, fetch it, execute
/// it, count it. `None` if any part cannot be done.
pub open spec fn step_spec(s: CpuModel, bus: BusModel) -> Option<(CpuModel, BusModel)> {
    let s0 = CpuModel { current_instruction_pc: s.pc, ..s };
    if !fetch_defined(s0) || s.cycle >= usize::MAX {
        None
    } else {
        match instruction_spec(fetch_spec(s0, bus), bus) {
            Some((s2, b2)) => Some((CpuModel { cycle: (s2.cycle + 1) as usize, ..s2 }, b2)),
            None => None,
        }
    }
}


// ---------------------------------------------------------------------------
// The CPU.

/// Cycle range over which a front end shows the state after each instruction.
pub const TRACE_START_CYCLE: usize = 10000000;

pub const TRACE_CYCLES: usize = 10000;

/// The R3000A CPU: its registers and the instruction it is executing.
pub struct CPU {
    state: State,
}

struct State {
    cycle: usize,
    current_instruction_pc: u32,
    instruction: Instruction,
    registers: Registers,
    cop0_registers: Cop0Registers,
    frame_done: bool,
}

impl View for CPU {
    type V = CpuModel;

    closed spec fn view(&self) -> CpuModel {
        CpuModel {
            cycle: self.state.cycle,
            current_instruction_pc: self.state.current_instruction_pc,
            instruction: self.state.instruction.bits,
            gprs: self.state.registers.gprs@,
            hi: self.state.registers.hi,
            lo: self.state.registers.lo,
            pc: self.state.registers.pc,
            npc: self.state.registers.npc,
            cop0: cop0_model(&self.state.cop0_registers),
            frame_done: self.state.frame_done,
        }
    }
}

/// The CPU after a reset: registers as `Registers::new` and
/// `Cop0Registers::new` leave them, no instruction executed.
pub open spec fn reset_model() -> CpuModel {
    CpuModel {
        cycle: 0,
        current_instruction_pc: 0,
        instruction: 0,
        gprs: Seq::new(32, |i: int| 0u32),
        hi: 0,
        lo: 0,
        pc: crate::cpu_types::RESET_VECTOR,
        npc: (crate::cpu_types::RESET_VECTOR + 4) as u32,
        cop0: Cop0Model {
            bpc: 0,
            bda: 0,
            tar: 0,
            dcic: 0,
            bad_vaddr: 0,
            bdam: 0,
            bpcm: 0,
            sr: 0,
            cause: 0,
            epc: 0,
            prid: 0,
        },
        frame_done: false,
    }
}

impl CPU {
    pub fn new() -> (r: Self)
        ensures
            r@ == reset_model(),
    {
        let r = Self { state: State::new() };
        assert(r@.gprs =~= reset_model().gprs);
        r
    }

    /// Executes one instruction. `Err` exactly when the step cannot be done
    /// (an undefined or unimplemented instruction, an arithmetic overflow
    /// that the instruction does not wrap, an address that the bus does not
    /// serve); the machine is then to be stopped.
    pub fn execute(&mut self, bus: &mut Bus) -> (r: Result<(), String>)
        requires
            old(bus).wf(),
        ensures
            final(bus).wf(),
            match step_spec(old(self)@, old(bus)@) {
                Some((s, b)) => r is Ok && final(self)@ == s && final(bus)@ == b,
                None => r is Err && final(self)@ == failed_step(old(self)@, old(bus)@) && final(bus)@
                    == old(bus)@,
            },
            r matches Err(message) ==> message@ == halt_text(
                final(self)@.cycle as nat,
                old(self)@.pc,
                final(self)@.instruction,
            ),
    {
        let pc = self.state.registers.pc;
        if !Bus::is_instruction_fetchable(pc) || self.state.registers.npc > u32::MAX - 4
            || self.state.cycle == usize::MAX {
            return Err(halt_message(self.state.cycle, pc, self.state.instruction.bits));
        }
        self.state.current_instruction_pc = pc;
        self.fetch_instruction(bus);
        if !self.execute_instruction(bus) {
            return Err(halt_message(self.state.cycle, pc, self.state.instruction.bits));
        }
        self.state.cycle += 1;
        Ok(())
    }

    /// Instructions executed so far.
    pub fn get_cycle(&self) -> (r: usize)
        ensures
            r == self@.cycle,
    {
        self.state.cycle
    }

    /// The instruction word last fetched.
    pub fn get_instruction(&self) -> (r: u32)
        ensures
            r == self@.instruction,
    {
        self.state.instruction.bits
    }

    /// Address of the instruction last executed.
    pub fn get_current_instruction_pc(&self) -> (r: u32)
        ensures
            r == self@.current_instruction_pc,
    {
        self.state.current_instruction_pc
    }

    pub fn registers(&self) -> (r: &Registers)
        ensures
            r.gprs@ == self@.gprs,
            r.hi == self@.hi,
            r.lo == self@.lo,
            r.pc == self@.pc,
            r.npc == self@.npc,
    {
        &self.state.registers
    }

    pub fn cop0_registers(&self) -> (r: &Cop0Registers)
        ensures
            cop0_model(r) == self@.cop0,
    {
        &self.state.cop0_registers
    }

    fn fetch_instruction(&mut self, bus: &mut Bus)
        requires
            old(bus).wf(),
            fetch_defined(old(self)@),
        ensures
            final(self)@ == fetch_spec(old(self)@, old(bus)@),
            final(bus)@ == old(bus)@,
    {
        let address = self.state.registers.pc;
        let bits = bus.fetch_instruction(address);
        self.state.instruction.bits = bits;
        self.state.registers.pc = self.state.registers.npc;
        self.state.registers.npc = self.state.registers.npc + 4;
    }
}

impl State {
    fn new() -> (r: Self)
        ensures
            r.cycle == 0,
            r.current_instruction_pc == 0,
            r.instruction.bits == 0,
            r.registers.gprs@ == Seq::new(32, |i: int| 0u32),
            r.registers.hi == 0,
            r.registers.lo == 0,
            r.registers.pc == crate::cpu_types::RESET_VECTOR,
            r.registers.npc == crate::cpu_types::RESET_VECTOR + 4,
            cop0_model(&r.cop0_registers) == reset_model().cop0,
            !r.frame_done,
    {
        Self {
            cycle: 0,
            instruction: Instruction::new(),
            current_instruction_pc: 0,
            registers: Registers::new(),
            cop0_registers: Cop0Registers::new(),
            frame_done: false,
        }
    }
}

/// "cannot execute instruction " in ASCII.
pub open spec fn cannot_execute_text() -> Seq<u8> {
    seq![
        0x63u8, 0x61, 0x6e, 0x6e, 0x6f, 0x74, 0x20, 0x65, 0x78, 0x65, 0x63, 0x75, 0x74, 0x65, 0x20,
        0x69, 0x6e, 0x73, 0x74, 0x72, 0x75, 0x63, 0x74, 0x69, 0x6f, 0x6e, 0x20,
    ]
}

/// " at " in ASCII.
pub open spec fn at_text() -> Seq<u8> {
    seq![0x20u8, 0x61, 0x74, 0x20]
}

/// " (cycle " in ASCII.
pub open spec fn cycle_text() -> Seq<u8> {
    seq![0x20u8, 0x28, 0x63, 0x79, 0x63, 0x6c, 0x65, 0x20]
}

/// The message with which a step that cannot be done is refused:
/// "cannot execute instruction <word> at <address> (cycle <n>)", the
/// instruction word and its address in eight hexadecimal digits, the cycle in
/// decimal.
pub open spec fn halt_text(cycle: nat, pc: u32, instruction: u32) -> Seq<char> {
    ascii_chars(
        cannot_execute_text() + hex_word_digits(instruction) + at_text() + hex_word_digits(pc)
            + cycle_text() + decimal_digits(cycle) + seq![0x29u8],
    )
}

fn halt_message(cycle: usize, pc: u32, instruction: u32) -> (r: String)
    ensures
        r@ == halt_text(cycle as nat, pc, instruction),
{
    let cannot_execute: [u8; 27] = [
        0x63, 0x61, 0x6e, 0x6e, 0x6f, 0x74, 0x20, 0x65, 0x78, 0x65, 0x63, 0x75, 0x74, 0x65, 0x20,
        0x69, 0x6e, 0x73, 0x74, 0x72, 0x75, 0x63, 0x74, 0x69, 0x6f, 0x6e, 0x20,
    ];
    let at: [u8; 4] = [0x20, 0x61, 0x74, 0x20];
    let cycle_bytes: [u8; 8] = [0x20, 0x28, 0x63, 0x79, 0x63, 0x6c, 0x65, 0x20];
    let close: [u8; 1] = [0x29];
    assert(cannot_execute@ =~= cannot_execute_text());
    assert(at@ =~= at_text());
    assert(cycle_bytes@ =~= cycle_text());
    assert(close@ =~= seq![0x29u8]);
    let mut bytes: Vec<u8> = Vec::new();
    append_bytes(&mut bytes, &cannot_execute);
    let word = hex_word(instruction);
    append_bytes(&mut bytes, word.as_slice());
    append_bytes(&mut bytes, &at);
    let address = hex_word(pc);
    append_bytes(&mut bytes, address.as_slice());
    append_bytes(&mut bytes, &cycle_bytes);
    let count = decimal(cycle as u64);
    append_bytes(&mut bytes, count.as_slice());
    append_bytes(&mut bytes, &close);
    proof {
        lemma_digits_ascii(cycle as nat, instruction);
        lemma_digits_ascii(0, pc);
        assert(is_ascii_bytes(bytes@));
    }
    ascii_string(bytes.as_slice())
}


impl CPU {
    /// Executes the instruction last fetched.
    fn execute_instruction(&mut self, bus: &mut Bus) -> (ok: bool)
        requires
            old(bus).wf(),
        ensures
            final(bus).wf(),
            applied_with_bus(
                ok,
                old(self)@,
                final(self)@,
                old(bus)@,
                final(bus)@,
                instruction_spec(old(self)@, old(bus)@),
            ),
    {
        let bits = self.state.instruction.bits;
        proof {
            crate::cpu_types::lemma_instruction_field_bounds(bits);
        }
        match InstructionOp::decode((bits >> 26) as u8) {
            Some(InstructionOp::FUNCT) => self.execute_funct(bus),
            Some(InstructionOp::ADDI) => self.execute_addi(bus),
            Some(InstructionOp::ADDIU) => {
                self.execute_addiu();
                true
            },
            Some(InstructionOp::ANDI) => {
                self.execute_andi();
                true
            },
            Some(InstructionOp::B) => self.execute_b(),
            Some(InstructionOp::BEQ) => self.execute_beq(),
            Some(InstructionOp::BGTZ) => self.execute_bgtz(),
            Some(InstructionOp::BLEZ) => self.execute_blez(),
            Some(InstructionOp::BNE) => self.execute_bne(),
            Some(InstructionOp::COP0) => self.execute_cop0(),
            Some(InstructionOp::LB) => self.execute_lb(bus),
            Some(InstructionOp::LBU) => self.execute_lbu(bus),
            Some(InstructionOp::LH) => self.execute_lh(bus),
            Some(InstructionOp::LHU) => self.execute_lhu(bus),
            Some(InstructionOp::LUI) => {
                self.execute_lui();
                true
            },
            Some(InstructionOp::LW) => self.execute_lw(bus),
            Some(InstructionOp::J) => {
                self.execute_j();
                true
            },
            Some(InstructionOp::JAL) => {
                self.execute_jal();
                true
            },
            Some(InstructionOp::ORI) => {
                self.execute_ori();
                true
            },
            Some(InstructionOp::SB) => self.execute_sb(bus),
            Some(InstructionOp::SLTI) => {
                self.execute_slti();
                true
            },
            Some(InstructionOp::SLTIU) => {
                self.execute_sltiu();
                true
            },
            Some(InstructionOp::SW) => self.execute_sw(bus),
            Some(InstructionOp::SH) => self.execute_sh(bus),
            // No-ops.
            Some(InstructionOp::COP1) | Some(InstructionOp::COP3) | Some(InstructionOp::LWC0) | Some(
                InstructionOp::LWC1,
            ) | Some(InstructionOp::LWC3) | Some(InstructionOp::SWC0) | Some(InstructionOp::SWC1)
            | Some(InstructionOp::SWC3) => true,
            // Not implemented, or not an instruction.
            _ => false,
        }
    }

    /// Executes a register-format instruction.
    fn execute_funct(&mut self, bus: &mut Bus) -> (ok: bool)
        requires
            old(bus).wf(),
            op_code_of(ins(old(self)@).op_bits()) == Some(InstructionOp::FUNCT),
        ensures
            final(bus).wf(),
            final(bus)@ == old(bus)@,
            applied(ok, old(self)@, final(self)@, funct_spec(old(self)@, old(bus)@)),
    {
        let bits = self.state.instruction.bits;
        proof {
            crate::cpu_types::lemma_instruction_field_bounds(bits);
        }
        match InstructionFunct::decode((bits & 0x3F) as u8) {
            Some(InstructionFunct::ADD) => self.execute_add(bus),
            Some(InstructionFunct::ADDU) => self.execute_addu(),
            Some(InstructionFunct::AND) => {
                self.execute_and();
                true
            },
            Some(InstructionFunct::DIV) => {
                self.execute_div();
                true
            },
            Some(InstructionFunct::DIVU) => {
                self.execute_divu();
                true
            },
            Some(InstructionFunct::JALR) => {
                self.execute_jalr();
                true
            },
            Some(InstructionFunct::JR) => {
                self.execute_jr();
                true
            },
            Some(InstructionFunct::MFHI) => {
                self.execute_mfhi();
                true
            },
            Some(InstructionFunct::MFLO) => {
                self.execute_mflo();
                true
            },
            Some(InstructionFunct::MTHI) => {
                self.execute_mthi();
                true
            },
            Some(InstructionFunct::MTLO) => {
                self.execute_mtlo();
                true
            },
            Some(InstructionFunct::OR) => {
                self.execute_or();
                true
            },
            Some(InstructionFunct::SLL) => {
                self.execute_sll();
                true
            },
            Some(InstructionFunct::SLLV) => self.execute_sllv(),
            Some(InstructionFunct::SLT) => {
                self.execute_slt();
                true
            },
            Some(InstructionFunct::SLTU) => {
                self.execute_sltu();
                true
            },
            Some(InstructionFunct::SRA) => {
                self.execute_sra();
                true
            },
            Some(InstructionFunct::SRL) => {
                self.execute_srl();
                true
            },
            Some(InstructionFunct::SUBU) => {
                self.execute_subu();
                true
            },
            Some(InstructionFunct::SYSCALL) => self.execute_syscall(bus),
            // Not implemented, or not an instruction.
            _ => false,
        }
    }

    /// ADDI rt, rs, immediate; traps on a signed overflow.
    fn execute_addi(&mut self, bus: &mut Bus) -> (ok: bool)
        requires
            old(bus).wf(),
            op_code_of(ins(old(self)@).op_bits()) == Some(InstructionOp::ADDI),
        ensures
            final(bus).wf(),
            final(bus)@ == old(bus)@,
            applied(ok, old(self)@, final(self)@, addi_spec(old(self)@, old(bus)@)),
    {
        let rt = self.state.instruction.get_rt();
        let rs = self.state.instruction.get_rs();
        let immediate = self.state.instruction.get_immediate();
        let rs_value = self.state.registers.read_register(rs);
        let sext_immediate = immediate as i16 as i32;
        match (rs_value as i32).checked_add(sext_immediate) {
            Some(result) => {
                self.state.registers.write_register(rt, result as u32);
                true
            },
            None => self.raise_exception(Exception::Ov, bus),
        }
    }

    /// ADDIU rt, rs, immediate
    fn execute_addiu(&mut self)
        requires
            op_code_of(ins(old(self)@).op_bits()) == Some(InstructionOp::ADDIU),
        ensures
            cpu_op_spec(old(self)@) == Some(final(self)@),
    {
        let rt = self.state.instruction.get_rt();
        let rs = self.state.instruction.get_rs();
        let immediate = self.state.instruction.get_immediate();
        let rs_value = self.state.registers.read_register(rs);
        let sext_immediate = immediate as i16 as i32;
        // ADDIU wraps around on overflow.
        let result = rs_value.wrapping_add(sext_immediate as u32);
        self.state.registers.write_register(rt, result);
    }

    /// ANDI rt, rs, immediate
    fn execute_andi(&mut self)
        requires
            op_code_of(ins(old(self)@).op_bits()) == Some(InstructionOp::ANDI),
        ensures
            cpu_op_spec(old(self)@) == Some(final(self)@),
    {
        let rt = self.state.instruction.get_rt();
        let rs = self.state.instruction.get_rs();
        let immediate = self.state.instruction.get_immediate();
        let rs_value = self.state.registers.read_register(rs);
        let result = rs_value & (immediate as u32);
        self.state.registers.write_register(rt, result);
    }

    /// ADD rd, rs, rt; traps on a signed overflow.
    fn execute_add(&mut self, bus: &mut Bus) -> (ok: bool)
        requires
            old(bus).wf(),
            funct_of(ins(old(self)@).funct_bits()) == Some(InstructionFunct::ADD),
        ensures
            final(bus).wf(),
            final(bus)@ == old(bus)@,
            applied(ok, old(self)@, final(self)@, add_spec(old(self)@, old(bus)@)),
    {
        let rd = self.state.instruction.get_rd();
        let rs = self.state.instruction.get_rs();
        let rt = self.state.instruction.get_rt();
        let rs_value = self.state.registers.read_register(rs);
        let rt_value = self.state.registers.read_register(rt);
        // ADD traps on a signed overflow.
        match (rs_value as i32).checked_add(rt_value as i32) {
            Some(result) => {
                self.state.registers.write_register(rd, result as u32);
                true
            },
            None => self.raise_exception(Exception::Ov, bus),
        }
    }

    /// ADDU rd, rs, rt
    fn execute_addu(&mut self) -> (ok: bool)
        requires
            funct_of(ins(old(self)@).funct_bits()) == Some(InstructionFunct::ADDU),
        ensures
            applied(ok, old(self)@, final(self)@, register_funct_spec(old(self)@)),
    {
        let rd = self.state.instruction.get_rd();
        let rs = self.state.instruction.get_rs();
        let rt = self.state.instruction.get_rt();
        let rs_value = self.state.registers.read_register(rs);
        let rt_value = self.state.registers.read_register(rt);
        // ADDU wraps around on overflow.
        let result = rs_value.wrapping_add(rt_value);
        self.state.registers.write_register(rd, result);
        true
    }

    /// AND rd, rs, rt
    fn execute_and(&mut self)
        requires
            funct_of(ins(old(self)@).funct_bits()) == Some(InstructionFunct::AND),
        ensures
            register_funct_spec(old(self)@) == Some(final(self)@),
    {
        let rd = self.state.instruction.get_rd();
        let rs = self.state.instruction.get_rs();
        let rt = self.state.instruction.get_rt();
        let rs_value = self.state.registers.read_register(rs);
        let rt_value = self.state.registers.read_register(rt);
        let result = rs_value & rt_value;
        self.state.registers.write_register(rd, result);
    }

    /// Moves `npc` to the branch target: `pc` plus the sign-extended offset
    /// in words, computed as an `i32`.
    fn take_branch(&mut self) -> (ok: bool)
        ensures
            applied(ok, old(self)@, final(self)@, branch_if(old(self)@, true)),
    {
        let offset = self.state.instruction.get_offset();
        let offset = (offset as i16 as i32) * 4;
        match (self.state.registers.pc as i32).checked_add(offset) {
            Some(npc) => {
                self.state.registers.npc = npc as u32;
                true
            },
            None => false,
        }
    }

    /// BLTZ, BGEZ, BLTZAL, BGEZAL rs, offset
    fn execute_b(&mut self) -> (ok: bool)
        requires
            op_code_of(ins(old(self)@).op_bits()) == Some(InstructionOp::B),
        ensures
            applied(ok, old(self)@, final(self)@, cpu_op_spec(old(self)@)),
    {
        let rs = self.state.instruction.get_rs();
        let rt = self.state.instruction.get_rt();
        let links = (rt & 0x1E) == 0x10;
        let npc = self.state.registers.npc;
        // The condition register is read after the link, so r31 reads as `npc`.
        let rs_value = if links && rs == 31 {
            npc
        } else {
            self.state.registers.read_register(rs)
        };
        let is_bgez = (rt & 1) == 1;
        // The branch is taken when the sign and the BGEZ bit differ.
        let taken = ((rs_value as i32) < 0) != is_bgez;
        if taken {
            let offset = self.state.instruction.get_offset();
            let offset = (offset as i16 as i32) * 4;
            if (self.state.registers.pc as i32).checked_add(offset).is_none() {
                return false;
            }
        }
        // BLTZAL and BGEZAL link, whether or not the branch is taken.
        if links {
            self.state.registers.write_register(31, npc);
        }
        if taken {
            self.take_branch()
        } else {
            true
        }
    }

    /// BEQ rs, rt, offset
    fn execute_beq(&mut self) -> (ok: bool)
        requires
            op_code_of(ins(old(self)@).op_bits()) == Some(InstructionOp::BEQ),
        ensures
            applied(ok, old(self)@, final(self)@, cpu_op_spec(old(self)@)),
    {
        let rs = self.state.instruction.get_rs();
        let rt = self.state.instruction.get_rt();
        let rs_value = self.state.registers.read_register(rs);
        let rt_value = self.state.registers.read_register(rt);
        if rs_value == rt_value {
            self.take_branch()
        } else {
            true
        }
    }

    /// BNE rs, rt, offset
    fn execute_bne(&mut self) -> (ok: bool)
        requires
            op_code_of(ins(old(self)@).op_bits()) == Some(InstructionOp::BNE),
        ensures
            applied(ok, old(self)@, final(self)@, cpu_op_spec(old(self)@)),
    {
        let rs = self.state.instruction.get_rs();
        let rt = self.state.instruction.get_rt();
        let rs_value = self.state.registers.read_register(rs);
        let rt_value = self.state.registers.read_register(rt);
        if rs_value != rt_value {
            self.take_branch()
        } else {
            true
        }
    }

    /// BGTZ rs, offset: branch when rs, signed, is above zero.
    fn execute_bgtz(&mut self) -> (ok: bool)
        requires
            op_code_of(ins(old(self)@).op_bits()) == Some(InstructionOp::BGTZ),
        ensures
            applied(ok, old(self)@, final(self)@, cpu_op_spec(old(self)@)),
    {
        let rs = self.state.instruction.get_rs();
        let rs_value = self.state.registers.read_register(rs);
        if (rs_value as i32) > 0 {
            self.take_branch()
        } else {
            true
        }
    }

    /// BLEZ rs, offset: branch when rs, signed, is at most zero.
    fn execute_blez(&mut self) -> (ok: bool)
        requires
            op_code_of(ins(old(self)@).op_bits()) == Some(InstructionOp::BLEZ),
        ensures
            applied(ok, old(self)@, final(self)@, cpu_op_spec(old(self)@)),
    {
        let rs = self.state.instruction.get_rs();
        let rs_value = self.state.registers.read_register(rs);
        if (rs_value as i32) <= 0 {
            self.take_branch()
        } else {
            true
        }
    }

    /// DIV rs, rt: quotient to LO, remainder to HI.
    fn execute_div(&mut self)
        requires
            funct_of(ins(old(self)@).funct_bits()) == Some(InstructionFunct::DIV),
        ensures
            register_funct_spec(old(self)@) == Some(final(self)@),
    {
        let rs = self.state.instruction.get_rs();
        let rt = self.state.instruction.get_rt();
        let num = self.state.registers.read_register(rs);
        let denom = self.state.registers.read_register(rt);
        if denom == 0 {
            // Division by zero.
            self.state.registers.lo = if num < 0x80000000 {
                0xFFFFFFFF
            } else {
                0x1
            };
            self.state.registers.hi = num;
        } else if num == 0x80000000 && denom == 0xFFFFFFFF {
            // The quotient is not representable.
            self.state.registers.lo = 0x80000000;
            self.state.registers.hi = 0x0;
        } else {
            // Magnitudes divided, signs put back: rounding toward zero.
            let num_negative = num >= 0x80000000;
            let denom_negative = denom >= 0x80000000;
            let num_abs = if num_negative {
                0u32.wrapping_sub(num)
            } else {
                num
            };
            let denom_abs = if denom_negative {
                0u32.wrapping_sub(denom)
            } else {
                denom
            };
            let quotient = num_abs / denom_abs;
            let remainder = num_abs % denom_abs;
            proof {
                lemma_negate_wrap(quotient);
                lemma_negate_wrap(remainder);
            }
            self.state.registers.lo = if num_negative != denom_negative {
                0u32.wrapping_sub(quotient)
            } else {
                quotient
            };
            self.state.registers.hi = if num_negative {
                0u32.wrapping_sub(remainder)
            } else {
                remainder
            };
        }
    }

    /// DIVU rs, rt: quotient to LO, remainder to HI.
    fn execute_divu(&mut self)
        requires
            funct_of(ins(old(self)@).funct_bits()) == Some(InstructionFunct::DIVU),
        ensures
            register_funct_spec(old(self)@) == Some(final(self)@),
    {
        let rs = self.state.instruction.get_rs();
        let rt = self.state.instruction.get_rt();
        let num = self.state.registers.read_register(rs);
        let denom = self.state.registers.read_register(rt);
        if denom == 0 {
            self.state.registers.lo = 0xFFFFFFFF;
            self.state.registers.hi = num;
        } else {
            self.state.registers.lo = num / denom;
            self.state.registers.hi = num % denom;
        }
    }

    /// J target
    fn execute_j(&mut self)
        requires
            op_code_of(ins(old(self)@).op_bits()) == Some(InstructionOp::J),
        ensures
            cpu_op_spec(old(self)@) == Some(final(self)@),
    {
        let target = self.state.instruction.get_target();
        let address = (self.state.registers.pc & 0xF0000000) | (target << 2);
        self.state.registers.npc = address;
    }

    /// JAL target
    fn execute_jal(&mut self)
        requires
            op_code_of(ins(old(self)@).op_bits()) == Some(InstructionOp::JAL),
        ensures
            cpu_op_spec(old(self)@) == Some(final(self)@),
    {
        let npc = self.state.registers.npc;
        self.state.registers.write_register(31, npc);
        let target = self.state.instruction.get_target();
        let address = (self.state.registers.pc & 0xF0000000) | (target << 2);
        self.state.registers.npc = address;
    }

    /// JALR rd, rs
    fn execute_jalr(&mut self)
        requires
            funct_of(ins(old(self)@).funct_bits()) == Some(InstructionFunct::JALR),
        ensures
            register_funct_spec(old(self)@) == Some(final(self)@),
    {
        let rd = self.state.instruction.get_rd();
        let rs = self.state.instruction.get_rs();
        // Link first: with rd == rs the jump goes to the linked address.
        let npc = self.state.registers.npc;
        self.state.registers.write_register(rd, npc);
        let rs_value = self.state.registers.read_register(rs);
        self.state.registers.npc = rs_value;
    }

    /// JR rs
    fn execute_jr(&mut self)
        requires
            funct_of(ins(old(self)@).funct_bits()) == Some(InstructionFunct::JR),
        ensures
            register_funct_spec(old(self)@) == Some(final(self)@),
    {
        let rs = self.state.instruction.get_rs();
        let rs_value = self.state.registers.read_register(rs);
        self.state.registers.npc = rs_value;
    }

    /// The data address of the current load or store: `None` if base plus
    /// offset overflows an `i32`.
    fn data_address(&self) -> (r: Option<u32>)
        ensures
            r == (if data_address_fits(self@) {
                Some(data_address(self@) as u32)
            } else {
                None
            }),
    {
        let base = self.state.instruction.get_base();
        let offset = self.state.instruction.get_offset();
        let base_value = self.state.registers.read_register(base);
        let sext_offset = offset as i16 as i32;
        match (base_value as i32).checked_add(sext_offset) {
            Some(address) => Some(address as u32),
            None => None,
        }
    }

    /// LB rt, offset(base): sign-extended byte.
    fn execute_lb(&mut self, bus: &mut Bus) -> (ok: bool)
        requires
            old(bus).wf(),
            op_code_of(ins(old(self)@).op_bits()) == Some(InstructionOp::LB),
        ensures
            final(bus).wf(),
            applied_with_bus(
                ok,
                old(self)@,
                final(self)@,
                old(bus)@,
                final(bus)@,
                instruction_spec(old(self)@, old(bus)@),
            ),
    {
        let rt = self.state.instruction.get_rt();
        let address = match self.data_address() {
            Some(address) => address,
            None => return false,
        };
        let cache_is_isolated = self.state.cop0_registers.sr.get_isc();
        if !Bus::is_access_defined(1, false, address, cache_is_isolated) {
            return false;
        }
        let mut value: u32 = 0;
        bus.access_memory::<ReadByte>(address, &mut value, cache_is_isolated);
        let value = ((value & 0xFF) as i8 as i32) as u32;
        self.state.registers.write_register(rt, value);
        true
    }

    /// LBU rt, offset(base)
    fn execute_lbu(&mut self, bus: &mut Bus) -> (ok: bool)
        requires
            old(bus).wf(),
            op_code_of(ins(old(self)@).op_bits()) == Some(InstructionOp::LBU),
        ensures
            final(bus).wf(),
            applied_with_bus(
                ok,
                old(self)@,
                final(self)@,
                old(bus)@,
                final(bus)@,
                instruction_spec(old(self)@, old(bus)@),
            ),
    {
        let rt = self.state.instruction.get_rt();
        let address = match self.data_address() {
            Some(address) => address,
            None => return false,
        };
        let cache_is_isolated = self.state.cop0_registers.sr.get_isc();
        if !Bus::is_access_defined(1, false, address, cache_is_isolated) {
            return false;
        }
        let mut value: u32 = 0;
        bus.access_memory::<ReadByte>(address, &mut value, cache_is_isolated);
        self.state.registers.write_register(rt, value);
        true
    }

    /// LH rt, offset(base): sign-extended half-word.
    fn execute_lh(&mut self, bus: &mut Bus) -> (ok: bool)
        requires
            old(bus).wf(),
            op_code_of(ins(old(self)@).op_bits()) == Some(InstructionOp::LH),
        ensures
            final(bus).wf(),
            applied_with_bus(
                ok,
                old(self)@,
                final(self)@,
                old(bus)@,
                final(bus)@,
                instruction_spec(old(self)@, old(bus)@),
            ),
    {
        let rt = self.state.instruction.get_rt();
        let address = match self.data_address() {
            Some(address) => address,
            None => return false,
        };
        let cache_is_isolated = self.state.cop0_registers.sr.get_isc();
        if !Bus::is_access_defined(2, false, address, cache_is_isolated) {
            return false;
        }
        let mut value: u32 = 0;
        bus.access_memory::<ReadHalfWord>(address, &mut value, cache_is_isolated);
        let value = ((value & 0xFFFF) as i16 as i32) as u32;
        self.state.registers.write_register(rt, value);
        true
    }

    /// LHU rt, offset(base)
    fn execute_lhu(&mut self, bus: &mut Bus) -> (ok: bool)
        requires
            old(bus).wf(),
            op_code_of(ins(old(self)@).op_bits()) == Some(InstructionOp::LHU),
        ensures
            final(bus).wf(),
            applied_with_bus(
                ok,
                old(self)@,
                final(self)@,
                old(bus)@,
                final(bus)@,
                instruction_spec(old(self)@, old(bus)@),
            ),
    {
        let rt = self.state.instruction.get_rt();
        let address = match self.data_address() {
            Some(address) => address,
            None => return false,
        };
        let cache_is_isolated = self.state.cop0_registers.sr.get_isc();
        if !Bus::is_access_defined(2, false, address, cache_is_isolated) {
            return false;
        }
        let mut value: u32 = 0;
        bus.access_memory::<ReadHalfWord>(address, &mut value, cache_is_isolated);
        self.state.registers.write_register(rt, value);
        true
    }

    /// LW rt, offset(base)
    fn execute_lw(&mut self, bus: &mut Bus) -> (ok: bool)
        requires
            old(bus).wf(),
            op_code_of(ins(old(self)@).op_bits()) == Some(InstructionOp::LW),
        ensures
            final(bus).wf(),
            applied_with_bus(
                ok,
                old(self)@,
                final(self)@,
                old(bus)@,
                final(bus)@,
                instruction_spec(old(self)@, old(bus)@),
            ),
    {
        let rt = self.state.instruction.get_rt();
        let address = match self.data_address() {
            Some(address) => address,
            None => return false,
        };
        let cache_is_isolated = self.state.cop0_registers.sr.get_isc();
        if !Bus::is_access_defined(4, false, address, cache_is_isolated) {
            return false;
        }
        let mut value: u32 = 0;
        bus.access_memory::<ReadWord>(address, &mut value, cache_is_isolated);
        self.state.registers.write_register(rt, value);
        true
    }

    /// LUI rt, immediate
    fn execute_lui(&mut self)
        requires
            op_code_of(ins(old(self)@).op_bits()) == Some(InstructionOp::LUI),
        ensures
            cpu_op_spec(old(self)@) == Some(final(self)@),
    {
        let rt = self.state.instruction.get_rt();
        let immediate = self.state.instruction.get_immediate();
        let _ = self.state.registers.write_register_upper(rt, immediate);
    }

    /// MFHI rd
    fn execute_mfhi(&mut self)
        requires
            funct_of(ins(old(self)@).funct_bits()) == Some(InstructionFunct::MFHI),
        ensures
            register_funct_spec(old(self)@) == Some(final(self)@),
    {
        let rd = self.state.instruction.get_rd();
        let value = self.state.registers.hi;
        self.state.registers.write_register(rd, value);
    }

    /// MFLO rd
    fn execute_mflo(&mut self)
        requires
            funct_of(ins(old(self)@).funct_bits()) == Some(InstructionFunct::MFLO),
        ensures
            register_funct_spec(old(self)@) == Some(final(self)@),
    {
        let rd = self.state.instruction.get_rd();
        let value = self.state.registers.lo;
        self.state.registers.write_register(rd, value);
    }

    /// MTHI rs
    fn execute_mthi(&mut self)
        requires
            funct_of(ins(old(self)@).funct_bits()) == Some(InstructionFunct::MTHI),
        ensures
            register_funct_spec(old(self)@) == Some(final(self)@),
    {
        let rs = self.state.instruction.get_rs();
        let value = self.state.registers.read_register(rs);
        self.state.registers.hi = value;
    }

    /// MTLO rs
    fn execute_mtlo(&mut self)
        requires
            funct_of(ins(old(self)@).funct_bits()) == Some(InstructionFunct::MTLO),
        ensures
            register_funct_spec(old(self)@) == Some(final(self)@),
    {
        let rs = self.state.instruction.get_rs();
        let value = self.state.registers.read_register(rs);
        self.state.registers.lo = value;
    }

    /// OR rd, rs, rt
    fn execute_or(&mut self)
        requires
            funct_of(ins(old(self)@).funct_bits()) == Some(InstructionFunct::OR),
        ensures
            register_funct_spec(old(self)@) == Some(final(self)@),
    {
        let rd = self.state.instruction.get_rd();
        let rs = self.state.instruction.get_rs();
        let rt = self.state.instruction.get_rt();
        let rs_value = self.state.registers.read_register(rs);
        let rt_value = self.state.registers.read_register(rt);
        let result = rt_value | rs_value;
        self.state.registers.write_register(rd, result);
    }

    /// ORI rt, rs, immediate
    fn execute_ori(&mut self)
        requires
            op_code_of(ins(old(self)@).op_bits()) == Some(InstructionOp::ORI),
        ensures
            cpu_op_spec(old(self)@) == Some(final(self)@),
    {
        let rt = self.state.instruction.get_rt();
        let rs = self.state.instruction.get_rs();
        let immediate = self.state.instruction.get_immediate();
        let rs_value = self.state.registers.read_register(rs);
        let result = rs_value | (immediate as u32);
        self.state.registers.write_register(rt, result);
    }

    /// SLL rd, rt, shamt
    fn execute_sll(&mut self)
        requires
            funct_of(ins(old(self)@).funct_bits()) == Some(InstructionFunct::SLL),
        ensures
            register_funct_spec(old(self)@) == Some(final(self)@),
    {
        let rd = self.state.instruction.get_rd();
        let rt = self.state.instruction.get_rt();
        let shamt = self.state.instruction.get_shamt();
        let rt_value = self.state.registers.read_register(rt);
        let result = rt_value << shamt;
        self.state.registers.write_register(rd, result);
    }

    /// SLLV rd, rt, rs: shift by the low five bits of rs.
    fn execute_sllv(&mut self) -> (ok: bool)
        requires
            funct_of(ins(old(self)@).funct_bits()) == Some(InstructionFunct::SLLV),
        ensures
            applied(ok, old(self)@, final(self)@, register_funct_spec(old(self)@)),
    {
        let rd = self.state.instruction.get_rd();
        let rs = self.state.instruction.get_rs();
        let rt = self.state.instruction.get_rt();
        let rs_value = self.state.registers.read_register(rs);
        let rt_value = self.state.registers.read_register(rt);
        // The shift amount is the low five bits of rs.
        let amount = rs_value & 0x1F;
        assert(rs_value & 0x1F < 32) by (bit_vector);
        let result = rt_value << amount;
        self.state.registers.write_register(rd, result);
        true
    }

    /// SLT rd, rs, rt (signed)
    fn execute_slt(&mut self)
        requires
            funct_of(ins(old(self)@).funct_bits()) == Some(InstructionFunct::SLT),
        ensures
            register_funct_spec(old(self)@) == Some(final(self)@),
    {
        let rd = self.state.instruction.get_rd();
        let rs = self.state.instruction.get_rs();
        let rt = self.state.instruction.get_rt();
        let rs_value = self.state.registers.read_register(rs);
        let rt_value = self.state.registers.read_register(rt);
        let result: u32 = if (rs_value as i32) < (rt_value as i32) {
            1
        } else {
            0
        };
        self.state.registers.write_register(rd, result);
    }

    /// SLTI rt, rs, immediate (signed)
    fn execute_slti(&mut self)
        requires
            op_code_of(ins(old(self)@).op_bits()) == Some(InstructionOp::SLTI),
        ensures
            cpu_op_spec(old(self)@) == Some(final(self)@),
    {
        let rt = self.state.instruction.get_rt();
        let rs = self.state.instruction.get_rs();
        let immediate = self.state.instruction.get_immediate();
        let rs_value = self.state.registers.read_register(rs);
        let sext_immediate = immediate as i16 as i32;
        let result: u32 = if (rs_value as i32) < sext_immediate {
            1
        } else {
            0
        };
        self.state.registers.write_register(rt, result);
    }

    /// SLTIU rt, rs, immediate (sign-extended, compared unsigned)
    fn execute_sltiu(&mut self)
        requires
            op_code_of(ins(old(self)@).op_bits()) == Some(InstructionOp::SLTIU),
        ensures
            cpu_op_spec(old(self)@) == Some(final(self)@),
    {
        let rt = self.state.instruction.get_rt();
        let rs = self.state.instruction.get_rs();
        let immediate = self.state.instruction.get_immediate();
        let rs_value = self.state.registers.read_register(rs);
        let sext_immediate = immediate as i16 as i32;
        let result: u32 = if rs_value < (sext_immediate as u32) {
            1
        } else {
            0
        };
        self.state.registers.write_register(rt, result);
    }

    /// SLTU rd, rs, rt
    fn execute_sltu(&mut self)
        requires
            funct_of(ins(old(self)@).funct_bits()) == Some(InstructionFunct::SLTU),
        ensures
            register_funct_spec(old(self)@) == Some(final(self)@),
    {
        let rd = self.state.instruction.get_rd();
        let rs = self.state.instruction.get_rs();
        let rt = self.state.instruction.get_rt();
        let rs_value = self.state.registers.read_register(rs);
        let rt_value = self.state.registers.read_register(rt);
        let result: u32 = if rs_value < rt_value {
            1
        } else {
            0
        };
        self.state.registers.write_register(rd, result);
    }

    /// SRA rd, rt, shamt (arithmetic)
    fn execute_sra(&mut self)
        requires
            funct_of(ins(old(self)@).funct_bits()) == Some(InstructionFunct::SRA),
        ensures
            register_funct_spec(old(self)@) == Some(final(self)@),
    {
        let rd = self.state.instruction.get_rd();
        let rt = self.state.instruction.get_rt();
        let shamt = self.state.instruction.get_shamt();
        let rt_value = self.state.registers.read_register(rt);
        let result = ((rt_value as i32) >> shamt) as u32;
        self.state.registers.write_register(rd, result);
    }

    /// SRL rd, rt, shamt (logical)
    fn execute_srl(&mut self)
        requires
            funct_of(ins(old(self)@).funct_bits()) == Some(InstructionFunct::SRL),
        ensures
            register_funct_spec(old(self)@) == Some(final(self)@),
    {
        let rd = self.state.instruction.get_rd();
        let rt = self.state.instruction.get_rt();
        let shamt = self.state.instruction.get_shamt();
        let rt_value = self.state.registers.read_register(rt);
        let result = rt_value >> shamt;
        self.state.registers.write_register(rd, result);
    }

    /// SB rt, offset(base)
    fn execute_sb(&mut self, bus: &mut Bus) -> (ok: bool)
        requires
            old(bus).wf(),
            op_code_of(ins(old(self)@).op_bits()) == Some(InstructionOp::SB),
        ensures
            final(bus).wf(),
            applied_with_bus(
                ok,
                old(self)@,
                final(self)@,
                old(bus)@,
                final(bus)@,
                instruction_spec(old(self)@, old(bus)@),
            ),
    {
        let rt = self.state.instruction.get_rt();
        let address = match self.data_address() {
            Some(address) => address,
            None => return false,
        };
        let cache_is_isolated = self.state.cop0_registers.sr.get_isc();
        if !Bus::is_access_defined(1, true, address, cache_is_isolated) {
            return false;
        }
        let rt_value = self.state.registers.read_register(rt);
        let mut value = rt_value & 0x000000FF;
        bus.access_memory::<WriteByte>(address, &mut value, cache_is_isolated);
        true
    }

    /// SH rt, offset(base)
    fn execute_sh(&mut self, bus: &mut Bus) -> (ok: bool)
        requires
            old(bus).wf(),
            op_code_of(ins(old(self)@).op_bits()) == Some(InstructionOp::SH),
        ensures
            final(bus).wf(),
            applied_with_bus(
                ok,
                old(self)@,
                final(self)@,
                old(bus)@,
                final(bus)@,
                instruction_spec(old(self)@, old(bus)@),
            ),
    {
        let rt = self.state.instruction.get_rt();
        let address = match self.data_address() {
            Some(address) => address,
            None => return false,
        };
        let cache_is_isolated = self.state.cop0_registers.sr.get_isc();
        if !Bus::is_access_defined(2, true, address, cache_is_isolated) {
            return false;
        }
        let rt_value = self.state.registers.read_register(rt);
        let mut value = rt_value & 0x0000FFFF;
        bus.access_memory::<WriteHalfWord>(address, &mut value, cache_is_isolated);
        true
    }

    /// SW rt, offset(base)
    fn execute_sw(&mut self, bus: &mut Bus) -> (ok: bool)
        requires
            old(bus).wf(),
            op_code_of(ins(old(self)@).op_bits()) == Some(InstructionOp::SW),
        ensures
            final(bus).wf(),
            applied_with_bus(
                ok,
                old(self)@,
                final(self)@,
                old(bus)@,
                final(bus)@,
                instruction_spec(old(self)@, old(bus)@),
            ),
    {
        let rt = self.state.instruction.get_rt();
        let address = match self.data_address() {
            Some(address) => address,
            None => return false,
        };
        let cache_is_isolated = self.state.cop0_registers.sr.get_isc();
        if !Bus::is_access_defined(4, true, address, cache_is_isolated) {
            return false;
        }
        let rt_value = self.state.registers.read_register(rt);
        let mut value = rt_value;
        bus.access_memory::<WriteWord>(address, &mut value, cache_is_isolated);
        true
    }

    /// SUBU rd, rs, rt
    fn execute_subu(&mut self)
        requires
            funct_of(ins(old(self)@).funct_bits()) == Some(InstructionFunct::SUBU),
        ensures
            register_funct_spec(old(self)@) == Some(final(self)@),
    {
        let rd = self.state.instruction.get_rd();
        let rs = self.state.instruction.get_rs();
        let rt = self.state.instruction.get_rt();
        let rs_value = self.state.registers.read_register(rs);
        let rt_value = self.state.registers.read_register(rt);
        let result = rs_value.wrapping_sub(rt_value);
        self.state.registers.write_register(rd, result);
    }

    /// SYSCALL
    fn execute_syscall(&mut self, bus: &mut Bus) -> (ok: bool)
        requires
            old(bus).wf(),
            funct_of(ins(old(self)@).funct_bits()) == Some(InstructionFunct::SYSCALL),
        ensures
            final(bus).wf(),
            final(bus)@ == old(bus)@,
            applied(ok, old(self)@, final(self)@, funct_spec(old(self)@, old(bus)@)),
    {
        self.raise_exception(Exception::Syscall, bus)
    }

    /// A COP0 instruction.
    fn execute_cop0(&mut self) -> (ok: bool)
        requires
            op_code_of(ins(old(self)@).op_bits()) == Some(InstructionOp::COP0),
        ensures
            applied(ok, old(self)@, final(self)@, cpu_op_spec(old(self)@)),
    {
        let bits = self.state.instruction.bits;
        proof {
            crate::cpu_types::lemma_instruction_field_bounds(bits);
        }
        if self.state.instruction.is_cop_common_instruction() {
            match CopCommonInstruction::decode(((bits >> 21) & 0xF) as u8) {
                Some(CopCommonInstruction::MFCN) => self.execute_cop_common_instruction_mfcn(),
                Some(CopCommonInstruction::MTCN) => self.execute_cop_common_instruction_mtcn(),
                // CFC0 and CTC0 have no handler.
                _ => false,
            }
        } else {
            match Cop0Instruction::decode((bits & 0x3F) as u8) {
                Some(Cop0Instruction::RFE) => {
                    self.execute_cop0_instruction_rfe();
                    true
                },
                // The TLB commands do nothing on this CPU.
                Some(_) => true,
                None => false,
            }
        }
    }

    /// MFC0 rt, rd
    fn execute_cop_common_instruction_mfcn(&mut self) -> (ok: bool)
        requires
            op_code_of(ins(old(self)@).op_bits()) == Some(InstructionOp::COP0),
            ins(old(self)@).is_cop_common_spec(),
            cop_common_op_of(ins(old(self)@).cop_common_op_bits()) == Some(
                CopCommonInstruction::MFCN,
            ),
        ensures
            applied(ok, old(self)@, final(self)@, cpu_op_spec(old(self)@)),
    {
        let rt = self.state.instruction.get_rt();
        let rd = self.state.instruction.get_rd();
        let cop0_reg = match Cop0Reg::decode(rd) {
            Some(r) => r,
            None => return false,
        };
        match cop0_reg {
            Cop0Reg::BPC | Cop0Reg::CAUSE | Cop0Reg::EPC | Cop0Reg::SR => {},
            _ => return false,
        }
        let cop0_value = self.state.cop0_registers.read_register(cop0_reg);
        self.state.registers.write_register(rt, cop0_value);
        true
    }

    /// MTC0 rt, rd
    fn execute_cop_common_instruction_mtcn(&mut self) -> (ok: bool)
        requires
            op_code_of(ins(old(self)@).op_bits()) == Some(InstructionOp::COP0),
            ins(old(self)@).is_cop_common_spec(),
            cop_common_op_of(ins(old(self)@).cop_common_op_bits()) == Some(
                CopCommonInstruction::MTCN,
            ),
        ensures
            applied(ok, old(self)@, final(self)@, cpu_op_spec(old(self)@)),
    {
        let rt = self.state.instruction.get_rt();
        let rd = self.state.instruction.get_rd();
        let cop0_reg = match Cop0Reg::decode(rd) {
            Some(r) => r,
            None => return false,
        };
        match cop0_reg {
            Cop0Reg::BDA | Cop0Reg::BDAM | Cop0Reg::BPC | Cop0Reg::BPCM | Cop0Reg::CAUSE
            | Cop0Reg::DCIC | Cop0Reg::JUMPDEST | Cop0Reg::SR => {},
            _ => return false,
        }
        let rt_value = self.state.registers.read_register(rt);
        self.state.cop0_registers.write_register(cop0_reg, rt_value);
        true
    }

    /// RFE: the mode bits move back two places.
    fn execute_cop0_instruction_rfe(&mut self)
        ensures
            final(self)@ == (CpuModel {
                cop0: Cop0Model { sr: sr_after_rfe(old(self)@.cop0.sr), ..old(self)@.cop0 },
                ..old(self)@
            }),
    {
        let mode_bits = self.state.cop0_registers.sr.get_mode_bits();
        let mode_bits = (mode_bits & 0b110000) | (mode_bits >> 2u8);
        self.state.cop0_registers.sr.set_mode_bits(mode_bits);
    }

    /// Enters the exception handler: saves the return address and the mode,
    /// records the cause, and refetches from the general exception vector.
    fn raise_exception(&mut self, exception: Exception, bus: &mut Bus) -> (ok: bool)
        requires
            old(bus).wf(),
        ensures
            final(bus).wf(),
            final(bus)@ == old(bus)@,
            applied(ok, old(self)@, final(self)@, exception_spec(old(self)@, old(bus)@, exception)),
    {
        if !Bus::is_instruction_fetchable(self.state.registers.pc) {
            return false;
        }
        self.state.cop0_registers.epc = self.state.current_instruction_pc;
        let excode = exception.get_excode();
        self.state.cop0_registers.cause.set_excode(excode);
        // (IEc, KUc) -> (IEp, KUp), (IEp, KUp) -> (IEo, KUo)
        let mode_bits = self.state.cop0_registers.sr.get_mode_bits();
        self.state.cop0_registers.sr.set_mode_bits(mode_bits << 2u8);
        let boot_exception_vector = self.state.cop0_registers.sr.get_bev();
        let base: u32 = if boot_exception_vector {
            0xbfc00100
        } else {
            0x80000000
        };
        let vector = base | 0x00000080;
        assert((0x80000000u32 | 0x80u32) == 0x80000080u32 && (0xbfc00100u32 | 0x80u32) == 0xbfc00180u32)
            by (bit_vector);
        self.state.registers.npc = vector;
        self.flush_pipeline(bus);
        true
    }

    /// Refetches: the instruction at `pc` is fetched again.
    fn flush_pipeline(&mut self, bus: &mut Bus)
        requires
            old(bus).wf(),
            fetch_defined(old(self)@),
        ensures
            final(self)@ == fetch_spec(old(self)@, old(bus)@),
            final(bus)@ == old(bus)@,
    {
        self.fetch_instruction(bus);
    }
}

/// `0 - x` modulo 2^32 is `-x` taken modulo 2^32.
proof fn lemma_negate_wrap(x: u32)
    ensures
        sub_wrapping(0, x) == wrap32(-x),
        wrap32(x as int) == x,
{
    if x > 0 {
        assert((-(x as int)) % 0x1_0000_0000 == 0x1_0000_0000 - x) by (nonlinear_arith)
            requires
                0 < x < 0x1_0000_0000,
        ;
    }
}


/// RFE undoes what an exception does to the mode bits: the current and
/// previous interrupt-enable/mode pairs are restored, and the bits of SR
/// above the mode field are kept throughout.
pub proof fn lemma_rfe_undoes_exception(sr: u32)
    ensures
        sr_after_rfe(sr_after_exception(sr)) & 0xF == sr & 0xF,
        sr_after_rfe(sr_after_exception(sr)) & 0xFFFFFFC0 == sr & 0xFFFFFFC0,
        sr_after_exception(sr) & 0xF == (sr & 0x3) << 2u32,
{
    let m: u8 = (sr & 0x3F) as u8;
    let e: u32 = sr_after_exception(sr);
    let m2: u8 = (e & 0x3F) as u8;
    let r: u32 = sr_after_rfe(e);
    assert(r & 0xF == sr & 0xF && r & 0xFFFFFFC0 == sr & 0xFFFFFFC0 && e & 0xF == (sr & 0x3) << 2u32)
        by (bit_vector)
        requires
            m == (sr & 0x3F) as u8,
            e == (sr & 0xFFFFFFC0) | (((m << 2u8) as u8 as u32) & 0x3F),
            m2 == (e & 0x3F) as u8,
            r == (e & 0xFFFFFFC0) | ((((m2 & 0b110000u8) | (m2 >> 2u8)) as u32) & 0x3F),
    ;
}

/// An exception records where it happened and why, keeps the interrupt
/// pending field of CAUSE, and continues at the general exception vector:
/// in ROM (0xBFC00180) when SR's BEV bit is set, in RAM (0x80000080) when not.
pub proof fn lemma_exception_records_cause(s: CpuModel, bus: BusModel, e: Exception)
    requires
        exception_spec(s, bus, e) is Some,
    ensures
        exception_spec(s, bus, e).unwrap().cop0.epc == s.current_instruction_pc,
        (exception_spec(s, bus, e).unwrap().cop0.cause >> 2u32) & 0x1F == exception_code(e) as u32,
        (exception_spec(s, bus, e).unwrap().cop0.cause >> 8u32) & 0xFF == (s.cop0.cause >> 8u32)
            & 0xFF,
        exception_spec(s, bus, e).unwrap().pc == if ((s.cop0.sr >> 22u32) & 1) == 1 {
            0xbfc00180u32
        } else {
            0x80000080u32
        },
        exception_spec(s, bus, e).unwrap().npc == if ((s.cop0.sr >> 22u32) & 1) == 1 {
            0xbfc00184u32
        } else {
            0x80000084u32
        },
{
    crate::cpu_types::lemma_cause_fields(s.cop0.cause, 0, exception_code(e));
    let old_sr = s.cop0.sr;
    let m = ((((old_sr & 0x3F) as u8) << 2u8) as u8) as u32;
    assert((((old_sr & 0xFFFFFFC0) | (m & 0x3F)) >> 22u32) & 1 == (old_sr >> 22u32) & 1) by (bit_vector);
    assert((0x80000000u32 | 0x80u32) == 0x80000080u32 && (0xbfc00100u32 | 0x80u32) == 0xbfc00180u32)
        by (bit_vector);
}

/// Division rounding toward zero: the quotient times the divisor plus the
/// remainder gives the dividend, and the remainder is smaller than the
/// divisor in magnitude and never of the opposite sign to the dividend.
pub proof fn lemma_division_toward_zero(a: int, b: int)
    requires
        b != 0,
    ensures
        a == div_toward_zero(a, b) * b + rem_toward_zero(a, b),
        (if rem_toward_zero(a, b) < 0 { -rem_toward_zero(a, b) } else { rem_toward_zero(a, b) }) < (
        if b < 0 { -b } else { b }),
        a >= 0 ==> rem_toward_zero(a, b) >= 0,
        a <= 0 ==> rem_toward_zero(a, b) <= 0,
{
    let na = if a < 0 { -a } else { a };
    let nb = if b < 0 { -b } else { b };
    vstd::arithmetic::div_mod::lemma_fundamental_div_mod(na, nb);
    vstd::arithmetic::div_mod::lemma_mod_bound(na, nb);
    let q = na / nb;
    let r = na % nb;
    assert(na == nb * q + r);
    if a < 0 && b < 0 {
        assert(a == q * b - r) by (nonlinear_arith)
            requires
                na == nb * q + r,
                na == -a,
                nb == -b,
        ;
    } else if a < 0 {
        assert(a == (-q) * b - r) by (nonlinear_arith)
            requires
                na == nb * q + r,
                na == -a,
                nb == b,
        ;
    } else if b < 0 {
        assert(a == (-q) * b + r) by (nonlinear_arith)
            requires
                na == nb * q + r,
                na == a,
                nb == -b,
        ;
    } else {
        assert(a == q * b + r) by (nonlinear_arith)
            requires
                na == nb * q + r,
                na == a,
                nb == b,
        ;
    }
}

/// DIVU leaves in LO and HI a quotient and remainder that give back the
/// dividend, with the remainder below the divisor.
pub proof fn lemma_divu_quotient_remainder(s: CpuModel)
    requires
        reg(s, ins(s).rt_bits()) != 0,
    ensures
        divu_spec(s).lo * reg(s, ins(s).rt_bits()) + divu_spec(s).hi == reg(s, ins(s).rs_bits()),
        divu_spec(s).hi < reg(s, ins(s).rt_bits()),
{
    let n = reg(s, ins(s).rs_bits()) as int;
    let d = reg(s, ins(s).rt_bits()) as int;
    vstd::arithmetic::div_mod::lemma_fundamental_div_mod(n, d);
    assert(n / d * d == d * (n / d)) by (nonlinear_arith);
}

/// Only the store instructions change anything on the bus.
pub proof fn lemma_only_stores_change_bus(s: CpuModel, bus: BusModel)
    requires
        instruction_spec(s, bus) is Some,
        op_code_of(ins(s).op_bits()) != Some(InstructionOp::SB),
        op_code_of(ins(s).op_bits()) != Some(InstructionOp::SH),
        op_code_of(ins(s).op_bits()) != Some(InstructionOp::SW),
    ensures
        instruction_spec(s, bus).unwrap().1 == bus,
{
    if op_code_of(ins(s).op_bits()) is Some {
        let addr = data_address(s) as u32;
        crate::bus::lemma_read_changes_nothing(1, addr, 0, cache_isolated(s), bus);
        crate::bus::lemma_read_changes_nothing(2, addr, 0, cache_isolated(s), bus);
        crate::bus::lemma_read_changes_nothing(4, addr, 0, cache_isolated(s), bus);
    }
}

/// A step counts one instruction, and once the bus's access times agree
/// with its memory control registers, every step keeps them so.
pub proof fn lemma_step_counts_and_keeps_timings(s: CpuModel, bus: BusModel)
    requires
        crate::bus::bus_model_wf(bus),
        crate::bus::timings_consistent(bus),
        step_spec(s, bus) is Some,
    ensures
        step_spec(s, bus).unwrap().0.cycle == s.cycle + 1,
        crate::bus::timings_consistent(step_spec(s, bus).unwrap().1),
        crate::bus::bus_model_wf(step_spec(s, bus).unwrap().1),
{
    let s0 = CpuModel { current_instruction_pc: s.pc, ..s };
    let s1 = fetch_spec(s0, bus);
    let addr = data_address(s1) as u32;
    let rt_value = reg(s1, ins(s1).rt_bits());
    let iso = cache_isolated(s1);
    match op_code_of(ins(s1).op_bits()) {
        Some(InstructionOp::SB) => {
            crate::bus::lemma_access_keeps_timings(1, true, addr, rt_value & 0xFF, iso, bus);
        },
        Some(InstructionOp::SH) => {
            crate::bus::lemma_access_keeps_timings(2, true, addr, rt_value & 0xFFFF, iso, bus);
        },
        Some(InstructionOp::SW) => {
            crate::bus::lemma_access_keeps_timings(4, true, addr, rt_value, iso, bus);
        },
        _ => {
            lemma_only_stores_change_bus(s1, bus);
        },
    }
}

} // verus!
verus! {

/// `r0` holds zero (of the 32 registers).
pub open spec fn r0_zero(s: CpuModel) -> bool {
    s.gprs.len() == 32 && s.gprs[0] == 0
}

/// A register write keeps `r0` zero.
pub broadcast proof fn lemma_with_reg_keeps_r0(s: CpuModel, index: u8, value: u32)
    requires
        r0_zero(s),
        index < 32,
    ensures
        r0_zero(#[trigger] with_reg(s, index, value)),
{
}

/// `r0` holds zero after every step that started with it zero.
pub proof fn lemma_step_keeps_r0_zero(s: CpuModel, bus: BusModel)
    requires
        r0_zero(s),
        step_spec(s, bus) is Some,
    ensures
        r0_zero(step_spec(s, bus).unwrap().0),
{
    broadcast use lemma_with_reg_keeps_r0;
    let s0 = CpuModel { current_instruction_pc: s.pc, ..s };
    let s1 = fetch_spec(s0, bus);
    crate::cpu_types::lemma_instruction_field_bounds(s1.instruction);
    assert(r0_zero(s1));
}

} // verus!
