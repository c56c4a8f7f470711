//! What each CPU instruction does, stated over the registers it reads and
//! writes rather than over the step's own definition.
use vstd::prelude::*;

use crate::bus::{instruction_fetch, BusModel};
use crate::cpu::{
    cpu_op_spec, fetch_spec, ins, reg, register_funct_spec, signed, step_spec, CpuModel,
};
use crate::cpu_types::{funct_of, op_code_of, Instruction, InstructionFunct, InstructionOp};

verus! {

/// Bit `k` of `x`.
pub open spec fn bit(x: u32, k: u32) -> bool {
    (x >> k) & 1 == 1
}

/// The value of the instruction's rs register before it runs.
pub open spec fn rs_value(s: CpuModel) -> u32 {
    reg(s, ins(s).rs_bits())
}

/// The value of the instruction's rt register before it runs.
pub open spec fn rt_value(s: CpuModel) -> u32 {
    reg(s, ins(s).rt_bits())
}

/// What a register-format instruction leaves in rd.
pub open spec fn rd_result(s: CpuModel) -> u32 {
    reg(register_funct_spec(s).unwrap(), ins(s).rd_bits())
}

/// What an immediate-format instruction leaves in rt.
pub open spec fn rt_result(s: CpuModel) -> u32 {
    reg(cpu_op_spec(s).unwrap(), ins(s).rt_bits())
}

/// The 16-bit immediate as a signed number.
pub open spec fn signed_immediate(s: CpuModel) -> int {
    let imm = ins(s).immediate_bits() as int;
    if imm < 0x8000 {
        imm
    } else {
        imm - 0x10000
    }
}

/// A register-format instruction `f` with a destination other than r0.
pub open spec fn writes_rd(s: CpuModel, f: InstructionFunct) -> bool {
    &&& s.gprs.len() == 32
    &&& funct_of(ins(s).funct_bits()) == Some(f)
    &&& ins(s).rd_bits() != 0
}

/// An immediate-format instruction `op` with a destination other than r0.
pub open spec fn writes_rt(s: CpuModel, op: InstructionOp) -> bool {
    &&& s.gprs.len() == 32
    &&& op_code_of(ins(s).op_bits()) == Some(op)
    &&& ins(s).rt_bits() != 0
}

/// A word read as `i32` is its two's complement value.
pub proof fn lemma_signed_is_i32(x: u32)
    ensures
        (x as i32) as int == signed(x),
{
    assert(((x as i32) as int == x as int || x >= 0x8000_0000u32) && ((x as i32) as int == x as int
        - 0x1_0000_0000 || x < 0x8000_0000u32)) by (bit_vector);
}

/// The immediate sign-extended to a word, read back unsigned.
proof fn lemma_sext_word(imm: u16)
    ensures
        ((imm as i16 as i32) as u32) as int == if imm < 0x8000 {
            imm as int
        } else {
            imm as int + 0xFFFF_0000
        },
        (imm as i16 as i32) as int == if imm < 0x8000 {
            imm as int
        } else {
            imm as int - 0x10000
        },
{
    assert((imm >= 0x8000u16 || (((imm as i16 as i32) as u32) as int == imm as int && (
    imm as i16 as i32) as int == imm as int)) && (imm < 0x8000u16 || (((imm as i16 as i32) as u32) as int
        == imm as int + 0xFFFF_0000 && (imm as i16 as i32) as int == imm as int - 0x10000)))
        by (bit_vector);
}

} // verus!
verus! {

/// SUBU rd, rs, rt subtracts rt from rs modulo 2^32: the value left in rd,
/// added back to rt, gives rs again (so an ADDU rd, rd, rt that follows
/// restores rs), and without a borrow rd is the plain difference.
pub proof fn lemma_subu_subtracts(s: CpuModel)
    requires
        s.gprs.len() == 32,
        funct_of(ins(s).funct_bits()) == Some(InstructionFunct::SUBU),
        ins(s).rd_bits() != 0,
    ensures
        register_funct_spec(s) is Some,
        (reg(register_funct_spec(s).unwrap(), ins(s).rd_bits()) + reg(s, ins(s).rt_bits()))
            % 0x1_0000_0000 == reg(s, ins(s).rs_bits()) as int,
        reg(s, ins(s).rs_bits()) >= reg(s, ins(s).rt_bits()) ==> reg(
            register_funct_spec(s).unwrap(),
            ins(s).rd_bits(),
        ) == reg(s, ins(s).rs_bits()) - reg(s, ins(s).rt_bits()),
{
    crate::cpu_types::lemma_instruction_field_bounds(s.instruction);
    let a = reg(s, ins(s).rs_bits()) as int;
    let b = reg(s, ins(s).rt_bits()) as int;
    let d = reg(register_funct_spec(s).unwrap(), ins(s).rd_bits()) as int;
    if a - b < 0 {
        assert(d == a - b + 0x1_0000_0000);
        assert((d + b) % 0x1_0000_0000 == a) by {
            vstd::arithmetic::div_mod::lemma_mod_add_multiples_vanish(a, 0x1_0000_0000);
            vstd::arithmetic::div_mod::lemma_small_mod(a as nat, 0x1_0000_0000);
        }
    } else {
        assert(d == a - b);
        assert((d + b) % 0x1_0000_0000 == a) by {
            vstd::arithmetic::div_mod::lemma_small_mod(a as nat, 0x1_0000_0000);
        }
    }
}

/// ANDI zero-extends its immediate: the result keeps only bits of rs that
/// are set in the 16-bit immediate, so its upper half is always clear.
pub proof fn lemma_andi_zero_extends(s: CpuModel)
    requires
        s.gprs.len() == 32,
        op_code_of(ins(s).op_bits()) == Some(InstructionOp::ANDI),
        ins(s).rt_bits() != 0,
    ensures
        cpu_op_spec(s) is Some,
        reg(cpu_op_spec(s).unwrap(), ins(s).rt_bits()) < 0x10000,
        reg(cpu_op_spec(s).unwrap(), ins(s).rt_bits()) == (reg(s, ins(s).rs_bits()) & 0xFFFF) & (
        ins(s).immediate_bits() as u32),
{
    crate::cpu_types::lemma_instruction_field_bounds(s.instruction);
    let rs = reg(s, ins(s).rs_bits());
    let imm = ins(s).immediate_bits();
    assert((rs & (imm as u32)) < 0x10000 && (rs & (imm as u32)) == (rs & 0xFFFF) & (imm as u32))
        by (bit_vector);
}

/// The instruction word that a step starting in `s` fetches.
pub open spec fn fetched(s: CpuModel, bus: BusModel) -> Instruction {
    Instruction { bits: instruction_fetch(bus, s.pc) }
}

/// JALR links like JAL: a step that executes JALR leaves in rd the address
/// after the delay slot (the `npc` before the step, plus 4; for an
/// instruction at `a` reached in sequence, `a + 8`), runs the delay slot
/// next, and then continues at the value that rs held.
pub proof fn lemma_jalr_links_after_delay_slot(s: CpuModel, bus: BusModel)
    requires
        s.gprs.len() == 32,
        step_spec(s, bus) is Some,
        op_code_of(fetched(s, bus).op_bits()) == Some(InstructionOp::FUNCT),
        funct_of(fetched(s, bus).funct_bits()) == Some(InstructionFunct::JALR),
        fetched(s, bus).rd_bits() != 0,
    ensures
        reg(step_spec(s, bus).unwrap().0, fetched(s, bus).rd_bits()) == s.npc + 4,
        s.npc == s.pc + 4 ==> reg(step_spec(s, bus).unwrap().0, fetched(s, bus).rd_bits()) == s.pc
            + 8,
        step_spec(s, bus).unwrap().0.pc == s.npc,
        fetched(s, bus).rd_bits() != fetched(s, bus).rs_bits() ==> step_spec(s, bus).unwrap().0.npc
            == reg(s, fetched(s, bus).rs_bits()),
{
    crate::cpu_types::lemma_instruction_field_bounds(instruction_fetch(bus, s.pc));
    let s0 = CpuModel { current_instruction_pc: s.pc, ..s };
    let s1 = fetch_spec(s0, bus);
    assert(ins(s1) == fetched(s, bus));
    assert(funct_of(ins(s1).funct_bits()) != Some(InstructionFunct::SYSCALL));
    assert(funct_of(ins(s1).funct_bits()) != Some(InstructionFunct::ADD));
}

} // verus!
verus! {

/// ADDU adds modulo 2^32.
pub proof fn lemma_addu_adds(s: CpuModel)
    requires
        writes_rd(s, InstructionFunct::ADDU),
    ensures
        register_funct_spec(s) is Some,
        rd_result(s) as int == (rs_value(s) + rt_value(s)) % 0x1_0000_0000,
{
    crate::cpu_types::lemma_instruction_field_bounds(s.instruction);
    let a = rs_value(s) as int;
    let b = rt_value(s) as int;
    if a + b > u32::MAX {
        vstd::arithmetic::div_mod::lemma_mod_sub_multiples_vanish(a + b, 0x1_0000_0000);
        vstd::arithmetic::div_mod::lemma_small_mod((a + b - 0x1_0000_0000) as nat, 0x1_0000_0000);
    } else {
        vstd::arithmetic::div_mod::lemma_small_mod((a + b) as nat, 0x1_0000_0000);
    }
}

/// AND keeps the bits set in both rs and rt; OR the bits set in either.
pub proof fn lemma_and_or_bits(s: CpuModel)
    requires
        writes_rd(s, InstructionFunct::AND) || writes_rd(s, InstructionFunct::OR),
    ensures
        register_funct_spec(s) is Some,
        forall|k: u32|
            k < 32 ==> #[trigger] bit(rd_result(s), k) == if funct_of(ins(s).funct_bits()) == Some(
                InstructionFunct::AND,
            ) {
                bit(rs_value(s), k) && bit(rt_value(s), k)
            } else {
                bit(rs_value(s), k) || bit(rt_value(s), k)
            },
{
    crate::cpu_types::lemma_instruction_field_bounds(s.instruction);
    let a = rs_value(s);
    let b = rt_value(s);
    assert forall|k: u32| k < 32 implies (((a & b) >> k) & 1 == 1) == (((a >> k) & 1 == 1) && ((b
        >> k) & 1 == 1)) && (((b | a) >> k) & 1 == 1) == (((a >> k) & 1 == 1) || ((b >> k) & 1
        == 1)) by {
        assert((((a & b) >> k) & 1 == 1) == (((a >> k) & 1 == 1) && ((b >> k) & 1 == 1)) && (((b
            | a) >> k) & 1 == 1) == (((a >> k) & 1 == 1) || ((b >> k) & 1 == 1))) by (bit_vector)
            requires
                k < 32u32,
        ;
    }
}

/// SLL moves every bit of rt up by the shift amount; the bits below it are clear.
pub proof fn lemma_sll_moves_bits_up(s: CpuModel)
    requires
        writes_rd(s, InstructionFunct::SLL),
    ensures
        register_funct_spec(s) is Some,
        forall|k: u32|
            k < 32 ==> #[trigger] bit(rd_result(s), k) == (k >= ins(s).shamt_bits() && bit(
                rt_value(s),
                (k - ins(s).shamt_bits()) as u32,
            )),
{
    crate::cpu_types::lemma_instruction_field_bounds(s.instruction);
    let x = rt_value(s);
    let n: u32 = ins(s).shamt_bits() as u32;
    let r = rd_result(s);
    assert(r == x << n);
    assert forall|k: u32| k < 32 implies #[trigger] bit(r, k) == (k >= n && bit(x, (k - n) as u32))
        by {
        assert((((x << n) >> k) & 1 == 1) == (k >= n && ((x >> ((k - n) as u32)) & 1 == 1)))
            by (bit_vector)
            requires
                k < 32u32,
                n < 32u32,
        ;
    }
}

/// SLLV shifts like SLL, by the low five bits of rs.
pub proof fn lemma_sllv_moves_bits_up(s: CpuModel)
    requires
        writes_rd(s, InstructionFunct::SLLV),
    ensures
        register_funct_spec(s) is Some,
        forall|k: u32|
            k < 32 ==> #[trigger] bit(rd_result(s), k) == (k >= rs_value(s) % 32 && bit(
                rt_value(s),
                (k - rs_value(s) % 32) as u32,
            )),
{
    crate::cpu_types::lemma_instruction_field_bounds(s.instruction);
    let x = rt_value(s);
    let a = rs_value(s);
    let r = rd_result(s);
    assert(r == x << (a & 0x1F));
    assert forall|k: u32| k < 32 implies #[trigger] bit(r, k) == (k >= a % 32 && bit(
        x,
        (k - a % 32) as u32,
    )) by {
        assert((((x << (a & 0x1F)) >> k) & 1 == 1) == (k >= a % 32 && ((x >> ((k - a % 32) as u32))
            & 1 == 1))) by (bit_vector)
            requires
                k < 32u32,
        ;
    }
}

/// SRL moves every bit of rt down by the shift amount, filling with zeros.
pub proof fn lemma_srl_moves_bits_down(s: CpuModel)
    requires
        writes_rd(s, InstructionFunct::SRL),
    ensures
        register_funct_spec(s) is Some,
        forall|k: u32|
            k < 32 ==> #[trigger] bit(rd_result(s), k) == (k + ins(s).shamt_bits() < 32 && bit(
                rt_value(s),
                (k + ins(s).shamt_bits()) as u32,
            )),
{
    crate::cpu_types::lemma_instruction_field_bounds(s.instruction);
    let x = rt_value(s);
    let n: u32 = ins(s).shamt_bits() as u32;
    let r = rd_result(s);
    assert(r == x >> n);
    assert forall|k: u32| k < 32 implies #[trigger] bit(r, k) == (k + n < 32 && bit(
        x,
        (k + n) as u32,
    )) by {
        assert((((x >> n) >> k) & 1 == 1) == (k + n < 32 && ((x >> ((k + n) as u32)) & 1 == 1)))
            by (bit_vector)
            requires
                k < 32u32,
                n < 32u32,
        ;
    }
}

/// SRA moves every bit of rt down by the shift amount, filling with copies
/// of the sign bit.
pub proof fn lemma_sra_keeps_sign(s: CpuModel)
    requires
        writes_rd(s, InstructionFunct::SRA),
    ensures
        register_funct_spec(s) is Some,
        forall|k: u32|
            k < 32 ==> #[trigger] bit(rd_result(s), k) == if k + ins(s).shamt_bits() < 32 {
                bit(rt_value(s), (k + ins(s).shamt_bits()) as u32)
            } else {
                bit(rt_value(s), 31)
            },
{
    crate::cpu_types::lemma_instruction_field_bounds(s.instruction);
    let x = rt_value(s);
    let n: u32 = ins(s).shamt_bits() as u32;
    let r = rd_result(s);
    assert(r == ((x as i32) >> n) as u32);
    assert forall|k: u32| k < 32 implies #[trigger] bit(r, k) == if k + n < 32 {
        bit(x, (k + n) as u32)
    } else {
        bit(x, 31)
    } by {
        assert((((((x as i32) >> n) as u32) >> k) & 1 == 1) == if k + n < 32 {
            (x >> ((k + n) as u32)) & 1 == 1
        } else {
            (x >> 31u32) & 1 == 1
        }) by (bit_vector)
            requires
                k < 32u32,
                n < 32u32,
        ;
    }
}

/// SLT compares rs and rt as two's complement numbers, SLTU as unsigned
/// ones; either leaves 1 in rd when rs is the smaller, else 0.
pub proof fn lemma_set_on_less_than(s: CpuModel)
    requires
        writes_rd(s, InstructionFunct::SLT) || writes_rd(s, InstructionFunct::SLTU),
    ensures
        register_funct_spec(s) is Some,
        funct_of(ins(s).funct_bits()) == Some(InstructionFunct::SLT) ==> rd_result(s) == if signed(
            rs_value(s),
        ) < signed(rt_value(s)) {
            1u32
        } else {
            0u32
        },
        funct_of(ins(s).funct_bits()) == Some(InstructionFunct::SLTU) ==> rd_result(s) == if (rs_value(
            s,
        ) as int) < (rt_value(s) as int) {
            1u32
        } else {
            0u32
        },
{
    crate::cpu_types::lemma_instruction_field_bounds(s.instruction);
    lemma_signed_is_i32(rs_value(s));
    lemma_signed_is_i32(rt_value(s));
}

/// JR continues, after the delay slot, at the address in rs; MFHI and MFLO
/// copy HI and LO into rd; MTHI and MTLO copy rs into HI and LO.
pub proof fn lemma_jr_and_hi_lo_moves(s: CpuModel)
    requires
        s.gprs.len() == 32,
    ensures
        funct_of(ins(s).funct_bits()) == Some(InstructionFunct::JR) ==> register_funct_spec(s)
            == Some(CpuModel { npc: rs_value(s), ..s }),
        writes_rd(s, InstructionFunct::MFHI) ==> rd_result(s) == s.hi,
        writes_rd(s, InstructionFunct::MFLO) ==> rd_result(s) == s.lo,
        funct_of(ins(s).funct_bits()) == Some(InstructionFunct::MTHI) ==> register_funct_spec(s)
            == Some(CpuModel { hi: rs_value(s), ..s }),
        funct_of(ins(s).funct_bits()) == Some(InstructionFunct::MTLO) ==> register_funct_spec(s)
            == Some(CpuModel { lo: rs_value(s), ..s }),
{
    crate::cpu_types::lemma_instruction_field_bounds(s.instruction);
}

} // verus!
verus! {

/// ADDIU adds the sign-extended immediate to rs modulo 2^32.
pub proof fn lemma_addiu_adds(s: CpuModel)
    requires
        writes_rt(s, InstructionOp::ADDIU),
    ensures
        cpu_op_spec(s) is Some,
        rt_result(s) as int == (rs_value(s) + signed_immediate(s)) % 0x1_0000_0000,
{
    crate::cpu_types::lemma_instruction_field_bounds(s.instruction);
    let imm = ins(s).immediate_bits();
    lemma_sext_word(imm);
    let a = rs_value(s) as int;
    let t = a + signed_immediate(s);
    let m: int = 0x1_0000_0000;
    if imm < 0x8000 {
        if t > u32::MAX {
            vstd::arithmetic::div_mod::lemma_mod_sub_multiples_vanish(t, m);
            vstd::arithmetic::div_mod::lemma_small_mod((t - m) as nat, m as nat);
        } else {
            vstd::arithmetic::div_mod::lemma_small_mod(t as nat, m as nat);
        }
    } else {
        if t >= 0 {
            vstd::arithmetic::div_mod::lemma_small_mod(t as nat, m as nat);
        } else {
            vstd::arithmetic::div_mod::lemma_mod_add_multiples_vanish(t, m);
            vstd::arithmetic::div_mod::lemma_small_mod((t + m) as nat, m as nat);
        }
    }
}

/// ORI sets in the low half the bits set in the immediate and keeps every
/// other bit of rs; LUI puts the immediate in the upper half, the lower
/// half clear.
pub proof fn lemma_ori_lui(s: CpuModel)
    requires
        writes_rt(s, InstructionOp::ORI) || writes_rt(s, InstructionOp::LUI),
    ensures
        cpu_op_spec(s) is Some,
        op_code_of(ins(s).op_bits()) == Some(InstructionOp::ORI) ==> forall|k: u32|
            k < 32 ==> #[trigger] bit(rt_result(s), k) == (bit(rs_value(s), k) || (k < 16 && bit(
                ins(s).immediate_bits() as u32,
                k,
            ))),
        op_code_of(ins(s).op_bits()) == Some(InstructionOp::LUI) ==> rt_result(s)
            == ins(s).immediate_bits() * 0x10000,
{
    crate::cpu_types::lemma_instruction_field_bounds(s.instruction);
    let a = rs_value(s);
    let imm = ins(s).immediate_bits();
    assert((imm as u32) << 16u32 == (imm as u32) * 0x10000) by (bit_vector);
    assert forall|k: u32| k < 32 implies #[trigger] bit(a | (imm as u32), k) == (bit(a, k) || (k < 16
        && bit(imm as u32, k))) by {
        assert((((a | (imm as u32)) >> k) & 1 == 1) == (((a >> k) & 1 == 1) || (k < 16 && (((
        imm as u32) >> k) & 1 == 1)))) by (bit_vector)
            requires
                k < 32u32,
        ;
    }
}

/// SLTI compares rs with the sign-extended immediate as two's complement
/// numbers; SLTIU compares them unsigned, the immediate still sign-extended
/// to a word first.
pub proof fn lemma_set_on_less_than_immediate(s: CpuModel)
    requires
        writes_rt(s, InstructionOp::SLTI) || writes_rt(s, InstructionOp::SLTIU),
    ensures
        cpu_op_spec(s) is Some,
        op_code_of(ins(s).op_bits()) == Some(InstructionOp::SLTI) ==> rt_result(s) == if signed(
            rs_value(s),
        ) < signed_immediate(s) {
            1u32
        } else {
            0u32
        },
        op_code_of(ins(s).op_bits()) == Some(InstructionOp::SLTIU) ==> rt_result(s) == if (rs_value(
            s,
        ) as int) < signed_immediate(s) % 0x1_0000_0000 {
            1u32
        } else {
            0u32
        },
{
    crate::cpu_types::lemma_instruction_field_bounds(s.instruction);
    lemma_signed_is_i32(rs_value(s));
    lemma_sext_word(ins(s).immediate_bits());
    let t = signed_immediate(s);
    if t >= 0 {
        vstd::arithmetic::div_mod::lemma_small_mod(t as nat, 0x1_0000_0000);
    } else {
        vstd::arithmetic::div_mod::lemma_mod_add_multiples_vanish(t, 0x1_0000_0000);
        vstd::arithmetic::div_mod::lemma_small_mod((t + 0x1_0000_0000) as nat, 0x1_0000_0000);
    }
}

/// Where a taken branch goes: the delay slot's address plus four times the
/// signed immediate.
pub open spec fn branch_destination(s: CpuModel) -> int {
    signed(s.pc) + 4 * signed_immediate(s)
}

/// The conditional branches: BEQ is taken when rs equals rt, BNE when they
/// differ, BGTZ when rs is above zero and BLEZ when it is not, both read as
/// two's complement numbers. A branch not taken changes nothing; a taken
/// one sets only the next address.
pub proof fn lemma_branch_conditions(s: CpuModel)
    requires
        op_code_of(ins(s).op_bits()) == Some(InstructionOp::BEQ) || op_code_of(ins(s).op_bits())
            == Some(InstructionOp::BNE) || op_code_of(ins(s).op_bits()) == Some(InstructionOp::BGTZ)
            || op_code_of(ins(s).op_bits()) == Some(InstructionOp::BLEZ),
        i32::MIN <= branch_destination(s) <= i32::MAX,
    ensures
        ({
            let taken = if op_code_of(ins(s).op_bits()) == Some(InstructionOp::BEQ) {
                rs_value(s) == rt_value(s)
            } else if op_code_of(ins(s).op_bits()) == Some(InstructionOp::BNE) {
                rs_value(s) != rt_value(s)
            } else if op_code_of(ins(s).op_bits()) == Some(InstructionOp::BGTZ) {
                signed(rs_value(s)) > 0
            } else {
                signed(rs_value(s)) <= 0
            };
            &&& taken ==> cpu_op_spec(s) == Some(
                CpuModel { npc: branch_destination(s) as u32, ..s },
            )
            &&& !taken ==> cpu_op_spec(s) == Some(s)
        }),
{
    lemma_signed_is_i32(rs_value(s));
    lemma_signed_is_i32(s.pc);
    lemma_sext_word(ins(s).immediate_bits());
    assert(crate::cpu::branch_target(s) == branch_destination(s));
}

/// J and JAL jump within the 256 MB region of the delay slot: the next
/// address keeps its top four bits and takes the 26-bit target times four
/// below them. JAL also links like JALR: r31 gets the address after the
/// delay slot.
pub proof fn lemma_jumps_stay_in_region(s: CpuModel, bus: BusModel)
    requires
        s.gprs.len() == 32,
        step_spec(s, bus) is Some,
        op_code_of(fetched(s, bus).op_bits()) == Some(InstructionOp::J) || op_code_of(
            fetched(s, bus).op_bits(),
        ) == Some(InstructionOp::JAL),
    ensures
        step_spec(s, bus).unwrap().0.pc == s.npc,
        step_spec(s, bus).unwrap().0.npc & 0xF000_0000 == s.npc & 0xF000_0000,
        step_spec(s, bus).unwrap().0.npc & 0x0FFF_FFFF == fetched(s, bus).target_bits() * 4,
        op_code_of(fetched(s, bus).op_bits()) == Some(InstructionOp::JAL) ==> reg(
            step_spec(s, bus).unwrap().0,
            31,
        ) == s.npc + 4,
{
    let s0 = CpuModel { current_instruction_pc: s.pc, ..s };
    let s1 = fetch_spec(s0, bus);
    assert(ins(s1) == fetched(s, bus));
    let p = s.npc;
    let t = fetched(s, bus).target_bits();
    crate::cpu_types::lemma_instruction_field_bounds(fetched(s, bus).bits);
    assert(((p & 0xF000_0000) | (t << 2u32)) & 0xF000_0000 == p & 0xF000_0000 && ((p
        & 0xF000_0000) | (t << 2u32)) & 0x0FFF_FFFF == t * 4) by (bit_vector)
        requires
            t < 0x400_0000u32,
    ;
}

} // verus!
verus! {

/// The regimm branches (BLTZ, BGEZ, BLTZAL, BGEZAL): bit 0 of rt picks
/// "greater or equal to zero" over "less than zero", the test reading rs as
/// a two's complement number; the linking forms (rt bits 4..1 = 1000) leave
/// the address after the delay slot in r31 whether or not the branch is
/// taken, and the test then sees that value if rs is r31.
pub proof fn lemma_regimm_branches(s: CpuModel)
    requires
        s.gprs.len() == 32,
        op_code_of(ins(s).op_bits()) == Some(InstructionOp::B),
        i32::MIN <= branch_destination(s) <= i32::MAX,
    ensures
        ({
            let rt = ins(s).rt_bits();
            let links = rt & 0x1E == 0x10;
            let tested = if links && ins(s).rs_bits() == 31 {
                s.npc
            } else {
                rs_value(s)
            };
            let taken = if rt & 1 == 1 {
                signed(tested) >= 0
            } else {
                signed(tested) < 0
            };
            &&& cpu_op_spec(s) is Some
            &&& links ==> reg(cpu_op_spec(s).unwrap(), 31) == s.npc
            &&& !links ==> cpu_op_spec(s).unwrap().gprs == s.gprs
            &&& cpu_op_spec(s).unwrap().npc == if taken {
                branch_destination(s) as u32
            } else {
                s.npc
            }
            &&& cpu_op_spec(s).unwrap().pc == s.pc
        }),
{
    crate::cpu_types::lemma_instruction_field_bounds(s.instruction);
    lemma_signed_is_i32(rs_value(s));
    lemma_signed_is_i32(s.npc);
    lemma_signed_is_i32(s.pc);
    lemma_sext_word(ins(s).immediate_bits());
    let linked = crate::cpu::with_reg(s, 31, s.npc);
    assert(crate::cpu::branch_target(linked) == branch_destination(s));
}

} // verus!
verus! {

/// The offset in RAM that a RAM address reaches, whatever its segment and mirror.
pub open spec fn ram_offset(address: u32) -> int {
    (address as int % 0x2000_0000) % 0x20_0000
}

/// The physical address and the RAM offset, as the bus computes them with masks.
proof fn lemma_physical_masks(address: u32)
    ensures
        address & 0x1FFF_FFFF == address as int % 0x2000_0000,
        (address & 0x1FFF_FFFF) & 0x1F_FFFF == ram_offset(address),
{
    vstd::bits::lemma_low_bits_mask_values();
    vstd::arithmetic::power2::lemma2_to64();
    vstd::bits::lemma_u32_low_bits_mask_is_mod(address, 29);
    vstd::bits::lemma_u32_low_bits_mask_is_mod(address & 0x1FFF_FFFF, 21);
}

/// Loads from RAM read memory little-endian: LBU and LHU give the byte or
/// half-word as it is, LB and LH the same sign-extended (so read as a two's
/// complement number it is the byte or half-word's signed value), LW the
/// whole word; through any segment and any 2 MB mirror.
pub proof fn lemma_loads_from_ram(s: CpuModel, bus: BusModel)
    requires
        s.gprs.len() == 32,
        crate::bus::bus_model_wf(bus),
        ins(s).rt_bits() != 0,
        crate::cpu::instruction_spec(s, bus) is Some,
        op_code_of(ins(s).op_bits()) == Some(InstructionOp::LB) || op_code_of(ins(s).op_bits()) == Some(
            InstructionOp::LBU,
        ) || op_code_of(ins(s).op_bits()) == Some(InstructionOp::LH) || op_code_of(ins(s).op_bits())
            == Some(InstructionOp::LHU) || op_code_of(ins(s).op_bits()) == Some(InstructionOp::LW),
        crate::bus::segment_of(crate::cpu::data_address(s) as u32) == 0 || crate::bus::segment_of(
            crate::cpu::data_address(s) as u32,
        ) == 4 || crate::bus::segment_of(crate::cpu::data_address(s) as u32) == 5,
        (crate::cpu::data_address(s) as u32) as int % 0x2000_0000 < 0x80_0000,
    ensures
        ({
            let r = reg(crate::cpu::instruction_spec(s, bus).unwrap().0, ins(s).rt_bits());
            let m = bus.ram;
            let o = ram_offset(crate::cpu::data_address(s) as u32);
            let half = m[o] + 256 * m[o + 1];
            &&& op_code_of(ins(s).op_bits()) == Some(InstructionOp::LBU) ==> r == m[o]
            &&& op_code_of(ins(s).op_bits()) == Some(InstructionOp::LB) ==> signed(r) == if m[o] < 128 {
                m[o] as int
            } else {
                m[o] - 256
            }
            &&& op_code_of(ins(s).op_bits()) == Some(InstructionOp::LHU) ==> r == half
            &&& op_code_of(ins(s).op_bits()) == Some(InstructionOp::LH) ==> signed(r) == if half
                < 0x8000 {
                half
            } else {
                half - 0x1_0000
            }
            &&& op_code_of(ins(s).op_bits()) == Some(InstructionOp::LW) ==> r == half + 65536 * m[o
                + 2] + 16777216 * m[o + 3]
        }),
{
    crate::cpu_types::lemma_instruction_field_bounds(s.instruction);
    let a = crate::cpu::data_address(s) as u32;
    lemma_physical_masks(a);
    let o = ram_offset(a);
    crate::bus::lemma_little_endian(bus.ram, o);
    let v = crate::bus::load_le(bus.ram, o, 1);
    let w = crate::bus::load_le(bus.ram, o, 2);
    assert((v < 0x100 ==> (((v & 0xFF) as i8 as i32) as u32 as i32) as int == if v < 128 {
        v as int
    } else {
        v - 256
    }) && (w < 0x1_0000 ==> (((w & 0xFFFF) as i16 as i32) as u32 as i32) as int == if w < 0x8000 {
        w as int
    } else {
        w - 0x1_0000
    })) by (bit_vector);
    lemma_signed_is_i32(((v & 0xFF) as i8 as i32) as u32);
    lemma_signed_is_i32(((w & 0xFFFF) as i16 as i32) as u32);
}

} // verus!
