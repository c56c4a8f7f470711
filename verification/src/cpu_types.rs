use vstd::prelude::*;

use crate::text::{ascii_chars, string_from_utf8_lossy};

verus! {

/// Address of the first instruction executed after a reset (BIOS ROM).
pub const RESET_VECTOR: u32 = 0xBFC00000;

/// Primary opcode of an R3000A instruction (bits 31..26).
#[derive(Debug, Clone, Copy, PartialEq, Eq, Structural)]
pub enum InstructionOp {
    FUNCT,
    B,
    J,
    JAL,
    BEQ,
    BNE,
    BLEZ,
    BGTZ,
    ADDI,
    ADDIU,
    SLTI,
    SLTIU,
    ANDI,
    ORI,
    XORI,
    LUI,
    COP0,
    COP1,
    COP2,
    COP3,
    LB,
    LH,
    LWL,
    LW,
    LBU,
    LHU,
    LWR,
    SB,
    SH,
    SWL,
    SW,
    SWR,
    LWC0,
    LWC1,
    LWC2,
    LWC3,
    SWC0,
    SWC1,
    SWC2,
    SWC3,
}

/// The opcode that a 6-bit code stands for, if any.
pub open spec fn op_code_of(value: u8) -> Option<InstructionOp> {
    match value {
        0 => Some(InstructionOp::FUNCT),
        1 => Some(InstructionOp::B),
        2 => Some(InstructionOp::J),
        3 => Some(InstructionOp::JAL),
        4 => Some(InstructionOp::BEQ),
        5 => Some(InstructionOp::BNE),
        6 => Some(InstructionOp::BLEZ),
        7 => Some(InstructionOp::BGTZ),
        8 => Some(InstructionOp::ADDI),
        9 => Some(InstructionOp::ADDIU),
        10 => Some(InstructionOp::SLTI),
        11 => Some(InstructionOp::SLTIU),
        12 => Some(InstructionOp::ANDI),
        13 => Some(InstructionOp::ORI),
        14 => Some(InstructionOp::XORI),
        15 => Some(InstructionOp::LUI),
        16 => Some(InstructionOp::COP0),
        17 => Some(InstructionOp::COP1),
        18 => Some(InstructionOp::COP2),
        19 => Some(InstructionOp::COP3),
        32 => Some(InstructionOp::LB),
        33 => Some(InstructionOp::LH),
        34 => Some(InstructionOp::LWL),
        35 => Some(InstructionOp::LW),
        36 => Some(InstructionOp::LBU),
        37 => Some(InstructionOp::LHU),
        38 => Some(InstructionOp::LWR),
        40 => Some(InstructionOp::SB),
        41 => Some(InstructionOp::SH),
        42 => Some(InstructionOp::SWL),
        43 => Some(InstructionOp::SW),
        46 => Some(InstructionOp::SWR),
        48 => Some(InstructionOp::LWC0),
        49 => Some(InstructionOp::LWC1),
        50 => Some(InstructionOp::LWC2),
        51 => Some(InstructionOp::LWC3),
        56 => Some(InstructionOp::SWC0),
        57 => Some(InstructionOp::SWC1),
        58 => Some(InstructionOp::SWC2),
        59 => Some(InstructionOp::SWC3),
        _ => None,
    }
}

impl InstructionOp {
    /// Decodes a primary opcode; `None` for codes that the R3000A does not define.
    pub fn decode(value: u8) -> (r: Option<InstructionOp>)
        ensures
            r == op_code_of(value),
    {
        match value {
            0 => Some(InstructionOp::FUNCT),
            1 => Some(InstructionOp::B),
            2 => Some(InstructionOp::J),
            3 => Some(InstructionOp::JAL),
            4 => Some(InstructionOp::BEQ),
            5 => Some(InstructionOp::BNE),
            6 => Some(InstructionOp::BLEZ),
            7 => Some(InstructionOp::BGTZ),
            8 => Some(InstructionOp::ADDI),
            9 => Some(InstructionOp::ADDIU),
            10 => Some(InstructionOp::SLTI),
            11 => Some(InstructionOp::SLTIU),
            12 => Some(InstructionOp::ANDI),
            13 => Some(InstructionOp::ORI),
            14 => Some(InstructionOp::XORI),
            15 => Some(InstructionOp::LUI),
            16 => Some(InstructionOp::COP0),
            17 => Some(InstructionOp::COP1),
            18 => Some(InstructionOp::COP2),
            19 => Some(InstructionOp::COP3),
            32 => Some(InstructionOp::LB),
            33 => Some(InstructionOp::LH),
            34 => Some(InstructionOp::LWL),
            35 => Some(InstructionOp::LW),
            36 => Some(InstructionOp::LBU),
            37 => Some(InstructionOp::LHU),
            38 => Some(InstructionOp::LWR),
            40 => Some(InstructionOp::SB),
            41 => Some(InstructionOp::SH),
            42 => Some(InstructionOp::SWL),
            43 => Some(InstructionOp::SW),
            46 => Some(InstructionOp::SWR),
            48 => Some(InstructionOp::LWC0),
            49 => Some(InstructionOp::LWC1),
            50 => Some(InstructionOp::LWC2),
            51 => Some(InstructionOp::LWC3),
            56 => Some(InstructionOp::SWC0),
            57 => Some(InstructionOp::SWC1),
            58 => Some(InstructionOp::SWC2),
            59 => Some(InstructionOp::SWC3),
            _ => None,
        }
    }

    /// The opcode for a defined code.
    pub fn from(value: u8) -> (r: InstructionOp)
        requires
            op_code_of(value) is Some,
        ensures
            op_code_of(value) == Some(r),
    {
        match Self::decode(value) {
            Some(op) => op,
            None => InstructionOp::FUNCT,
        }
    }
}

/// Coprocessor transfer operation (bits 24..21 of a coprocessor instruction).
#[derive(Debug, Clone, Copy, PartialEq, Eq, Structural)]
pub enum CopCommonInstruction {
    MFCN,
    CFCN,
    MTCN,
    CTCN,
}

/// The transfer operation that a 4-bit code stands for, if any.
pub open spec fn cop_common_op_of(value: u8) -> Option<CopCommonInstruction> {
    match value {
        0 => Some(CopCommonInstruction::MFCN),
        2 => Some(CopCommonInstruction::CFCN),
        4 => Some(CopCommonInstruction::MTCN),
        6 => Some(CopCommonInstruction::CTCN),
        _ => None,
    }
}

impl CopCommonInstruction {
    /// Decodes a transfer operation; `None` for undefined codes.
    pub fn decode(value: u8) -> (r: Option<CopCommonInstruction>)
        ensures
            r == cop_common_op_of(value),
    {
        match value {
            0 => Some(CopCommonInstruction::MFCN),
            2 => Some(CopCommonInstruction::CFCN),
            4 => Some(CopCommonInstruction::MTCN),
            6 => Some(CopCommonInstruction::CTCN),
            _ => None,
        }
    }

    /// The value for a defined code.
    pub fn from(value: u8) -> (r: CopCommonInstruction)
        requires
            cop_common_op_of(value) is Some,
        ensures
            cop_common_op_of(value) == Some(r),
    {
        match Self::decode(value) {
            Some(x) => x,
            None => CopCommonInstruction::MFCN,
        }
    }
}

/// COP0 command (bits 5..0 of a COP0 command instruction).
#[derive(Debug, Clone, Copy, PartialEq, Eq, Structural)]
pub enum Cop0Instruction {
    TLBR,
    TLBWI,
    TLBWR,
    TLBP,
    RFE,
}

/// The COP0 command that a code stands for, if any.
pub open spec fn cop0_op_of(value: u8) -> Option<Cop0Instruction> {
    match value {
        1 => Some(Cop0Instruction::TLBR),
        2 => Some(Cop0Instruction::TLBWI),
        4 => Some(Cop0Instruction::TLBWR),
        8 => Some(Cop0Instruction::TLBP),
        16 => Some(Cop0Instruction::RFE),
        _ => None,
    }
}

impl Cop0Instruction {
    /// Decodes a COP0 command; `None` for undefined codes.
    pub fn decode(value: u8) -> (r: Option<Cop0Instruction>)
        ensures
            r == cop0_op_of(value),
    {
        match value {
            1 => Some(Cop0Instruction::TLBR),
            2 => Some(Cop0Instruction::TLBWI),
            4 => Some(Cop0Instruction::TLBWR),
            8 => Some(Cop0Instruction::TLBP),
            16 => Some(Cop0Instruction::RFE),
            _ => None,
        }
    }

    /// The value for a defined code.
    pub fn from(value: u8) -> (r: Cop0Instruction)
        requires
            cop0_op_of(value) is Some,
        ensures
            cop0_op_of(value) == Some(r),
    {
        match Self::decode(value) {
            Some(x) => x,
            None => Cop0Instruction::TLBR,
        }
    }
}

/// Secondary opcode of a register-format instruction (bits 5..0).
#[derive(Debug, Clone, Copy, PartialEq, Eq, Structural)]
pub enum InstructionFunct {
    SLL,
    SRL,
    SRA,
    SLLV,
    SRLV,
    SRAV,
    JR,
    JALR,
    SYSCALL,
    BREAK,
    MFHI,
    MTHI,
    MFLO,
    MTLO,
    MULT,
    MULTU,
    DIV,
    DIVU,
    ADD,
    ADDU,
    SUB,
    SUBU,
    AND,
    OR,
    XOR,
    NOR,
    SLT,
    SLTU,
}

/// The secondary opcode that a 6-bit code stands for, if any.
pub open spec fn funct_of(value: u8) -> Option<InstructionFunct> {
    match value {
        0 => Some(InstructionFunct::SLL),
        2 => Some(InstructionFunct::SRL),
        3 => Some(InstructionFunct::SRA),
        4 => Some(InstructionFunct::SLLV),
        6 => Some(InstructionFunct::SRLV),
        7 => Some(InstructionFunct::SRAV),
        8 => Some(InstructionFunct::JR),
        9 => Some(InstructionFunct::JALR),
        12 => Some(InstructionFunct::SYSCALL),
        13 => Some(InstructionFunct::BREAK),
        16 => Some(InstructionFunct::MFHI),
        17 => Some(InstructionFunct::MTHI),
        18 => Some(InstructionFunct::MFLO),
        19 => Some(InstructionFunct::MTLO),
        24 => Some(InstructionFunct::MULT),
        25 => Some(InstructionFunct::MULTU),
        26 => Some(InstructionFunct::DIV),
        27 => Some(InstructionFunct::DIVU),
        32 => Some(InstructionFunct::ADD),
        33 => Some(InstructionFunct::ADDU),
        34 => Some(InstructionFunct::SUB),
        35 => Some(InstructionFunct::SUBU),
        36 => Some(InstructionFunct::AND),
        37 => Some(InstructionFunct::OR),
        38 => Some(InstructionFunct::XOR),
        39 => Some(InstructionFunct::NOR),
        42 => Some(InstructionFunct::SLT),
        43 => Some(InstructionFunct::SLTU),
        _ => None,
    }
}

impl InstructionFunct {
    /// Decodes a secondary opcode; `None` for undefined codes.
    pub fn decode(value: u8) -> (r: Option<InstructionFunct>)
        ensures
            r == funct_of(value),
    {
        match value {
            0 => Some(InstructionFunct::SLL),
            2 => Some(InstructionFunct::SRL),
            3 => Some(InstructionFunct::SRA),
            4 => Some(InstructionFunct::SLLV),
            6 => Some(InstructionFunct::SRLV),
            7 => Some(InstructionFunct::SRAV),
            8 => Some(InstructionFunct::JR),
            9 => Some(InstructionFunct::JALR),
            12 => Some(InstructionFunct::SYSCALL),
            13 => Some(InstructionFunct::BREAK),
            16 => Some(InstructionFunct::MFHI),
            17 => Some(InstructionFunct::MTHI),
            18 => Some(InstructionFunct::MFLO),
            19 => Some(InstructionFunct::MTLO),
            24 => Some(InstructionFunct::MULT),
            25 => Some(InstructionFunct::MULTU),
            26 => Some(InstructionFunct::DIV),
            27 => Some(InstructionFunct::DIVU),
            32 => Some(InstructionFunct::ADD),
            33 => Some(InstructionFunct::ADDU),
            34 => Some(InstructionFunct::SUB),
            35 => Some(InstructionFunct::SUBU),
            36 => Some(InstructionFunct::AND),
            37 => Some(InstructionFunct::OR),
            38 => Some(InstructionFunct::XOR),
            39 => Some(InstructionFunct::NOR),
            42 => Some(InstructionFunct::SLT),
            43 => Some(InstructionFunct::SLTU),
            _ => None,
        }
    }

    /// The value for a defined code.
    pub fn from(value: u8) -> (r: InstructionFunct)
        requires
            funct_of(value) is Some,
        ensures
            funct_of(value) == Some(r),
    {
        match Self::decode(value) {
            Some(x) => x,
            None => InstructionFunct::SLL,
        }
    }
}

/// COP0 register that instructions may name.
#[derive(Debug, Clone, Copy, PartialEq, Eq, Structural)]
pub enum Cop0Reg {
    BPC,
    BDA,
    JUMPDEST,
    DCIC,
    BadVaddr,
    BDAM,
    BPCM,
    SR,
    CAUSE,
    EPC,
    PRID,
}

/// The COP0 register that a register number stands for, if any.
pub open spec fn cop0_reg_of(value: u8) -> Option<Cop0Reg> {
    match value {
        3 => Some(Cop0Reg::BPC),
        5 => Some(Cop0Reg::BDA),
        6 => Some(Cop0Reg::JUMPDEST),
        7 => Some(Cop0Reg::DCIC),
        8 => Some(Cop0Reg::BadVaddr),
        9 => Some(Cop0Reg::BDAM),
        11 => Some(Cop0Reg::BPCM),
        12 => Some(Cop0Reg::SR),
        13 => Some(Cop0Reg::CAUSE),
        14 => Some(Cop0Reg::EPC),
        15 => Some(Cop0Reg::PRID),
        _ => None,
    }
}

impl Cop0Reg {
    /// Decodes a COP0 register number; `None` for numbers without a register.
    pub fn decode(value: u8) -> (r: Option<Cop0Reg>)
        ensures
            r == cop0_reg_of(value),
    {
        match value {
            3 => Some(Cop0Reg::BPC),
            5 => Some(Cop0Reg::BDA),
            6 => Some(Cop0Reg::JUMPDEST),
            7 => Some(Cop0Reg::DCIC),
            8 => Some(Cop0Reg::BadVaddr),
            9 => Some(Cop0Reg::BDAM),
            11 => Some(Cop0Reg::BPCM),
            12 => Some(Cop0Reg::SR),
            13 => Some(Cop0Reg::CAUSE),
            14 => Some(Cop0Reg::EPC),
            15 => Some(Cop0Reg::PRID),
            _ => None,
        }
    }

    /// The value for a defined code.
    pub fn from(value: u8) -> (r: Cop0Reg)
        requires
            cop0_reg_of(value) is Some,
        ensures
            cop0_reg_of(value) == Some(r),
    {
        match Self::decode(value) {
            Some(x) => x,
            None => Cop0Reg::BPC,
        }
    }
}

/// Bounds of the bit fields of an instruction word.
pub proof fn lemma_instruction_field_bounds(bits: u32)
    by (bit_vector)
    ensures
        (bits >> 26u32) < 64,
        ((bits >> 21u32) & 0x1F) < 32,
        ((bits >> 16u32) & 0x1F) < 32,
        ((bits >> 11u32) & 0x1F) < 32,
        ((bits >> 6u32) & 0x1F) < 32,
        (bits & 0xFFFF) < 0x10000,
        (bits & 0x3FFFFFF) < 0x4000000,
        (bits & 0x3F) < 64,
        ((bits >> 26u32) & 0x3) < 4,
        ((bits >> 21u32) & 0xF) < 16,
{
}

/// A 32-bit R3000A instruction word.
pub struct Instruction {
    pub bits: u32,
}

impl Instruction {
    /// Bits 31..26: the primary opcode.
    pub open spec fn op_bits(self) -> u8 {
        (self.bits >> 26u32) as u8
    }

    /// Bits 25..21: the `rs` (or `base`) register.
    pub open spec fn rs_bits(self) -> u8 {
        ((self.bits >> 21u32) & 0x1F) as u8
    }

    /// Bits 20..16: the `rt` register.
    pub open spec fn rt_bits(self) -> u8 {
        ((self.bits >> 16u32) & 0x1F) as u8
    }

    /// Bits 15..11: the `rd` register.
    pub open spec fn rd_bits(self) -> u8 {
        ((self.bits >> 11u32) & 0x1F) as u8
    }

    /// Bits 10..6: the shift amount.
    pub open spec fn shamt_bits(self) -> u8 {
        ((self.bits >> 6u32) & 0x1F) as u8
    }

    /// Bits 15..0: the immediate (or offset).
    pub open spec fn immediate_bits(self) -> u16 {
        (self.bits & 0xFFFF) as u16
    }

    /// Bits 25..0: the jump target.
    pub open spec fn target_bits(self) -> u32 {
        self.bits & 0x3FFFFFF
    }

    /// Bits 5..0: the secondary opcode.
    pub open spec fn funct_bits(self) -> u8 {
        (self.bits & 0x3F) as u8
    }

    /// Bit 25 clear: a coprocessor transfer rather than a command.
    pub open spec fn is_cop_common_spec(self) -> bool {
        ((self.bits >> 25u32) & 0x1) == 0
    }

    /// Bits 27..26: the coprocessor number.
    pub open spec fn cop_number_bits(self) -> u8 {
        ((self.bits >> 26u32) & 0x3) as u8
    }

    /// Bits 24..21: the coprocessor transfer operation.
    pub open spec fn cop_common_op_bits(self) -> u8 {
        ((self.bits >> 21u32) & 0xF) as u8
    }

    /// The all-zero instruction (`sll r0, r0, 0`, a no-op).
    pub fn new() -> (r: Self)
        ensures
            r.bits == 0,
    {
        Self { bits: 0x0 }
    }

    pub fn get_op_code(&self) -> (r: InstructionOp)
        requires
            op_code_of(self.op_bits()) is Some,
        ensures
            op_code_of(self.op_bits()) == Some(r),
    {
        proof {
            lemma_instruction_field_bounds(self.bits);
        }
        InstructionOp::from((self.bits >> 26) as u8)
    }

    pub fn get_rs(&self) -> (r: u8)
        ensures
            r == self.rs_bits(),
            r < 32,
    {
        proof {
            lemma_instruction_field_bounds(self.bits);
        }
        ((self.bits >> 21) & 0x1F) as u8
    }

    pub fn get_base(&self) -> (r: u8)
        ensures
            r == self.rs_bits(),
            r < 32,
    {
        proof {
            lemma_instruction_field_bounds(self.bits);
        }
        ((self.bits >> 21) & 0x1F) as u8
    }

    pub fn get_rt(&self) -> (r: u8)
        ensures
            r == self.rt_bits(),
            r < 32,
    {
        proof {
            lemma_instruction_field_bounds(self.bits);
        }
        ((self.bits >> 16) & 0x1F) as u8
    }

    pub fn get_rd(&self) -> (r: u8)
        ensures
            r == self.rd_bits(),
            r < 32,
    {
        proof {
            lemma_instruction_field_bounds(self.bits);
        }
        ((self.bits >> 11) & 0x1F) as u8
    }

    pub fn get_shamt(&self) -> (r: u8)
        ensures
            r == self.shamt_bits(),
            r < 32,
    {
        proof {
            lemma_instruction_field_bounds(self.bits);
        }
        ((self.bits >> 6) & 0x1F) as u8
    }

    pub fn get_immediate(&self) -> (r: u16)
        ensures
            r == self.immediate_bits(),
            r as u32 == self.bits & 0xFFFF,
    {
        proof {
            lemma_instruction_field_bounds(self.bits);
        }
        (self.bits & 0xFFFF) as u16
    }

    pub fn get_offset(&self) -> (r: u16)
        ensures
            r == self.immediate_bits(),
            r as u32 == self.bits & 0xFFFF,
    {
        proof {
            lemma_instruction_field_bounds(self.bits);
        }
        (self.bits & 0xFFFF) as u16
    }

    pub fn get_target(&self) -> (r: u32)
        ensures
            r == self.target_bits(),
            r < 0x4000000,
    {
        proof {
            lemma_instruction_field_bounds(self.bits);
        }
        self.bits & 0x3FFFFFF
    }

    pub fn get_funct(&self) -> (r: InstructionFunct)
        requires
            funct_of(self.funct_bits()) is Some,
        ensures
            funct_of(self.funct_bits()) == Some(r),
    {
        proof {
            lemma_instruction_field_bounds(self.bits);
        }
        InstructionFunct::from((self.bits & 0x3F) as u8)
    }

    pub fn is_cop_common_instruction(&self) -> (r: bool)
        ensures
            r == self.is_cop_common_spec(),
    {
        ((self.bits >> 25) & 0x1) == 0
    }

    pub fn get_cop_number(&self) -> (r: u8)
        ensures
            r == self.cop_number_bits(),
            r < 4,
    {
        proof {
            lemma_instruction_field_bounds(self.bits);
        }
        ((self.bits >> 26) & 0x3) as u8
    }

    pub fn get_cop_common_op(&self) -> (r: CopCommonInstruction)
        requires
            cop_common_op_of(self.cop_common_op_bits()) is Some,
        ensures
            cop_common_op_of(self.cop_common_op_bits()) == Some(r),
    {
        proof {
            lemma_instruction_field_bounds(self.bits);
        }
        CopCommonInstruction::from(((self.bits >> 21) & 0xF) as u8)
    }

    pub fn get_cop0_op(&self) -> (r: Cop0Instruction)
        requires
            cop0_op_of(self.funct_bits()) is Some,
        ensures
            cop0_op_of(self.funct_bits()) == Some(r),
    {
        proof {
            lemma_instruction_field_bounds(self.bits);
        }
        Cop0Instruction::from((self.bits & 0x3F) as u8)
    }
}

/// The instruction in binary, most significant bit first, in eight groups
/// of four digits separated by spaces.
pub open spec fn binary_text(bits: u32) -> Seq<u8> {
    Seq::new(
        39,
        |i: int|
            if i % 5 == 4 {
                0x20u8
            } else if (bits >> ((31 - (4 * (i / 5) + i % 5)) as u32)) & 1 == 1 {
                0x31u8
            } else {
                0x30u8
            },
    )
}

impl Instruction {
    /// The instruction in binary, as `0000 0000 ... 0000`.
    pub fn to_string(&self) -> (r: String)
        ensures
            r@ == ascii_chars(binary_text(self.bits)),
    {
        let mut text: Vec<u8> = Vec::new();
        let mut i: usize = 0;
        while i < 39
            invariant
                i <= 39,
                text@.len() == i,
                forall|j: int| 0 <= j < i ==> #[trigger] text@[j] == binary_text(self.bits)[j],
            decreases 39 - i,
        {
            if i % 5 == 4 {
                text.push(0x20);
            } else {
                let bit_index = (31 - (4 * (i / 5) + i % 5)) as u32;
                if (self.bits >> bit_index) & 1 == 1 {
                    text.push(0x31);
                } else {
                    text.push(0x30);
                }
            }
            i = i + 1;
        }
        proof {
            assert(text@ =~= binary_text(self.bits));
        }
        string_from_utf8_lossy(text.as_slice())
    }
}

/// The register, immediate and jump formats each cover the whole word: the
/// fields that the getters extract put back together give the instruction.
pub proof fn lemma_instruction_fields_reassemble(i: Instruction)
    ensures
        i.bits == ((i.op_bits() as u32) << 26u32) | ((i.rs_bits() as u32) << 21u32) | ((
        i.rt_bits() as u32) << 16u32) | ((i.rd_bits() as u32) << 11u32) | ((i.shamt_bits() as u32)
            << 6u32) | (i.funct_bits() as u32),
        i.bits == ((i.op_bits() as u32) << 26u32) | ((i.rs_bits() as u32) << 21u32) | ((
        i.rt_bits() as u32) << 16u32) | (i.immediate_bits() as u32),
        i.bits == ((i.op_bits() as u32) << 26u32) | i.target_bits(),
{
    let b = i.bits;
    lemma_instruction_field_bounds(b);
    assert(b == ((b >> 26u32) << 26u32) | (((b >> 21u32) & 0x1F) << 21u32) | (((b >> 16u32) & 0x1F)
        << 16u32) | (((b >> 11u32) & 0x1F) << 11u32) | (((b >> 6u32) & 0x1F) << 6u32) | (b & 0x3F))
        by (bit_vector);
    assert(b == ((b >> 26u32) << 26u32) | (((b >> 21u32) & 0x1F) << 21u32) | (((b >> 16u32) & 0x1F)
        << 16u32) | (b & 0xFFFF)) by (bit_vector);
    assert(b == ((b >> 26u32) << 26u32) | (b & 0x3FFFFFF)) by (bit_vector);
}

/// The general-purpose registers after `value` is written to register
/// `index`: `r0` is the constant zero, so a write to it is ignored.
pub open spec fn gprs_after_write(gprs: Seq<u32>, index: u8, value: u32) -> Seq<u32> {
    if index == 0 {
        gprs
    } else {
        gprs.update(index as int, value)
    }
}

/// The general-purpose registers and the special registers of the CPU.
/// `r0` always holds zero: writes to it are ignored.
pub struct Registers {
    pub gprs: [u32; 32],
    /// High 32 bits of a multiplication, or the remainder of a division.
    pub hi: u32,
    /// Low 32 bits of a multiplication, or the quotient of a division.
    pub lo: u32,
    /// Address of the next instruction to execute (already fetched).
    pub pc: u32,
    /// Address of the next instruction to fetch.
    pub npc: u32,
}

impl Registers {
    /// All general-purpose registers zero, `pc` at the reset vector and
    /// `npc` one instruction after it.
    pub fn new() -> (r: Self)
        ensures
            r.gprs@ == Seq::new(32, |i: int| 0u32),
            r.hi == 0,
            r.lo == 0,
            r.pc == RESET_VECTOR,
            r.npc == RESET_VECTOR + 4,
    {
        let r = Self { gprs: [0;32], hi: 0, lo: 0, pc: RESET_VECTOR, npc: RESET_VECTOR + 4 };
        assert(r.gprs@ =~= Seq::new(32, |i: int| 0u32));
        r
    }

    pub fn read_register(&self, index: u8) -> (r: u32)
        requires
            index < 32,
        ensures
            r == self.gprs@[index as int],
    {
        self.gprs[index as usize]
    }

    pub fn write_register(&mut self, index: u8, value: u32)
        requires
            index < 32,
        ensures
            final(self).gprs@ == gprs_after_write(old(self).gprs@, index, value),
            final(self).hi == old(self).hi,
            final(self).lo == old(self).lo,
            final(self).pc == old(self).pc,
            final(self).npc == old(self).npc,
    {
        if index != 0 {
            self.gprs[index as usize] = value;
        }
    }

    /// Loads `value` into the upper half of a register, clearing the lower
    /// half; `r0` stays zero.
    pub fn write_register_upper(&mut self, index: u8, value: u16) -> (r: Result<(), String>)
        requires
            index < 32,
        ensures
            r is Ok,
            final(self).gprs@ == gprs_after_write(old(self).gprs@, index, (value as u32) << 16u32),
            final(self).hi == old(self).hi,
            final(self).lo == old(self).lo,
            final(self).pc == old(self).pc,
            final(self).npc == old(self).npc,
    {
        if index != 0 {
            self.gprs[index as usize] = (value as u32) << 16;
        }
        Ok(())
    }
}

/// A register other than `r0` reads back the last value written to it,
/// `r0` stays zero, and a write leaves every other register as it was.
pub proof fn lemma_register_read_after_write(gprs: Seq<u32>, index: u8, other: int, value: u32)
    requires
        gprs.len() == 32,
        gprs[0] == 0,
        index < 32,
        0 <= other < 32,
        index != other,
    ensures
        index != 0 ==> gprs_after_write(gprs, index, value)[index as int] == value,
        gprs_after_write(gprs, index, value)[0] == 0,
        gprs_after_write(gprs, index, value)[other] == gprs[other],
        gprs_after_write(gprs, index, value).len() == 32,
{
}

/// Loading an upper half gives the value in bits 31..16 and zero below.
pub proof fn lemma_write_upper_halves(value: u16)
    ensures
        ((value as u32) << 16u32) >> 16u32 == value as u32,
        ((value as u32) << 16u32) & 0xFFFF == 0,
{
    assert(((value as u32) << 16u32) >> 16u32 == value as u32) by (bit_vector);
    assert(((value as u32) << 16u32) & 0xFFFF == 0) by (bit_vector);
}

/// Exception causes and their codes in the CAUSE register.
#[derive(Debug, Clone, Copy, PartialEq, Eq, Structural)]
pub enum Exception {
    INT,
    MOD,
    TLBL,
    TLBS,
    AdEL,
    AdES,
    IBE,
    DBE,
    Syscall,
    BP,
    RI,
    CpU,
    Ov,
}

/// The code that CAUSE holds for each exception.
pub open spec fn exception_code(e: Exception) -> u8 {
    match e {
        Exception::INT => 0x00,
        Exception::MOD => 0x01,
        Exception::TLBL => 0x02,
        Exception::TLBS => 0x03,
        Exception::AdEL => 0x04,
        Exception::AdES => 0x05,
        Exception::IBE => 0x06,
        Exception::DBE => 0x07,
        Exception::Syscall => 0x08,
        Exception::BP => 0x09,
        Exception::RI => 0x0A,
        Exception::CpU => 0x0B,
        Exception::Ov => 0x0C,
    }
}

impl Exception {
    pub fn get_excode(&self) -> (r: u8)
        ensures
            r == exception_code(*self),
            r < 0x0D,
    {
        match self {
            Exception::INT => 0x00,
            Exception::MOD => 0x01,
            Exception::TLBL => 0x02,
            Exception::TLBS => 0x03,
            Exception::AdEL => 0x04,
            Exception::AdES => 0x05,
            Exception::IBE => 0x06,
            Exception::DBE => 0x07,
            Exception::Syscall => 0x08,
            Exception::BP => 0x09,
            Exception::RI => 0x0A,
            Exception::CpU => 0x0B,
            Exception::Ov => 0x0C,
        }
    }
}

/// Distinct exceptions have distinct codes.
pub proof fn lemma_exception_codes_distinct(a: Exception, b: Exception)
    ensures
        exception_code(a) == exception_code(b) <==> a == b,
{
}

/// SR with the mode bits (5..0) replaced.
pub open spec fn sr_with_mode_bits(bits: u32, mode_bits: u8) -> u32 {
    (bits & 0xFFFFFFC0) | ((mode_bits as u32) & 0x3F)
}

/// COP0 register 12, the system status register.
pub struct Cop0SystemStatusRegister {
    bits: u32,
}

impl View for Cop0SystemStatusRegister {
    type V = u32;

    closed spec fn view(&self) -> u32 {
        self.bits
    }
}

impl Cop0SystemStatusRegister {
    /// Bits 5..0: current, previous and old interrupt enable and mode.
    pub fn get_mode_bits(&self) -> (r: u8)
        ensures
            r == (self@ & 0x3F) as u8,
            r < 64,
    {
        let b = self.bits;
        assert(b & 0x3F < 64) by (bit_vector);
        (b & 0x3F) as u8
    }

    pub fn set_mode_bits(&mut self, mode_bits: u8)
        ensures
            final(self)@ == sr_with_mode_bits(old(self)@, mode_bits),
    {
        let masked_bits = self.bits & 0xFFFFFFC0;
        let masked_mode_bits = (mode_bits as u32) & 0x3F;
        self.bits = masked_bits | masked_mode_bits;
    }

    /// Bit 16, Isolate Cache: loads and stores go to the data cache, never
    /// to main memory.
    pub fn get_isc(&self) -> (r: bool)
        ensures
            r == (((self@ >> 16u32) & 1) == 1),
    {
        ((self.bits >> 16) & 1) == 1
    }

    /// Bit 22, BEV: exception vectors in ROM (KSEG1) rather than RAM (KSEG0).
    pub fn get_bev(&self) -> (r: bool)
        ensures
            r == (((self@ >> 22u32) & 1) == 1),
    {
        ((self.bits >> 22) & 1) == 1
    }
}

/// CAUSE after MTC0 wrote `value` to it: only bits 9..8 (the software
/// interrupts) can be written, the others are read-only.
pub open spec fn cause_after_write(bits: u32, value: u32) -> u32 {
    (bits & !0x300u32) | (value & 0x300u32)
}

/// CAUSE with the exception code (bits 6..2) replaced.
pub open spec fn cause_with_excode(bits: u32, value: u8) -> u32 {
    (bits & !0x7Cu32) | (((value & 0x1F) as u32) << 2u32)
}

/// CAUSE with the interrupt pending field (bits 15..8) replaced.
pub open spec fn cause_with_interrupt_pending(bits: u32, value: u8) -> u32 {
    (bits & !0xFF00u32) | ((value as u32) << 8u32)
}

/// COP0 register 13, the exception cause.
pub struct Cop0CauseRegister {
    bits: u32,
}

impl View for Cop0CauseRegister {
    type V = u32;

    closed spec fn view(&self) -> u32 {
        self.bits
    }
}

impl Cop0CauseRegister {
    pub fn set_excode(&mut self, value: u8)
        requires
            value < 0x0D,
        ensures
            final(self)@ == cause_with_excode(old(self)@, value),
    {
        let masked_bits = self.bits & !0x7C;
        let masked_value = (value & 0x1F) as u32;
        self.bits = masked_bits | (masked_value << 2);
    }

    pub fn get_interrupt_pending(&self) -> (r: u8)
        ensures
            r == ((self@ >> 8u32) & 0xFF) as u8,
    {
        ((self.bits >> 8) & 0xFF) as u8
    }

    pub fn set_interrupt_pending(&mut self, value: u8)
        ensures
            final(self)@ == cause_with_interrupt_pending(old(self)@, value),
    {
        let masked_bits = self.bits & !0xFF00;
        self.bits = masked_bits | ((value as u32) << 8);
    }
}

/// Setting the mode bits and reading them back gives the six bits set; the
/// other bits of SR are kept.
pub proof fn lemma_mode_bits_round_trip(bits: u32, mode_bits: u8)
    ensures
        (sr_with_mode_bits(bits, mode_bits) & 0x3F) as u8 == mode_bits & 0x3F,
        sr_with_mode_bits(bits, mode_bits) & 0xFFFFFFC0 == bits & 0xFFFFFFC0,
{
    assert(((((bits & 0xFFFFFFC0) | ((mode_bits as u32) & 0x3F)) & 0x3F) as u8 == mode_bits & 0x3F)
        && (((bits & 0xFFFFFFC0) | ((mode_bits as u32) & 0x3F)) & 0xFFFFFFC0 == bits & 0xFFFFFFC0))
        by (bit_vector);
}

/// The interrupt pending field reads back what was set; setting the
/// exception code leaves that field alone and stores the code in bits 6..2.
pub proof fn lemma_cause_fields(bits: u32, pending: u8, code: u8)
    requires
        code < 0x0D,
    ensures
        ((cause_with_interrupt_pending(bits, pending) >> 8u32) & 0xFF) as u8 == pending,
        (cause_with_excode(bits, code) >> 8u32) & 0xFF == (bits >> 8u32) & 0xFF,
        (cause_with_excode(bits, code) >> 2u32) & 0x1F == code as u32,
{
    assert((((((bits & !0xFF00u32) | ((pending as u32) << 8u32)) >> 8u32) & 0xFF) as u8 == pending))
        by (bit_vector);
    assert(code < 0x0D ==> ((((bits & !0x7Cu32) | (((code & 0x1F) as u32) << 2u32)) >> 8u32) & 0xFF
        == (bits >> 8u32) & 0xFF && (((bits & !0x7Cu32) | (((code & 0x1F) as u32) << 2u32)) >> 2u32)
        & 0x1F == code as u32)) by (bit_vector);
}

/// The COP0 registers that MFC0 can read here.
pub open spec fn cop0_readable(reg: Cop0Reg) -> bool {
    reg == Cop0Reg::BPC || reg == Cop0Reg::CAUSE || reg == Cop0Reg::EPC || reg == Cop0Reg::SR
}

/// The COP0 registers that MTC0 can write here.
pub open spec fn cop0_writable(reg: Cop0Reg) -> bool {
    reg == Cop0Reg::BDA || reg == Cop0Reg::BDAM || reg == Cop0Reg::BPC || reg == Cop0Reg::BPCM
        || reg == Cop0Reg::CAUSE || reg == Cop0Reg::DCIC || reg == Cop0Reg::JUMPDEST || reg
        == Cop0Reg::SR
}

/// The system control coprocessor's registers.
pub struct Cop0Registers {
    /// 3: breakpoint on execute.
    pub bpc: u32,
    /// 5: breakpoint on data access.
    pub bda: u32,
    /// 6: randomly memorized jump address.
    pub tar: u32,
    /// 7: breakpoint control.
    pub dcic: u32,
    /// 8: bad virtual address.
    pub bad_vaddr: u32,
    /// 9: data breakpoint mask.
    pub bdam: u32,
    /// 11: execute breakpoint mask.
    pub bpcm: u32,
    /// 12: system status register.
    pub sr: Cop0SystemStatusRegister,
    /// 13: exception cause.
    pub cause: Cop0CauseRegister,
    /// 14: return address from an exception.
    pub epc: u32,
    /// 15: processor id.
    pub prid: u32,
}

impl Cop0Registers {
    /// The value that MFC0 reads from a readable register.
    pub open spec fn read_spec(&self, reg: Cop0Reg) -> u32 {
        match reg {
            Cop0Reg::BPC => self.bpc,
            Cop0Reg::CAUSE => self.cause@,
            Cop0Reg::EPC => self.epc,
            _ => self.sr@,
        }
    }

    /// `next` is `self` after MTC0 wrote `value` to `reg`.
    pub open spec fn written_spec(&self, next: &Cop0Registers, reg: Cop0Reg, value: u32) -> bool {
        &&& next.bda == (if reg == Cop0Reg::BDA { value } else { self.bda })
        &&& next.bdam == (if reg == Cop0Reg::BDAM { value } else { self.bdam })
        &&& next.bpc == (if reg == Cop0Reg::BPC { value } else { self.bpc })
        &&& next.bpcm == (if reg == Cop0Reg::BPCM { value } else { self.bpcm })
        &&& next.cause@ == (if reg == Cop0Reg::CAUSE { cause_after_write(self.cause@, value) } else { self.cause@ })
        &&& next.dcic == (if reg == Cop0Reg::DCIC { value } else { self.dcic })
        &&& next.tar == (if reg == Cop0Reg::JUMPDEST { value } else { self.tar })
        &&& next.sr@ == (if reg == Cop0Reg::SR { value } else { self.sr@ })
        &&& next.bad_vaddr == self.bad_vaddr
        &&& next.epc == self.epc
        &&& next.prid == self.prid
    }

    /// Every register zero.
    pub fn new() -> (r: Self)
        ensures
            r.bpc == 0 && r.bda == 0 && r.tar == 0 && r.dcic == 0 && r.bad_vaddr == 0,
            r.bdam == 0 && r.bpcm == 0 && r.epc == 0 && r.prid == 0,
            r.sr@ == 0,
            r.cause@ == 0,
    {
        Self {
            bpc: 0x0,
            bda: 0x0,
            tar: 0x0,
            bad_vaddr: 0x0,
            bdam: 0x0,
            bpcm: 0x0,
            epc: 0x0,
            prid: 0x0,
            sr: Cop0SystemStatusRegister { bits: 0 },
            dcic: 0x0,
            cause: Cop0CauseRegister { bits: 0 },
        }
    }

    pub fn read_register(&self, reg: Cop0Reg) -> (r: u32)
        requires
            cop0_readable(reg),
        ensures
            r == self.read_spec(reg),
    {
        match reg {
            Cop0Reg::BPC => self.bpc,
            Cop0Reg::CAUSE => self.cause.bits,
            Cop0Reg::EPC => self.epc,
            _ => self.sr.bits,
        }
    }

    pub fn write_register(&mut self, reg: Cop0Reg, value: u32)
        requires
            cop0_writable(reg),
        ensures
            old(self).written_spec(&*final(self), reg, value),
    {
        match reg {
            Cop0Reg::BDA => self.bda = value,
            Cop0Reg::BDAM => self.bdam = value,
            Cop0Reg::BPC => self.bpc = value,
            Cop0Reg::BPCM => self.bpcm = value,
            Cop0Reg::CAUSE => self.cause.bits = (self.cause.bits & !0x300) | (value & 0x300),
            Cop0Reg::DCIC => self.dcic = value,
            Cop0Reg::JUMPDEST => self.tar = value,
            _ => self.sr.bits = value,
        }
    }
}

/// A COP0 register that can be both written and read gives back the value
/// written (CAUSE only in its writable bits 9..8, keeping the others), and a
/// write to one register leaves every other readable one alone.
pub proof fn lemma_cop0_read_after_write(
    before: Cop0Registers,
    after: Cop0Registers,
    reg: Cop0Reg,
    other: Cop0Reg,
    value: u32,
)
    requires
        cop0_writable(reg),
        before.written_spec(&after, reg, value),
        cop0_readable(other),
    ensures
        cop0_readable(reg) && reg != Cop0Reg::CAUSE ==> after.read_spec(reg) == value,
        reg == Cop0Reg::CAUSE ==> after.read_spec(reg) & 0x300 == value & 0x300,
        reg == Cop0Reg::CAUSE ==> after.read_spec(reg) & !0x300u32 == before.read_spec(reg) & !0x300u32,
        other != reg ==> after.read_spec(other) == before.read_spec(other),
{
    let b = before.cause@;
    assert(((b & !0x300u32) | (value & 0x300u32)) & 0x300 == value & 0x300
        && ((b & !0x300u32) | (value & 0x300u32)) & !0x300u32 == b & !0x300u32) by (bit_vector);
}

} // verus!
