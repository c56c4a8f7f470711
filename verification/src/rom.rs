use vstd::prelude::*;

use crate::cdrom::be32;

verus! {

/// The mnemonic of each primary opcode, as a listing prints it.
pub open spec fn opcode_name_spec(opcode: u32) -> &'static str {
    match opcode {
        0 => "ALU_Op",
        1 => "REGIMM",
        2 => "J",
        3 => "JAL",
        4 => "BEQ",
        5 => "BNE",
        6 => "BLEZ",
        7 => "BGTZ",
        8 => "ADDI",
        9 => "ADDIU",
        10 => "SLTI",
        11 => "SLTIU",
        12 => "ANDI",
        13 => "ORI",
        14 => "XORI",
        15 => "LUI",
        16 => "COP0",
        18 => "COP2",
        32 => "LB",
        33 => "LH",
        34 => "LWL",
        35 => "LW",
        36 => "LBU",
        37 => "LHU",
        38 => "LWR",
        40 => "SB",
        41 => "SH",
        42 => "SWL",
        43 => "SW",
        46 => "SWR",
        50 => "LWC2",
        58 => "SWC2",
        59 => "HLE",
        _ => "NULL",
    }
}

/// The mnemonic of a primary opcode (below 64).
pub fn opcode_name(opcode: u32) -> (r: &'static str)
    requires
        opcode < 64,
    ensures
        r == opcode_name_spec(opcode),
{
    match opcode {
        0 => "ALU_Op",
        1 => "REGIMM",
        2 => "J",
        3 => "JAL",
        4 => "BEQ",
        5 => "BNE",
        6 => "BLEZ",
        7 => "BGTZ",
        8 => "ADDI",
        9 => "ADDIU",
        10 => "SLTI",
        11 => "SLTIU",
        12 => "ANDI",
        13 => "ORI",
        14 => "XORI",
        15 => "LUI",
        16 => "COP0",
        18 => "COP2",
        32 => "LB",
        33 => "LH",
        34 => "LWL",
        35 => "LW",
        36 => "LBU",
        37 => "LHU",
        38 => "LWR",
        40 => "SB",
        41 => "SH",
        42 => "SWL",
        43 => "SW",
        46 => "SWR",
        50 => "LWC2",
        58 => "SWC2",
        59 => "HLE",
        _ => "NULL",
    }
}

/// The words of a program image: each four bytes big-endian.
pub fn program_from_bytes(bytes: &[u8]) -> (r: Vec<u32>)
    requires
        bytes@.len() % 4 == 0,
    ensures
        r@.len() == bytes@.len() / 4,
        forall|i: int|
            0 <= i < r@.len() ==> #[trigger] r@[i] == be32(
                bytes@[4 * i],
                bytes@[4 * i + 1],
                bytes@[4 * i + 2],
                bytes@[4 * i + 3],
            ),
{
    let mut program: Vec<u32> = Vec::new();
    let mut k: usize = 0;
    while k < bytes.len()
        invariant
            k <= bytes@.len(),
            k % 4 == 0,
            bytes@.len() % 4 == 0,
            program@.len() == k / 4,
            forall|i: int|
                0 <= i < program@.len() ==> #[trigger] program@[i] == be32(
                    bytes@[4 * i],
                    bytes@[4 * i + 1],
                    bytes@[4 * i + 2],
                    bytes@[4 * i + 3],
                ),
        decreases bytes@.len() - k,
    {
        let word = ((bytes[k] as u32) << 24) | ((bytes[k + 1] as u32) << 16) | ((bytes[k + 2] as u32)
            << 8) | (bytes[k + 3] as u32);
        program.push(word);
        k = k + 4;
    }
    program
}

} // verus!
