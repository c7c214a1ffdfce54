//! The closed instruction set of the machine and its numeric opcodes.
use vstd::prelude::*;

verus! {

/// The machine word: every stack slot and every operand is one.
pub type Word = u64;

/// One instruction. `PUSH`, `DUP`, `JMP` and `JNZ` carry an operand; the
/// others carry none.
#[derive(Debug, Clone, Copy, PartialEq, Eq, Structural)]
pub enum Instruction {
    PUSH(Word),
    ADD,
    SUB,
    MUL,
    DIV,
    DUP(Word),
    DUMP,
    PRINT,
    JMP(Word),
    EQ,
    NEQ,
    JNZ(Word),
    HALT,
    BLIND,
}

/// Number of distinct opcodes; valid opcodes are `0..OPCODE_COUNT`.
pub const OPCODE_COUNT: u8 = 14;

/// The numeric code of an instruction, as stored in an encoded program.
pub open spec fn opcode_of(i: Instruction) -> u8 {
    match i {
        Instruction::PUSH(_) => 0,
        Instruction::ADD => 1,
        Instruction::SUB => 2,
        Instruction::MUL => 3,
        Instruction::DIV => 4,
        Instruction::DUP(_) => 5,
        Instruction::DUMP => 6,
        Instruction::PRINT => 7,
        Instruction::JMP(_) => 8,
        Instruction::EQ => 9,
        Instruction::JNZ(_) => 10,
        Instruction::HALT => 11,
        Instruction::BLIND => 12,
        Instruction::NEQ => 13,
    }
}

/// The operand of an instruction; zero for those that carry none.
pub open spec fn operand_of(i: Instruction) -> Word {
    match i {
        Instruction::PUSH(n) => n,
        Instruction::DUP(n) => n,
        Instruction::JMP(n) => n,
        Instruction::JNZ(n) => n,
        _ => 0,
    }
}

/// The instruction with opcode `op` and operand `operand`, if `op` names one.
/// Instructions without an operand ignore `operand`.
pub open spec fn instruction_of(op: int, operand: Word) -> Option<Instruction> {
    if op == 0 {
        Some(Instruction::PUSH(operand))
    } else if op == 1 {
        Some(Instruction::ADD)
    } else if op == 2 {
        Some(Instruction::SUB)
    } else if op == 3 {
        Some(Instruction::MUL)
    } else if op == 4 {
        Some(Instruction::DIV)
    } else if op == 5 {
        Some(Instruction::DUP(operand))
    } else if op == 6 {
        Some(Instruction::DUMP)
    } else if op == 7 {
        Some(Instruction::PRINT)
    } else if op == 8 {
        Some(Instruction::JMP(operand))
    } else if op == 9 {
        Some(Instruction::EQ)
    } else if op == 10 {
        Some(Instruction::JNZ(operand))
    } else if op == 11 {
        Some(Instruction::HALT)
    } else if op == 12 {
        Some(Instruction::BLIND)
    } else if op == 13 {
        Some(Instruction::NEQ)
    } else {
        None
    }
}

impl Instruction {
    /// The numeric code of this instruction.
    pub fn opcode(&self) -> (r: u8)
        ensures
            r == opcode_of(*self),
            r < OPCODE_COUNT,
    {
        match self {
            Instruction::PUSH(_) => 0,
            Instruction::ADD => 1,
            Instruction::SUB => 2,
            Instruction::MUL => 3,
            Instruction::DIV => 4,
            Instruction::DUP(_) => 5,
            Instruction::DUMP => 6,
            Instruction::PRINT => 7,
            Instruction::JMP(_) => 8,
            Instruction::EQ => 9,
            Instruction::JNZ(_) => 10,
            Instruction::HALT => 11,
            Instruction::BLIND => 12,
            Instruction::NEQ => 13,
        }
    }

    /// The operand of this instruction, zero where it carries none.
    pub fn operand(&self) -> (r: Word)
        ensures
            r == operand_of(*self),
    {
        match self {
            Instruction::PUSH(n) => *n,
            Instruction::DUP(n) => *n,
            Instruction::JMP(n) => *n,
            Instruction::JNZ(n) => *n,
            _ => 0,
        }
    }
}

/// Builds the instruction with opcode `op`; `None` when `op` is not one of
/// the defined opcodes.
pub fn make_inst(op: u8, operand: Word) -> (r: Option<Instruction>)
    ensures
        r == instruction_of(op as int, operand),
        r.is_some() <==> op < OPCODE_COUNT,
{
    match op {
        0 => Some(Instruction::PUSH(operand)),
        1 => Some(Instruction::ADD),
        2 => Some(Instruction::SUB),
        3 => Some(Instruction::MUL),
        4 => Some(Instruction::DIV),
        5 => Some(Instruction::DUP(operand)),
        6 => Some(Instruction::DUMP),
        7 => Some(Instruction::PRINT),
        8 => Some(Instruction::JMP(operand)),
        9 => Some(Instruction::EQ),
        10 => Some(Instruction::JNZ(operand)),
        11 => Some(Instruction::HALT),
        12 => Some(Instruction::BLIND),
        13 => Some(Instruction::NEQ),
        _ => None,
    }
}

/// An instruction is recovered from its opcode and operand.
pub proof fn lemma_instruction_of_parts(i: Instruction)
    ensures
        instruction_of(opcode_of(i) as int, operand_of(i)) == Some(i),
{
}

} // verus!
