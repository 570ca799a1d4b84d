//! The instruction set: fifteen operations, each one byte followed by a fixed
//! number of one-byte operands.

use vstd::prelude::*;
use crate::errors::OpcodeError;

verus! {

/// One instruction with its operands, which are register or state-slot indices.
#[derive(Debug, Clone, Copy, PartialEq, Eq)]
pub enum Opcode {
    /// Add two registers.
    ADD(u8, u8),
    /// Subtract two registers.
    SUB(u8, u8),
    /// Multiply two registers.
    MUL(u8, u8),
    /// Divide two registers.
    DIV(u8, u8),
    /// Remainder of two registers.
    MOD(u8, u8),
    /// Square root of a register.
    SQRT(u8),
    /// Raise a register to the power held by another.
    EXP(u8, u8),
    /// Load a register into a local variable.
    LOAD(u8, u8),
    /// Store a local variable into a register.
    STORE(u8, u8),
    /// Load a state slot into a register.
    SGET(u8, u8),
    /// Write a register into a state slot.
    SSET(u8, u8),
    /// Load the entry of a state map (slot, key) into a register.
    SMGET(u8, u8, u8),
    /// Write a register into the entry of a state map (slot, key).
    SMSET(u8, u8, u8),
    /// Call a function by index.
    CALL(u8),
    /// Return from a function.
    RET,
}

/// The number of operand bytes that follow the operation byte `code`, or
/// `None` where `code` is not assigned.
pub open spec fn operand_count(code: u8) -> Option<nat> {
    if code == 0x06 || code == 0x0E {
        Some(1)
    } else if 0x01 <= code <= 0x0B {
        Some(2)
    } else if code == 0x0C || code == 0x0D {
        Some(3)
    } else if code == 0x0F {
        Some(0)
    } else {
        None
    }
}

/// The instruction that an assigned `code` forms with the right number of operands.
pub open spec fn instruction(code: u8, operands: Seq<u8>) -> Opcode {
    if code == 0x01 {
        Opcode::ADD(operands[0], operands[1])
    } else if code == 0x02 {
        Opcode::SUB(operands[0], operands[1])
    } else if code == 0x03 {
        Opcode::MUL(operands[0], operands[1])
    } else if code == 0x04 {
        Opcode::DIV(operands[0], operands[1])
    } else if code == 0x05 {
        Opcode::MOD(operands[0], operands[1])
    } else if code == 0x06 {
        Opcode::SQRT(operands[0])
    } else if code == 0x07 {
        Opcode::EXP(operands[0], operands[1])
    } else if code == 0x08 {
        Opcode::LOAD(operands[0], operands[1])
    } else if code == 0x09 {
        Opcode::STORE(operands[0], operands[1])
    } else if code == 0x0A {
        Opcode::SGET(operands[0], operands[1])
    } else if code == 0x0B {
        Opcode::SSET(operands[0], operands[1])
    } else if code == 0x0C {
        Opcode::SMGET(operands[0], operands[1], operands[2])
    } else if code == 0x0D {
        Opcode::SMSET(operands[0], operands[1], operands[2])
    } else if code == 0x0E {
        Opcode::CALL(operands[0])
    } else {
        Opcode::RET
    }
}

/// What decoding yields: the instruction, or the reason there is none. An
/// unassigned code is reported before the operand count is looked at.
pub open spec fn decode(code: u8, operands: Seq<u8>) -> Result<Opcode, OpcodeError> {
    match operand_count(code) {
        None => Err(OpcodeError::InvalidOpcode(code)),
        Some(n) => if operands.len() == n {
            Ok(instruction(code, operands))
        } else {
            Err(OpcodeError::OperandLenghtMismatch(n as usize, operands.len() as usize))
        },
    }
}

impl Opcode {
    /// The operation byte of this instruction.
    pub open spec fn code(self) -> u8 {
        match self {
            Opcode::ADD(_, _) => 0x01,
            Opcode::SUB(_, _) => 0x02,
            Opcode::MUL(_, _) => 0x03,
            Opcode::DIV(_, _) => 0x04,
            Opcode::MOD(_, _) => 0x05,
            Opcode::SQRT(_) => 0x06,
            Opcode::EXP(_, _) => 0x07,
            Opcode::LOAD(_, _) => 0x08,
            Opcode::STORE(_, _) => 0x09,
            Opcode::SGET(_, _) => 0x0A,
            Opcode::SSET(_, _) => 0x0B,
            Opcode::SMGET(_, _, _) => 0x0C,
            Opcode::SMSET(_, _, _) => 0x0D,
            Opcode::CALL(_) => 0x0E,
            Opcode::RET => 0x0F,
        }
    }

    /// The operand bytes of this instruction, in wire order.
    pub open spec fn operands(self) -> Seq<u8> {
        match self {
            Opcode::ADD(a, b) => seq![a, b],
            Opcode::SUB(a, b) => seq![a, b],
            Opcode::MUL(a, b) => seq![a, b],
            Opcode::DIV(a, b) => seq![a, b],
            Opcode::MOD(a, b) => seq![a, b],
            Opcode::SQRT(a) => seq![a],
            Opcode::EXP(a, b) => seq![a, b],
            Opcode::LOAD(a, b) => seq![a, b],
            Opcode::STORE(a, b) => seq![a, b],
            Opcode::SGET(a, b) => seq![a, b],
            Opcode::SSET(a, b) => seq![a, b],
            Opcode::SMGET(a, b, c) => seq![a, b, c],
            Opcode::SMSET(a, b, c) => seq![a, b, c],
            Opcode::CALL(a) => seq![a],
            Opcode::RET => Seq::<u8>::empty(),
        }
    }

    /// Decodes the operation byte `hex` with its operand bytes. Fails on an
    /// unassigned byte, and on any operand count but the instruction's own;
    /// operand values are not looked at.
    pub fn from_hex(hex: u8, operands: &[u8]) -> (r: Result<Opcode, OpcodeError>)
        ensures
            r == decode(hex, operands@),
    {
        let expected: usize = match hex {
            0x06 | 0x0E => 1,
            0x01..=0x0B => 2,
            0x0C | 0x0D => 3,
            0x0F => 0,
            _ => {
                return Err(OpcodeError::InvalidOpcode(hex));
            },
        };
        if operands.len() != expected {
            return Err(OpcodeError::OperandLenghtMismatch(expected, operands.len()));
        }
        let op = match hex {
            0x01 => Opcode::ADD(operands[0], operands[1]),
            0x02 => Opcode::SUB(operands[0], operands[1]),
            0x03 => Opcode::MUL(operands[0], operands[1]),
            0x04 => Opcode::DIV(operands[0], operands[1]),
            0x05 => Opcode::MOD(operands[0], operands[1]),
            0x06 => Opcode::SQRT(operands[0]),
            0x07 => Opcode::EXP(operands[0], operands[1]),
            0x08 => Opcode::LOAD(operands[0], operands[1]),
            0x09 => Opcode::STORE(operands[0], operands[1]),
            0x0A => Opcode::SGET(operands[0], operands[1]),
            0x0B => Opcode::SSET(operands[0], operands[1]),
            0x0C => Opcode::SMGET(operands[0], operands[1], operands[2]),
            0x0D => Opcode::SMSET(operands[0], operands[1], operands[2]),
            0x0E => Opcode::CALL(operands[0]),
            _ => Opcode::RET,
        };
        Ok(op)
    }

    /// The operation byte of this instruction. The operands play no part.
    pub fn to_hex(&self) -> (r: u8)
        ensures
            r == self.code(),
            operand_count(r) == Some(self.operands().len()),
    {
        match self {
            Opcode::ADD(_, _) => 0x01,
            Opcode::SUB(_, _) => 0x02,
            Opcode::MUL(_, _) => 0x03,
            Opcode::DIV(_, _) => 0x04,
            Opcode::MOD(_, _) => 0x05,
            Opcode::SQRT(_) => 0x06,
            Opcode::EXP(_, _) => 0x07,
            Opcode::LOAD(_, _) => 0x08,
            Opcode::STORE(_, _) => 0x09,
            Opcode::SGET(_, _) => 0x0A,
            Opcode::SSET(_, _) => 0x0B,
            Opcode::SMGET(_, _, _) => 0x0C,
            Opcode::SMSET(_, _, _) => 0x0D,
            Opcode::CALL(_) => 0x0E,
            Opcode::RET => 0x0F,
        }
    }
}

/// Decoding an assigned code with as many operands as it takes succeeds, and
/// the instruction encodes back to that code and carries those operands.
pub proof fn lemma_decode_then_encode(code: u8, operands: Seq<u8>)
    requires
        operand_count(code) == Some(operands.len()),
    ensures
        decode(code, operands) is Ok,
        decode(code, operands)->Ok_0.code() == code,
        decode(code, operands)->Ok_0.operands() == operands,
{
    assert(decode(code, operands)->Ok_0.operands() =~= operands);
}

/// Every instruction is what its own code and operands decode to, so two
/// instructions with the same code and operands are one.
pub proof fn lemma_encode_then_decode(op: Opcode)
    ensures
        decode(op.code(), op.operands()) == Ok::<Opcode, OpcodeError>(op),
{
}

/// Decoding an assigned code with any other number of operands fails, and the
/// failure names the count the instruction takes and the count it was given.
pub proof fn lemma_wrong_operand_count(code: u8, operands: Seq<u8>)
    requires
        operand_count(code) is Some,
        operand_count(code) != Some(operands.len()),
    ensures
        decode(code, operands) == Err::<Opcode, OpcodeError>(
            OpcodeError::OperandLenghtMismatch(
                operand_count(code)->Some_0 as usize,
                operands.len() as usize,
            ),
        ),
{
}

/// The codes assigned are exactly 0x01 to 0x0F, and no code outside them decodes.
pub proof fn lemma_unassigned_code(code: u8, operands: Seq<u8>)
    ensures
        operand_count(code) is Some <==> 0x01 <= code <= 0x0F,
        operand_count(code) is None ==> decode(code, operands) == Err::<Opcode, OpcodeError>(
            OpcodeError::InvalidOpcode(code),
        ),
{
}

} // verus!
