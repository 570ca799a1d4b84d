//! Recoverable conditions of the instruction codec and of the execution context.

use vstd::prelude::*;
use vstd::string::StringExecFns;
use crate::decimal::{decimal_text, u128_to_string};

verus! {

/// Why a byte sequence is not an instruction.
#[derive(Debug, Clone, Copy, PartialEq, Eq)]
pub enum OpcodeError {
    /// The operation byte is not assigned to any instruction.
    InvalidOpcode(u8),
    /// An operand byte is not acceptable.
    InvalidOperand(u8),
    /// The instruction takes the first number of operand bytes, and was given the second.
    OperandLenghtMismatch(usize, usize),
}

/// Why an operation on the execution context was refused.
#[derive(Debug, Clone, PartialEq, Eq)]
pub enum RegistryError {
    /// No state value is stored under this name.
    InvalidStateRegister(String),
    /// No register goes by this name.
    InvalidLocalRegister(String),
    /// The register named first holds a value of the third type where the second was expected.
    TypeMismatch(String, String, String),
    /// The first number was used as an index into a register file of the second number of entries.
    OutOfBounds(usize, usize),
}

impl OpcodeError {
    /// The text that describes this condition; numbers are written in decimal.
    pub open spec fn message_text(self) -> Seq<char> {
        match self {
            OpcodeError::InvalidOpcode(opcode) => "Invalid opcode: "@ + decimal_text(opcode as nat),
            OpcodeError::InvalidOperand(operand) => "Invalid operand: "@ + decimal_text(
                operand as nat,
            ),
            OpcodeError::OperandLenghtMismatch(expected, actual) =>
                "Operand length mismatch: expected "@ + decimal_text(expected as nat) + ", got "@
                    + decimal_text(actual as nat),
        }
    }

    /// Describes this condition in words.
    pub fn message(&self) -> (r: String)
        ensures
            r@ == self.message_text(),
    {
        match self {
            OpcodeError::InvalidOpcode(opcode) => {
                let mut out = "Invalid opcode: ".to_owned();
                out.append(u128_to_string(*opcode as u128).as_str());
                out
            },
            OpcodeError::InvalidOperand(operand) => {
                let mut out = "Invalid operand: ".to_owned();
                out.append(u128_to_string(*operand as u128).as_str());
                out
            },
            OpcodeError::OperandLenghtMismatch(expected, actual) => {
                let mut out = "Operand length mismatch: expected ".to_owned();
                out.append(u128_to_string(*expected as u128).as_str());
                out.append(", got ");
                out.append(u128_to_string(*actual as u128).as_str());
                out
            },
        }
    }
}

impl RegistryError {
    /// The text that describes this condition; numbers are written in decimal.
    pub open spec fn message_text(self) -> Seq<char> {
        match self {
            RegistryError::InvalidStateRegister(register) => "Invalid state register: "@
                + register@,
            RegistryError::InvalidLocalRegister(register) => "Invalid local register: "@
                + register@,
            RegistryError::TypeMismatch(register, expected, actual) =>
                "Type mismatch in register "@ + register@ + ": expected "@ + expected@ + ", got "@
                    + actual@,
            RegistryError::OutOfBounds(index, size) => "Index out of bounds: "@ + decimal_text(
                index as nat,
            ) + " (size: "@ + decimal_text(size as nat) + ")"@,
        }
    }

    /// Describes this condition in words.
    pub fn message(&self) -> (r: String)
        ensures
            r@ == self.message_text(),
    {
        match self {
            RegistryError::InvalidStateRegister(register) => {
                let mut out = "Invalid state register: ".to_owned();
                out.append(register.as_str());
                out
            },
            RegistryError::InvalidLocalRegister(register) => {
                let mut out = "Invalid local register: ".to_owned();
                out.append(register.as_str());
                out
            },
            RegistryError::TypeMismatch(register, expected, actual) => {
                let mut out = "Type mismatch in register ".to_owned();
                out.append(register.as_str());
                out.append(": expected ");
                out.append(expected.as_str());
                out.append(", got ");
                out.append(actual.as_str());
                out
            },
            RegistryError::OutOfBounds(index, size) => {
                let mut out = "Index out of bounds: ".to_owned();
                out.append(u128_to_string(*index as u128).as_str());
                out.append(" (size: ");
                out.append(u128_to_string(*size as u128).as_str());
                out.append(")");
                out
            },
        }
    }
}

} // verus!
