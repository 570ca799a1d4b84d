use se_lang::codes::Opcode;
use se_lang::errors::OpcodeError;

fn arity(code: u8) -> usize {
    match code {
        0x06 | 0x0E => 1,
        0x0C | 0x0D => 3,
        0x0F => 0,
        _ => 2,
    }
}

#[test]
fn decode_unknown_opcode_fails() {
    assert_eq!(Opcode::from_hex(0xFF, &[]), Err(OpcodeError::InvalidOpcode(0xFF)));
    assert_eq!(Opcode::from_hex(0x00, &[]), Err(OpcodeError::InvalidOpcode(0x00)));
    assert_eq!(Opcode::from_hex(0x10, &[1, 2]), Err(OpcodeError::InvalidOpcode(0x10)));
}

#[test]
fn decode_each_instruction() {
    assert_eq!(Opcode::from_hex(0x01, &[3, 4]), Ok(Opcode::ADD(3, 4)));
    assert_eq!(Opcode::from_hex(0x02, &[3, 4]), Ok(Opcode::SUB(3, 4)));
    assert_eq!(Opcode::from_hex(0x03, &[3, 4]), Ok(Opcode::MUL(3, 4)));
    assert_eq!(Opcode::from_hex(0x04, &[3, 4]), Ok(Opcode::DIV(3, 4)));
    assert_eq!(Opcode::from_hex(0x05, &[3, 4]), Ok(Opcode::MOD(3, 4)));
    assert_eq!(Opcode::from_hex(0x06, &[9]), Ok(Opcode::SQRT(9)));
    assert_eq!(Opcode::from_hex(0x07, &[3, 4]), Ok(Opcode::EXP(3, 4)));
    assert_eq!(Opcode::from_hex(0x08, &[3, 4]), Ok(Opcode::LOAD(3, 4)));
    assert_eq!(Opcode::from_hex(0x09, &[3, 4]), Ok(Opcode::STORE(3, 4)));
    assert_eq!(Opcode::from_hex(0x0A, &[0, 9]), Ok(Opcode::SGET(0, 9)));
    assert_eq!(Opcode::from_hex(0x0B, &[9, 0]), Ok(Opcode::SSET(9, 0)));
    assert_eq!(Opcode::from_hex(0x0C, &[0, 1, 9]), Ok(Opcode::SMGET(0, 1, 9)));
    assert_eq!(Opcode::from_hex(0x0D, &[9, 0, 1]), Ok(Opcode::SMSET(9, 0, 1)));
    assert_eq!(Opcode::from_hex(0x0E, &[255]), Ok(Opcode::CALL(255)));
    assert_eq!(Opcode::from_hex(0x0F, &[]), Ok(Opcode::RET));
}

#[test]
fn decode_then_encode_gives_the_code_back() {
    let operands = [7u8, 8, 9];
    for code in 0x01..=0x0Fu8 {
        let op = Opcode::from_hex(code, &operands[..arity(code)]).unwrap();
        assert_eq!(op.to_hex(), code);
    }
}

#[test]
fn decode_with_wrong_operand_count_names_both_counts() {
    let operands = [7u8, 8, 9, 10];
    for code in 0x01..=0x0Fu8 {
        for given in 0..=4usize {
            let result = Opcode::from_hex(code, &operands[..given]);
            if given == arity(code) {
                assert!(result.is_ok());
            } else {
                assert_eq!(
                    result,
                    Err(OpcodeError::OperandLenghtMismatch(arity(code), given))
                );
            }
        }
    }
}

#[test]
fn encode_ignores_operands() {
    assert_eq!(Opcode::ADD(0, 0).to_hex(), Opcode::ADD(255, 1).to_hex());
    assert_eq!(Opcode::RET.to_hex(), 0x0F);
    assert_eq!(Opcode::SMSET(1, 2, 3).to_hex(), 0x0D);
}

#[test]
fn opcode_error_messages() {
    assert_eq!(OpcodeError::InvalidOpcode(255).message(), "Invalid opcode: 255");
    assert_eq!(OpcodeError::InvalidOperand(0).message(), "Invalid operand: 0");
    assert_eq!(
        OpcodeError::OperandLenghtMismatch(2, 10).message(),
        "Operand length mismatch: expected 2, got 10"
    );
}
