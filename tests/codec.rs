use ekvm::codec::{decode, encode, inst_to_string, DecodeError};
use ekvm::instruction::{make_inst, Instruction};
use ekvm::vm::VM;

fn all_kinds(n: u64) -> Vec<Instruction> {
    vec![
        Instruction::PUSH(n),
        Instruction::ADD,
        Instruction::SUB,
        Instruction::MUL,
        Instruction::DIV,
        Instruction::DUP(n),
        Instruction::DUMP,
        Instruction::PRINT,
        Instruction::JMP(n),
        Instruction::EQ,
        Instruction::NEQ,
        Instruction::JNZ(n),
        Instruction::HALT,
        Instruction::BLIND,
    ]
}

#[test]
fn push_record_is_exact() {
    let r = inst_to_string(Instruction::PUSH(5));
    let expected = format!("{}{}{}", "00000000", "0".repeat(61), "101");
    assert_eq!(r, expected);
    assert_eq!(r.len(), 72);
}

#[test]
fn neq_record_is_exact() {
    let r = inst_to_string(Instruction::NEQ);
    assert_eq!(r, format!("00001101{}", "0".repeat(64)));
}

#[test]
fn largest_operand_is_all_ones() {
    let r = inst_to_string(Instruction::JNZ(u64::MAX));
    assert_eq!(r, format!("00001010{}", "1".repeat(64)));
}

#[test]
fn round_trip_all_kinds() {
    for n in [0u64, 1, 2, 255, 256, 1 << 40, u64::MAX] {
        let program = all_kinds(n);
        let text = encode(&program);
        assert_eq!(text.len(), 72 * program.len());
        assert_eq!(decode(&text), Ok(program));
    }
}

#[test]
fn round_trip_through_vm() {
    let mut vm = VM::init();
    vm.load_program(all_kinds(12345));
    let text = vm.get_byte_code();
    let mut other = VM::init();
    assert_eq!(other.load_text(&text), Ok(()));
    assert_eq!(other.program(), &all_kinds(12345));
}

#[test]
fn empty_text_is_empty_program() {
    assert_eq!(decode(""), Ok(vec![]));
    assert_eq!(encode(&[]), "");
}

#[test]
fn truncated_record_is_rejected() {
    let text = inst_to_string(Instruction::ADD);
    assert_eq!(decode(&text[..71]), Err(DecodeError::Truncated));
    let longer = format!("{}0", text);
    assert_eq!(decode(&longer), Err(DecodeError::Truncated));
}

#[test]
fn non_binary_is_rejected() {
    let text = inst_to_string(Instruction::ADD).replace("00000001", "00000002");
    assert_eq!(decode(&text), Err(DecodeError::NotBinary));
    let text = format!("{}\n", inst_to_string(Instruction::ADD));
    assert_eq!(decode(&text), Err(DecodeError::NotBinary));
    assert_eq!(decode("é"), Err(DecodeError::NotBinary));
}

#[test]
fn unknown_opcode_is_rejected() {
    let text = format!("{}{}", inst_to_string(Instruction::ADD), format!("00001110{}", "0".repeat(64)));
    assert_eq!(decode(&text), Err(DecodeError::UnknownOpcode(14)));
    let mut vm = VM::init();
    assert_eq!(vm.load_text(&text), Err(DecodeError::UnknownOpcode(14)));
    assert_eq!(vm.program().len(), 0);
}

#[test]
fn operand_of_plain_instruction_is_ignored() {
    let text = format!("00000001{}1", "0".repeat(63));
    assert_eq!(decode(&text), Ok(vec![Instruction::ADD]));
}

#[test]
fn make_inst_maps_codes() {
    assert_eq!(make_inst(0, 9), Some(Instruction::PUSH(9)));
    assert_eq!(make_inst(10, 3), Some(Instruction::JNZ(3)));
    assert_eq!(make_inst(13, 3), Some(Instruction::NEQ));
    assert_eq!(make_inst(14, 0), None);
    for (k, i) in all_kinds(4).iter().enumerate() {
        assert_eq!(make_inst(i.opcode(), i.operand()), Some(*i), "kind {}", k);
    }
}
