use ekvm::assembler::{assemble, SyntaxError};
use ekvm::codec::encode;
use ekvm::instruction::Instruction;
use ekvm::vm::VM;

#[test]
fn every_mnemonic() {
    let source = "push 1\nadd\nsub\nmul\ndiv\ndup 2\ndump\nprint\njmp 3\neq\njnz 4\nhalt\nblind\nneq";
    let expected = vec![
        Instruction::PUSH(1),
        Instruction::ADD,
        Instruction::SUB,
        Instruction::MUL,
        Instruction::DIV,
        Instruction::DUP(2),
        Instruction::DUMP,
        Instruction::PRINT,
        Instruction::JMP(3),
        Instruction::EQ,
        Instruction::JNZ(4),
        Instruction::HALT,
        Instruction::BLIND,
        Instruction::NEQ,
    ];
    assert_eq!(assemble(source), Ok(expected));
}

#[test]
fn blank_lines_and_spacing() {
    let source = "\n  push   7 \r\n\n\tdump\n\n";
    assert_eq!(assemble(source), Ok(vec![Instruction::PUSH(7), Instruction::DUMP]));
    assert_eq!(assemble(""), Ok(vec![]));
}

#[test]
fn extra_tokens_are_ignored() {
    assert_eq!(assemble("add 5 6"), Ok(vec![Instruction::ADD]));
    assert_eq!(assemble("push 5 6"), Ok(vec![Instruction::PUSH(5)]));
}

#[test]
fn plus_sign_and_largest_operand() {
    assert_eq!(assemble("push +12"), Ok(vec![Instruction::PUSH(12)]));
    assert_eq!(
        assemble("push 18446744073709551615"),
        Ok(vec![Instruction::PUSH(u64::MAX)])
    );
}

#[test]
fn unknown_mnemonic_reports_line() {
    assert_eq!(assemble("push 1\n\nPUSH 2"), Err(SyntaxError { line: 2 }));
    assert_eq!(assemble("pop"), Err(SyntaxError { line: 0 }));
}

#[test]
fn missing_or_bad_operand() {
    assert_eq!(assemble("push"), Err(SyntaxError { line: 0 }));
    assert_eq!(assemble("add\ndup x"), Err(SyntaxError { line: 1 }));
    assert_eq!(assemble("jmp -1"), Err(SyntaxError { line: 0 }));
    assert_eq!(assemble("jnz +"), Err(SyntaxError { line: 0 }));
    assert_eq!(assemble("push 18446744073709551616"), Err(SyntaxError { line: 0 }));
    assert_eq!(assemble("push 12a"), Err(SyntaxError { line: 0 }));
}

#[test]
fn compile_is_assemble_then_encode() {
    let source = "push 3\nprint";
    let text = VM::compile(source).unwrap();
    assert_eq!(text, encode(&assemble(source).unwrap()));
    assert_eq!(VM::compile("bogus"), Err(SyntaxError { line: 0 }));
}
