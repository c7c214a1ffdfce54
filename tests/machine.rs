use ekvm::assembler::assemble;
use ekvm::instruction::Instruction;
use ekvm::vm::{InstError, InstSuccess, RunOutcome, VM};

fn run_source(source: &str) -> (VM, RunOutcome) {
    let program = assemble(source).unwrap();
    let mut vm = VM::init();
    vm.load_program(program);
    let outcome = vm.run(10_000);
    (vm, outcome)
}

#[test]
fn add_then_dump() {
    let (vm, outcome) = run_source("push 1\npush 2\nadd\ndump\n");
    assert_eq!(outcome, RunOutcome::Finished);
    assert_eq!(vm.stack(), vec![3]);
}

#[test]
fn dump_step_reports_dump() {
    let mut vm = VM::init();
    vm.load_program(assemble("push 1\npush 2\nadd\ndump").unwrap());
    assert_eq!(vm.step(), Some(Ok(InstSuccess::OK)));
    assert_eq!(vm.step(), Some(Ok(InstSuccess::OK)));
    assert_eq!(vm.step(), Some(Ok(InstSuccess::OK)));
    assert_eq!(vm.step(), Some(Ok(InstSuccess::Dump)));
    assert_eq!(vm.step(), None);
    assert_eq!(vm.stack(), vec![3]);
}

#[test]
fn divide_by_zero_exits_with_runtime_status() {
    let (_, outcome) = run_source("push 5\npush 0\ndiv");
    assert_eq!(outcome, RunOutcome::Failed(InstError::DivByZero));
    assert_eq!(outcome.exit_code(), Some(202));
}

#[test]
fn zero_dividend_is_divide_by_zero() {
    let (_, outcome) = run_source("push 0\npush 5\ndiv");
    assert_eq!(outcome, RunOutcome::Failed(InstError::DivByZero));
}

#[test]
fn dup_below_bottom_underflows() {
    let (vm, outcome) = run_source("push 1\ndup 5");
    assert_eq!(outcome, RunOutcome::Failed(InstError::StackUnderflow));
    assert_eq!(vm.stack(), vec![1]);
}

#[test]
fn jump_past_program_is_illegal() {
    let (_, outcome) = run_source("jmp 99\npush 1\npush 2");
    assert_eq!(outcome, RunOutcome::Failed(InstError::IllegalMemAccess(99)));
}

#[test]
fn equal_words_compare_to_one() {
    let (vm, outcome) = run_source("push 4\npush 4\neq\ndump");
    assert_eq!(outcome, RunOutcome::Finished);
    assert_eq!(vm.stack(), vec![1]);
}

#[test]
fn halt_exits_with_popped_word() {
    let (vm, outcome) = run_source("push 7\nhalt");
    assert_eq!(outcome, RunOutcome::Halted(7));
    assert_eq!(outcome.exit_code(), Some(7));
    assert_eq!(vm.stack_size(), 0);
}

#[test]
fn halt_status_keeps_low_bits() {
    assert_eq!(RunOutcome::Halted((1u64 << 32) + 7).exit_code(), Some(7));
    assert_eq!(RunOutcome::Halted(0xFFFF_FFFF).exit_code(), Some(-1));
    assert_eq!(RunOutcome::Finished.exit_code(), Some(0));
    assert_eq!(RunOutcome::OutOfFuel.exit_code(), None);
}

#[test]
fn same_program_runs_the_same_way() {
    let source = "push 3\npush 1\nsub\ndup 0\npush 1\nneq\njnz 1\nprint\nblind";
    let mut a = VM::init();
    let mut b = VM::init();
    a.load_program(assemble(source).unwrap());
    b.load_program(assemble(source).unwrap());
    loop {
        let ra = a.step();
        let rb = b.step();
        assert_eq!(ra, rb);
        assert_eq!(a.stack(), b.stack());
        assert_eq!(a.ptr(), b.ptr());
        if ra.is_none() {
            break;
        }
    }
    let (_, o1) = run_source(source);
    let (_, o2) = run_source(source);
    assert_eq!(o1, o2);
}

#[test]
fn stack_holds_exactly_its_capacity() {
    let mut vm = VM::init();
    let mut program = Vec::new();
    for k in 0..2048u64 {
        program.push(Instruction::PUSH(k));
    }
    program.push(Instruction::PUSH(1));
    vm.load_program(program);
    let outcome = vm.run(10_000);
    assert_eq!(outcome, RunOutcome::Failed(InstError::StackOverflow));
    assert_eq!(vm.stack_size(), 2048);
    assert_eq!(vm.ptr(), 2048);
}

#[test]
fn dup_onto_full_stack_overflows() {
    let mut vm = VM::init();
    let mut program = vec![Instruction::PUSH(9); 2048];
    program.push(Instruction::DUP(0));
    vm.load_program(program);
    assert_eq!(vm.run(10_000), RunOutcome::Failed(InstError::StackOverflow));
    assert_eq!(vm.stack_size(), 2048);
}

#[test]
fn binary_ops_need_two_words() {
    for op in ["add", "sub", "mul", "div", "eq", "neq"] {
        let source = format!("push 1\n{}", op);
        let (vm, outcome) = run_source(&source);
        assert_eq!(outcome, RunOutcome::Failed(InstError::StackUnderflow));
        assert_eq!(vm.stack(), vec![1]);
    }
}

#[test]
fn print_and_halt_need_a_word() {
    assert_eq!(run_source("print").1, RunOutcome::Failed(InstError::StackUnderflow));
    assert_eq!(run_source("halt").1, RunOutcome::Failed(InstError::StackUnderflow));
    assert_eq!(run_source("jnz 0").1, RunOutcome::Failed(InstError::StackUnderflow));
}

#[test]
fn jnz_past_program_is_illegal_before_reading_stack() {
    let (_, outcome) = run_source("jnz 5");
    assert_eq!(outcome, RunOutcome::Failed(InstError::IllegalMemAccess(5)));
}

#[test]
fn jnz_jumps_only_on_one() {
    let mut vm = VM::init();
    vm.load_program(assemble("push 2\njnz 0\nblind").unwrap());
    assert_eq!(vm.step(), Some(Ok(InstSuccess::OK)));
    assert_eq!(vm.step(), Some(Ok(InstSuccess::OK)));
    assert_eq!(vm.ptr(), 2);
    assert_eq!(vm.stack(), vec![2]);

    let mut vm = VM::init();
    vm.load_program(assemble("push 1\njnz 3\nblind\nblind").unwrap());
    vm.step();
    assert_eq!(vm.step(), Some(Ok(InstSuccess::OK)));
    assert_eq!(vm.ptr(), 3);
    assert_eq!(vm.stack_size(), 0);
}

#[test]
fn arithmetic_results() {
    assert_eq!(run_source("push 7\npush 3\nsub").0.stack(), vec![4]);
    assert_eq!(run_source("push 7\npush 3\nmul").0.stack(), vec![21]);
    assert_eq!(run_source("push 7\npush 3\ndiv").0.stack(), vec![2]);
    assert_eq!(run_source("push 7\npush 3\nneq").0.stack(), vec![1]);
    assert_eq!(run_source("push 7\npush 3\neq").0.stack(), vec![0]);
    assert_eq!(run_source("push 1\npush 2\ndup 1").0.stack(), vec![1, 2, 1]);
}

#[test]
fn arithmetic_wraps() {
    assert_eq!(run_source("push 0\npush 1\nsub").0.stack(), vec![u64::MAX]);
    assert_eq!(run_source("push 18446744073709551615\npush 2\nadd").0.stack(), vec![1]);
}

#[test]
fn print_reports_top() {
    let mut vm = VM::init();
    vm.load_program(assemble("push 4\npush 9\nprint").unwrap());
    vm.step();
    vm.step();
    assert_eq!(vm.step(), Some(Ok(InstSuccess::Print(9))));
    assert_eq!(vm.stack(), vec![4, 9]);
}

#[test]
fn endless_loop_runs_out_of_fuel() {
    let (vm, outcome) = run_source("blind\njmp 0");
    assert_eq!(outcome, RunOutcome::OutOfFuel);
    assert_eq!(outcome.exit_code(), None);
    assert!(vm.ptr() < 2);
}

#[test]
fn empty_program_finishes() {
    let mut vm = VM::init();
    assert_eq!(vm.run(5), RunOutcome::Finished);
    assert_eq!(vm.step(), None);
}

#[test]
fn execute_instruction_directly() {
    let mut vm = VM::init();
    vm.load_program(vec![Instruction::BLIND, Instruction::BLIND]);
    assert_eq!(vm.execute_instruction(Instruction::PUSH(6)), Ok(InstSuccess::OK));
    assert_eq!(vm.execute_instruction(Instruction::JMP(0)), Ok(InstSuccess::OK));
    assert_eq!(vm.ptr(), 0);
    assert_eq!(vm.stack(), vec![6]);
}
