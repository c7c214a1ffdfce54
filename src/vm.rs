//! The interpreter: a bounded operand stack, a program and a program counter.
//!
//! Each instruction either succeeds, changing the machine as `step` says, or
//! fails with one error kind and leaves the machine as it was.
use vstd::prelude::*;
use vstd::string::StringSliceAdditionalSpecFns;
use crate::instruction::{Instruction, Word};
use crate::assembler::{SyntaxError, assemble, assemble_bytes};
use crate::codec::{DecodeError, decode, decode_text, encode, encode_program};

verus! {

/// Capacity of the operand stack, in words.
pub const STACK_CAP: usize = 2048;

/// Exit status of a process whose program could not be assembled or loaded.
pub const LOAD_FAILURE_EXIT: i32 = 101;

/// Exit status of a process whose program failed while running.
pub const RUNTIME_FAILURE_EXIT: i32 = 202;

/// What a successful instruction asks its runner to do.
#[derive(Debug, Clone, Copy, PartialEq, Eq, Structural)]
pub enum InstSuccess {
    /// Nothing beyond the change of state.
    OK,
    /// Show this word (the top of the stack).
    Print(Word),
    /// Show the whole stack.
    Dump,
    /// Stop the program with this word as its status.
    Halt(Word),
}

/// Why an instruction failed.
#[derive(Debug, Clone, Copy, PartialEq, Eq, Structural)]
pub enum InstError {
    /// A push onto a full stack.
    StackOverflow,
    /// Fewer words on the stack than the instruction reads.
    StackUnderflow,
    /// A division where the divisor or the dividend is zero.
    DivByZero,
    /// A jump to this index, which is not an instruction of the program.
    IllegalMemAccess(Word),
}

/// How a run ended.
#[derive(Debug, Clone, Copy, PartialEq, Eq, Structural)]
pub enum RunOutcome {
    /// The program counter reached the end of the program.
    Finished,
    /// A `HALT` stopped the program with this word as its status.
    Halted(Word),
    /// An instruction failed.
    Failed(InstError),
    /// The step budget ran out first.
    OutOfFuel,
}

/// The abstract state of a machine.
pub struct VmState {
    pub stack: Seq<Word>,
    pub program: Seq<Instruction>,
    pub ptr: nat,
}

/// A machine.
#[derive(Debug)]
pub struct VM {
    stack: Vec<Word>,
    program: Vec<Instruction>,
    ptr: usize,
}

impl View for VM {
    type V = VmState;

    closed spec fn view(&self) -> VmState {
        VmState { stack: self.stack@, program: self.program@, ptr: self.ptr as nat }
    }
}

/// The bounds every reachable state keeps: the stack within capacity and the
/// program counter within the program (or just past its end).
pub open spec fn state_wf(s: VmState) -> bool {
    s.stack.len() <= STACK_CAP && s.ptr <= s.program.len()
}

/// The state with the stack replaced and the program counter advanced.
pub open spec fn advance(s: VmState, stack: Seq<Word>) -> VmState {
    VmState { stack, program: s.program, ptr: s.ptr + 1 }
}

/// The stack with its two top words replaced by `v`.
pub open spec fn replace_top_two(st: Seq<Word>, v: Word) -> Seq<Word> {
    st.drop_last().update(st.len() - 2, v)
}

/// Failure without a change of state.
pub open spec fn fail(s: VmState, e: InstError) -> (VmState, Result<InstSuccess, InstError>) {
    (s, Err(e))
}

/// Executing instruction `i` in state `s`: the next state and the result.
pub open spec fn transition(s: VmState, i: Instruction) -> (VmState, Result<InstSuccess, InstError>) {
    let st = s.stack;
    let n = st.len();
    match i {
        Instruction::PUSH(v) => if n >= STACK_CAP {
            fail(s, InstError::StackOverflow)
        } else {
            (advance(s, st.push(v)), Ok(InstSuccess::OK))
        },
        Instruction::ADD => if n < 2 {
            fail(s, InstError::StackUnderflow)
        } else {
            (advance(s, replace_top_two(st, st[n - 2].wrapping_add(st[n - 1]))), Ok(InstSuccess::OK))
        },
        Instruction::SUB => if n < 2 {
            fail(s, InstError::StackUnderflow)
        } else {
            (advance(s, replace_top_two(st, st[n - 2].wrapping_sub(st[n - 1]))), Ok(InstSuccess::OK))
        },
        Instruction::MUL => if n < 2 {
            fail(s, InstError::StackUnderflow)
        } else {
            (advance(s, replace_top_two(st, st[n - 2].wrapping_mul(st[n - 1]))), Ok(InstSuccess::OK))
        },
        Instruction::DIV => if n < 2 {
            fail(s, InstError::StackUnderflow)
        } else if st[n - 2] == 0 || st[n - 1] == 0 {
            fail(s, InstError::DivByZero)
        } else {
            (advance(s, replace_top_two(st, (st[n - 2] / st[n - 1]) as Word)), Ok(InstSuccess::OK))
        },
        Instruction::DUP(k) => if k >= n {
            fail(s, InstError::StackUnderflow)
        } else if n >= STACK_CAP {
            fail(s, InstError::StackOverflow)
        } else {
            (advance(s, st.push(st[n - 1 - k])), Ok(InstSuccess::OK))
        },
        Instruction::DUMP => (advance(s, st), Ok(InstSuccess::Dump)),
        Instruction::PRINT => if n == 0 {
            fail(s, InstError::StackUnderflow)
        } else {
            (advance(s, st), Ok(InstSuccess::Print(st[n - 1])))
        },
        Instruction::JMP(t) => if t >= s.program.len() {
            fail(s, InstError::IllegalMemAccess(t))
        } else {
            (VmState { ptr: t as nat, ..s }, Ok(InstSuccess::OK))
        },
        Instruction::EQ => if n < 2 {
            fail(s, InstError::StackUnderflow)
        } else {
            (advance(s, replace_top_two(st, if st[n - 2] == st[n - 1] { 1 } else { 0 })), Ok(InstSuccess::OK))
        },
        Instruction::NEQ => if n < 2 {
            fail(s, InstError::StackUnderflow)
        } else {
            (advance(s, replace_top_two(st, if st[n - 2] != st[n - 1] { 1 } else { 0 })), Ok(InstSuccess::OK))
        },
        Instruction::JNZ(t) => if t >= s.program.len() {
            fail(s, InstError::IllegalMemAccess(t))
        } else if n == 0 {
            fail(s, InstError::StackUnderflow)
        } else if st[n - 1] == 1 {
            (VmState { stack: st.drop_last(), ptr: t as nat, ..s }, Ok(InstSuccess::OK))
        } else {
            (advance(s, st), Ok(InstSuccess::OK))
        },
        Instruction::HALT => if n == 0 {
            fail(s, InstError::StackUnderflow)
        } else {
            (VmState { stack: st.drop_last(), ..s }, Ok(InstSuccess::Halt(st[n - 1])))
        },
        Instruction::BLIND => (advance(s, st), Ok(InstSuccess::OK)),
    }
}

/// Running from state `s` for at most `fuel` instructions: the final state
/// and how the run ended. `PRINT` and `DUMP` change nothing here.
pub open spec fn run_spec(s: VmState, fuel: nat) -> (VmState, RunOutcome)
    decreases fuel,
{
    if s.ptr >= s.program.len() {
        (s, RunOutcome::Finished)
    } else if fuel == 0 {
        (s, RunOutcome::OutOfFuel)
    } else {
        let (t, r) = transition(s, s.program[s.ptr as int]);
        match r {
            Err(e) => (t, RunOutcome::Failed(e)),
            Ok(InstSuccess::Halt(c)) => (t, RunOutcome::Halted(c)),
            Ok(_) => run_spec(t, (fuel - 1) as nat),
        }
    }
}

/// The state of a fresh machine loaded with `p`.
pub open spec fn initial(p: Seq<Instruction>) -> VmState {
    VmState { stack: Seq::empty(), program: p, ptr: 0 }
}

/// The process status for a `HALT` word: its low 32 bits, as a signed number.
pub open spec fn halt_status(c: Word) -> i32 {
    let low = c as int % 0x1_0000_0000;
    if low < 0x8000_0000 {
        low as i32
    } else {
        (low - 0x1_0000_0000) as i32
    }
}

/// The process status for a run's outcome; none when the run did not end.
pub open spec fn outcome_status(o: RunOutcome) -> Option<i32> {
    match o {
        RunOutcome::Finished => Some(0),
        RunOutcome::Halted(c) => Some(halt_status(c)),
        RunOutcome::Failed(_) => Some(RUNTIME_FAILURE_EXIT),
        RunOutcome::OutOfFuel => None,
    }
}

/// Every instruction keeps the stack within `0..=STACK_CAP` and the counter
/// within the program; an instruction that would push onto a full stack fails
/// with `StackOverflow`, and one that would read below the bottom of the stack
/// fails with `StackUnderflow`, in both cases leaving the state as it was.
pub proof fn lemma_stack_bounds(s: VmState, i: Instruction)
    requires
        state_wf(s),
        s.ptr < s.program.len(),
    ensures
        state_wf(transition(s, i).0),
        (i matches Instruction::PUSH(_) && s.stack.len() == STACK_CAP) ==> transition(s, i) == fail(
            s,
            InstError::StackOverflow,
        ),
        (forall|k: Word| i == Instruction::DUP(k) && k < s.stack.len() == STACK_CAP ==> transition(s, i)
            == fail(s, InstError::StackOverflow)),
        (forall|k: Word| i == Instruction::DUP(k) && k >= s.stack.len() ==> transition(s, i) == fail(
            s,
            InstError::StackUnderflow,
        )),
        ((i is ADD || i is SUB || i is MUL || i is DIV || i is EQ || i is NEQ) && s.stack.len() < 2)
            ==> transition(s, i) == fail(s, InstError::StackUnderflow),
        ((i is PRINT || i is HALT) && s.stack.len() == 0) ==> transition(s, i) == fail(
            s,
            InstError::StackUnderflow,
        ),
{
}

/// A whole run keeps the same bounds at every step, so also at its end.
pub proof fn lemma_run_keeps_bounds(s: VmState, fuel: nat)
    requires
        state_wf(s),
    ensures
        state_wf(run_spec(s, fuel).0),
    decreases fuel,
{
    if s.ptr < s.program.len() && fuel > 0 {
        lemma_stack_bounds(s, s.program[s.ptr as int]);
        let t = transition(s, s.program[s.ptr as int]).0;
        lemma_run_keeps_bounds(t, (fuel - 1) as nat);
    }
}

/// A jump to an index at or past the end of the program fails with
/// `IllegalMemAccess` and changes nothing.
pub proof fn lemma_jump_out_of_range(s: VmState, t: Word)
    requires
        t >= s.program.len(),
    ensures
        transition(s, Instruction::JMP(t)) == fail(s, InstError::IllegalMemAccess(t)),
        transition(s, Instruction::JNZ(t)) == fail(s, InstError::IllegalMemAccess(t)),
{
}

/// Two runs of one program from fresh machines go through the same states
/// and end the same way.
pub proof fn lemma_run_deterministic(p: Seq<Instruction>, fuel: nat, s1: VmState, s2: VmState)
    requires
        s1 == initial(p),
        s2 == initial(p),
    ensures
        run_spec(s1, fuel) == run_spec(s2, fuel),
        forall|k: nat| k <= fuel ==> run_spec(s1, k) == run_spec(s2, k),
{
}

/// Once a run has ended within some budget, a larger budget ends it the same
/// way in the same state.
pub proof fn lemma_run_fuel(s: VmState, fuel: nat, more: nat)
    requires
        run_spec(s, fuel).1 != RunOutcome::OutOfFuel,
        fuel <= more,
    ensures
        run_spec(s, more) == run_spec(s, fuel),
    decreases fuel,
{
    if s.ptr < s.program.len() && fuel > 0 {
        let t = transition(s, s.program[s.ptr as int]);
        if t.1 is Ok && !(t.1->Ok_0 is Halt) {
            lemma_run_fuel(t.0, (fuel - 1) as nat, (more - 1) as nat);
        }
    }
}

impl RunOutcome {
    /// The status the process exits with after this outcome.
    pub fn exit_code(&self) -> (r: Option<i32>)
        ensures
            r == outcome_status(*self),
    {
        match self {
            RunOutcome::Finished => Some(0),
            RunOutcome::Halted(c) => {
                let low: u64 = *c % 0x1_0000_0000;
                if low < 0x8000_0000 {
                    Some(low as i32)
                } else {
                    Some((low as i64 - 0x1_0000_0000) as i32)
                }
            },
            RunOutcome::Failed(_) => Some(RUNTIME_FAILURE_EXIT),
            RunOutcome::OutOfFuel => None,
        }
    }
}

impl VM {
    pub open spec fn wf(&self) -> bool {
        state_wf(self@)
    }

    /// A fresh machine: empty stack, empty program, counter at zero.
    pub fn init() -> (r: VM)
        ensures
            r.wf(),
            r@ == initial(Seq::empty()),
    {
        VM { stack: Vec::new(), program: Vec::new(), ptr: 0 }
    }

    /// Appends instructions to the program.
    pub fn load_program(&mut self, program: Vec<Instruction>)
        requires
            old(self).wf(),
        ensures
            final(self).wf(),
            final(self)@.program == old(self)@.program + program@,
            final(self)@.stack == old(self)@.stack,
            final(self)@.ptr == old(self)@.ptr,
    {
        let mut i: usize = 0;
        while i < program.len()
            invariant
                i <= program@.len(),
                self.wf(),
                self@.program == old(self)@.program + program@.take(i as int),
                self@.stack == old(self)@.stack,
                self@.ptr == old(self)@.ptr,
            decreases program@.len() - i,
        {
            self.program.push(program[i]);
            proof {
                assert(program@.take(i + 1) == program@.take(i as int).push(program@[i as int]));
            }
            i += 1;
        }
        assert(program@.take(program@.len() as int) == program@);
    }

    /// The words on the stack, bottom first.
    pub fn stack(&self) -> (r: Vec<Word>)
        ensures
            r@ == self@.stack,
    {
        self.stack.clone()
    }

    /// The number of words on the stack.
    pub fn stack_size(&self) -> (r: usize)
        ensures
            r == self@.stack.len(),
    {
        self.stack.len()
    }

    /// The program counter.
    pub fn ptr(&self) -> (r: usize)
        ensures
            r == self@.ptr,
    {
        self.ptr
    }

    /// The loaded program.
    pub fn program(&self) -> (r: &Vec<Instruction>)
        ensures
            r@ == self@.program,
    {
        &self.program
    }

    /// Executes `i` as the instruction at the program counter.
    pub fn execute_instruction(&mut self, i: Instruction) -> (r: Result<InstSuccess, InstError>)
        requires
            old(self).wf(),
            old(self)@.ptr < old(self)@.program.len(),
        ensures
            final(self).wf(),
            (final(self)@, r) == transition(old(self)@, i),
    {
        let n = self.stack.len();
        let plen = self.program.len();
        assert(self.ptr < plen);
        match i {
            Instruction::PUSH(v) => {
                let r = self.push(v);
                if r.is_ok() {
                    self.ptr += 1;
                }
                r
            },
            Instruction::ADD => {
                if n < 2 {
                    return Err(InstError::StackUnderflow);
                }
                let v = self.stack[n - 2].wrapping_add(self.stack[n - 1]);
                self.replace_top_two(v);
                Ok(InstSuccess::OK)
            },
            Instruction::SUB => {
                if n < 2 {
                    return Err(InstError::StackUnderflow);
                }
                let v = self.stack[n - 2].wrapping_sub(self.stack[n - 1]);
                self.replace_top_two(v);
                Ok(InstSuccess::OK)
            },
            Instruction::MUL => {
                if n < 2 {
                    return Err(InstError::StackUnderflow);
                }
                let v = self.stack[n - 2].wrapping_mul(self.stack[n - 1]);
                self.replace_top_two(v);
                Ok(InstSuccess::OK)
            },
            Instruction::DIV => {
                if n < 2 {
                    return Err(InstError::StackUnderflow);
                }
                let a = self.stack[n - 2];
                let b = self.stack[n - 1];
                if a == 0 || b == 0 {
                    return Err(InstError::DivByZero);
                }
                self.replace_top_two(a / b);
                Ok(InstSuccess::OK)
            },
            Instruction::DUP(k) => {
                if k >= n as u64 {
                    return Err(InstError::StackUnderflow);
                }
                let v = self.stack[n - 1 - k as usize];
                let r = self.push(v);
                if r.is_ok() {
                    self.ptr += 1;
                }
                r
            },
            Instruction::DUMP => {
                self.ptr += 1;
                Ok(InstSuccess::Dump)
            },
            Instruction::PRINT => {
                match self.last() {
                    Ok(w) => {
                        self.ptr += 1;
                        Ok(InstSuccess::Print(w))
                    },
                    Err(e) => Err(e),
                }
            },
            Instruction::JMP(t) => {
                if t >= self.program.len() as u64 {
                    return Err(InstError::IllegalMemAccess(t));
                }
                self.ptr = t as usize;
                Ok(InstSuccess::OK)
            },
            Instruction::EQ => {
                if n < 2 {
                    return Err(InstError::StackUnderflow);
                }
                let v: Word = if self.stack[n - 2] == self.stack[n - 1] { 1 } else { 0 };
                self.replace_top_two(v);
                Ok(InstSuccess::OK)
            },
            Instruction::NEQ => {
                if n < 2 {
                    return Err(InstError::StackUnderflow);
                }
                let v: Word = if self.stack[n - 2] != self.stack[n - 1] { 1 } else { 0 };
                self.replace_top_two(v);
                Ok(InstSuccess::OK)
            },
            Instruction::JNZ(t) => {
                if t >= self.program.len() as u64 {
                    return Err(InstError::IllegalMemAccess(t));
                }
                if n == 0 {
                    return Err(InstError::StackUnderflow);
                }
                if self.stack[n - 1] == 1 {
                    let _ = self.pop();
                    self.ptr = t as usize;
                } else {
                    self.ptr += 1;
                }
                Ok(InstSuccess::OK)
            },
            Instruction::HALT => {
                match self.pop() {
                    Ok(c) => Ok(InstSuccess::Halt(c)),
                    Err(e) => Err(e),
                }
            },
            Instruction::BLIND => {
                self.ptr += 1;
                Ok(InstSuccess::OK)
            },
        }
    }

    /// Executes the instruction at the program counter; `None`, with nothing
    /// changed, once the counter has reached the end of the program.
    pub fn step(&mut self) -> (r: Option<Result<InstSuccess, InstError>>)
        requires
            old(self).wf(),
        ensures
            final(self).wf(),
            old(self)@.ptr >= old(self)@.program.len() ==> r is None && final(self)@ == old(self)@,
            old(self)@.ptr < old(self)@.program.len() ==> r == Some(
                transition(old(self)@, old(self)@.program[old(self)@.ptr as int]).1,
            ) && final(self)@ == transition(old(self)@, old(self)@.program[old(self)@.ptr as int]).0,
    {
        if self.ptr >= self.program.len() {
            return None;
        }
        let i = self.program[self.ptr];
        Some(self.execute_instruction(i))
    }

    /// Runs the program from the current state for at most `fuel`
    /// instructions, without showing anything.
    pub fn run(&mut self, fuel: u64) -> (r: RunOutcome)
        requires
            old(self).wf(),
        ensures
            final(self).wf(),
            (final(self)@, r) == run_spec(old(self)@, fuel as nat),
    {
        let mut left = fuel;
        while self.ptr < self.program.len()
            invariant
                self.wf(),
                run_spec(old(self)@, fuel as nat) == run_spec(self@, left as nat),
            decreases left,
        {
            if left == 0 {
                return RunOutcome::OutOfFuel;
            }
            let i = self.program[self.ptr];
            match self.execute_instruction(i) {
                Err(e) => {
                    return RunOutcome::Failed(e);
                },
                Ok(InstSuccess::Halt(c)) => {
                    return RunOutcome::Halted(c);
                },
                Ok(_) => {},
            }
            left -= 1;
        }
        RunOutcome::Finished
    }

    /// The encoded text of the loaded program.
    pub fn get_byte_code(&self) -> (r: String)
        ensures
            r@ == encode_program(self@.program),
    {
        encode(self.program.as_slice())
    }

    /// Assembles a source text and encodes the result.
    pub fn compile(source: &str) -> (r: Result<String, SyntaxError>)
        ensures
            match assemble_bytes(source.spec_bytes()) {
                Ok(p) => r is Ok && r->Ok_0@ == encode_program(p),
                Err(e) => r == Err::<String, SyntaxError>(e),
            },
    {
        match assemble(source) {
            Ok(p) => Ok(encode(p.as_slice())),
            Err(e) => Err(e),
        }
    }

    /// Decodes an encoded text and appends its instructions to the program;
    /// on a decode error nothing changes.
    pub fn load_text(&mut self, text: &str) -> (r: Result<(), DecodeError>)
        requires
            old(self).wf(),
        ensures
            final(self).wf(),
            match decode_text(text@) {
                Ok(p) => r is Ok && final(self)@.program == old(self)@.program + p
                    && final(self)@.stack == old(self)@.stack && final(self)@.ptr == old(self)@.ptr,
                Err(e) => r == Err::<(), DecodeError>(e) && final(self)@ == old(self)@,
            },
    {
        match decode(text) {
            Ok(p) => {
                self.load_program(p);
                Ok(())
            },
            Err(e) => Err(e),
        }
    }

    /// Pushes `o`, unless the stack is full.
    fn push(&mut self, o: Word) -> (r: Result<InstSuccess, InstError>)
        requires
            old(self).wf(),
        ensures
            final(self).wf(),
            old(self)@.stack.len() >= STACK_CAP ==> r == Err::<InstSuccess, InstError>(
                InstError::StackOverflow,
            ) && final(self)@ == old(self)@,
            old(self)@.stack.len() < STACK_CAP ==> r == Ok::<InstSuccess, InstError>(InstSuccess::OK)
                && final(self)@ == (VmState { stack: old(self)@.stack.push(o), ..old(self)@ }),
    {
        if self.stack.len() >= STACK_CAP {
            return Err(InstError::StackOverflow);
        }
        self.stack.push(o);
        Ok(InstSuccess::OK)
    }

    /// Removes and returns the top word, unless the stack is empty.
    fn pop(&mut self) -> (r: Result<Word, InstError>)
        requires
            old(self).wf(),
        ensures
            final(self).wf(),
            old(self)@.stack.len() == 0 ==> r == Err::<Word, InstError>(InstError::StackUnderflow)
                && final(self)@ == old(self)@,
            old(self)@.stack.len() > 0 ==> r == Ok::<Word, InstError>(old(self)@.stack.last())
                && final(self)@ == (VmState { stack: old(self)@.stack.drop_last(), ..old(self)@ }),
    {
        match self.stack.pop() {
            Some(w) => Ok(w),
            None => Err(InstError::StackUnderflow),
        }
    }

    /// The top word, unless the stack is empty.
    fn last(&self) -> (r: Result<Word, InstError>)
        ensures
            self@.stack.len() == 0 ==> r == Err::<Word, InstError>(InstError::StackUnderflow),
            self@.stack.len() > 0 ==> r == Ok::<Word, InstError>(self@.stack.last()),
    {
        let n = self.stack.len();
        if n == 0 {
            Err(InstError::StackUnderflow)
        } else {
            Ok(self.stack[n - 1])
        }
    }

    /// Replaces the two top words by `v` and advances the counter.
    fn replace_top_two(&mut self, v: Word)
        requires
            old(self).wf(),
            old(self)@.stack.len() >= 2,
            old(self)@.ptr < old(self)@.program.len(),
        ensures
            final(self).wf(),
            final(self)@ == advance(old(self)@, replace_top_two(old(self)@.stack, v)),
    {
        let n = self.stack.len();
        let plen = self.program.len();
        assert(self.ptr < plen);
        self.stack.pop();
        self.stack[n - 2] = v;
        self.ptr += 1;
    }
}

} // verus!
