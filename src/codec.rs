//! The persisted form of a program: a text of `'0'`/`'1'` characters, one
//! fixed-width record per instruction (an 8-bit opcode field followed by a
//! 64-bit operand field, most significant bit first), with no separators.
use vstd::arithmetic::power2::{pow2, lemma_pow2_unfold, lemma2_to64, lemma2_to64_rest};
use vstd::prelude::*;
use crate::instruction::{
    Instruction, Word, OPCODE_COUNT, opcode_of, operand_of, instruction_of, make_inst,
    lemma_instruction_of_parts,
};

verus! {

/// Width in bits of the opcode field.
pub const OPCODE_WIDTH: usize = 8;

/// Width in bits of the operand field.
pub const OPERAND_WIDTH: usize = 64;

/// Width in bits of one instruction record.
pub const RECORD_WIDTH: usize = 72;

/// Why a text is not an encoded program.
#[derive(Debug, Clone, Copy, PartialEq, Eq, Structural)]
pub enum DecodeError {
    /// A character other than `'0'` or `'1'`.
    NotBinary,
    /// The length is not a whole number of records.
    Truncated,
    /// A record whose opcode field names no instruction.
    UnknownOpcode(u8),
}

/// The `w` lowest binary digits of `v`, most significant first.
pub open spec fn bits_of(v: nat, w: nat) -> Seq<char>
    decreases w,
{
    if w == 0 {
        Seq::empty()
    } else {
        bits_of(v / 2, (w - 1) as nat).push(if v % 2 == 1 { '1' } else { '0' })
    }
}

/// The number that a string of binary digits denotes, most significant first.
pub open spec fn value_of(s: Seq<char>) -> nat
    decreases s.len(),
{
    if s.len() == 0 {
        0
    } else {
        2 * value_of(s.drop_last()) + if s.last() == '1' { 1nat } else { 0nat }
    }
}

/// Every character is a binary digit.
pub open spec fn is_binary(s: Seq<char>) -> bool {
    forall|i: int| 0 <= i < s.len() ==> s[i] == '0' || s[i] == '1'
}

/// The record of one instruction.
pub open spec fn encode_instruction(i: Instruction) -> Seq<char> {
    bits_of(opcode_of(i) as nat, OPCODE_WIDTH as nat) + bits_of(operand_of(i) as nat, OPERAND_WIDTH as nat)
}

/// The records of a program, in program order.
pub open spec fn encode_program(p: Seq<Instruction>) -> Seq<char>
    decreases p.len(),
{
    if p.len() == 0 {
        Seq::empty()
    } else {
        encode_program(p.drop_last()) + encode_instruction(p.last())
    }
}

/// The instruction that one record of binary digits holds, if its opcode is defined.
pub open spec fn decode_record(r: Seq<char>) -> Option<Instruction> {
    instruction_of(value_of(r.take(OPCODE_WIDTH as int)) as int, value_of(r.skip(OPCODE_WIDTH as int)) as Word)
}

/// The opcode field of a record.
pub open spec fn record_opcode(r: Seq<char>) -> u8 {
    value_of(r.take(OPCODE_WIDTH as int)) as u8
}

/// Decodes whole records of binary digits in order; the first record with an
/// undefined opcode is the error.
pub open spec fn decode_records(s: Seq<char>) -> Result<Seq<Instruction>, DecodeError>
    decreases s.len(),
{
    if s.len() < RECORD_WIDTH {
        Ok(Seq::empty())
    } else {
        let n = s.len() - RECORD_WIDTH;
        match decode_records(s.take(n)) {
            Err(e) => Err(e),
            Ok(p) => match decode_record(s.skip(n)) {
                Some(i) => Ok(p.push(i)),
                None => Err(DecodeError::UnknownOpcode(record_opcode(s.skip(n)))),
            },
        }
    }
}

/// The program that an encoded text holds: a text with any character that is
/// not a binary digit is `NotBinary`; one that is not a whole number of
/// records is `Truncated`; else its records decode in order.
pub open spec fn decode_text(s: Seq<char>) -> Result<Seq<Instruction>, DecodeError> {
    if !is_binary(s) {
        Err(DecodeError::NotBinary)
    } else if s.len() % (RECORD_WIDTH as nat) != 0 {
        Err(DecodeError::Truncated)
    } else {
        decode_records(s)
    }
}

pub proof fn lemma_bits_of_shape(v: nat, w: nat)
    ensures
        bits_of(v, w).len() == w,
        is_binary(bits_of(v, w)),
    decreases w,
{
    if w > 0 {
        lemma_bits_of_shape(v / 2, (w - 1) as nat);
    }
}

pub proof fn lemma_value_bound(s: Seq<char>)
    ensures
        value_of(s) < pow2(s.len()),
    decreases s.len(),
{
    if s.len() > 0 {
        lemma_value_bound(s.drop_last());
        lemma_pow2_unfold(s.len());
    } else {
        lemma2_to64();
    }
}

pub proof fn lemma_value_of_bits(v: nat, w: nat)
    requires
        v < pow2(w),
    ensures
        value_of(bits_of(v, w)) == v,
    decreases w,
{
    if w == 0 {
        lemma2_to64();
    } else {
        lemma_pow2_unfold(w);
        let b = bits_of(v, w);
        assert(b.drop_last() == bits_of(v / 2, (w - 1) as nat));
        lemma_value_of_bits(v / 2, (w - 1) as nat);
    }
}

pub proof fn lemma_encode_instruction(i: Instruction)
    ensures
        encode_instruction(i).len() == RECORD_WIDTH,
        is_binary(encode_instruction(i)),
        decode_record(encode_instruction(i)) == Some(i),
{
    let a = bits_of(opcode_of(i) as nat, 8);
    let b = bits_of(operand_of(i) as nat, 64);
    lemma_bits_of_shape(opcode_of(i) as nat, 8);
    lemma_bits_of_shape(operand_of(i) as nat, 64);
    lemma2_to64();
    lemma2_to64_rest();
    lemma_value_of_bits(opcode_of(i) as nat, 8);
    lemma_value_of_bits(operand_of(i) as nat, 64);
    let e = encode_instruction(i);
    assert(e.take(8) == a);
    assert(e.skip(8) == b);
    lemma_instruction_of_parts(i);
}

pub proof fn lemma_encode_program_shape(p: Seq<Instruction>)
    ensures
        encode_program(p).len() == RECORD_WIDTH * p.len(),
        is_binary(encode_program(p)),
    decreases p.len(),
{
    if p.len() > 0 {
        lemma_encode_program_shape(p.drop_last());
        lemma_encode_instruction(p.last());
        let e = encode_program(p);
        let a = encode_program(p.drop_last());
        let b = encode_instruction(p.last());
        assert forall|k: int| 0 <= k < e.len() implies e[k] == '0' || e[k] == '1' by {
            if k < a.len() {
                assert(e[k] == a[k]);
            } else {
                assert(e[k] == b[k - a.len()]);
            }
        }
    }
}

/// Decoding the encoding of any program gives back that program.
pub proof fn lemma_round_trip(p: Seq<Instruction>)
    ensures
        decode_text(encode_program(p)) == Ok::<Seq<Instruction>, DecodeError>(p),
    decreases p.len(),
{
    lemma_encode_program_shape(p);
    lemma_decode_records_of_encoding(p);
}

proof fn lemma_decode_records_of_encoding(p: Seq<Instruction>)
    ensures
        decode_records(encode_program(p)) == Ok::<Seq<Instruction>, DecodeError>(p),
    decreases p.len(),
{
    if p.len() > 0 {
        lemma_encode_program_shape(p.drop_last());
        lemma_encode_instruction(p.last());
        lemma_decode_records_of_encoding(p.drop_last());
        let e = encode_program(p);
        let a = encode_program(p.drop_last());
        let n = e.len() - RECORD_WIDTH;
        assert(e.take(n) == a);
        assert(e.skip(n) == encode_instruction(p.last()));
        assert(p.drop_last().push(p.last()) == p);
    } else {
        assert(encode_program(p).len() == 0);
        assert(p == Seq::<Instruction>::empty());
    }
}

/// Appends the `width` lowest binary digits of `v`, most significant first.
fn push_bits(out: &mut String, v: u64, width: usize)
    ensures
        final(out)@ == old(out)@ + bits_of(v as nat, width as nat),
    decreases width,
{
    if width > 0 {
        push_bits(out, v / 2, width - 1);
        let ghost mid = out@;
        if v % 2 == 1 {
            out.append("1");
            proof {
                reveal_strlit("1");
            }
        } else {
            out.append("0");
            proof {
                reveal_strlit("0");
            }
        }
        assert(out@ == old(out)@ + bits_of(v as nat, width as nat));
    }
}

/// The record of one instruction.
pub fn inst_to_string(inst: Instruction) -> (r: String)
    ensures
        r@ == encode_instruction(inst),
{
    let mut ret = String::new();
    push_bits(&mut ret, inst.opcode() as u64, OPCODE_WIDTH);
    push_bits(&mut ret, inst.operand(), OPERAND_WIDTH);
    ret
}

/// The encoded text of a program: its records, in program order.
pub fn encode(program: &[Instruction]) -> (r: String)
    ensures
        r@ == encode_program(program@),
{
    let mut ret = String::new();
    let mut i: usize = 0;
    while i < program.len()
        invariant
            i <= program@.len(),
            ret@ == encode_program(program@.take(i as int)),
        decreases program@.len() - i,
    {
        push_bits(&mut ret, program[i].opcode() as u64, OPCODE_WIDTH);
        push_bits(&mut ret, program[i].operand(), OPERAND_WIDTH);
        proof {
            let q = program@.take(i + 1);
            assert(q.drop_last() == program@.take(i as int));
        }
        i += 1;
    }
    assert(program@.take(program@.len() as int) == program@);
    ret
}

/// The number held by `width` binary digits of `bytes` from `start`.
fn read_bits(bytes: &[u8], start: usize, width: usize, Ghost(text): Ghost<Seq<char>>) -> (r: u64)
    requires
        width <= 64,
        start + width <= bytes@.len(),
        bytes@.len() == text.len(),
        forall|j: int| 0 <= j < text.len() ==> text[j] == bytes@[j] as char,
        is_binary(text),
    ensures
        r as nat == value_of(text.subrange(start as int, start + width)),
{
    let len = bytes.len();
    let mut v: u64 = 0;
    let mut k: usize = 0;
    while k < width
        invariant
            len == bytes@.len(),
            k <= width <= 64,
            start + width <= bytes@.len(),
            bytes@.len() == text.len(),
            forall|j: int| 0 <= j < text.len() ==> text[j] == bytes@[j] as char,
            is_binary(text),
            v as nat == value_of(text.subrange(start as int, start + k)),
        decreases width - k,
    {
        let ghost s = text.subrange(start as int, start + k + 1);
        proof {
            assert(s.drop_last() == text.subrange(start as int, start + k));
            lemma_value_bound(s);
            lemma_pow2_unfold(64);
            lemma2_to64();
            lemma2_to64_rest();
            if k + 1 < 64 {
                vstd::arithmetic::power2::lemma_pow2_strictly_increases((k + 1) as nat, 64);
            }
        }
        assert(start + k < bytes@.len());
        let d: u64 = if bytes[start + k] == 49u8 { 1 } else { 0 };
        v = v * 2 + d;
        k += 1;
    }
    v
}

proof fn lemma_error_persists(s: Seq<char>, m: int, e: DecodeError)
    requires
        s.len() % (RECORD_WIDTH as nat) == 0,
        m % (RECORD_WIDTH as int) == 0,
        0 <= m <= s.len(),
        decode_records(s.take(m)) == Err::<Seq<Instruction>, DecodeError>(e),
    ensures
        decode_records(s) == Err::<Seq<Instruction>, DecodeError>(e),
    decreases s.len(),
{
    if m == s.len() {
        assert(s.take(m) == s);
    } else {
        let n = s.len() - RECORD_WIDTH;
        assert(s.take(n).take(m) == s.take(m));
        lemma_error_persists(s.take(n), m, e);
    }
}

/// Reads an encoded program back; see `decode_text` for when it fails.
pub fn decode(text: &str) -> (r: Result<Vec<Instruction>, DecodeError>)
    ensures
        match r {
            Ok(p) => decode_text(text@) == Ok::<Seq<Instruction>, DecodeError>(p@),
            Err(e) => decode_text(text@) == Err::<Seq<Instruction>, DecodeError>(e),
        },
{
    broadcast use vstd::string::is_ascii_spec_bytes;

    if !text.is_ascii() {
        proof {
            assert(!is_binary(text@));
        }
        return Err(DecodeError::NotBinary);
    }
    let bytes = text.as_bytes();
    let n = bytes.len();
    proof {
        broadcast use vstd::utf8::is_ascii_chars_nat_bound;

        assert forall|j: int| 0 <= j < text@.len() implies text@[j] == bytes@[j] as char by {
            assert((text@[j] as nat) < 128);
        }
    }
    let mut i: usize = 0;
    while i < n
        invariant
            i <= n == bytes@.len() == text@.len(),
            forall|j: int| 0 <= j < text@.len() ==> text@[j] == bytes@[j] as char,
            forall|j: int| 0 <= j < i ==> text@[j] == '0' || text@[j] == '1',
        decreases n - i,
    {
        if bytes[i] != 48u8 && bytes[i] != 49u8 {
            assert(text@[i as int] != '0' && text@[i as int] != '1');
            return Err(DecodeError::NotBinary);
        }
        i += 1;
    }
    if n % RECORD_WIDTH != 0 {
        return Err(DecodeError::Truncated);
    }
    let ghost s = text@;
    let mut out: Vec<Instruction> = Vec::new();
    let mut k: usize = 0;
    while k < n
        invariant
            n == bytes@.len() == s.len(),
            s == text@,
            n % RECORD_WIDTH == 0,
            k % RECORD_WIDTH == 0,
            k <= n,
            forall|j: int| 0 <= j < s.len() ==> s[j] == bytes@[j] as char,
            is_binary(s),
            decode_records(s.take(k as int)) == Ok::<Seq<Instruction>, DecodeError>(out@),
        decreases n - k,
    {
        let op = read_bits(bytes, k, OPCODE_WIDTH, Ghost(s));
        let operand = read_bits(bytes, k + OPCODE_WIDTH, OPERAND_WIDTH, Ghost(s));
        let ghost t = s.take(k + RECORD_WIDTH);
        let ghost rec = t.skip(k as int);
        proof {
            assert(t.take(k as int) == s.take(k as int));
            assert(rec.take(8) == s.subrange(k as int, k + 8));
            assert(rec.skip(8) == s.subrange(k + 8, k + 72));
            lemma_value_bound(rec.take(8));
            lemma2_to64();
        }
        match make_inst(op as u8, operand) {
            None => {
                proof {
                    lemma_error_persists(s, k + RECORD_WIDTH, DecodeError::UnknownOpcode(op as u8));
                }
                return Err(DecodeError::UnknownOpcode(op as u8));
            },
            Some(inst) => {
                out.push(inst);
            },
        }
        k += RECORD_WIDTH;
    }
    assert(s.take(n as int) == s);
    Ok(out)
}

} // verus!
