//! The assembler: source text, one instruction per line, to instructions.
//!
//! A line is split into tokens at ASCII whitespace. A blank line is skipped.
//! The first token is the mnemonic; `push`, `dup`, `jmp` and `jnz` take a
//! second token, an unsigned decimal 64-bit number (an optional leading `+`
//! is accepted); tokens after those that a mnemonic uses are ignored.
use vstd::prelude::*;
use vstd::string::StringSliceAdditionalSpecFns;
use crate::instruction::{Instruction, Word, instruction_of, make_inst};

verus! {

/// A malformed line: an unknown mnemonic, or a missing or unreadable operand.
#[derive(Debug, Clone, Copy, PartialEq, Eq, Structural)]
pub struct SyntaxError {
    /// The line, counted from zero.
    pub line: usize,
}

/// ASCII whitespace: space, tab, line feed, vertical tab, form feed, carriage return.
pub open spec fn is_space(b: u8) -> bool {
    b == 32 || (9 <= b && b <= 13)
}

/// The first index in `[i, e)` whose byte is not whitespace, else `e`.
pub open spec fn skip_spaces(s: Seq<u8>, i: int, e: int) -> int
    decreases e - i,
{
    if i >= e {
        e
    } else if is_space(s[i]) {
        skip_spaces(s, i + 1, e)
    } else {
        i
    }
}

/// The first index in `[i, e)` whose byte is whitespace, else `e`.
pub open spec fn token_end(s: Seq<u8>, i: int, e: int) -> int
    decreases e - i,
{
    if i >= e {
        e
    } else if !is_space(s[i]) {
        token_end(s, i + 1, e)
    } else {
        i
    }
}

/// The index of the first line feed at or after `i`, else the length.
pub open spec fn line_end(s: Seq<u8>, i: int) -> int
    decreases s.len() - i,
{
    if i >= s.len() {
        s.len() as int
    } else if s[i] == 10 {
        i
    } else {
        line_end(s, i + 1)
    }
}

/// The bytes of an ASCII word.
pub open spec fn ascii(w: Seq<char>) -> Seq<u8> {
    w.map_values(|c: char| c as u8)
}

/// The opcode that a mnemonic names.
pub open spec fn mnemonic_of(m: Seq<u8>) -> Option<u8> {
    if m == ascii(seq!['p', 'u', 's', 'h']) {
        Some(0u8)
    } else if m == ascii(seq!['a', 'd', 'd']) {
        Some(1u8)
    } else if m == ascii(seq!['s', 'u', 'b']) {
        Some(2u8)
    } else if m == ascii(seq!['m', 'u', 'l']) {
        Some(3u8)
    } else if m == ascii(seq!['d', 'i', 'v']) {
        Some(4u8)
    } else if m == ascii(seq!['d', 'u', 'p']) {
        Some(5u8)
    } else if m == ascii(seq!['d', 'u', 'm', 'p']) {
        Some(6u8)
    } else if m == ascii(seq!['p', 'r', 'i', 'n', 't']) {
        Some(7u8)
    } else if m == ascii(seq!['j', 'm', 'p']) {
        Some(8u8)
    } else if m == ascii(seq!['e', 'q']) {
        Some(9u8)
    } else if m == ascii(seq!['j', 'n', 'z']) {
        Some(10u8)
    } else if m == ascii(seq!['h', 'a', 'l', 't']) {
        Some(11u8)
    } else if m == ascii(seq!['b', 'l', 'i', 'n', 'd']) {
        Some(12u8)
    } else if m == ascii(seq!['n', 'e', 'q']) {
        Some(13u8)
    } else {
        None
    }
}

/// The opcodes whose instruction carries an operand.
pub open spec fn takes_operand(op: u8) -> bool {
    op == 0 || op == 5 || op == 8 || op == 10
}

pub open spec fn is_digit(b: u8) -> bool {
    48 <= b && b <= 57
}

/// The number that a string of decimal digits denotes.
pub open spec fn digits_value(d: Seq<u8>) -> nat
    decreases d.len(),
{
    if d.len() == 0 {
        0
    } else {
        10 * digits_value(d.drop_last()) + (d.last() - 48) as nat
    }
}

/// Every byte is a decimal digit.
pub open spec fn all_digits(d: Seq<u8>) -> bool {
    forall|k: int| 0 <= k < d.len() ==> is_digit(#[trigger] d[k])
}

/// An operand token without its optional leading `+`.
pub open spec fn unsigned_part(t: Seq<u8>) -> Seq<u8> {
    if t.len() > 0 && t[0] == '+' as u8 {
        t.skip(1)
    } else {
        t
    }
}

/// An operand: an optional `+`, then one or more decimal digits denoting a
/// number that fits in a word.
pub open spec fn parse_word(t: Seq<u8>) -> Option<Word> {
    let d = unsigned_part(t);
    if d.len() > 0 && all_digits(d) && digits_value(d) <= u64::MAX {
        Some(digits_value(d) as Word)
    } else {
        None
    }
}

/// What the line `s[i..e)` holds: `Ok(None)` when it is blank, `Ok(Some(_))`
/// for an instruction, `Err(())` when it is malformed.
pub open spec fn parse_line(s: Seq<u8>, i: int, e: int) -> Result<Option<Instruction>, ()> {
    let a = skip_spaces(s, i, e);
    let b = token_end(s, a, e);
    if a == e {
        Ok(None)
    } else {
        match mnemonic_of(s.subrange(a, b)) {
            None => Err(()),
            Some(op) => if !takes_operand(op) {
                Ok(instruction_of(op as int, 0))
            } else {
                let c = skip_spaces(s, b, e);
                match parse_word(s.subrange(c, token_end(s, c, e))) {
                    Some(n) => Ok(instruction_of(op as int, n)),
                    None => Err(()),
                }
            },
        }
    }
}

/// The instructions of the lines from byte `pos` on (line `line` there),
/// after those in `acc`; the first malformed line is the error.
pub open spec fn assemble_from(s: Seq<u8>, pos: int, line: nat, acc: Seq<Instruction>) -> Result<
    Seq<Instruction>,
    SyntaxError,
>
    decreases s.len() + 1 - pos,
    via assemble_from_decreases
{
    if pos < 0 || pos >= s.len() {
        Ok(acc)
    } else {
        let e = line_end(s, pos);
        match parse_line(s, pos, e) {
            Err(_) => Err(SyntaxError { line: line as usize }),
            Ok(None) => assemble_from(s, e + 1, line + 1, acc),
            Ok(Some(i)) => assemble_from(s, e + 1, line + 1, acc.push(i)),
        }
    }
}

#[via_fn]
proof fn assemble_from_decreases(s: Seq<u8>, pos: int, line: nat, acc: Seq<Instruction>) {
    if 0 <= pos < s.len() {
        lemma_line_end(s, pos);
    }
}

pub proof fn lemma_line_end(s: Seq<u8>, i: int)
    requires
        0 <= i <= s.len(),
    ensures
        i <= line_end(s, i) <= s.len(),
        line_end(s, i) < s.len() ==> s[line_end(s, i)] == 10,
        forall|k: int| i <= k < line_end(s, i) ==> s[k] != 10,
    decreases s.len() - i,
{
    if i < s.len() && s[i] != 10 {
        lemma_line_end(s, i + 1);
    }
}

/// The instructions of a source text, given as its bytes.
pub open spec fn assemble_bytes(s: Seq<u8>) -> Result<Seq<Instruction>, SyntaxError> {
    assemble_from(s, 0, 0, Seq::empty())
}

fn is_space_byte(b: u8) -> (r: bool)
    ensures
        r == is_space(b),
{
    b == 32 || (9 <= b && b <= 13)
}

fn skip_spaces_at(s: &[u8], i: usize, e: usize) -> (r: usize)
    requires
        i <= e <= s@.len(),
    ensures
        r == skip_spaces(s@, i as int, e as int),
        i <= r <= e,
{
    let mut j = i;
    while j < e && is_space_byte(s[j])
        invariant
            i <= j <= e <= s@.len(),
            skip_spaces(s@, j as int, e as int) == skip_spaces(s@, i as int, e as int),
        decreases e - j,
    {
        j += 1;
    }
    j
}

fn token_end_at(s: &[u8], i: usize, e: usize) -> (r: usize)
    requires
        i <= e <= s@.len(),
    ensures
        r == token_end(s@, i as int, e as int),
        i <= r <= e,
{
    let mut j = i;
    while j < e && !is_space_byte(s[j])
        invariant
            i <= j <= e <= s@.len(),
            token_end(s@, j as int, e as int) == token_end(s@, i as int, e as int),
        decreases e - j,
    {
        j += 1;
    }
    j
}

fn line_end_at(s: &[u8], i: usize) -> (r: usize)
    requires
        i <= s@.len(),
    ensures
        r == line_end(s@, i as int),
        i <= r <= s@.len(),
{
    let mut j = i;
    while j < s.len() && s[j] != 10
        invariant
            i <= j <= s@.len(),
            line_end(s@, j as int) == line_end(s@, i as int),
        decreases s@.len() - j,
    {
        j += 1;
    }
    j
}

/// Whether `s[a..b)` is the word `w`.
fn word_is(s: &[u8], a: usize, b: usize, w: &[u8]) -> (r: bool)
    requires
        a <= b <= s@.len(),
    ensures
        r == (s@.subrange(a as int, b as int) == w@),
{
    let ghost t = s@.subrange(a as int, b as int);
    if b - a != w.len() {
        assert(t.len() != w@.len());
        return false;
    }
    let mut k: usize = 0;
    while k < w.len()
        invariant
            a <= b <= s@.len(),
            b - a == w@.len(),
            t == s@.subrange(a as int, b as int),
            k <= w@.len(),
            forall|j: int| 0 <= j < k ==> t[j] == w@[j],
        decreases w@.len() - k,
    {
        if s[a + k] != w[k] {
            assert(t[k as int] != w@[k as int]);
            return false;
        }
        k += 1;
    }
    assert(t =~= w@);
    true
}

/// The opcode that the mnemonic `s[a..b)` names.
fn mnemonic(s: &[u8], a: usize, b: usize) -> (r: Option<u8>)
    requires
        a <= b <= s@.len(),
    ensures
        r == mnemonic_of(s@.subrange(a as int, b as int)),
{
    let w_push = ['p' as u8, 'u' as u8, 's' as u8, 'h' as u8];
    assert(w_push@ == ascii(seq!['p', 'u', 's', 'h']));
    let w_add = ['a' as u8, 'd' as u8, 'd' as u8];
    assert(w_add@ == ascii(seq!['a', 'd', 'd']));
    let w_sub = ['s' as u8, 'u' as u8, 'b' as u8];
    assert(w_sub@ == ascii(seq!['s', 'u', 'b']));
    let w_mul = ['m' as u8, 'u' as u8, 'l' as u8];
    assert(w_mul@ == ascii(seq!['m', 'u', 'l']));
    let w_div = ['d' as u8, 'i' as u8, 'v' as u8];
    assert(w_div@ == ascii(seq!['d', 'i', 'v']));
    let w_dup = ['d' as u8, 'u' as u8, 'p' as u8];
    assert(w_dup@ == ascii(seq!['d', 'u', 'p']));
    let w_dump = ['d' as u8, 'u' as u8, 'm' as u8, 'p' as u8];
    assert(w_dump@ == ascii(seq!['d', 'u', 'm', 'p']));
    let w_print = ['p' as u8, 'r' as u8, 'i' as u8, 'n' as u8, 't' as u8];
    assert(w_print@ == ascii(seq!['p', 'r', 'i', 'n', 't']));
    let w_jmp = ['j' as u8, 'm' as u8, 'p' as u8];
    assert(w_jmp@ == ascii(seq!['j', 'm', 'p']));
    let w_eq = ['e' as u8, 'q' as u8];
    assert(w_eq@ == ascii(seq!['e', 'q']));
    let w_jnz = ['j' as u8, 'n' as u8, 'z' as u8];
    assert(w_jnz@ == ascii(seq!['j', 'n', 'z']));
    let w_halt = ['h' as u8, 'a' as u8, 'l' as u8, 't' as u8];
    assert(w_halt@ == ascii(seq!['h', 'a', 'l', 't']));
    let w_blind = ['b' as u8, 'l' as u8, 'i' as u8, 'n' as u8, 'd' as u8];
    assert(w_blind@ == ascii(seq!['b', 'l', 'i', 'n', 'd']));
    let w_neq = ['n' as u8, 'e' as u8, 'q' as u8];
    assert(w_neq@ == ascii(seq!['n', 'e', 'q']));
    if word_is(s, a, b, &w_push) {
        Some(0)
    } else if word_is(s, a, b, &w_add) {
        Some(1)
    } else if word_is(s, a, b, &w_sub) {
        Some(2)
    } else if word_is(s, a, b, &w_mul) {
        Some(3)
    } else if word_is(s, a, b, &w_div) {
        Some(4)
    } else if word_is(s, a, b, &w_dup) {
        Some(5)
    } else if word_is(s, a, b, &w_dump) {
        Some(6)
    } else if word_is(s, a, b, &w_print) {
        Some(7)
    } else if word_is(s, a, b, &w_jmp) {
        Some(8)
    } else if word_is(s, a, b, &w_eq) {
        Some(9)
    } else if word_is(s, a, b, &w_jnz) {
        Some(10)
    } else if word_is(s, a, b, &w_halt) {
        Some(11)
    } else if word_is(s, a, b, &w_blind) {
        Some(12)
    } else if word_is(s, a, b, &w_neq) {
        Some(13)
    } else {
        None
    }
}

proof fn lemma_digits_prefix(d: Seq<u8>, m: int)
    requires
        0 <= m <= d.len(),
        all_digits(d),
    ensures
        digits_value(d.take(m)) <= digits_value(d),
    decreases d.len(),
{
    if m < d.len() {
        assert(d.drop_last().take(m) == d.take(m));
        lemma_digits_prefix(d.drop_last(), m);
    } else {
        assert(d.take(m) == d);
    }
}

/// Reads the operand `s[c..d)`.
fn parse_operand(s: &[u8], c: usize, d: usize) -> (r: Option<Word>)
    requires
        c <= d <= s@.len(),
    ensures
        r == parse_word(s@.subrange(c as int, d as int)),
{
    let ghost t = s@.subrange(c as int, d as int);
    let mut k = c;
    if k < d && s[k] == '+' as u8 {
        k += 1;
    }
    let ghost dd = s@.subrange(k as int, d as int);
    assert(dd == unsigned_part(t));
    if k == d {
        return None;
    }
    let mut v: u64 = 0;
    let mut j = k;
    while j < d
        invariant
            c <= k <= j <= d <= s@.len(),
            t == s@.subrange(c as int, d as int),
            dd == s@.subrange(k as int, d as int),
            dd == unsigned_part(t),
            forall|q: int| k <= q < j ==> is_digit(#[trigger] s@[q]),
            v as nat == digits_value(s@.subrange(k as int, j as int)),
        decreases d - j,
    {
        let b = s[j];
        if b < 48 || b > 57 {
            assert(!is_digit(dd[j - k]));
            return None;
        }
        let ghost pre = s@.subrange(k as int, j + 1);
        assert(pre.drop_last() == s@.subrange(k as int, j as int));
        let dig = (b - 48) as u64;
        match v.checked_mul(10) {
            None => {
                proof {
                    if all_digits(dd) {
                        assert(dd.take(j + 1 - k) == pre);
                        lemma_digits_prefix(dd, j + 1 - k);
                    }
                }
                return None;
            },
            Some(m) => match m.checked_add(dig) {
                None => {
                    proof {
                        if all_digits(dd) {
                            assert(dd.take(j + 1 - k) == pre);
                            lemma_digits_prefix(dd, j + 1 - k);
                        }
                    }
                    return None;
                },
                Some(n) => {
                    v = n;
                },
            },
        }
        j += 1;
    }
    assert(all_digits(dd)) by {
        assert forall|q: int| 0 <= q < dd.len() implies is_digit(#[trigger] dd[q]) by {
            assert(dd[q] == s@[k + q]);
        }
    }
    Some(v)
}

/// Reads the line `s[i..e)`; see `parse_line`.
fn parse_line_at(s: &[u8], i: usize, e: usize) -> (r: Result<Option<Instruction>, ()>)
    requires
        i <= e <= s@.len(),
    ensures
        r == parse_line(s@, i as int, e as int),
{
    let a = skip_spaces_at(s, i, e);
    let b = token_end_at(s, a, e);
    if a == e {
        return Ok(None);
    }
    match mnemonic(s, a, b) {
        None => Err(()),
        Some(op) => if !(op == 0 || op == 5 || op == 8 || op == 10) {
            Ok(make_inst(op, 0))
        } else {
            let c = skip_spaces_at(s, b, e);
            let d = token_end_at(s, c, e);
            match parse_operand(s, c, d) {
                Some(n) => Ok(make_inst(op, n)),
                None => Err(()),
            }
        },
    }
}

/// Assembles a source text: the instructions of its lines in order, or the
/// first malformed line.
pub fn assemble(source: &str) -> (r: Result<Vec<Instruction>, SyntaxError>)
    ensures
        match r {
            Ok(p) => assemble_bytes(source.spec_bytes()) == Ok::<Seq<Instruction>, SyntaxError>(p@),
            Err(e) => assemble_bytes(source.spec_bytes()) == Err::<Seq<Instruction>, SyntaxError>(e),
        },
{
    let s = source.as_bytes();
    let n = s.len();
    let mut out: Vec<Instruction> = Vec::new();
    let mut pos: usize = 0;
    let mut line: usize = 0;
    while pos < n
        invariant
            n == s@.len(),
            s@ == source.spec_bytes(),
            line <= pos <= n,
            assemble_bytes(s@) == assemble_from(s@, pos as int, line as nat, out@),
        decreases n - pos,
    {
        let e = line_end_at(s, pos);
        let ghost before = out@;
        match parse_line_at(s, pos, e) {
            Err(_) => {
                return Err(SyntaxError { line });
            },
            Ok(None) => {},
            Ok(Some(i)) => {
                out.push(i);
            },
        }
        assert(assemble_from(s@, pos as int, line as nat, before) == assemble_from(
            s@,
            e + 1,
            line as nat + 1,
            out@,
        ));
        if e < n {
            pos = e + 1;
            line += 1;
        } else {
            pos = n;
        }
    }
    Ok(out)
}

} // verus!
