//! Lexical scanning: characters to tokens.
//!
//! Whitespace is skipped. A digit begins a maximal run of digits, parsed
//! as a signed 32-bit literal; a run too large for that range is a fatal
//! [`CompileError::LiteralOverflow`]. Each of `+ - * /` is a
//! one-character operator token. Any other character is dropped from the
//! token sequence and reported as a diagnostic, and scanning continues.
use vstd::prelude::*;

use crate::CompileError;
use crate::ast::OpKind;

verus! {

/// A lexical token: a numeric literal or a single-character operator.
#[derive(Clone, Copy, Debug, PartialEq, Eq, Structural)]
pub enum Token {
    Literal(i32),
    Operator(OpKind),
}

/// An ASCII whitespace character, which scanning skips.
pub open spec fn is_space_char(c: char) -> bool {
    c == ' ' || c == '\t' || c == '\n' || c == '\x0C' || c == '\r'
}

/// An ASCII decimal digit.
pub open spec fn is_digit_char(c: char) -> bool {
    48 <= c as u32 <= 57
}

/// The numeric value of one decimal digit character.
pub open spec fn digit_val(c: char) -> int
    recommends
        is_digit_char(c),
{
    c as u32 - 48
}

/// The first position at or after `i` that does not hold whitespace.
pub open spec fn skip_spaces(s: Seq<char>, i: int) -> int
    recommends
        0 <= i <= s.len(),
    decreases s.len() - i,
{
    if 0 <= i < s.len() && is_space_char(s[i]) {
        skip_spaces(s, i + 1)
    } else {
        i
    }
}

/// The end (exclusive) of the maximal run of digits starting at `i`.
pub open spec fn digit_run_end(s: Seq<char>, i: int) -> int
    recommends
        0 <= i <= s.len(),
    decreases s.len() - i,
{
    if 0 <= i < s.len() && is_digit_char(s[i]) {
        digit_run_end(s, i + 1)
    } else {
        i
    }
}

/// The base-10 value of a sequence of digit characters.
pub open spec fn digits_val(s: Seq<char>) -> int
    decreases s.len(),
{
    if s.len() == 0 {
        0
    } else {
        10 * digits_val(s.drop_last()) + digit_val(s.last())
    }
}

pub proof fn lemma_digit_run_end_bounds(s: Seq<char>, i: int)
    requires
        0 <= i <= s.len(),
    ensures
        i <= digit_run_end(s, i) <= s.len(),
        forall|t: int| i <= t < digit_run_end(s, i) ==> is_digit_char(s[t]),
        digit_run_end(s, i) < s.len() ==> !is_digit_char(s[digit_run_end(s, i)]),
        0 <= i < s.len() && is_digit_char(s[i]) ==> digit_run_end(s, i) > i,
    decreases s.len() - i,
{
    if i < s.len() && is_digit_char(s[i]) {
        lemma_digit_run_end_bounds(s, i + 1);
    }
}

/// Appending one digit multiplies the value by ten and adds the digit.
pub proof fn lemma_digits_val_push(s: Seq<char>, c: char)
    ensures
        digits_val(s.push(c)) == 10 * digits_val(s) + digit_val(c),
{
    assert(s.push(c).drop_last() =~= s);
    assert(s.push(c).last() == c);
}

/// The value of a digit run is never negative.
pub proof fn lemma_digits_val_nonneg(s: Seq<char>)
    requires
        forall|t: int| 0 <= t < s.len() ==> is_digit_char(s[t]),
    ensures
        digits_val(s) >= 0,
    decreases s.len(),
{
    if s.len() > 0 {
        lemma_digits_val_nonneg(s.drop_last());
    }
}

/// Whether `c` is ASCII whitespace; mirrors [`is_space_char`].
pub fn is_space(c: char) -> (r: bool)
    ensures
        r == is_space_char(c),
{
    c == ' ' || c == '\t' || c == '\n' || c == '\x0C' || c == '\r'
}

/// Whether `c` is an ASCII decimal digit; mirrors [`is_digit_char`].
pub fn is_digit(c: char) -> (r: bool)
    ensures
        r == is_digit_char(c),
{
    let u = c as u32;
    48 <= u && u <= 57
}

/// One of the four operator characters.
pub open spec fn is_op_char(c: char) -> bool {
    c == '+' || c == '-' || c == '*' || c == '/'
}

/// The operator kind that a given operator character names.
pub open spec fn op_kind_of(c: char) -> OpKind
    recommends
        is_op_char(c),
{
    if c == '+' {
        OpKind::Add
    } else if c == '-' {
        OpKind::Sub
    } else if c == '*' {
        OpKind::Mul
    } else {
        OpKind::Div
    }
}

/// The token sequence and the diagnostics (one entry per unrecognized
/// character) that scanning yields from position `i` on, or the first
/// fatal error.
pub open spec fn spec_scan(s: Seq<char>, i: int) -> Result<(Seq<Token>, Seq<char>), CompileError>
    decreases s.len() - i,
    when 0 <= i <= s.len()
{
    if i >= s.len() {
        Ok((Seq::empty(), Seq::empty()))
    } else if is_space_char(s[i]) {
        spec_scan(s, i + 1)
    } else if is_digit_char(s[i]) {
        proof {
            lemma_digit_run_end_bounds(s, i);
        }
        let k = digit_run_end(s, i);
        let v = digits_val(s.subrange(i, k));
        if v > i32::MAX {
            Err(CompileError::LiteralOverflow)
        } else {
            match spec_scan(s, k) {
                Ok(rest) => Ok((seq![Token::Literal(v as i32)] + rest.0, rest.1)),
                Err(e) => Err(e),
            }
        }
    } else if is_op_char(s[i]) {
        match spec_scan(s, i + 1) {
            Ok(rest) => Ok((seq![Token::Operator(op_kind_of(s[i]))] + rest.0, rest.1)),
            Err(e) => Err(e),
        }
    } else {
        match spec_scan(s, i + 1) {
            Ok(rest) => Ok((rest.0, seq![s[i]] + rest.1)),
            Err(e) => Err(e),
        }
    }
}

/// A character the scanner recognizes as nothing: not whitespace, not a
/// digit, not an operator.
pub open spec fn is_unrecognized_char(c: char) -> bool {
    !is_space_char(c) && !is_digit_char(c) && !is_op_char(c)
}

/// The unrecognized characters at or after position `i`, in source
/// order.
pub open spec fn unrecognized_in(s: Seq<char>, i: int) -> Seq<char>
    decreases s.len() - i,
    when 0 <= i <= s.len()
{
    if i >= s.len() {
        Seq::empty()
    } else if is_unrecognized_char(s[i]) {
        seq![s[i]] + unrecognized_in(s, i + 1)
    } else {
        unrecognized_in(s, i + 1)
    }
}

/// Within a digit run no character is unrecognized, so the run
/// contributes no diagnostics.
proof fn lemma_unrecognized_skips_digit_run(s: Seq<char>, i: int)
    requires
        0 <= i <= s.len(),
    ensures
        unrecognized_in(s, i) == unrecognized_in(s, digit_run_end(s, i)),
    decreases s.len() - i,
{
    if i < s.len() && is_digit_char(s[i]) {
        lemma_unrecognized_skips_digit_run(s, i + 1);
    }
}

proof fn lemma_scan_diagnostics_from(s: Seq<char>, i: int)
    requires
        0 <= i <= s.len(),
    ensures
        spec_scan(s, i) matches Ok(td) ==> td.1 == unrecognized_in(s, i),
        spec_scan(s, i) matches Err(e) ==> e == CompileError::LiteralOverflow,
    decreases s.len() - i,
{
    if i < s.len() {
        if is_digit_char(s[i]) {
            lemma_digit_run_end_bounds(s, i);
            lemma_unrecognized_skips_digit_run(s, i);
            lemma_scan_diagnostics_from(s, digit_run_end(s, i));
        } else {
            lemma_scan_diagnostics_from(s, i + 1);
        }
    }
}

/// Unrecognized characters never halt scanning — the only fatal scan
/// error is a literal too large — and a successful scan's diagnostics
/// are exactly the unrecognized characters of the input, one each, in
/// source order.
pub proof fn lemma_scan_diagnostics(s: Seq<char>)
    ensures
        spec_scan(s, 0) matches Ok(td) ==> td.1 == unrecognized_in(s, 0),
        spec_scan(s, 0) matches Err(e) ==> e == CompileError::LiteralOverflow,
{
    lemma_scan_diagnostics_from(s, 0);
}

/// Converts the raw character sequence into the ordered token sequence,
/// in source order, together with one diagnostic per unrecognized
/// character. Unrecognized characters never stop the scan; a literal too
/// large for the signed 32-bit range does.
pub fn scan(chars: &Vec<char>) -> (r: Result<(Vec<Token>, Vec<char>), CompileError>)
    ensures
        match r {
            Ok(td) => spec_scan(chars@, 0) == Ok::<(Seq<Token>, Seq<char>), CompileError>(
                (td.0@, td.1@),
            ),
            Err(e) => spec_scan(chars@, 0) == Err::<(Seq<Token>, Seq<char>), CompileError>(e),
        },
{
    let ghost s = chars@;
    let n = chars.len();
    let mut toks: Vec<Token> = Vec::new();
    let mut diags: Vec<char> = Vec::new();
    let mut pos: usize = 0;
    while pos < n
        invariant
            pos <= n,
            n == s.len(),
            s == chars@,
            match spec_scan(s, pos as int) {
                Ok(rest) => spec_scan(s, 0) == Ok::<(Seq<Token>, Seq<char>), CompileError>(
                    (toks@ + rest.0, diags@ + rest.1),
                ),
                Err(e) => spec_scan(s, 0) == Err::<(Seq<Token>, Seq<char>), CompileError>(e),
            },
        decreases n - pos,
    {
        let c = chars[pos];
        if is_space(c) {
            pos += 1;
        } else if is_digit(c) {
            proof {
                lemma_digit_run_end_bounds(s, pos as int);
                lemma_digits_val_nonneg(s.subrange(pos as int, digit_run_end(s, pos as int)));
            }
            let mut next = pos;
            match get_number(chars, &mut next) {
                Ok(v) => {
                    let ghost old_toks = toks@;
                    toks.push(Token::Literal(v));
                    proof {
                        let rest = spec_scan(s, next as int);
                        if rest is Ok {
                            assert(old_toks + (seq![Token::Literal(v)] + rest->Ok_0.0)
                                =~= toks@ + rest->Ok_0.0);
                        }
                    }
                    pos = next;
                },
                Err(e) => {
                    return Err(e);
                },
            }
        } else if c == '+' || c == '-' || c == '*' || c == '/' {
            let kind = if c == '+' {
                OpKind::Add
            } else if c == '-' {
                OpKind::Sub
            } else if c == '*' {
                OpKind::Mul
            } else {
                OpKind::Div
            };
            let ghost old_toks = toks@;
            toks.push(Token::Operator(kind));
            proof {
                let rest = spec_scan(s, pos + 1);
                if rest is Ok {
                    assert(old_toks + (seq![Token::Operator(kind)] + rest->Ok_0.0)
                        =~= toks@ + rest->Ok_0.0);
                }
            }
            pos += 1;
        } else {
            let ghost old_diags = diags@;
            diags.push(c);
            proof {
                let rest = spec_scan(s, pos + 1);
                if rest is Ok {
                    assert(old_diags + (seq![c] + rest->Ok_0.1) =~= diags@ + rest->Ok_0.1);
                }
            }
            pos += 1;
        }
    }
    proof {
        assert(toks@ + Seq::<Token>::empty() =~= toks@);
        assert(diags@ + Seq::<char>::empty() =~= diags@);
    }
    Ok((toks, diags))
}

/// Reads the literal that starts at `*i` (after any whitespace): the
/// maximal run of digits there, parsed as a signed 32-bit integer.
///
/// `*i` is left on the first character after the run. With no digit to
/// read the error is [`CompileError::ExpectedLiteral`]; a run whose value
/// exceeds the 32-bit range is [`CompileError::LiteralOverflow`].
pub fn get_number(chars: &Vec<char>, i: &mut usize) -> (r: Result<i32, CompileError>)
    requires
        *old(i) <= chars@.len(),
    ensures
        ({
            let s = chars@;
            let j = skip_spaces(s, *old(i) as int);
            let k = digit_run_end(s, j);
            let v = digits_val(s.subrange(j, k));
            &&& *final(i) as int == k
            &&& r == (if k == j {
                Err::<i32, CompileError>(CompileError::ExpectedLiteral)
            } else if v > i32::MAX {
                Err::<i32, CompileError>(CompileError::LiteralOverflow)
            } else {
                Ok::<i32, CompileError>(v as i32)
            })
        }),
{
    let ghost s = chars@;
    let ghost i0 = *i as int;
    let n = chars.len();
    let mut pos: usize = *i;
    while pos < n && is_space(chars[pos])
        invariant
            i0 <= pos <= n,
            n == s.len(),
            s == chars@,
            skip_spaces(s, pos as int) == skip_spaces(s, i0),
        decreases n - pos,
    {
        pos += 1;
    }
    let ghost j = pos as int;
    assert(skip_spaces(s, j) == j);
    let start = pos;
    let mut val: u64 = 0;
    let mut overflow: bool = false;
    while pos < n && is_digit(chars[pos])
        invariant
            j == start as int,
            start <= pos <= n,
            n == s.len(),
            s == chars@,
            digit_run_end(s, pos as int) == digit_run_end(s, j),
            forall|t: int| j <= t < pos ==> is_digit_char(s[t]),
            !overflow ==> val == digits_val(s.subrange(j, pos as int)) && val <= 2147483647,
            overflow ==> digits_val(s.subrange(j, pos as int)) > 2147483647,
        decreases n - pos,
    {
        let d: u64 = (chars[pos] as u32 - 48) as u64;
        proof {
            assert(s.subrange(j, pos + 1) =~= s.subrange(j, pos as int).push(s[pos as int]));
            lemma_digits_val_push(s.subrange(j, pos as int), s[pos as int]);
            if overflow {
                lemma_digits_val_nonneg(s.subrange(j, pos as int));
            }
        }
        if !overflow {
            val = val * 10 + d;
            if val > 2147483647 {
                overflow = true;
            }
        }
        pos += 1;
    }
    assert(digit_run_end(s, pos as int) == pos as int);
    *i = pos;
    if start == pos {
        Err(CompileError::ExpectedLiteral)
    } else if overflow {
        Err(CompileError::LiteralOverflow)
    } else {
        Ok(val as i32)
    }
}

} // verus!
