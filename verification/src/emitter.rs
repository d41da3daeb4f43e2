//! Text emission: instructions to assembly lines.
//!
//! Every operator instruction is folded at emission time: both operand
//! subtrees are evaluated and a single register-load line carries the
//! resulting literal, so the generated program contains only load lines
//! and never a runtime arithmetic instruction.
use vstd::prelude::*;

use crate::CompileError;
use crate::ast::Node;
use crate::ast::Op;
use crate::ast::eval_node;
use crate::ast::eval_op;
use crate::codegen::Instruction;
use crate::codegen::instr_of_node;
use crate::scanner::digits_val;
use crate::scanner::digit_val;
use crate::scanner::is_digit_char;

verus! {

/// The character for one decimal digit value.
pub open spec fn digit_char(d: int) -> char
    recommends
        0 <= d <= 9,
{
    if d == 0 {
        '0'
    } else if d == 1 {
        '1'
    } else if d == 2 {
        '2'
    } else if d == 3 {
        '3'
    } else if d == 4 {
        '4'
    } else if d == 5 {
        '5'
    } else if d == 6 {
        '6'
    } else if d == 7 {
        '7'
    } else if d == 8 {
        '8'
    } else {
        '9'
    }
}

/// The base-10 digits of a non-negative integer, most significant first,
/// with no leading zeros.
pub open spec fn dec_digits(n: int) -> Seq<char>
    recommends
        n >= 0,
    decreases n,
{
    if n <= 9 {
        seq![digit_char(n)]
    } else {
        dec_digits(n / 10).push(digit_char(n % 10))
    }
}

/// The base-10 rendering of a signed integer: a leading `-` for a
/// negative value, no sign otherwise, and no leading zeros.
pub open spec fn dec_str(v: int) -> Seq<char> {
    if v < 0 {
        seq!['-'] + dec_digits(-v)
    } else {
        dec_digits(v)
    }
}

/// The integer that a rendered literal denotes: an optional leading `-`,
/// then digits.
pub open spec fn parse_dec(s: Seq<char>) -> int {
    if s.len() > 0 && s[0] == '-' {
        -digits_val(s.skip(1))
    } else {
        digits_val(s)
    }
}

/// One register-load line, indented with exactly two spaces.
pub open spec fn mov_line(v: int) -> Seq<char> {
    "  mov $"@ + dec_str(v) + ", %rax"@
}

/// The line emitted for one instruction: a load of the instruction's
/// literal, an operator instruction folding first, or the first
/// evaluation error.
pub open spec fn spec_instr_line(ins: Instruction) -> Result<Seq<char>, CompileError> {
    match ins {
        Instruction::Mov(v) => Ok(mov_line(v as int)),
        Instruction::Add(l, r) => match eval_op(Op::Add(l, r)) {
            Ok(v) => Ok(mov_line(v)),
            Err(e) => Err(e),
        },
        Instruction::Sub(l, r) => match eval_op(Op::Sub(l, r)) {
            Ok(v) => Ok(mov_line(v)),
            Err(e) => Err(e),
        },
        Instruction::Mul(l, r) => match eval_op(Op::Mul(l, r)) {
            Ok(v) => Ok(mov_line(v)),
            Err(e) => Err(e),
        },
        Instruction::Div(l, r) => match eval_op(Op::Div(l, r)) {
            Ok(v) => Ok(mov_line(v)),
            Err(e) => Err(e),
        },
    }
}

/// The lines for a whole instruction sequence, in emission order, or the
/// first evaluation error.
pub open spec fn spec_lines(instrs: Seq<Instruction>) -> Result<Seq<Seq<char>>, CompileError>
    decreases instrs.len(),
{
    if instrs.len() == 0 {
        Ok(Seq::empty())
    } else {
        match spec_instr_line(instrs[0]) {
            Err(e) => Err(e),
            Ok(line) => match spec_lines(instrs.skip(1)) {
                Err(e) => Err(e),
                Ok(rest) => Ok(seq![line] + rest),
            },
        }
    }
}

/// The one-character string for one decimal digit value.
fn digit_str(d: u32) -> (r: &'static str)
    requires
        d <= 9,
    ensures
        r@ == seq![digit_char(d as int)],
{
    let s: &'static str = if d == 0 {
        "0"
    } else if d == 1 {
        "1"
    } else if d == 2 {
        "2"
    } else if d == 3 {
        "3"
    } else if d == 4 {
        "4"
    } else if d == 5 {
        "5"
    } else if d == 6 {
        "6"
    } else if d == 7 {
        "7"
    } else if d == 8 {
        "8"
    } else {
        "9"
    };
    proof {
        reveal_strlit("0");
        reveal_strlit("1");
        reveal_strlit("2");
        reveal_strlit("3");
        reveal_strlit("4");
        reveal_strlit("5");
        reveal_strlit("6");
        reveal_strlit("7");
        reveal_strlit("8");
        reveal_strlit("9");
        assert(s@ =~= seq![digit_char(d as int)]);
    }
    s
}

/// Appends the decimal digits of `n` to `out`.
fn push_dec_digits(out: &mut String, n: u32)
    ensures
        final(out)@ == old(out)@ + dec_digits(n as int),
    decreases n,
{
    if n <= 9 {
        out.append(digit_str(n));
    } else {
        let ghost mid = old(out)@ + dec_digits(n as int / 10);
        push_dec_digits(out, n / 10);
        out.append(digit_str(n % 10));
        proof {
            assert(mid + seq![digit_char(n as int % 10)] =~= old(out)@ + dec_digits(n as int));
        }
    }
}

/// The base-10 text of a signed 32-bit value, as a load line renders it.
pub fn dec_text(v: i32) -> (r: String)
    ensures
        r@ == dec_str(v as int),
{
    let mut s = String::new();
    if v < 0 {
        s.append("-");
        let m: u32 = (-(v as i64)) as u32;
        proof {
            reveal_strlit("-");
            assert(m as int == -(v as int));
        }
        push_dec_digits(&mut s, m);
        proof {
            assert(s@ =~= dec_str(v as int));
        }
    } else {
        push_dec_digits(&mut s, v as u32);
        proof {
            assert(s@ =~= dec_str(v as int));
        }
    }
    s
}

/// One register-load line carrying the given literal value.
pub fn mov_line_text(v: i32) -> (r: String)
    ensures
        r@ == mov_line(v as int),
{
    let mut s = String::from_str("  mov $");
    let digits = dec_text(v);
    s.append(digits.as_str());
    s.append(", %rax");
    proof {
        assert(s@ =~= mov_line(v as int));
    }
    s
}

/// The line for one instruction: for a load, its literal; for an
/// operator instruction, both operand subtrees evaluated and the folded
/// total, surfacing division by zero or overflow found while folding.
pub fn instr_line(ins: &Instruction) -> (r: Result<String, CompileError>)
    ensures
        match r {
            Ok(line) => spec_instr_line(*ins) == Ok::<Seq<char>, CompileError>(line@),
            Err(e) => spec_instr_line(*ins) == Err::<Seq<char>, CompileError>(e),
        },
{
    match ins {
        Instruction::Mov(num) => Ok(mov_line_text(*num)),
        Instruction::Add(left, right) => {
            let a = left.eval()?;
            let b = right.eval()?;
            match a.checked_add(b) {
                Some(v) => Ok(mov_line_text(v)),
                None => Err(CompileError::ArithmeticOverflow),
            }
        },
        Instruction::Sub(left, right) => {
            let a = left.eval()?;
            let b = right.eval()?;
            match a.checked_sub(b) {
                Some(v) => Ok(mov_line_text(v)),
                None => Err(CompileError::ArithmeticOverflow),
            }
        },
        Instruction::Mul(left, right) => {
            let a = left.eval()?;
            let b = right.eval()?;
            match a.checked_mul(b) {
                Some(v) => Ok(mov_line_text(v)),
                None => Err(CompileError::ArithmeticOverflow),
            }
        },
        Instruction::Div(left, right) => {
            let a = left.eval()?;
            let b = right.eval()?;
            if b == 0 {
                Err(CompileError::DivisionByZero)
            } else {
                match a.checked_div(b) {
                    Some(v) => Ok(mov_line_text(v)),
                    None => Err(CompileError::ArithmeticOverflow),
                }
            }
        },
    }
}

/// One line of text per instruction, in emission order, or the first
/// evaluation error met while folding.
pub fn instruction_lines(instructions: &Vec<Instruction>) -> (r: Result<Vec<String>, CompileError>)
    ensures
        match r {
            Ok(lines) => spec_lines(instructions@) == Ok::<Seq<Seq<char>>, CompileError>(
                lines@.map_values(|l: String| l@),
            ),
            Err(e) => spec_lines(instructions@) == Err::<Seq<Seq<char>>, CompileError>(e),
        },
{
    let ghost instrs = instructions@;
    let mut lines: Vec<String> = Vec::new();
    let mut pos: usize = 0;
    proof {
        assert(instrs.skip(0) =~= instrs);
        if spec_lines(instrs) is Ok {
            assert(lines@.map_values(|l: String| l@) + spec_lines(instrs)->Ok_0 =~= spec_lines(
                instrs,
            )->Ok_0);
        }
    }
    while pos < instructions.len()
        invariant
            pos <= instrs.len(),
            instrs == instructions@,
            match spec_lines(instrs.skip(pos as int)) {
                Ok(rest) => spec_lines(instrs) == Ok::<Seq<Seq<char>>, CompileError>(
                    lines@.map_values(|l: String| l@) + rest,
                ),
                Err(e) => spec_lines(instrs) == Err::<Seq<Seq<char>>, CompileError>(e),
            },
        decreases instrs.len() - pos,
    {
        proof {
            assert(instrs.skip(pos as int)[0] == instrs[pos as int]);
            assert(instrs.skip(pos as int).skip(1) =~= instrs.skip(pos + 1));
        }
        let ghost old_mapped = lines@.map_values(|l: String| l@);
        match instr_line(&instructions[pos]) {
            Ok(line) => {
                let ghost line_view = line@;
                lines.push(line);
                proof {
                    assert(lines@.map_values(|l: String| l@) =~= old_mapped.push(line_view));
                    if spec_lines(instrs.skip(pos + 1)) is Ok {
                        let rest = spec_lines(instrs.skip(pos + 1))->Ok_0;
                        assert(old_mapped + (seq![line_view] + rest) =~= old_mapped.push(
                            line_view,
                        ) + rest);
                    }
                }
                pos += 1;
            },
            Err(e) => {
                return Err(e);
            },
        }
    }
    proof {
        assert(instrs.skip(instrs.len() as int) =~= Seq::<Instruction>::empty());
        assert(lines@.map_values(|l: String| l@) + Seq::<Seq<char>>::empty() =~= lines@.map_values(
            |l: String| l@,
        ));
    }
    Ok(lines)
}

/// The readable text of an operator node: both operands evaluated, the
/// operator's symbol between them, or the first evaluation error.
pub open spec fn spec_op_text(op: Op) -> Result<Seq<char>, CompileError> {
    match op {
        Op::Add(l, r) => match (eval_node(*l), eval_node(*r)) {
            (Err(e), _) => Err(e),
            (_, Err(e)) => Err(e),
            (Ok(a), Ok(b)) => Ok(dec_str(a) + " + "@ + dec_str(b)),
        },
        Op::Sub(l, r) => match (eval_node(*l), eval_node(*r)) {
            (Err(e), _) => Err(e),
            (_, Err(e)) => Err(e),
            (Ok(a), Ok(b)) => Ok(dec_str(a) + " - "@ + dec_str(b)),
        },
        Op::Mul(l, r) => match (eval_node(*l), eval_node(*r)) {
            (Err(e), _) => Err(e),
            (_, Err(e)) => Err(e),
            (Ok(a), Ok(b)) => Ok(dec_str(a) + " * "@ + dec_str(b)),
        },
        Op::Div(l, r) => match (eval_node(*l), eval_node(*r)) {
            (Err(e), _) => Err(e),
            (_, Err(e)) => Err(e),
            (Ok(a), Ok(b)) => Ok(dec_str(a) + " / "@ + dec_str(b)),
        },
    }
}

/// Two rendered values around an operator symbol.
fn join_text(a: i32, sym: &'static str, b: i32) -> (r: String)
    ensures
        r@ == dec_str(a as int) + sym@ + dec_str(b as int),
{
    let mut s = dec_text(a);
    s.append(sym);
    let t = dec_text(b);
    s.append(t.as_str());
    proof {
        assert(s@ =~= dec_str(a as int) + sym@ + dec_str(b as int));
    }
    s
}

/// Renders an operator node for a reader: both operand subtrees
/// evaluated, the operator's symbol between the two values.
pub fn op_text(op: &Op) -> (r: Result<String, CompileError>)
    ensures
        match r {
            Ok(text) => spec_op_text(*op) == Ok::<Seq<char>, CompileError>(text@),
            Err(e) => spec_op_text(*op) == Err::<Seq<char>, CompileError>(e),
        },
{
    match op {
        Op::Add(left, right) => {
            let a = left.eval()?;
            let b = right.eval()?;
            Ok(join_text(a, " + ", b))
        },
        Op::Sub(left, right) => {
            let a = left.eval()?;
            let b = right.eval()?;
            Ok(join_text(a, " - ", b))
        },
        Op::Mul(left, right) => {
            let a = left.eval()?;
            let b = right.eval()?;
            Ok(join_text(a, " * ", b))
        },
        Op::Div(left, right) => {
            let a = left.eval()?;
            let b = right.eval()?;
            Ok(join_text(a, " / ", b))
        },
    }
}

/// Every character of a rendered digit run is a digit, and the run is
/// never empty.
pub proof fn lemma_dec_digits_are_digits(n: int)
    requires
        n >= 0,
    ensures
        dec_digits(n).len() >= 1,
        forall|t: int| 0 <= t < dec_digits(n).len() ==> is_digit_char(#[trigger] dec_digits(n)[t]),
    decreases n,
{
    if n > 9 {
        lemma_dec_digits_are_digits(n / 10);
        assert forall|t: int| 0 <= t < dec_digits(n).len() implies is_digit_char(
            #[trigger] dec_digits(n)[t],
        ) by {
            if t < dec_digits(n / 10).len() {
                assert(dec_digits(n)[t] == dec_digits(n / 10)[t]);
            } else {
                assert(dec_digits(n)[t] == digit_char(n % 10));
            }
        }
    }
}

/// Rendering a non-negative integer and reading the digits back yields
/// the same integer.
pub proof fn lemma_digits_val_dec_digits(n: int)
    requires
        n >= 0,
    ensures
        digits_val(dec_digits(n)) == n,
    decreases n,
{
    if n <= 9 {
        assert(seq![digit_char(n)].drop_last() =~= Seq::<char>::empty());
        assert(digits_val(dec_digits(n)) == 10 * digits_val(Seq::<char>::empty()) + digit_val(
            digit_char(n),
        ));
    } else {
        lemma_digits_val_dec_digits(n / 10);
        crate::scanner::lemma_digits_val_push(dec_digits(n / 10), digit_char(n % 10));
        assert(digit_val(digit_char(n % 10)) == n % 10);
    }
}

/// Rendering any signed integer and parsing the text back yields the
/// same integer.
pub proof fn lemma_parse_dec_round_trip(v: int)
    ensures
        parse_dec(dec_str(v)) == v,
{
    if v < 0 {
        let s = seq!['-'] + dec_digits(-v);
        assert(s[0] == '-');
        assert(s.skip(1) =~= dec_digits(-v));
        lemma_digits_val_dec_digits(-v);
    } else {
        lemma_dec_digits_are_digits(v);
        assert(is_digit_char(dec_str(v)[0]));
        assert(dec_str(v)[0] != '-');
        lemma_digits_val_dec_digits(v);
    }
}

/// Round trip: for a tree that evaluates to a value, the instruction
/// generated from it emits a load line of exactly that value, and the
/// load line's literal text parses back to the same value — the folded
/// program and direct evaluation always agree.
pub proof fn lemma_round_trip(n: Node)
    requires
        eval_node(n) is Ok,
    ensures
        spec_instr_line(instr_of_node(n)) == Ok::<Seq<char>, CompileError>(
            mov_line(eval_node(n)->Ok_0),
        ),
        parse_dec(dec_str(eval_node(n)->Ok_0)) == eval_node(n)->Ok_0,
{
    lemma_parse_dec_round_trip(eval_node(n)->Ok_0);
    match n {
        Node::Num(v) => {
        },
        Node::Op(op) => {
            match op {
                Op::Add(l, r) => {
                    assert(instr_of_node(n) == Instruction::Add(l, r));
                },
                Op::Sub(l, r) => {
                    assert(instr_of_node(n) == Instruction::Sub(l, r));
                },
                Op::Mul(l, r) => {
                    assert(instr_of_node(n) == Instruction::Mul(l, r));
                },
                Op::Div(l, r) => {
                    assert(instr_of_node(n) == Instruction::Div(l, r));
                },
            }
        },
    }
}

} // verus!
