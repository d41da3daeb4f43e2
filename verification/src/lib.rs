//! A minimal compiler front end: it translates a textual arithmetic
//! expression (integer literals combined with `+ - * /`, no precedence,
//! left-associative) into x86-64 assembly text for a `main` routine that
//! leaves the expression's value in the accumulator register.
//!
//! The pipeline is scanning ([`scanner`]), left-associative tree
//! construction ([`parser`]), code generation with full constant folding
//! ([`codegen`]), and text emission ([`emitter`]).
pub mod ast;
pub mod codegen;
pub mod emitter;
pub mod parser;
pub mod scanner;

use vstd::prelude::*;

verus! {

/// Every condition that stops the pipeline, each one distinct.
#[derive(Clone, Copy, Debug, PartialEq, Eq)]
pub enum CompileError {
    /// A run of digits does not fit in a signed 32-bit integer.
    LiteralOverflow,
    /// An operator is not followed by a literal.
    ExpectedLiteral,
    /// An operator appears with no expression to its left.
    MissingLeftOperand,
    /// More than one expression is left when parsing ends; compiling on
    /// would silently discard all but the last one.
    DanglingLiteral,
    /// A division's right operand evaluates to zero.
    DivisionByZero,
    /// An arithmetic result does not fit in a signed 32-bit integer.
    ArithmeticOverflow,
}

/// The first prologue line, declaring the routine.
pub open spec fn prologue_globl() -> Seq<char> {
    "  .globl main"@
}

/// The second prologue line, labeling the routine.
pub open spec fn prologue_label() -> Seq<char> {
    "main:"@
}

/// The one epilogue line, returning from the routine.
pub open spec fn epilogue_ret() -> Seq<char> {
    "  ret"@
}

/// The full translation of a character sequence: the assembly lines (the
/// fixed two-line prologue, one load line per instruction, the fixed
/// epilogue) and the scanner's diagnostics, or the first fatal error.
/// Folding that leaves more than one tree is refused: compiling on would
/// silently discard every tree but the last.
pub open spec fn spec_compile(s: Seq<char>) -> Result<(Seq<Seq<char>>, Seq<char>), CompileError> {
    match parser::spec_tokenize(s) {
        Err(e) => Err(e),
        Ok(nd) => if nd.0.len() > 1 {
            Err(CompileError::DanglingLiteral)
        } else {
            match emitter::spec_lines(codegen::gen_instrs(nd.0)) {
                Err(e) => Err(e),
                Ok(body) => Ok(
                    (
                        seq![prologue_globl(), prologue_label()] + body + seq![epilogue_ret()],
                        nd.1,
                    ),
                ),
            }
        },
    }
}

/// Runs the whole pipeline on one expression text: scanning, folding,
/// code generation and emission. Returns the assembly lines in print
/// order together with the diagnostics (one per unrecognized character),
/// or the first fatal error; on an error no partial output is handed
/// back.
pub fn compile(chars: &Vec<char>) -> (r: Result<(Vec<String>, Vec<char>), CompileError>)
    ensures
        match r {
            Ok(out) => spec_compile(chars@) == Ok::<(Seq<Seq<char>>, Seq<char>), CompileError>(
                (out.0@.map_values(|l: String| l@), out.1@),
            ),
            Err(e) => spec_compile(chars@) == Err::<(Seq<Seq<char>>, Seq<char>), CompileError>(e),
        },
{
    let (nodes, diags) = match parser::tokenize(chars) {
        Ok(nd) => nd,
        Err(e) => {
            return Err(e);
        },
    };
    if nodes.len() > 1 {
        return Err(CompileError::DanglingLiteral);
    }
    let instructions = codegen::emit(nodes);
    let mut body = match emitter::instruction_lines(&instructions) {
        Ok(lines) => lines,
        Err(e) => {
            return Err(e);
        },
    };
    let ghost body_seq = body@;
    let mut lines: Vec<String> = Vec::new();
    lines.push(String::from_str("  .globl main"));
    lines.push(String::from_str("main:"));
    lines.append(&mut body);
    lines.push(String::from_str("  ret"));
    proof {
        assert(lines@.map_values(|l: String| l@) =~= seq![prologue_globl(), prologue_label()]
            + body_seq.map_values(|l: String| l@) + seq![epilogue_ret()]);
    }
    Ok((lines, diags))
}

/// For every literal-only input — a non-empty run of digits whose value
/// fits the signed 32-bit range — the generated text is exactly the
/// fixed prologue, one load line carrying that value, then the fixed
/// epilogue, with no diagnostics.
pub proof fn lemma_literal_only_program(s: Seq<char>)
    requires
        s.len() > 0,
        forall|t: int| 0 <= t < s.len() ==> scanner::is_digit_char(s[t]),
        scanner::digits_val(s) <= i32::MAX,
    ensures
        spec_compile(s) == Ok::<(Seq<Seq<char>>, Seq<char>), CompileError>(
            (
                seq![
                    prologue_globl(),
                    prologue_label(),
                    emitter::mov_line(scanner::digits_val(s)),
                    epilogue_ret(),
                ],
                Seq::<char>::empty(),
            ),
        ),
{
    let v = scanner::digits_val(s);
    scanner::lemma_digits_val_nonneg(s);
    scanner::lemma_digit_run_end_bounds(s, 0);
    let k = scanner::digit_run_end(s, 0);
    assert(k == s.len());
    assert(s.subrange(0, k) =~= s);
    assert(!scanner::is_space_char(s[0]));
    assert(scanner::spec_scan(s, s.len() as int) == Ok::<(Seq<scanner::Token>, Seq<char>),
        CompileError,
    >((Seq::empty(), Seq::empty())));
    let toks = seq![scanner::Token::Literal(v as i32)];
    assert(seq![scanner::Token::Literal(v as i32)] + Seq::<scanner::Token>::empty() =~= toks);
    assert(scanner::spec_scan(s, 0) == Ok::<(Seq<scanner::Token>, Seq<char>), CompileError>(
        (toks, Seq::empty()),
    ));
    let nodes = seq![ast::Node::Num(v as i32)];
    assert(parser::spec_build(toks, 1, nodes) == Ok::<Seq<ast::Node>, CompileError>(nodes));
    assert(Seq::<ast::Node>::empty().push(ast::Node::Num(v as i32)) =~= nodes);
    assert(parser::spec_build(toks, 0, Seq::empty()) == Ok::<Seq<ast::Node>, CompileError>(nodes));
    let instrs = codegen::gen_instrs(nodes);
    assert(instrs =~= seq![codegen::Instruction::Mov(v as i32)]);
    assert(instrs.skip(1) =~= Seq::<codegen::Instruction>::empty());
    assert(emitter::spec_lines(instrs.skip(1)) == Ok::<Seq<Seq<char>>, CompileError>(Seq::empty()));
    assert(emitter::spec_lines(instrs) == Ok::<Seq<Seq<char>>, CompileError>(
        seq![emitter::mov_line(v)] + Seq::<Seq<char>>::empty(),
    ));
    assert(seq![prologue_globl(), prologue_label()] + (seq![emitter::mov_line(v)]
        + Seq::<Seq<char>>::empty()) + seq![epilogue_ret()] =~= seq![
        prologue_globl(),
        prologue_label(),
        emitter::mov_line(v),
        epilogue_ret(),
    ]);
}

} // verus!
