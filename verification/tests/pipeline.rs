use chibicc::CompileError;
use chibicc::compile;

fn chars_of(s: &str) -> Vec<char> {
    s.chars().collect()
}

fn compile_ok(s: &str) -> (Vec<String>, Vec<char>) {
    compile(&chars_of(s)).expect("expected successful compilation")
}

fn full_text(s: &str) -> String {
    let (lines, _) = compile_ok(s);
    let mut text = String::new();
    for line in lines {
        text.push_str(&line);
        text.push('\n');
    }
    text
}

fn compile_err(s: &str) -> CompileError {
    compile(&chars_of(s)).expect_err("expected a compile error")
}

#[test]
fn literal_only_program() {
    assert_eq!(full_text("10"), "  .globl main\nmain:\n  mov $10, %rax\n  ret\n");
}

#[test]
fn literal_with_whitespace() {
    assert_eq!(full_text("  42\t"), "  .globl main\nmain:\n  mov $42, %rax\n  ret\n");
}

#[test]
fn addition_emits_folded_load() {
    assert_eq!(full_text("20 + 3"), "  .globl main\nmain:\n  mov $23, %rax\n  ret\n");
}

#[test]
fn subtraction_emits_folded_load() {
    assert_eq!(full_text("20 - 3"), "  .globl main\nmain:\n  mov $17, %rax\n  ret\n");
}

#[test]
fn chain_folds_left_to_right() {
    assert_eq!(full_text("2+3-4"), "  .globl main\nmain:\n  mov $1, %rax\n  ret\n");
}

#[test]
fn no_precedence_between_operators() {
    // (2+3)*4, never 2+(3*4)
    assert_eq!(full_text("2+3*4"), "  .globl main\nmain:\n  mov $20, %rax\n  ret\n");
}

#[test]
fn long_chain_of_additions_and_subtractions() {
    assert_eq!(
        full_text("5+20+4-20-50+30+40"),
        "  .globl main\nmain:\n  mov $29, %rax\n  ret\n"
    );
}

#[test]
fn division_truncates_toward_zero() {
    assert_eq!(full_text("7/2"), "  .globl main\nmain:\n  mov $3, %rax\n  ret\n");
}

#[test]
fn leading_minus_is_an_operator() {
    // There is no unary minus: "-7/2" starts with an operator that has no
    // left operand, so it is rejected rather than scanned as a negative
    // literal.
    assert_eq!(compile_err("-7/2"), CompileError::MissingLeftOperand);
}

#[test]
fn negative_result_is_rendered_signed() {
    assert_eq!(full_text("0-5"), "  .globl main\nmain:\n  mov $-5, %rax\n  ret\n");
}

#[test]
fn unexpected_character_is_reported_once_and_skipped() {
    let (lines, diags) = compile_ok("2@+3");
    assert_eq!(lines, vec!["  .globl main", "main:", "  mov $5, %rax", "  ret"]);
    assert_eq!(diags, vec!['@']);
}

#[test]
fn clean_input_has_no_diagnostics() {
    let (_, diags) = compile_ok("1+2");
    assert_eq!(diags, Vec::<char>::new());
}

#[test]
fn empty_input_emits_only_prologue_and_epilogue() {
    let (lines, diags) = compile_ok("");
    assert_eq!(lines, vec!["  .globl main", "main:", "  ret"]);
    assert!(diags.is_empty());
}

#[test]
fn largest_literal_compiles() {
    assert_eq!(
        full_text("2147483647"),
        "  .globl main\nmain:\n  mov $2147483647, %rax\n  ret\n"
    );
}

#[test]
fn literal_overflow_is_fatal() {
    assert_eq!(compile_err("2147483648"), CompileError::LiteralOverflow);
}

#[test]
fn trailing_operator_expects_a_literal() {
    assert_eq!(compile_err("2+"), CompileError::ExpectedLiteral);
}

#[test]
fn doubled_operator_expects_a_literal() {
    assert_eq!(compile_err("2++3"), CompileError::ExpectedLiteral);
}

#[test]
fn adjacent_literals_are_a_dangling_literal() {
    assert_eq!(compile_err("2 3"), CompileError::DanglingLiteral);
}

#[test]
fn division_by_zero_is_surfaced_at_compile_time() {
    assert_eq!(compile_err("1/0"), CompileError::DivisionByZero);
}

#[test]
fn addition_overflow_is_surfaced() {
    assert_eq!(compile_err("2147483647+1"), CompileError::ArithmeticOverflow);
}

#[test]
fn emitted_literal_parses_back_to_the_evaluated_value() {
    // Evaluating the tree directly and parsing the emitted load line's
    // literal back must always agree.
    for input in ["100/7", "20 + 3", "0-5", "6*7-100", "2147483647"] {
        let chars: Vec<char> = input.chars().collect();
        let (nodes, _) = chibicc::parser::tokenize(&chars).unwrap();
        assert_eq!(nodes.len(), 1);
        let value = nodes[0].eval().unwrap();
        let (lines, _) = compile_ok(input);
        let load = &lines[2];
        let literal = load
            .strip_prefix("  mov $")
            .and_then(|rest| rest.strip_suffix(", %rax"))
            .expect("load line has the fixed shape");
        assert_eq!(literal.parse::<i32>().unwrap(), value);
    }
}
