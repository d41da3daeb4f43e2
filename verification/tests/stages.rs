use chibicc::CompileError;
use chibicc::ast::Node;
use chibicc::ast::Op;
use chibicc::ast::OpKind;
use chibicc::codegen::Instruction;
use chibicc::codegen::emit;
use chibicc::emitter::dec_text;
use chibicc::emitter::instruction_lines;
use chibicc::emitter::mov_line_text;
use chibicc::emitter::op_text;
use chibicc::parser::build;
use chibicc::parser::tokenize;
use chibicc::scanner::Token;
use chibicc::scanner::get_number;
use chibicc::scanner::scan;

fn chars_of(s: &str) -> Vec<char> {
    s.chars().collect()
}

fn to_instructions(s: &str) -> Vec<Instruction> {
    let (nodes, _) = tokenize(&chars_of(s)).unwrap();
    emit(nodes)
}

#[test]
fn twenty_plus_three() {
    let instructions = to_instructions("20 + 3");
    assert_eq!(
        instructions,
        vec![Instruction::Add(Box::new(Node::Num(20)), Box::new(Node::Num(3)))],
    );
}

#[test]
fn twenty_minus_three() {
    let instructions = to_instructions("20 - 3");
    assert_eq!(
        instructions,
        vec![Instruction::Sub(Box::new(Node::Num(20)), Box::new(Node::Num(3)))],
    );
}

#[test]
fn scan_produces_tokens_in_source_order() {
    let (tokens, diags) = scan(&chars_of("20 + 3")).unwrap();
    assert_eq!(
        tokens,
        vec![Token::Literal(20), Token::Operator(OpKind::Add), Token::Literal(3)],
    );
    assert!(diags.is_empty());
}

#[test]
fn scan_drops_unrecognized_characters_with_diagnostics() {
    let (tokens, diags) = scan(&chars_of("1#2$")).unwrap();
    assert_eq!(tokens, vec![Token::Literal(1), Token::Literal(2)]);
    assert_eq!(diags, vec!['#', '$']);
}

#[test]
fn get_number_reads_the_maximal_digit_run() {
    let chars = chars_of("  42x");
    let mut i = 0;
    assert_eq!(get_number(&chars, &mut i), Ok(42));
    assert_eq!(i, 4);
}

#[test]
fn get_number_without_digits_expects_a_literal() {
    let chars = chars_of("abc");
    let mut i = 0;
    assert_eq!(get_number(&chars, &mut i), Err(CompileError::ExpectedLiteral));
}

#[test]
fn get_number_overflow_is_fatal() {
    let chars = chars_of("99999999999");
    let mut i = 0;
    assert_eq!(get_number(&chars, &mut i), Err(CompileError::LiteralOverflow));
}

#[test]
fn build_folds_left_associatively() {
    // "2+3-4" must become Sub(Add(2, 3), 4), never Add(2, Sub(3, 4)).
    let tokens = vec![
        Token::Literal(2),
        Token::Operator(OpKind::Add),
        Token::Literal(3),
        Token::Operator(OpKind::Sub),
        Token::Literal(4),
    ];
    let nodes = build(&tokens).unwrap();
    let folded = Node::Op(Op::Sub(
        Box::new(Node::Op(Op::Add(Box::new(Node::Num(2)), Box::new(Node::Num(3))))),
        Box::new(Node::Num(4)),
    ));
    let right_leaning = Node::Op(Op::Add(
        Box::new(Node::Num(2)),
        Box::new(Node::Op(Op::Sub(Box::new(Node::Num(3)), Box::new(Node::Num(4))))),
    ));
    assert_eq!(nodes.len(), 1);
    assert_eq!(nodes[0], folded);
    assert_ne!(nodes[0], right_leaning);
    assert_eq!(nodes[0].eval(), Ok(1));
}

#[test]
fn build_keeps_a_stray_literal_as_a_second_root() {
    let tokens = vec![Token::Literal(1), Token::Literal(2)];
    let nodes = build(&tokens).unwrap();
    assert_eq!(nodes, vec![Node::Num(1), Node::Num(2)]);
}

#[test]
fn eval_division_truncates_toward_zero() {
    let negative = Node::Op(Op::Div(Box::new(Node::Num(-7)), Box::new(Node::Num(2))));
    assert_eq!(negative.eval(), Ok(-3));
    let positive = Node::Op(Op::Div(Box::new(Node::Num(7)), Box::new(Node::Num(-2))));
    assert_eq!(positive.eval(), Ok(-3));
}

#[test]
fn eval_division_by_zero_is_an_error() {
    let node = Node::Op(Op::Div(Box::new(Node::Num(1)), Box::new(Node::Num(0))));
    assert_eq!(node.eval(), Err(CompileError::DivisionByZero));
}

#[test]
fn eval_min_divided_by_minus_one_overflows() {
    let node = Node::Op(Op::Div(Box::new(Node::Num(i32::MIN)), Box::new(Node::Num(-1))));
    assert_eq!(node.eval(), Err(CompileError::ArithmeticOverflow));
}

#[test]
fn eval_multiplication_overflow_is_an_error() {
    let node = Node::Op(Op::Mul(Box::new(Node::Num(65536)), Box::new(Node::Num(65536))));
    assert_eq!(node.eval(), Err(CompileError::ArithmeticOverflow));
}

#[test]
fn eval_subtraction_overflow_is_an_error() {
    let node = Node::Op(Op::Sub(Box::new(Node::Num(i32::MIN)), Box::new(Node::Num(1))));
    assert_eq!(node.eval(), Err(CompileError::ArithmeticOverflow));
}

#[test]
fn emit_maps_each_root_to_one_instruction() {
    let instructions = emit(vec![Node::Num(1), Node::Num(2)]);
    assert_eq!(instructions, vec![Instruction::Mov(1), Instruction::Mov(2)]);
}

#[test]
fn instruction_lines_fold_operator_instructions() {
    let instructions = vec![
        Instruction::Mov(7),
        Instruction::Mul(Box::new(Node::Num(6)), Box::new(Node::Num(9))),
    ];
    let lines = instruction_lines(&instructions).unwrap();
    assert_eq!(lines, vec!["  mov $7, %rax", "  mov $54, %rax"]);
}

#[test]
fn mov_line_has_the_fixed_shape() {
    assert_eq!(mov_line_text(0), "  mov $0, %rax");
    assert_eq!(mov_line_text(-7), "  mov $-7, %rax");
}

#[test]
fn dec_text_renders_signed_decimal() {
    assert_eq!(dec_text(0), "0");
    assert_eq!(dec_text(12034), "12034");
    assert_eq!(dec_text(-5), "-5");
    assert_eq!(dec_text(i32::MIN), "-2147483648");
    assert_eq!(dec_text(i32::MAX), "2147483647");
}

#[test]
fn op_text_shows_both_evaluated_operands() {
    let op = Op::Add(Box::new(Node::Num(20)), Box::new(Node::Num(3)));
    assert_eq!(op_text(&op).unwrap(), "20 + 3");
    let nested = Op::Div(
        Box::new(Node::Op(Op::Mul(Box::new(Node::Num(2)), Box::new(Node::Num(5))))),
        Box::new(Node::Num(-3)),
    );
    assert_eq!(op_text(&nested).unwrap(), "10 / -3");
    let bad = Op::Add(
        Box::new(Node::Op(Op::Div(Box::new(Node::Num(1)), Box::new(Node::Num(0))))),
        Box::new(Node::Num(1)),
    );
    assert_eq!(op_text(&bad), Err(CompileError::DivisionByZero));
}
