//! Left-associative tree construction from the token sequence.
//!
//! A single pass folds the tokens into expression trees with a one-node
//! working stack and no operator precedence: on a literal, push a leaf;
//! on an operator, pop the top of the stack as the left operand, take the
//! next literal as the right operand, and push the combined node. The
//! result is the stack as a sequence — length one for a well-formed
//! chain, longer when a stray literal was never joined by an operator.
use vstd::prelude::*;

use crate::CompileError;
use crate::ast::Node;
use crate::ast::Op;
use crate::ast::OpKind;
use crate::scanner::Token;
use crate::scanner::scan;
use crate::scanner::spec_scan;

verus! {

/// The operator node of the given kind over the given operands.
pub open spec fn mk_op_node(k: OpKind, l: Node, r: Node) -> Node {
    match k {
        OpKind::Add => Node::Op(Op::Add(Box::new(l), Box::new(r))),
        OpKind::Sub => Node::Op(Op::Sub(Box::new(l), Box::new(r))),
        OpKind::Mul => Node::Op(Op::Mul(Box::new(l), Box::new(r))),
        OpKind::Div => Node::Op(Op::Div(Box::new(l), Box::new(r))),
    }
}

/// The stack of trees that folding leaves from token `i` on, starting
/// from `stack`, or the first error: an operator with nothing on the
/// stack, or an operator not followed by a literal.
pub open spec fn spec_build(toks: Seq<Token>, i: int, stack: Seq<Node>) -> Result<
    Seq<Node>,
    CompileError,
>
    decreases toks.len() - i,
    when 0 <= i <= toks.len()
{
    if i >= toks.len() {
        Ok(stack)
    } else {
        match toks[i] {
            Token::Literal(v) => spec_build(toks, i + 1, stack.push(Node::Num(v))),
            Token::Operator(k) => if stack.len() == 0 {
                Err(CompileError::MissingLeftOperand)
            } else if i + 1 < toks.len() && toks[i + 1] is Literal {
                spec_build(
                    toks,
                    i + 2,
                    stack.drop_last().push(
                        mk_op_node(k, stack.last(), Node::Num(toks[i + 1]->Literal_0)),
                    ),
                )
            } else {
                Err(CompileError::ExpectedLiteral)
            },
        }
    }
}

/// Consumes the token sequence and folds it, left to right, into a
/// sequence of expression trees. Operators apply strictly in
/// left-to-right encounter order; `*` and `/` bind no tighter than `+`
/// and `-`.
pub fn build(tokens: &Vec<Token>) -> (r: Result<Vec<Node>, CompileError>)
    ensures
        match r {
            Ok(nodes) => spec_build(tokens@, 0, Seq::empty()) == Ok::<Seq<Node>, CompileError>(
                nodes@,
            ),
            Err(e) => spec_build(tokens@, 0, Seq::empty()) == Err::<Seq<Node>, CompileError>(e),
        },
{
    let ghost toks = tokens@;
    let mut stack: Vec<Node> = Vec::new();
    let mut pos: usize = 0;
    while pos < tokens.len()
        invariant
            pos <= toks.len(),
            toks == tokens@,
            spec_build(toks, pos as int, stack@) == spec_build(toks, 0, Seq::<Node>::empty()),
        decreases toks.len() - pos,
    {
        match tokens[pos] {
            Token::Literal(v) => {
                stack.push(Node::Num(v));
                pos += 1;
            },
            Token::Operator(k) => {
                if stack.len() == 0 {
                    return Err(CompileError::MissingLeftOperand);
                }
                if pos + 1 >= tokens.len() {
                    return Err(CompileError::ExpectedLiteral);
                }
                match tokens[pos + 1] {
                    Token::Literal(v) => {
                        let ghost old_stack = stack@;
                        let last = stack.pop().unwrap();
                        let node = match k {
                            OpKind::Add => Node::Op(
                                Op::Add(Box::new(last), Box::new(Node::Num(v))),
                            ),
                            OpKind::Sub => Node::Op(
                                Op::Sub(Box::new(last), Box::new(Node::Num(v))),
                            ),
                            OpKind::Mul => Node::Op(
                                Op::Mul(Box::new(last), Box::new(Node::Num(v))),
                            ),
                            OpKind::Div => Node::Op(
                                Op::Div(Box::new(last), Box::new(Node::Num(v))),
                            ),
                        };
                        stack.push(node);
                        proof {
                            assert(stack@ =~= old_stack.drop_last().push(
                                mk_op_node(k, old_stack.last(), Node::Num(v)),
                            ));
                        }
                        pos += 2;
                    },
                    Token::Operator(_) => {
                        return Err(CompileError::ExpectedLiteral);
                    },
                }
            },
        }
    }
    Ok(stack)
}

/// Folding a longer token sequence first runs through the shorter
/// prefix: when the prefix folds successfully, the appended tokens take
/// over from the stack the prefix left.
proof fn lemma_build_append(toks: Seq<Token>, ext: Seq<Token>, i: int, stack: Seq<Node>, res: Seq<
    Node,
>)
    requires
        0 <= i <= toks.len(),
        spec_build(toks, i, stack) == Ok::<Seq<Node>, CompileError>(res),
    ensures
        spec_build(toks + ext, i, stack) == spec_build(toks + ext, toks.len() as int, res),
    decreases toks.len() - i,
{
    let all = toks + ext;
    if i < toks.len() {
        assert(all[i] == toks[i]);
        match toks[i] {
            Token::Literal(val) => {
                lemma_build_append(toks, ext, i + 1, stack.push(Node::Num(val)), res);
            },
            Token::Operator(kk) => {
                assert(stack.len() > 0);
                assert(i + 1 < toks.len() && toks[i + 1] is Literal);
                assert(all[i + 1] == toks[i + 1]);
                lemma_build_append(
                    toks,
                    ext,
                    i + 2,
                    stack.drop_last().push(
                        mk_op_node(kk, stack.last(), Node::Num(toks[i + 1]->Literal_0)),
                    ),
                    res,
                );
            },
        }
    }
}

/// Folding is left-associative and chainable, with no operator
/// precedence: when a token sequence folds to a single tree, appending
/// one more operator and literal folds to a single node of that
/// operator's kind whose left operand is the whole previous tree —
/// whatever the new operator is.
pub proof fn lemma_fold_left_associative(toks: Seq<Token>, n: Node, k: OpKind, v: i32)
    requires
        spec_build(toks, 0, Seq::empty()) == Ok::<Seq<Node>, CompileError>(seq![n]),
    ensures
        spec_build(toks + seq![Token::Operator(k), Token::Literal(v)], 0, Seq::empty())
            == Ok::<Seq<Node>, CompileError>(seq![mk_op_node(k, n, Node::Num(v))]),
{
    let ext = seq![Token::Operator(k), Token::Literal(v)];
    let all = toks + ext;
    let l = toks.len() as int;
    lemma_build_append(toks, ext, 0, Seq::empty(), seq![n]);
    assert(all[l] == Token::Operator(k));
    assert(all[l + 1] == Token::Literal(v));
    assert(seq![n].drop_last() =~= Seq::<Node>::empty());
    let stack2 = seq![n].drop_last().push(mk_op_node(k, n, Node::Num(v)));
    assert(stack2 =~= seq![mk_op_node(k, n, Node::Num(v))]);
    assert(spec_build(all, l + 2, stack2) == Ok::<Seq<Node>, CompileError>(stack2));
}

/// The trees and diagnostics that the front end (scanning, then folding)
/// yields for a character sequence, or its first fatal error.
pub open spec fn spec_tokenize(s: Seq<char>) -> Result<(Seq<Node>, Seq<char>), CompileError> {
    match spec_scan(s, 0) {
        Err(e) => Err(e),
        Ok(td) => match spec_build(td.0, 0, Seq::empty()) {
            Err(e) => Err(e),
            Ok(nodes) => Ok((nodes, td.1)),
        },
    }
}

/// The whole front end: scans the characters, then folds the tokens into
/// trees. Returns the trees with the scanner's diagnostics.
pub fn tokenize(chars: &Vec<char>) -> (r: Result<(Vec<Node>, Vec<char>), CompileError>)
    ensures
        match r {
            Ok(nd) => spec_tokenize(chars@) == Ok::<(Seq<Node>, Seq<char>), CompileError>(
                (nd.0@, nd.1@),
            ),
            Err(e) => spec_tokenize(chars@) == Err::<(Seq<Node>, Seq<char>), CompileError>(e),
        },
{
    let (tokens, diags) = match scan(chars) {
        Ok(td) => td,
        Err(e) => {
            return Err(e);
        },
    };
    let nodes = match build(&tokens) {
        Ok(nodes) => nodes,
        Err(e) => {
            return Err(e);
        },
    };
    Ok((nodes, diags))
}

} // verus!
