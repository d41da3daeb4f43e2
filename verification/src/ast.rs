//! The expression tree and its recursive evaluator.
use vstd::prelude::*;

use crate::CompileError;

verus! {

/// The four arithmetic operator kinds.
#[derive(Clone, Copy, Debug, PartialEq, Eq, Structural)]
pub enum OpKind {
    Add,
    Sub,
    Mul,
    Div,
}

/// An interior node of the expression tree: an operator owning its two
/// fully formed operand subtrees.
#[derive(Debug, PartialEq, Eq)]
pub enum Op {
    Add(Box<Node>, Box<Node>),
    Sub(Box<Node>, Box<Node>),
    Mul(Box<Node>, Box<Node>),
    Div(Box<Node>, Box<Node>),
}

/// The expression tree: a literal leaf or an operator node.
#[derive(Debug, PartialEq, Eq)]
pub enum Node {
    Op(Op),
    Num(i32),
}

/// The signed 32-bit range, which every literal and every intermediate
/// result must stay within.
pub open spec fn fits_i32(v: int) -> bool {
    i32::MIN <= v <= i32::MAX
}

/// Integer division truncating toward zero, as the target machine and the
/// source language divide: the quotient of the magnitudes, negated when
/// the operands' signs differ.
pub open spec fn trunc_div(x: int, d: int) -> int
    recommends
        d != 0,
{
    if x == 0 {
        0
    } else if x > 0 && d > 0 {
        x / d
    } else if x < 0 && d < 0 {
        (x * -1) / (d * -1)
    } else if x < 0 {
        ((x * -1) / d) * -1
    } else {
        (x / (d * -1)) * -1
    }
}

/// The value of an expression tree, or the first evaluation error in
/// evaluation order (left subtree, right subtree, then the operator).
pub open spec fn eval_node(n: Node) -> Result<int, CompileError>
    decreases n,
{
    match n {
        Node::Num(v) => Ok(v as int),
        Node::Op(op) => eval_op(op),
    }
}

/// The value of an operator node; see [`eval_node`].
pub open spec fn eval_op(op: Op) -> Result<int, CompileError>
    decreases op,
{
    match op {
        Op::Add(l, r) => match (eval_node(*l), eval_node(*r)) {
            (Err(e), _) => Err(e),
            (_, Err(e)) => Err(e),
            (Ok(a), Ok(b)) => if fits_i32(a + b) {
                Ok(a + b)
            } else {
                Err(CompileError::ArithmeticOverflow)
            },
        },
        Op::Sub(l, r) => match (eval_node(*l), eval_node(*r)) {
            (Err(e), _) => Err(e),
            (_, Err(e)) => Err(e),
            (Ok(a), Ok(b)) => if fits_i32(a - b) {
                Ok(a - b)
            } else {
                Err(CompileError::ArithmeticOverflow)
            },
        },
        Op::Mul(l, r) => match (eval_node(*l), eval_node(*r)) {
            (Err(e), _) => Err(e),
            (_, Err(e)) => Err(e),
            (Ok(a), Ok(b)) => if fits_i32(a * b) {
                Ok(a * b)
            } else {
                Err(CompileError::ArithmeticOverflow)
            },
        },
        Op::Div(l, r) => match (eval_node(*l), eval_node(*r)) {
            (Err(e), _) => Err(e),
            (_, Err(e)) => Err(e),
            (Ok(a), Ok(b)) => if b == 0 {
                Err(CompileError::DivisionByZero)
            } else if fits_i32(trunc_div(a, b)) {
                Ok(trunc_div(a, b))
            } else {
                Err(CompileError::ArithmeticOverflow)
            },
        },
    }
}

/// Division truncates toward zero, matching native signed division: the
/// remainder `a - trunc_div(a, b) * b` is smaller in magnitude than the
/// divisor and never of the opposite sign to the dividend.
pub proof fn lemma_trunc_div_truncates(a: int, b: int)
    requires
        b != 0,
    ensures
        ({
            let r = a - trunc_div(a, b) * b;
            &&& (if b > 0 {
                -b < r < b
            } else {
                b < r < -b
            })
            &&& a >= 0 ==> r >= 0
            &&& a <= 0 ==> r <= 0
        }),
{
    let p = if a >= 0 {
        a
    } else {
        -a
    };
    let m = if b > 0 {
        b
    } else {
        -b
    };
    vstd::arithmetic::div_mod::lemma_fundamental_div_mod(p, m);
    vstd::arithmetic::div_mod::lemma_mod_division_less_than_divisor(p, m);
    vstd::arithmetic::div_mod::lemma_div_pos_is_pos(p, m);
    let k = p / m;
    let rr = p % m;
    if a == 0 {
    } else if a > 0 && b > 0 {
        assert(trunc_div(a, b) == k);
        assert(a - k * b == rr) by (nonlinear_arith)
            requires
                a == p && b == m && p == m * k + rr,
        ;
    } else if a < 0 && b < 0 {
        assert(trunc_div(a, b) == k);
        assert(a - k * b == -rr) by (nonlinear_arith)
            requires
                a == -p && b == -m && p == m * k + rr,
        ;
    } else if a < 0 {
        assert(trunc_div(a, b) == -k);
        assert(a - (-k) * b == -rr) by (nonlinear_arith)
            requires
                a == -p && b == m && p == m * k + rr,
        ;
    } else {
        assert(trunc_div(a, b) == -k);
        assert(a - (-k) * b == rr) by (nonlinear_arith)
            requires
                a == p && b == -m && p == m * k + rr,
        ;
    }
}

impl Node {
    /// Recursively evaluates the tree, surfacing division by zero and any
    /// result outside the signed 32-bit range as explicit errors.
    pub fn eval(&self) -> (r: Result<i32, CompileError>)
        ensures
            match r {
                Ok(v) => eval_node(*self) == Ok::<int, CompileError>(v as int),
                Err(e) => eval_node(*self) == Err::<int, CompileError>(e),
            },
        decreases *self,
    {
        match self {
            Node::Num(num) => Ok(*num),
            Node::Op(op) => match op {
                Op::Add(left, right) => {
                    let a = left.eval()?;
                    let b = right.eval()?;
                    match a.checked_add(b) {
                        Some(v) => Ok(v),
                        None => Err(CompileError::ArithmeticOverflow),
                    }
                },
                Op::Sub(left, right) => {
                    let a = left.eval()?;
                    let b = right.eval()?;
                    match a.checked_sub(b) {
                        Some(v) => Ok(v),
                        None => Err(CompileError::ArithmeticOverflow),
                    }
                },
                Op::Mul(left, right) => {
                    let a = left.eval()?;
                    let b = right.eval()?;
                    match a.checked_mul(b) {
                        Some(v) => Ok(v),
                        None => Err(CompileError::ArithmeticOverflow),
                    }
                },
                Op::Div(left, right) => {
                    let a = left.eval()?;
                    let b = right.eval()?;
                    if b == 0 {
                        Err(CompileError::DivisionByZero)
                    } else {
                        match a.checked_div(b) {
                            Some(v) => Ok(v),
                            None => Err(CompileError::ArithmeticOverflow),
                        }
                    }
                },
            },
        }
    }
}

} // verus!
