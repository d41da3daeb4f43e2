//! Code generation: trees to the instruction sequence.
//!
//! A literal leaf becomes a load of its value into the accumulator; an
//! operator node becomes one instruction of the matching kind that still
//! carries its two operand subtrees unevaluated — folding them to a
//! literal is deferred to emission.
use vstd::prelude::*;

use crate::ast::Node;
use crate::ast::Op;

verus! {

/// The generator's intermediate representation: a literal load into the
/// accumulator, or an operator instruction carrying the two operand
/// subtrees it will fold at emission time.
#[derive(Debug, PartialEq, Eq)]
pub enum Instruction {
    Mov(i32),
    Add(Box<Node>, Box<Node>),
    Sub(Box<Node>, Box<Node>),
    Mul(Box<Node>, Box<Node>),
    Div(Box<Node>, Box<Node>),
}

/// The one instruction that a tree compiles to.
pub open spec fn instr_of_node(n: Node) -> Instruction {
    match n {
        Node::Num(v) => Instruction::Mov(v),
        Node::Op(op) => match op {
            Op::Add(l, r) => Instruction::Add(l, r),
            Op::Sub(l, r) => Instruction::Sub(l, r),
            Op::Mul(l, r) => Instruction::Mul(l, r),
            Op::Div(l, r) => Instruction::Div(l, r),
        },
    }
}

/// The instruction sequence for a sequence of trees, in order.
pub open spec fn gen_instrs(nodes: Seq<Node>) -> Seq<Instruction> {
    nodes.map_values(|n: Node| instr_of_node(n))
}

/// Converts each tree into its one instruction, in emission order.
pub fn emit(tokens: Vec<Node>) -> (r: Vec<Instruction>)
    ensures
        r@ == gen_instrs(tokens@),
{
    let ghost orig = tokens@;
    let mut rest = tokens;
    let mut instructions: Vec<Instruction> = Vec::new();
    while rest.len() > 0
        invariant
            instructions@.len() + rest@.len() == orig.len(),
            rest@ == orig.skip(instructions@.len() as int),
            forall|t: int|
                0 <= t < instructions@.len() ==> instructions@[t] == instr_of_node(orig[t]),
        decreases rest@.len(),
    {
        let ghost done = instructions@.len() as int;
        let token = rest.remove(0);
        proof {
            assert(token == orig[done]);
            assert(rest@ =~= orig.skip(done + 1));
        }
        let ins = match token {
            Node::Num(num) => Instruction::Mov(num),
            Node::Op(op) => match op {
                Op::Add(left, right) => Instruction::Add(left, right),
                Op::Sub(left, right) => Instruction::Sub(left, right),
                Op::Mul(left, right) => Instruction::Mul(left, right),
                Op::Div(left, right) => Instruction::Div(left, right),
            },
        };
        instructions.push(ins);
    }
    proof {
        assert(instructions@ =~= gen_instrs(orig));
    }
    instructions
}

} // verus!
