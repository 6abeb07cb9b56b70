//! The ghost model of arithmetic expressions. The compiler never builds a
//! tree at run time; it returns one as a ghost witness, and the contracts
//! of compiler and virtual machine meet in this model: the code the
//! compiler emits for an expression, and the value the machine computes
//! from that code.

use crate::chunk::OpCode;
use crate::value::{add_bits, div_bits, mul_bits, neg_bits, sub_bits, Value};
use vstd::prelude::*;

verus! {

/// A binary arithmetic operator.
#[derive(Clone, Copy)]
pub enum BinOp {
    Add,
    Sub,
    Mul,
    Div,
}

/// An arithmetic expression: a number literal (by its binary64 encoding),
/// a negation, or a binary operation. Grouping parentheses leave no trace
/// here: they only steer the parse.
pub enum Expr {
    Num(u64),
    Neg(Box<Expr>),
    Bin(BinOp, Box<Expr>, Box<Expr>),
}

/// The value of an expression under IEEE-754 binary64 arithmetic, as an
/// encoding.
pub open spec fn eval(e: Expr) -> u64
    decreases e,
{
    match e {
        Expr::Num(b) => b,
        Expr::Neg(x) => neg_bits(eval(*x)),
        Expr::Bin(op, l, r) => match op {
            BinOp::Add => add_bits(eval(*l), eval(*r)),
            BinOp::Sub => sub_bits(eval(*l), eval(*r)),
            BinOp::Mul => mul_bits(eval(*l), eval(*r)),
            BinOp::Div => div_bits(eval(*l), eval(*r)),
        },
    }
}

/// How many number literals the expression holds: each one takes one slot
/// of the constant pool.
pub open spec fn nlit(e: Expr) -> nat
    decreases e,
{
    match e {
        Expr::Num(_) => 1nat,
        Expr::Neg(x) => nlit(*x),
        Expr::Bin(_, l, r) => nlit(*l) + nlit(*r),
    }
}

/// Every expression holds at least one literal.
pub proof fn lemma_nlit_pos(e: Expr)
    ensures
        nlit(e) >= 1,
    decreases e,
{
    match e {
        Expr::Num(_) => {},
        Expr::Neg(x) => {
            lemma_nlit_pos(*x);
        },
        Expr::Bin(_, l, r) => {
            lemma_nlit_pos(*l);
            lemma_nlit_pos(*r);
        },
    }
}

/// The constant-pool entries of an expression, in the order the compiler
/// appends them: left to right.
pub open spec fn consts_of(e: Expr) -> Seq<u64>
    decreases e,
{
    match e {
        Expr::Num(b) => seq![b],
        Expr::Neg(x) => consts_of(*x),
        Expr::Bin(_, l, r) => consts_of(*l) + consts_of(*r),
    }
}

/// An expression holds as many constant-pool entries as literals.
pub proof fn lemma_consts_of_len(e: Expr)
    ensures
        consts_of(e).len() == nlit(e),
    decreases e,
{
    match e {
        Expr::Num(_) => {},
        Expr::Neg(x) => {
            lemma_consts_of_len(*x);
        },
        Expr::Bin(_, l, r) => {
            lemma_consts_of_len(*l);
            lemma_consts_of_len(*r);
        },
    }
}

/// The constant pool an expression compiles to, as runtime values.
pub open spec fn consts_values(e: Expr) -> Seq<Value> {
    consts_of(e).map_values(|b: u64| Value::Number(b))
}

/// The opcode the compiler emits for a binary operator.
pub open spec fn opcode_of(op: BinOp) -> OpCode {
    match op {
        BinOp::Add => OpCode::OpAdd,
        BinOp::Sub => OpCode::OpSub,
        BinOp::Mul => OpCode::OpMult,
        BinOp::Div => OpCode::OpDiv,
    }
}

/// The code the compiler emits for an expression whose first literal goes
/// to constant-pool slot `base`: operands first, operator last, exactly
/// the order a stack machine evaluates in.
pub open spec fn code_of(e: Expr, base: nat) -> Seq<OpCode>
    decreases e,
{
    match e {
        Expr::Num(_) => seq![OpCode::OpConstant, OpCode::Byte(base as u8)],
        Expr::Neg(x) => code_of(*x, base).push(OpCode::OpNegate),
        Expr::Bin(op, l, r) => code_of(*l, base) + code_of(*r, base + nlit(*l)) + seq![
            opcode_of(op),
        ],
    }
}

/// How many stack slots evaluating the expression takes: its operands are
/// computed left to right, the left one staying on the stack while the
/// right one is computed.
pub open spec fn stack_need(e: Expr) -> nat
    decreases e,
{
    match e {
        Expr::Num(_) => 1nat,
        Expr::Neg(x) => stack_need(*x),
        Expr::Bin(_, l, r) => vstd::math::max(
            stack_need(*l) as int,
            1 + stack_need(*r) as int,
        ) as nat,
    }
}

/// The number of literals bounds the expression's stack need: the deepest
/// chain of pending left operands is no longer than the literal count.
pub proof fn lemma_stack_need_le_nlit(e: Expr)
    ensures
        stack_need(e) <= nlit(e),
    decreases e,
{
    match e {
        Expr::Num(_) => {},
        Expr::Neg(x) => {
            lemma_stack_need_le_nlit(*x);
        },
        Expr::Bin(_, l, r) => {
            lemma_stack_need_le_nlit(*l);
            lemma_stack_need_le_nlit(*r);
            lemma_nlit_pos(*l);
        },
    }
}

} // verus!
