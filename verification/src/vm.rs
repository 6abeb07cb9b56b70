//! The virtual machine: a fetch-decode-execute loop over a chunk and a
//! fixed-capacity value stack. The loop is proved to follow the spec
//! interpreter [`spec_run`] exactly: every type error, stack bound
//! violation and malformed instruction is detected and reported, never
//! trusted away.

use crate::chunk::{Chunk, OpCode};
use crate::expr::{code_of, consts_of, consts_values, eval, lemma_consts_of_len, nlit, opcode_of, stack_need, BinOp, Expr};
use crate::stack::Stack;
use crate::value::{add_bits, div_bits, mul_bits, neg_bits, sub_bits, Value};
use crate::STACK_MAX;
use vstd::prelude::*;

verus! {

/// How execution of a chunk ends: a value surfaced by the terminal return
/// instruction, or a runtime fault (a type error, a stack bound
/// violation, a malformed instruction, or running off the end).
pub enum RunOutcome {
    Halt(Value),
    Fault,
}

/// The outcome of executing `code` from `ip` onward, over `consts`, with
/// the given value stack of capacity `cap`: one instruction per step,
/// until a return halts it or a fault ends it.
pub open spec fn spec_run(
    code: Seq<OpCode>,
    consts: Seq<Value>,
    ip: nat,
    stack: Seq<Value>,
    cap: nat,
) -> RunOutcome
    decreases code.len() - ip,
{
    if ip >= code.len() {
        RunOutcome::Fault
    } else {
        match code[ip as int] {
            OpCode::OpConstant => {
                if ip + 1 < code.len() {
                    match code[ip + 1 as int] {
                        OpCode::Byte(k) => {
                            if k < consts.len() && stack.len() < cap {
                                spec_run(
                                    code,
                                    consts,
                                    (ip + 2) as nat,
                                    stack.push(consts[k as int]),
                                    cap,
                                )
                            } else {
                                RunOutcome::Fault
                            }
                        },
                        _ => RunOutcome::Fault,
                    }
                } else {
                    RunOutcome::Fault
                }
            },
            OpCode::OpNegate => {
                if stack.len() >= 1 && (stack.last() matches Value::Number(n)) {
                    spec_run(
                        code,
                        consts,
                        (ip + 1) as nat,
                        stack.drop_last().push(Value::Number(neg_bits(stack.last()->Number_0))),
                        cap,
                    )
                } else {
                    RunOutcome::Fault
                }
            },
            OpCode::OpAdd | OpCode::OpSub | OpCode::OpMult | OpCode::OpDiv => {
                match binop_step(stack, code[ip as int]) {
                    Some(stack2) => spec_run(code, consts, (ip + 1) as nat, stack2, cap),
                    None => RunOutcome::Fault,
                }
            },
            OpCode::OpReturn => {
                if stack.len() >= 1 {
                    RunOutcome::Halt(stack.last())
                } else {
                    RunOutcome::Fault
                }
            },
            OpCode::Byte(_) => RunOutcome::Fault,
        }
    }
}

/// The binary64 encoding of applying an arithmetic opcode to two operand
/// encodings.
pub open spec fn binop_bits(op: OpCode, a: u64, b: u64) -> u64 {
    match op {
        OpCode::OpAdd => add_bits(a, b),
        OpCode::OpSub => sub_bits(a, b),
        OpCode::OpMult => mul_bits(a, b),
        OpCode::OpDiv => div_bits(a, b),
        _ => 0,
    }
}

/// One step of a binary arithmetic opcode on the value stack: the right
/// operand was pushed last; both operands must carry the number tag, else
/// there is no next stack.
pub open spec fn binop_step(stack: Seq<Value>, op: OpCode) -> Option<Seq<Value>> {
    if stack.len() >= 2 && (stack[stack.len() - 2] matches Value::Number(a)) && (stack[stack.len()
        - 1] matches Value::Number(b)) {
        Some(
            stack.take(stack.len() - 2).push(
                Value::Number(
                    binop_bits(op, stack[stack.len() - 2]->Number_0, stack[stack.len() - 1]->Number_0),
                ),
            ),
        )
    } else {
        None
    }
}

/// The result of a compile-and-run cycle, as seen by the caller.
#[derive(Debug, PartialEq, Eq, Structural, Clone, Copy)]
pub enum InterpretResult {
    InterpretOk,
    InterpretCompilerError,
    InterpretRuntimeError,
}

/// The virtual machine: the chunk it executes, an instruction pointer
/// into it, the value stack, and the value the terminal return surfaced.
pub struct Vm {
    pub chunk: Chunk,
    pub ip: usize,
    pub stack: Stack<Value>,
    pub result: Option<Value>,
}

impl Vm {
    /// The machine's invariant.
    pub open spec fn wf(self) -> bool {
        &&& self.chunk.wf()
        &&& self.stack.wf()
        &&& self.stack.max_size == STACK_MAX
    }

    /// A fresh machine owning `chunk`, about to execute its first
    /// instruction with an empty stack.
    pub fn init(chunk: Chunk) -> (r: Vm)
        requires
            chunk.wf(),
        ensures
            r.wf(),
            r.chunk == chunk,
            r.ip == 0,
            r.stack.items@ == Seq::<Value>::empty(),
            r.result is None,
    {
        Vm { chunk, ip: 0, stack: Stack::new(STACK_MAX), result: None }
    }

    /// Pushes a value onto the value stack; a full stack rejects it.
    pub fn push(&mut self, value: Value) -> (r: Result<(), ()>)
        requires
            old(self).wf(),
        ensures
            final(self).wf(),
            final(self).chunk == old(self).chunk,
            final(self).ip == old(self).ip,
            final(self).result == old(self).result,
            old(self).stack.items@.len() == STACK_MAX ==> (r is Err && final(self).stack.items@
                == old(self).stack.items@),
            old(self).stack.items@.len() < STACK_MAX ==> (r is Ok && final(self).stack.items@ == old(
                self,
            ).stack.items@.push(value)),
    {
        self.stack.push(value)
    }

    /// Pops the top value off the value stack; an empty stack yields
    /// `None`.
    pub fn pop(&mut self) -> (r: Option<Value>)
        requires
            old(self).wf(),
        ensures
            final(self).wf(),
            final(self).chunk == old(self).chunk,
            final(self).ip == old(self).ip,
            final(self).result == old(self).result,
            old(self).stack.items@.len() == 0 ==> (r is None && final(self).stack.items@ == old(
                self,
            ).stack.items@),
            old(self).stack.items@.len() > 0 ==> (r == Some(old(self).stack.items@.last())
                && final(self).stack.items@ == old(self).stack.items@.drop_last()),
    {
        self.stack.pop()
    }

    /// Fetches the entry under the instruction pointer and advances the
    /// pointer; `None` when the pointer ran off the end of the code.
    fn deref_ip(&mut self) -> (r: Option<OpCode>)
        requires
            old(self).wf(),
        ensures
            final(self).wf(),
            final(self).chunk == old(self).chunk,
            final(self).stack == old(self).stack,
            final(self).result == old(self).result,
            old(self).ip < old(self).chunk.code@.len() ==> (r == Some(
                old(self).chunk.code@[old(self).ip as int],
            ) && final(self).ip == old(self).ip + 1),
            old(self).ip >= old(self).chunk.code@.len() ==> (r is None && final(self).ip == old(
                self,
            ).ip),
    {
        if self.ip < self.chunk.count() {
            let op = self.chunk.get_instr(self.ip);
            self.ip += 1;
            Some(op)
        } else {
            None
        }
    }

    /// Runs the chunk to completion: the spec interpreter's verdict on
    /// the machine's starting state decides the result. A halt surfaces
    /// the returned value in `result`; every fault becomes a runtime
    /// error.
    pub fn run(&mut self) -> (r: InterpretResult)
        requires
            old(self).wf(),
        ensures
            final(self).wf(),
            final(self).chunk == old(self).chunk,
            ({
                let out = spec_run(
                    old(self).chunk.code@,
                    old(self).chunk.consts(),
                    old(self).ip as nat,
                    old(self).stack.items@,
                    STACK_MAX as nat,
                );
                match out {
                    RunOutcome::Halt(v) => r == InterpretResult::InterpretOk && final(self).result
                        == Some(v),
                    RunOutcome::Fault => r == InterpretResult::InterpretRuntimeError,
                }
            }),
    {
        loop
            invariant
                self.wf(),
                self.chunk == old(self).chunk,
                self.result == old(self).result,
                spec_run(
                    self.chunk.code@,
                    self.chunk.consts(),
                    self.ip as nat,
                    self.stack.items@,
                    STACK_MAX as nat,
                ) == spec_run(
                    old(self).chunk.code@,
                    old(self).chunk.consts(),
                    old(self).ip as nat,
                    old(self).stack.items@,
                    STACK_MAX as nat,
                ),
            decreases self.chunk.code@.len() - self.ip,
        {
            let ghost st0 = *self;
            let op = match self.deref_ip() {
                Some(op) => op,
                None => {
                    return InterpretResult::InterpretRuntimeError;
                },
            };
            match op {
                OpCode::OpConstant => {
                    let operand = match self.deref_ip() {
                        Some(o) => o,
                        None => {
                            return InterpretResult::InterpretRuntimeError;
                        },
                    };
                    let k = match operand {
                        OpCode::Byte(k) => k,
                        _ => {
                            return InterpretResult::InterpretRuntimeError;
                        },
                    };
                    if (k as usize) >= self.chunk.value_array.count() {
                        return InterpretResult::InterpretRuntimeError;
                    }
                    let v = self.chunk.get_constant_val(OpCode::Byte(k));
                    if self.push(v).is_err() {
                        return InterpretResult::InterpretRuntimeError;
                    }
                    proof {
                        assert(self.stack.items@ == st0.stack.items@.push(
                            st0.chunk.consts()[k as int],
                        ));
                    }
                },
                OpCode::OpNegate => {
                    let v = match self.pop() {
                        Some(v) => v,
                        None => {
                            return InterpretResult::InterpretRuntimeError;
                        },
                    };
                    if !v.is_num() {
                        return InterpretResult::InterpretRuntimeError;
                    }
                    if self.push(v.neg()).is_err() {
                        return InterpretResult::InterpretRuntimeError;
                    }
                },
                OpCode::OpAdd | OpCode::OpSub | OpCode::OpMult | OpCode::OpDiv => {
                    let b = match self.pop() {
                        Some(v) => v,
                        None => {
                            return InterpretResult::InterpretRuntimeError;
                        },
                    };
                    let a = match self.pop() {
                        Some(v) => v,
                        None => {
                            return InterpretResult::InterpretRuntimeError;
                        },
                    };
                    proof {
                        let s0 = st0.stack.items@;
                        assert(b == s0[s0.len() - 1]);
                        assert(a == s0.drop_last().last());
                        assert(a == s0[s0.len() - 2]);
                    }
                    if !a.is_num() || !b.is_num() {
                        return InterpretResult::InterpretRuntimeError;
                    }
                    let c = match op {
                        OpCode::OpAdd => a.add(b),
                        OpCode::OpSub => a.sub(b),
                        OpCode::OpMult => a.mul(b),
                        _ => a.div(b),
                    };
                    if self.push(c).is_err() {
                        return InterpretResult::InterpretRuntimeError;
                    }
                    proof {
                        let s0 = st0.stack.items@;
                        assert(self.stack.items@ =~= s0.take(s0.len() - 2).push(c));
                    }
                },
                OpCode::OpReturn => {
                    let v = match self.pop() {
                        Some(v) => v,
                        None => {
                            return InterpretResult::InterpretRuntimeError;
                        },
                    };
                    self.result = Some(v);
                    return InterpretResult::InterpretOk;
                },
                OpCode::Byte(_) => {
                    return InterpretResult::InterpretRuntimeError;
                },
            }
        }
    }
}

/// Straight-line execution of a code fragment holding no return: the
/// value stack it leaves behind, or nothing where it would fault.
pub open spec fn spec_exec(
    code: Seq<OpCode>,
    consts: Seq<Value>,
    stack: Seq<Value>,
    cap: nat,
) -> Option<Seq<Value>>
    decreases code.len(),
{
    if code.len() == 0 {
        Some(stack)
    } else {
        match code[0] {
            OpCode::OpConstant => {
                if code.len() >= 2 && (code[1] matches OpCode::Byte(k)) && code[1]->Byte_0
                    < consts.len() && stack.len() < cap {
                    spec_exec(
                        code.skip(2),
                        consts,
                        stack.push(consts[code[1]->Byte_0 as int]),
                        cap,
                    )
                } else {
                    None
                }
            },
            OpCode::OpNegate => {
                if stack.len() >= 1 && (stack.last() matches Value::Number(n)) {
                    spec_exec(
                        code.skip(1),
                        consts,
                        stack.drop_last().push(Value::Number(neg_bits(stack.last()->Number_0))),
                        cap,
                    )
                } else {
                    None
                }
            },
            OpCode::OpAdd | OpCode::OpSub | OpCode::OpMult | OpCode::OpDiv => {
                match binop_step(stack, code[0]) {
                    Some(stack2) => spec_exec(code.skip(1), consts, stack2, cap),
                    None => None,
                }
            },
            _ => None,
        }
    }
}

/// Straight-line execution composes: where `c1` runs through, running
/// `c1 + c2` is running `c1`, then running `c2` from the stack it left.
pub proof fn lemma_exec_append(
    c1: Seq<OpCode>,
    c2: Seq<OpCode>,
    consts: Seq<Value>,
    stack: Seq<Value>,
    cap: nat,
)
    requires
        spec_exec(c1, consts, stack, cap) is Some,
    ensures
        spec_exec(c1 + c2, consts, stack, cap) == spec_exec(
            c2,
            consts,
            spec_exec(c1, consts, stack, cap)->Some_0,
            cap,
        ),
    decreases c1.len(),
{
    if c1.len() == 0 {
        assert(c1 + c2 =~= c2);
    } else {
        assert((c1 + c2)[0] == c1[0]);
        match c1[0] {
            OpCode::OpConstant => {
                assert((c1 + c2)[1] == c1[1]);
                assert((c1 + c2).skip(2) =~= c1.skip(2) + c2);
                lemma_exec_append(
                    c1.skip(2),
                    c2,
                    consts,
                    stack.push(consts[c1[1]->Byte_0 as int]),
                    cap,
                );
            },
            OpCode::OpNegate => {
                assert((c1 + c2).skip(1) =~= c1.skip(1) + c2);
                lemma_exec_append(
                    c1.skip(1),
                    c2,
                    consts,
                    stack.drop_last().push(Value::Number(neg_bits(stack.last()->Number_0))),
                    cap,
                );
            },
            OpCode::OpAdd | OpCode::OpSub | OpCode::OpMult | OpCode::OpDiv => {
                assert((c1 + c2).skip(1) =~= c1.skip(1) + c2);
                lemma_exec_append(c1.skip(1), c2, consts, binop_step(stack, c1[0])->Some_0, cap);
            },
            _ => {},
        }
    }
}

/// The code compiled for an expression runs straight through: started on
/// any stack with room for the expression's need, it pushes exactly the
/// expression's IEEE-754 value and touches nothing beneath. The constant
/// pool must carry the expression's literals at the slots the code names.
#[verifier::rlimit(50)]
pub proof fn lemma_code_of_execs(
    e: Expr,
    base: nat,
    consts: Seq<Value>,
    stack: Seq<Value>,
    cap: nat,
)
    requires
        base + nlit(e) <= 256,
        base + nlit(e) <= consts.len(),
        consts.subrange(base as int, base + nlit(e) as int) == consts_values(e),
        stack.len() + stack_need(e) <= cap,
    ensures
        spec_exec(code_of(e, base), consts, stack, cap) == Some(
            stack.push(Value::Number(eval(e))),
        ),
    decreases e,
{
    lemma_consts_of_len(e);
    match e {
        Expr::Num(b) => {
            let code = code_of(e, base);
            assert(code.len() == 2);
            assert(code[0] == OpCode::OpConstant);
            assert(code[1] == OpCode::Byte(base as u8));
            assert(code[1]->Byte_0 == base);
            assert(consts[base as int] == consts_values(e)[0]);
            assert(consts[base as int] == Value::Number(b));
            assert(code.skip(2) =~= Seq::<OpCode>::empty());
            assert(spec_exec(code, consts, stack, cap) == Some(
                stack.push(Value::Number(eval(e))),
            )) by {
                reveal_with_fuel(spec_exec, 3);
            }
        },
        Expr::Neg(x) => {
            lemma_code_of_execs(*x, base, consts, stack, cap);
            let cx = code_of(*x, base);
            let tail = seq![OpCode::OpNegate];
            assert(code_of(e, base) =~= cx + tail);
            lemma_exec_append(cx, tail, consts, stack, cap);
            let s1 = stack.push(Value::Number(eval(*x)));
            assert(tail.len() == 1);
            assert(tail[0] == OpCode::OpNegate);
            assert(s1.len() >= 1 && s1.last() == Value::Number(eval(*x)));
            assert(tail.skip(1) =~= Seq::<OpCode>::empty());
            assert(s1.drop_last() =~= stack);
            assert(spec_exec(tail, consts, s1, cap) == Some(
                s1.drop_last().push(Value::Number(neg_bits(s1.last()->Number_0))),
            )) by {
                reveal_with_fuel(spec_exec, 3);
            }
            assert(spec_exec(tail, consts, s1, cap) == Some(
                stack.push(Value::Number(neg_bits(eval(*x)))),
            ));
        },
        Expr::Bin(op, l, r) => {
            lemma_consts_of_len(*l);
            lemma_consts_of_len(*r);
            let cl = code_of(*l, base);
            let cr = code_of(*r, base + nlit(*l));
            let tail = seq![opcode_of(op)];
            assert(code_of(e, base) =~= cl + (cr + tail)) by {
                assert(code_of(e, base) == cl + cr + tail);
                assert(cl + cr + tail =~= cl + (cr + tail));
            }
            assert(consts.subrange(base as int, base + nlit(*l) as int) =~= consts_values(*l)) by {
                assert(consts_values(e) =~= consts_values(*l) + consts_values(*r));
                assert forall|j: int| 0 <= j < nlit(*l) implies consts.subrange(
                    base as int,
                    base + nlit(*l) as int,
                )[j] == consts_values(*l)[j] by {
                    assert(consts.subrange(base as int, base + nlit(e) as int)[j]
                        == consts_values(e)[j]);
                }
            }
            lemma_code_of_execs(*l, base, consts, stack, cap);
            let s1 = stack.push(Value::Number(eval(*l)));
            assert(consts.subrange(base + nlit(*l) as int, base + nlit(e) as int)
                =~= consts_values(*r)) by {
                assert(consts_values(e) =~= consts_values(*l) + consts_values(*r));
                assert forall|j: int| 0 <= j < nlit(*r) implies consts.subrange(
                    base + nlit(*l) as int,
                    base + nlit(e) as int,
                )[j] == consts_values(*r)[j] by {
                    assert(consts.subrange(base as int, base + nlit(e) as int)[nlit(*l) + j]
                        == consts_values(e)[nlit(*l) + j]);
                }
            }
            lemma_code_of_execs(*r, (base + nlit(*l)) as nat, consts, s1, cap);
            let s2 = s1.push(Value::Number(eval(*r)));
            lemma_exec_append(cl, cr + tail, consts, stack, cap);
            lemma_exec_append(cr, tail, consts, s1, cap);
            assert(tail.skip(1) =~= Seq::<OpCode>::empty());
            assert(tail.len() == 1 && tail[0] == opcode_of(op));
            assert(binop_step(s2, opcode_of(op)) == Some(stack.push(Value::Number(eval(e)))))
                by {
                assert(s2[s2.len() - 2] == Value::Number(eval(*l)));
                assert(s2[s2.len() - 1] == Value::Number(eval(*r)));
                assert(s2.take(s2.len() - 2) =~= stack);
                assert(binop_bits(opcode_of(op), eval(*l), eval(*r)) == eval(e));
            }
            assert(spec_exec(tail, consts, s2, cap) == Some(
                stack.push(Value::Number(eval(e))),
            )) by {
                reveal_with_fuel(spec_exec, 3);
                assert(opcode_of(op) == OpCode::OpAdd || opcode_of(op) == OpCode::OpSub
                    || opcode_of(op) == OpCode::OpMult || opcode_of(op) == OpCode::OpDiv);
            }
        },
    }
}

/// Stepping the machine through a code segment that runs straight
/// through: the run from its start equals the run from its end, on the
/// stack the segment leaves.
pub proof fn lemma_run_after_exec(
    code: Seq<OpCode>,
    consts: Seq<Value>,
    ip: nat,
    stack: Seq<Value>,
    cap: nat,
    seg: Seq<OpCode>,
)
    requires
        ip + seg.len() <= code.len(),
        code.subrange(ip as int, ip + seg.len() as int) == seg,
        spec_exec(seg, consts, stack, cap) is Some,
    ensures
        spec_run(code, consts, ip, stack, cap) == spec_run(
            code,
            consts,
            (ip + seg.len()) as nat,
            spec_exec(seg, consts, stack, cap)->Some_0,
            cap,
        ),
    decreases seg.len(),
{
    if seg.len() == 0 {
    } else {
        assert(code[ip as int] == seg[0]);
        match seg[0] {
            OpCode::OpConstant => {
                assert(code[ip + 1 as int] == seg[1]);
                assert(code.subrange(ip + 2 as int, ip + seg.len() as int) =~= seg.skip(2));
                lemma_run_after_exec(
                    code,
                    consts,
                    (ip + 2) as nat,
                    stack.push(consts[seg[1]->Byte_0 as int]),
                    cap,
                    seg.skip(2),
                );
            },
            OpCode::OpNegate => {
                assert(code.subrange(ip + 1 as int, ip + seg.len() as int) =~= seg.skip(1));
                lemma_run_after_exec(
                    code,
                    consts,
                    (ip + 1) as nat,
                    stack.drop_last().push(Value::Number(neg_bits(stack.last()->Number_0))),
                    cap,
                    seg.skip(1),
                );
            },
            OpCode::OpAdd | OpCode::OpSub | OpCode::OpMult | OpCode::OpDiv => {
                assert(code.subrange(ip + 1 as int, ip + seg.len() as int) =~= seg.skip(1));
                lemma_run_after_exec(
                    code,
                    consts,
                    (ip + 1) as nat,
                    binop_step(stack, seg[0])->Some_0,
                    cap,
                    seg.skip(1),
                );
            },
            _ => {},
        }
    }
}

/// The virtual machine computes exactly the value of the compiled
/// expression, and never under- or overflows its stack doing so: run on
/// the code and constant pool compiled for an expression whose stack need
/// stays within the machine's capacity, execution halts (no stack bound
/// is ever hit, no operand is mistyped, no instruction malformed) and the
/// surfaced value is the expression's, under IEEE-754 binary64 arithmetic
/// with the conventional precedence the compiler's parse gave it.
pub proof fn lemma_compiled_expr_runs(e: Expr, consts: Seq<Value>, cap: nat)
    requires
        nlit(e) <= 256,
        stack_need(e) <= cap,
        consts == consts_values(e),
    ensures
        spec_run(
            code_of(e, 0) + seq![OpCode::OpReturn],
            consts,
            0,
            Seq::<Value>::empty(),
            cap,
        ) == RunOutcome::Halt(Value::Number(eval(e))),
{
    let c = code_of(e, 0);
    let full = c + seq![OpCode::OpReturn];
    lemma_consts_of_len(e);
    assert(consts.subrange(0, nlit(e) as int) =~= consts_values(e));
    lemma_code_of_execs(e, 0, consts, Seq::<Value>::empty(), cap);
    assert(full.subrange(0, c.len() as int) =~= c);
    lemma_run_after_exec(full, consts, 0, Seq::<Value>::empty(), cap, c);
    let s = Seq::<Value>::empty().push(Value::Number(eval(e)));
    assert(full[c.len() as int] == OpCode::OpReturn);
    assert(spec_run(full, consts, c.len() as nat, s, cap) == RunOutcome::Halt(
        Value::Number(eval(e)),
    ));
}

} // verus!


