//! A single-pass expression compiler paired with a stack-based bytecode
//! virtual machine: source text is scanned into tokens, parsed with
//! operator-precedence parsing directly into a linear instruction stream,
//! and that stream is executed by a fetch-decode-execute loop over an
//! explicit value stack.
//!
//! The compiler is proved to succeed exactly where the spec-level parse
//! does and to emit exactly the parsed expression's code; the machine is
//! proved to follow the spec interpreter exactly; and the two halves meet
//! in [`lemma_interpret_evaluates`]: every expression that compiles runs
//! to exactly its IEEE-754 value, with no stack fault on the way.

pub mod chunk;
pub mod compiler;
pub mod expr;
pub mod scanner;
pub mod stack;
pub mod util;
pub mod value;
pub mod vm;

use crate::chunk::OpCode;
use crate::compiler::{compiles, sp_compile, Compiler};
use crate::expr::{code_of, consts_values, eval, lemma_stack_need_le_nlit};
use crate::value::Value;
use crate::vm::{lemma_compiled_expr_runs, spec_run, InterpretResult, RunOutcome, Vm};
use vstd::prelude::*;

verus! {

/// Capacity of the virtual machine's value stack.
pub const STACK_MAX: usize = 256;

/// Compiles one source string and, where compilation succeeds, runs the
/// chunk: the expression's value on success, or the kind of error that
/// ended the cycle. No failure crosses this boundary any other way.
pub fn compile_and_run(source: &String) -> (r: Result<Value, InterpretResult>)
    requires
        source@.len() < usize::MAX,
    ensures
        (!compiles(source@, 0, 1) ==> r == Err::<Value, InterpretResult>(
            InterpretResult::InterpretCompilerError,
        )),
        (compiles(source@, 0, 1) ==> (sp_compile(source@, 0, 1) matches Some(p) && ({
            let out = spec_run(
                code_of(p.e, 0) + seq![OpCode::OpReturn],
                consts_values(p.e),
                0,
                Seq::<Value>::empty(),
                STACK_MAX as nat,
            );
            match out {
                RunOutcome::Halt(v) => r == Ok::<Value, InterpretResult>(v),
                RunOutcome::Fault => r == Err::<Value, InterpretResult>(
                    InterpretResult::InterpretRuntimeError,
                ),
            }
        }))),
{
    let mut parser = Compiler::init(source);
    if !parser.compile() {
        return Err(InterpretResult::InterpretCompilerError);
    }
    let chunk = parser.current_chunk();
    let mut machine = Vm::init(chunk);
    let res = machine.run();
    match res {
        InterpretResult::InterpretOk => match machine.result {
            Some(v) => Ok(v),
            None => Err(InterpretResult::InterpretRuntimeError),
        },
        _ => Err(InterpretResult::InterpretRuntimeError),
    }
}

/// Compiles and runs one source string, reporting only how the cycle
/// ended.
pub fn interpret(s: &String) -> (r: InterpretResult)
    requires
        s@.len() < usize::MAX,
    ensures
        (!compiles(s@, 0, 1) ==> r == InterpretResult::InterpretCompilerError),
        (compiles(s@, 0, 1) ==> (sp_compile(s@, 0, 1) matches Some(p) && ({
            let out = spec_run(
                code_of(p.e, 0) + seq![OpCode::OpReturn],
                consts_values(p.e),
                0,
                Seq::<Value>::empty(),
                STACK_MAX as nat,
            );
            match out {
                RunOutcome::Halt(v) => r == InterpretResult::InterpretOk,
                RunOutcome::Fault => r == InterpretResult::InterpretRuntimeError,
            }
        }))),
{
    match compile_and_run(s) {
        Ok(_) => InterpretResult::InterpretOk,
        Err(e) => e,
    }
}

/// The compile-and-run cycle computes exactly the value of the source
/// expression: whenever a source compiles, running its chunk halts — the
/// value stack never under- or overflows, since an expression whose
/// literals fit the constant pool needs no more stack than the machine
/// has — and the value surfaced is the expression's under IEEE-754
/// binary64 arithmetic, with conventional precedence and left
/// associativity as the parse model gives it. Together with the contract
/// of [`compile_and_run`], the result there is exactly
/// `Ok(Value::Number(eval(p.e)))`.
pub proof fn lemma_interpret_evaluates(src: Seq<char>)
    requires
        compiles(src, 0, 1),
    ensures
        (sp_compile(src, 0, 1) matches Some(p) && spec_run(
            code_of(p.e, 0) + seq![OpCode::OpReturn],
            consts_values(p.e),
            0,
            Seq::<Value>::empty(),
            STACK_MAX as nat,
        ) == RunOutcome::Halt(Value::Number(eval(p.e)))),
{
    let p = sp_compile(src, 0, 1)->Some_0;
    lemma_stack_need_le_nlit(p.e);
    lemma_compiled_expr_runs(p.e, consts_values(p.e), STACK_MAX as nat);
}

} // verus!
