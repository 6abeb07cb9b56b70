use rlox::chunk::{Chunk, OpCode};
use rlox::stack::Stack;
use rlox::value::Value;
use rlox::vm::{InterpretResult, Vm};

#[test]
fn simple_chunk() {
    let mut chunk = Chunk::init();
    let mut constant = chunk.add_constant(Value::num_val(1.2f64.to_bits())).unwrap();
    chunk.write_chunk(OpCode::OpConstant, 123);
    chunk.write_chunk(OpCode::Byte(constant), 123);
    chunk.write_chunk(OpCode::OpNegate, 123);
    constant = chunk.add_constant(Value::num_val(3.4f64.to_bits())).unwrap();
    chunk.write_chunk(OpCode::OpConstant, 123);
    chunk.write_chunk(OpCode::Byte(constant), 123);
    chunk.write_chunk(OpCode::OpAdd, 123);
    constant = chunk.add_constant(Value::num_val(5.6f64.to_bits())).unwrap();
    chunk.write_chunk(OpCode::OpConstant, 123);
    chunk.write_chunk(OpCode::Byte(constant), 123);
    chunk.write_chunk(OpCode::OpDiv, 123);
    chunk.write_chunk(OpCode::OpReturn, 123);
    let mut vm = Vm::init(chunk);
    let res = vm.run();
    assert_eq!(res, InterpretResult::InterpretOk);
    let value = vm.result.expect("a halted run surfaces a value");
    assert!(value.is_num());
    assert_eq!(f64::from_bits(value.as_num()), (-1.2f64 + 3.4) / 5.6);
}

#[test]
fn empty_chunk_is_a_runtime_error() {
    let chunk = Chunk::init();
    let mut vm = Vm::init(chunk);
    assert_eq!(vm.run(), InterpretResult::InterpretRuntimeError);
}

#[test]
fn add_on_empty_stack_is_a_runtime_error() {
    let mut chunk = Chunk::init();
    chunk.write_chunk(OpCode::OpAdd, 1);
    chunk.write_chunk(OpCode::OpReturn, 1);
    let mut vm = Vm::init(chunk);
    assert_eq!(vm.run(), InterpretResult::InterpretRuntimeError);
}

#[test]
fn negate_on_boolean_is_a_type_error() {
    let mut chunk = Chunk::init();
    let idx = chunk.add_constant(Value::bool_val(true)).unwrap();
    chunk.write_chunk(OpCode::OpConstant, 1);
    chunk.write_chunk(OpCode::Byte(idx), 1);
    chunk.write_chunk(OpCode::OpNegate, 1);
    chunk.write_chunk(OpCode::OpReturn, 1);
    let mut vm = Vm::init(chunk);
    assert_eq!(vm.run(), InterpretResult::InterpretRuntimeError);
}

#[test]
fn missing_operand_byte_is_a_runtime_error() {
    let mut chunk = Chunk::init();
    chunk.write_chunk(OpCode::OpConstant, 1);
    chunk.write_chunk(OpCode::OpReturn, 1);
    let mut vm = Vm::init(chunk);
    assert_eq!(vm.run(), InterpretResult::InterpretRuntimeError);
}

#[test]
fn stack_push_pop_peek() {
    let mut stack: Stack<u64> = Stack::new(2);
    assert_eq!(stack.size(), 0);
    assert_eq!(stack.peek(), None);
    assert_eq!(stack.pop(), None);
    assert_eq!(stack.push(10), Ok(()));
    assert_eq!(stack.push(20), Ok(()));
    assert_eq!(stack.size(), 2);
    assert_eq!(stack.peek(), Some(&20));
    // the stack is full: a further push is rejected and changes nothing
    assert_eq!(stack.push(30), Err(()));
    assert_eq!(stack.size(), 2);
    assert_eq!(stack.pop(), Some(20));
    assert_eq!(stack.pop(), Some(10));
    assert_eq!(stack.pop(), None);
}

#[test]
fn value_tags_and_payloads() {
    let n = Value::num_val(2.5f64.to_bits());
    assert!(n.is_num());
    assert!(!n.is_bool());
    assert!(!n.is_nil());
    assert_eq!(f64::from_bits(n.as_num()), 2.5);
    let b = Value::bool_val(true);
    assert!(b.is_bool());
    assert!(b.as_bool());
    assert!(Value::nil_val().is_nil());
    assert!(Value::blank().is_nil());
}

#[test]
fn value_arithmetic_is_ieee() {
    let a = Value::num_val(0.1f64.to_bits());
    let b = Value::num_val(0.2f64.to_bits());
    assert_eq!(f64::from_bits(a.add(b).as_num()), 0.1f64 + 0.2f64);
    assert_eq!(f64::from_bits(a.sub(b).as_num()), 0.1f64 - 0.2f64);
    assert_eq!(f64::from_bits(a.mul(b).as_num()), 0.1f64 * 0.2f64);
    assert_eq!(f64::from_bits(a.div(b).as_num()), 0.1f64 / 0.2f64);
    assert_eq!(f64::from_bits(a.neg().as_num()), -0.1f64);
}

#[test]
fn fold_results_keeps_last_error() {
    let ok: core::fmt::Result = Ok(());
    let err: core::fmt::Result = Err(core::fmt::Error);
    assert_eq!(rlox::util::fold_results(Vec::new()), Ok(()));
    assert_eq!(rlox::util::fold_results(vec![ok, err, ok]), Ok(()));
    assert_eq!(rlox::util::fold_results(vec![ok, ok, err]), Err(core::fmt::Error));
}
