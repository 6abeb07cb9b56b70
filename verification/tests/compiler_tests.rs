use rlox::chunk::{Chunk, OpCode};
use rlox::compiler::Compiler;
use rlox::value::Value;

fn test_compiler_init_and_compile(source_code: String) -> Chunk {
    let mut compiler = Compiler::init(&source_code);
    let compile_result = compiler.compile();
    if !compile_result {
        panic!("Failed to parse this program: {:?}", source_code);
    }
    compiler.current_chunk()
}

fn compare_chunk(chunk: &Chunk, expected_code: &Vec<OpCode>, expected_value_array: &[f64]) {
    assert_eq!(expected_code.len(), chunk.count());
    for i in 0..expected_code.len() {
        assert_eq!(expected_code[i], chunk.get_instr(i));
        match expected_code[i] {
            OpCode::Byte(value_array_index) => {
                let v = chunk.get_constant_val(OpCode::Byte(value_array_index));
                assert!(v.is_num());
                assert_eq!(
                    f64::from_bits(v.as_num()),
                    expected_value_array[value_array_index as usize]
                );
            },
            _ => (),
        }
    }
}

#[test]
fn parse_unary() {
    let chunk = test_compiler_init_and_compile(String::from("-1"));
    let expected_code: Vec<OpCode> = Vec::from([
        OpCode::OpConstant,
        OpCode::Byte(0),
        OpCode::OpNegate,
        OpCode::OpReturn,
    ]);
    let expected_value_array: [f64; 1] = [1.0];
    compare_chunk(&chunk, &expected_code, &expected_value_array);
}

#[test]
fn parse_binary_add() {
    let chunk = test_compiler_init_and_compile(String::from("1+2"));
    let expected_code: Vec<OpCode> = Vec::from([
        OpCode::OpConstant,
        OpCode::Byte(0),
        OpCode::OpConstant,
        OpCode::Byte(1),
        OpCode::OpAdd,
        OpCode::OpReturn,
    ]);
    let expected_value_array: [f64; 2] = [1.0, 2.0];
    compare_chunk(&chunk, &expected_code, &expected_value_array)
}

#[test]
fn parse_binary_sub() {
    let chunk = test_compiler_init_and_compile(String::from("3-4"));
    let expected_code: Vec<OpCode> = Vec::from([
        OpCode::OpConstant,
        OpCode::Byte(0),
        OpCode::OpConstant,
        OpCode::Byte(1),
        OpCode::OpSub,
        OpCode::OpReturn,
    ]);
    let expected_value_array: [f64; 2] = [3.0, 4.0];
    compare_chunk(&chunk, &expected_code, &expected_value_array)
}

#[test]
fn parse_binary_mult() {
    let chunk = test_compiler_init_and_compile(String::from("5*6"));
    let expected_code: Vec<OpCode> = Vec::from([
        OpCode::OpConstant,
        OpCode::Byte(0),
        OpCode::OpConstant,
        OpCode::Byte(1),
        OpCode::OpMult,
        OpCode::OpReturn,
    ]);
    let expected_value_array: [f64; 2] = [5.0, 6.0];
    compare_chunk(&chunk, &expected_code, &expected_value_array)
}

#[test]
fn parse_binary_div() {
    let chunk = test_compiler_init_and_compile(String::from("7 / 8"));
    let expected_code: Vec<OpCode> = Vec::from([
        OpCode::OpConstant,
        OpCode::Byte(0),
        OpCode::OpConstant,
        OpCode::Byte(1),
        OpCode::OpDiv,
        OpCode::OpReturn,
    ]);
    let expected_value_array: [f64; 2] = [7.0, 8.0];
    compare_chunk(&chunk, &expected_code, &expected_value_array)
}

#[test]
fn parse_binary_nested() {
    let chunk = test_compiler_init_and_compile(String::from("1 + (2 - (3 * (4 / 5) ) )"));
    let expected_code: Vec<OpCode> = Vec::from([
        OpCode::OpConstant,
        OpCode::Byte(0),
        OpCode::OpConstant,
        OpCode::Byte(1),
        OpCode::OpConstant,
        OpCode::Byte(2),
        OpCode::OpConstant,
        OpCode::Byte(3),
        OpCode::OpConstant,
        OpCode::Byte(4),
        OpCode::OpDiv,
        OpCode::OpMult,
        OpCode::OpSub,
        OpCode::OpAdd,
        OpCode::OpReturn,
    ]);
    let expected_value_array: [f64; 5] = [1.0, 2.0, 3.0, 4.0, 5.0];
    compare_chunk(&chunk, &expected_code, &expected_value_array)
}

#[test]
fn parse_nested_variant_one() {
    let chunk = test_compiler_init_and_compile(String::from("1 + (2 - 3)  * 4"));
    let expected_code: Vec<OpCode> = Vec::from([
        OpCode::OpConstant,
        OpCode::Byte(0),
        OpCode::OpConstant,
        OpCode::Byte(1),
        OpCode::OpConstant,
        OpCode::Byte(2),
        OpCode::OpSub,
        OpCode::OpConstant,
        OpCode::Byte(3),
        OpCode::OpMult,
        OpCode::OpAdd,
        OpCode::OpReturn,
    ]);
    let expected_value_array: [f64; 4] = [1.0, 2.0, 3.0, 4.0];
    compare_chunk(&chunk, &expected_code, &expected_value_array);
}

#[test]
fn parse_nested_variant_two() {
    let chunk = test_compiler_init_and_compile(String::from("(1 + 3 * 4) + 5"));
    let expected_code: Vec<OpCode> = Vec::from([
        OpCode::OpConstant,
        OpCode::Byte(0),
        OpCode::OpConstant,
        OpCode::Byte(1),
        OpCode::OpConstant,
        OpCode::Byte(2),
        OpCode::OpMult,
        OpCode::OpAdd,
        OpCode::OpConstant,
        OpCode::Byte(3),
        OpCode::OpAdd,
        OpCode::OpReturn,
    ]);
    let expected_value_array: [f64; 4] = [1.0, 3.0, 4.0, 5.0];
    compare_chunk(&chunk, &expected_code, &expected_value_array);
}

#[test]
fn constant_pool_boundary() {
    let mut chunk = Chunk::init();
    for i in 0..255 {
        let r = chunk.add_constant(Value::num_val((i as f64).to_bits()));
        assert_eq!(r, Some(i as u8));
    }
    // a pool holding exactly 255 constants accepts one more
    assert_eq!(chunk.add_constant(Value::num_val(255.0f64.to_bits())), Some(255));
    // the next one must be rejected, not wrapped around
    assert_eq!(chunk.add_constant(Value::num_val(256.0f64.to_bits())), None);
}

#[test]
fn unterminated_string_diagnostic_line() {
    let source = String::from("\"a\nbc");
    let mut compiler = Compiler::init(&source);
    assert!(!compiler.compile());
    let diag = compiler.diagnostic.expect("failed compile must carry a diagnostic");
    assert_eq!(diag.line, 1);
    assert_eq!(diag.message, String::from("Unterminated string"));
}

#[test]
fn trailing_garbage_is_an_error() {
    let source = String::from("1 2");
    let mut compiler = Compiler::init(&source);
    assert!(!compiler.compile());
    assert!(compiler.diagnostic.is_some());
}

#[test]
fn missing_operand_is_an_error() {
    let source = String::from("1 +");
    let mut compiler = Compiler::init(&source);
    assert!(!compiler.compile());
    assert!(compiler.diagnostic.is_some());
}

#[test]
fn missing_close_paren_is_an_error() {
    let source = String::from("(1 + 2");
    let mut compiler = Compiler::init(&source);
    assert!(!compiler.compile());
    assert!(compiler.diagnostic.is_some());
}
