//! Runtime values: a tagged sum over nil, booleans and IEEE-754 binary64
//! numbers. A number is carried as its 64-bit encoding, so that the
//! arithmetic on it can be pinned down exactly while the library itself
//! stays within integer reasoning; the operations themselves are performed
//! by the `rustc_apfloat` software implementation of IEEE-754.

use vstd::prelude::*;

verus! {

/// The IEEE-754 binary64 sum of two numbers given by their bit encodings
/// (round to nearest, ties to even).
pub uninterp spec fn add_bits(a: u64, b: u64) -> u64;

/// The IEEE-754 binary64 difference of two numbers given by their bit encodings.
pub uninterp spec fn sub_bits(a: u64, b: u64) -> u64;

/// The IEEE-754 binary64 product of two numbers given by their bit encodings.
pub uninterp spec fn mul_bits(a: u64, b: u64) -> u64;

/// The IEEE-754 binary64 quotient of two numbers given by their bit encodings.
pub uninterp spec fn div_bits(a: u64, b: u64) -> u64;

/// The IEEE-754 binary64 negation of a number given by its bit encoding.
pub uninterp spec fn neg_bits(a: u64) -> u64;

/// Relies on rustc_apfloat::ieee::Double: addition of two binary64 values,
/// round to nearest even, a function of the two encodings alone.
#[verifier::external_body]
pub(crate) fn exec_add_bits(a: u64, b: u64) -> (r: u64)
    ensures
        r == add_bits(a, b),
{
    let x = <rustc_apfloat::ieee::Double as rustc_apfloat::Float>::from_bits(a as u128);
    let y = <rustc_apfloat::ieee::Double as rustc_apfloat::Float>::from_bits(b as u128);
    rustc_apfloat::Float::to_bits((x + y).value) as u64
}

/// Relies on rustc_apfloat::ieee::Double: subtraction of two binary64 values,
/// round to nearest even, a function of the two encodings alone.
#[verifier::external_body]
pub(crate) fn exec_sub_bits(a: u64, b: u64) -> (r: u64)
    ensures
        r == sub_bits(a, b),
{
    let x = <rustc_apfloat::ieee::Double as rustc_apfloat::Float>::from_bits(a as u128);
    let y = <rustc_apfloat::ieee::Double as rustc_apfloat::Float>::from_bits(b as u128);
    rustc_apfloat::Float::to_bits((x - y).value) as u64
}

/// Relies on rustc_apfloat::ieee::Double: multiplication of two binary64
/// values, round to nearest even, a function of the two encodings alone.
#[verifier::external_body]
pub(crate) fn exec_mul_bits(a: u64, b: u64) -> (r: u64)
    ensures
        r == mul_bits(a, b),
{
    let x = <rustc_apfloat::ieee::Double as rustc_apfloat::Float>::from_bits(a as u128);
    let y = <rustc_apfloat::ieee::Double as rustc_apfloat::Float>::from_bits(b as u128);
    rustc_apfloat::Float::to_bits((x * y).value) as u64
}

/// Relies on rustc_apfloat::ieee::Double: division of two binary64 values,
/// round to nearest even, a function of the two encodings alone. Division
/// by zero follows IEEE-754 (an infinity or NaN encoding comes back).
#[verifier::external_body]
pub(crate) fn exec_div_bits(a: u64, b: u64) -> (r: u64)
    ensures
        r == div_bits(a, b),
{
    let x = <rustc_apfloat::ieee::Double as rustc_apfloat::Float>::from_bits(a as u128);
    let y = <rustc_apfloat::ieee::Double as rustc_apfloat::Float>::from_bits(b as u128);
    rustc_apfloat::Float::to_bits((x / y).value) as u64
}

/// Relies on rustc_apfloat::ieee::Double: negation of a binary64 value
/// (the sign bit flips), a function of the encoding alone.
#[verifier::external_body]
pub(crate) fn exec_neg_bits(a: u64) -> (r: u64)
    ensures
        r == neg_bits(a),
{
    let x = <rustc_apfloat::ieee::Double as rustc_apfloat::Float>::from_bits(a as u128);
    rustc_apfloat::Float::to_bits(-x) as u64
}

/// What a decimal numeric literal parses to: the binary64 encoding of
/// the written number, rounded to nearest (ties to even), or nothing
/// where the text is not a number.
pub uninterp spec fn float_bits_of(s: Seq<char>) -> Option<u64>;

/// Relies on rustc_apfloat's Double::from_str: correctly-rounded decimal
/// parsing (round to nearest, ties to even), a function of the
/// characters alone. A text of decimal digits with at most one interior
/// dot is always accepted by that parser, so such a lexeme always yields
/// a value.
#[verifier::external_body]
pub(crate) fn parse_float_bits(s: &str) -> (r: Option<u64>)
    ensures
        r == float_bits_of(s@),
        crate::scanner::is_number_lexeme(s@) ==> r is Some,
{
    match <rustc_apfloat::ieee::Double as core::str::FromStr>::from_str(s) {
        Ok(v) => Some(rustc_apfloat::Float::to_bits(v) as u64),
        Err(_) => None,
    }
}

/// A runtime value: the tagged union over nil, booleans and numbers.
/// The `u64` payload of `Number` is the IEEE-754 binary64 encoding.
#[derive(Debug, Clone, Copy, PartialEq, Eq, Structural)]
pub enum Value {
    Nil,
    Boolean(bool),
    Number(u64),
}

impl Value {
    /// A fresh nil value.
    pub fn blank() -> (r: Value)
        ensures
            r == Value::Nil,
    {
        Value::Nil
    }

    /// The boolean value carrying `value`.
    pub fn bool_val(value: bool) -> (r: Value)
        ensures
            r == Value::Boolean(value),
    {
        Value::Boolean(value)
    }

    /// The nil value.
    pub fn nil_val() -> (r: Value)
        ensures
            r == Value::Nil,
    {
        Value::Nil
    }

    /// The number whose binary64 encoding is `bits`.
    pub fn num_val(bits: u64) -> (r: Value)
        ensures
            r == Value::Number(bits),
    {
        Value::Number(bits)
    }

    /// The boolean payload; only a `Boolean` value carries one.
    pub fn as_bool(&self) -> (r: bool)
        requires
            self is Boolean,
        ensures
            *self == Value::Boolean(r),
    {
        match self {
            Value::Boolean(b) => *b,
            _ => false,
        }
    }

    /// The binary64 encoding of the number; only a `Number` value carries one.
    pub fn as_num(&self) -> (r: u64)
        requires
            self is Number,
        ensures
            *self == Value::Number(r),
    {
        match self {
            Value::Number(bits) => *bits,
            _ => 0,
        }
    }

    /// Whether the value carries the boolean tag.
    pub fn is_bool(&self) -> (r: bool)
        ensures
            r == (self is Boolean),
    {
        matches!(self, Value::Boolean(_))
    }

    /// Whether the value carries the number tag.
    pub fn is_num(&self) -> (r: bool)
        ensures
            r == (self is Number),
    {
        matches!(self, Value::Number(_))
    }

    /// Whether the value carries the nil tag.
    pub fn is_nil(&self) -> (r: bool)
        ensures
            r == (self is Nil),
    {
        matches!(self, Value::Nil)
    }

    /// The IEEE-754 sum of two numbers.
    pub fn add(self, rhs: Value) -> (r: Value)
        requires
            self is Number,
            rhs is Number,
        ensures
            r == Value::Number(add_bits(self->Number_0, rhs->Number_0)),
    {
        Value::Number(exec_add_bits(self.as_num(), rhs.as_num()))
    }

    /// The IEEE-754 difference of two numbers.
    pub fn sub(self, rhs: Value) -> (r: Value)
        requires
            self is Number,
            rhs is Number,
        ensures
            r == Value::Number(sub_bits(self->Number_0, rhs->Number_0)),
    {
        Value::Number(exec_sub_bits(self.as_num(), rhs.as_num()))
    }

    /// The IEEE-754 product of two numbers.
    pub fn mul(self, rhs: Value) -> (r: Value)
        requires
            self is Number,
            rhs is Number,
        ensures
            r == Value::Number(mul_bits(self->Number_0, rhs->Number_0)),
    {
        Value::Number(exec_mul_bits(self.as_num(), rhs.as_num()))
    }

    /// The IEEE-754 quotient of two numbers; division by zero yields the
    /// IEEE infinity or NaN encoding, never an error.
    pub fn div(self, rhs: Value) -> (r: Value)
        requires
            self is Number,
            rhs is Number,
        ensures
            r == Value::Number(div_bits(self->Number_0, rhs->Number_0)),
    {
        Value::Number(exec_div_bits(self.as_num(), rhs.as_num()))
    }

    /// The IEEE-754 negation of a number.
    pub fn neg(self) -> (r: Value)
        requires
            self is Number,
        ensures
            r == Value::Number(neg_bits(self->Number_0)),
    {
        Value::Number(exec_neg_bits(self.as_num()))
    }
}

/// The ordered, append-only table of constants a chunk refers to by index.
#[derive(Debug, Clone)]
pub struct ValueArray {
    pub values: Vec<Value>,
}

impl View for ValueArray {
    type V = Seq<Value>;

    open spec fn view(&self) -> Seq<Value> {
        self.values@
    }
}

impl ValueArray {
    /// A fresh, empty table.
    pub fn init() -> (r: ValueArray)
        ensures
            r@ == Seq::<Value>::empty(),
    {
        ValueArray { values: Vec::new() }
    }

    /// Appends one value at the end of the table.
    pub fn write_value(&mut self, value: Value)
        ensures
            final(self)@ == old(self)@.push(value),
    {
        self.values.push(value);
    }

    /// How many values the table holds.
    pub fn count(&self) -> (r: usize)
        ensures
            r == self@.len(),
    {
        self.values.len()
    }

    /// The value at `index`; the index must be in bounds.
    pub fn get_val(&self, index: usize) -> (r: Value)
        requires
            index < self@.len(),
        ensures
            r == self@[index as int],
    {
        self.values[index]
    }
}

} // verus!
