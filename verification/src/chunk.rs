//! Bytecode chunks: an ordered sequence of opcodes (an opcode taking an
//! immediate operand is followed by a `Byte` entry carrying it), a
//! parallel per-instruction line table for diagnostics, and an owned
//! constant pool addressed by one-byte indices.

use crate::value::{Value, ValueArray};
use vstd::prelude::*;

verus! {

/// How many constants a chunk can hold: a constant is addressed by a
/// one-byte operand, so indices run from 0 to 255.
pub const MAX_CONSTANTS: usize = 256;

/// One entry of the instruction sequence. `Byte` is not an instruction of
/// its own: it carries the operand of the preceding `OpConstant`.
#[derive(Debug, Clone, Copy, PartialEq, Eq, Structural)]
pub enum OpCode {
    Byte(u8),
    OpConstant,
    OpReturn,
    OpNegate,
    OpAdd,
    OpSub,
    OpMult,
    OpDiv,
}

/// A compiled unit: the instruction sequence, one source line per entry,
/// and the constant pool the instructions refer to.
#[derive(Debug)]
pub struct Chunk {
    pub code: Vec<OpCode>,
    pub value_array: ValueArray,
    pub lines: Vec<usize>,
}

impl Chunk {
    /// The chunk's invariant: the line table runs parallel to the code,
    /// and the constant pool stays within what one operand byte can address.
    pub open spec fn wf(self) -> bool {
        &&& self.lines@.len() == self.code@.len()
        &&& self.value_array@.len() <= MAX_CONSTANTS
    }

    /// The constant pool as a sequence.
    pub open spec fn consts(self) -> Seq<Value> {
        self.value_array@
    }

    /// A fresh, empty chunk.
    pub fn init() -> (r: Chunk)
        ensures
            r.wf(),
            r.code@ == Seq::<OpCode>::empty(),
            r.consts() == Seq::<Value>::empty(),
    {
        Chunk { code: Vec::new(), value_array: ValueArray::init(), lines: Vec::new() }
    }

    /// Appends one entry with the source line it came from.
    pub fn write_chunk(&mut self, op: OpCode, line: usize)
        requires
            old(self).wf(),
        ensures
            final(self).wf(),
            final(self).code@ == old(self).code@.push(op),
            final(self).consts() == old(self).consts(),
    {
        self.code.push(op);
        self.lines.push(line);
    }

    /// How many entries the instruction sequence holds.
    pub fn count(&self) -> (r: usize)
        ensures
            r == self.code@.len(),
    {
        self.code.len()
    }

    /// The entry at `offset`; the offset must be in bounds.
    pub fn get_instr(&self, offset: usize) -> (r: OpCode)
        requires
            offset < self.code@.len(),
        ensures
            r == self.code@[offset as int],
    {
        self.code[offset]
    }

    /// Appends a value to the constant pool and returns its index. A pool
    /// holding fewer than 256 values accepts the next one; a full pool
    /// rejects it, since its index could not be encoded in one operand
    /// byte.
    pub fn add_constant(&mut self, value: Value) -> (r: Option<u8>)
        requires
            old(self).wf(),
        ensures
            final(self).wf(),
            final(self).code@ == old(self).code@,
            old(self).consts().len() < MAX_CONSTANTS ==> (r == Some(
                old(self).consts().len() as u8,
            ) && final(self).consts() == old(self).consts().push(value)),
            old(self).consts().len() >= MAX_CONSTANTS ==> (r is None && final(self).consts()
                == old(self).consts()),
    {
        if self.value_array.count() >= MAX_CONSTANTS {
            return None;
        }
        self.value_array.write_value(value);
        Some((self.value_array.count() - 1) as u8)
    }

    /// The constant addressed by an operand entry; the entry must be a
    /// `Byte` holding an index into the pool.
    pub fn get_constant_val(&self, opcode: OpCode) -> (r: Value)
        requires
            opcode matches OpCode::Byte(k) && k < self.consts().len(),
        ensures
            (opcode matches OpCode::Byte(k) ==> r == self.consts()[k as int]),
    {
        let index: u8 = match opcode {
            OpCode::Byte(x) => x,
            _ => 0,
        };
        self.value_array.get_val(index as usize)
    }

    /// The source line of the entry at `offset`.
    pub fn get_line(&self, offset: usize) -> (r: usize)
        requires
            offset < self.lines@.len(),
        ensures
            r == self.lines@[offset as int],
    {
        self.lines[offset]
    }
}

} // verus!
