use vstd::prelude::*;
use crate::value::{Value, ValueArray};

verus! {

/// One decoded instruction with its inlined operand. Constant-pool operands
/// are byte sized; jump operands are 16-bit forward distances.
#[derive(Debug, Clone, Copy, PartialEq, Eq, Structural)]
pub enum OpCode {
    Constant(u8),
    Nil,
    True,
    False,
    Pop,
    GetLocal(u8),
    GetGlobal(u8),
    DefineGlobal(u8),
    SetLocal(u8),
    SetGlobal(u8),
    Equal,
    Greater,
    Less,
    Add,
    Subtract,
    Multiply,
    Divide,
    Not,
    Negate,
    Print,
    Jump(u16),
    JumpIfFalse(u16),
    Return,
}

/// The compiled artifact: the opcode stream, a parallel table giving the
/// source line of each opcode, and the constant pool.
#[derive(Debug, Clone)]
pub struct Chunk {
    pub code: Vec<OpCode>,
    pub lines: Vec<usize>,
    pub constants: ValueArray,
}

/// Well-formedness of a single opcode at position `pc` of a chunk whose code
/// has `code_len` entries and whose constant pool has `n_consts` entries:
/// every constant-pool operand is in range, and every jump lands inside the
/// code (at `pc + o + 1 <= code_len`, the instruction executed after a taken
/// jump at `pc` with operand `o`).
pub open spec fn op_wf(op: OpCode, pc: int, code_len: int, n_consts: int) -> bool {
    match op {
        OpCode::Constant(i) => (i as int) < n_consts,
        OpCode::GetGlobal(i) => (i as int) < n_consts,
        OpCode::DefineGlobal(i) => (i as int) < n_consts,
        OpCode::SetGlobal(i) => (i as int) < n_consts,
        OpCode::Jump(o) => pc + (o as int) < code_len,
        OpCode::JumpIfFalse(o) => pc + (o as int) < code_len,
        _ => true,
    }
}

/// Well-formedness of a whole chunk: one line entry per opcode, and every
/// opcode well formed at its position.
pub open spec fn chunk_wf(c: Chunk) -> bool {
    &&& c.code@.len() == c.lines@.len()
    &&& forall|pc: int|
        0 <= pc < c.code@.len() ==> op_wf(
            #[trigger] c.code@[pc],
            pc,
            c.code@.len() as int,
            c.constants.values@.len() as int,
        )
}

impl Chunk {
    pub fn new() -> (r: Chunk)
        ensures
            r.code@ =~= Seq::<OpCode>::empty(),
            r.lines@ =~= Seq::<usize>::empty(),
            r.constants.values@ =~= Seq::<Value>::empty(),
            chunk_wf(r),
    {
        Chunk { code: Vec::new(), lines: Vec::new(), constants: ValueArray::new() }
    }

    pub fn write_chunk(&mut self, byte: OpCode, line: usize)
        ensures
            final(self).code@ =~= old(self).code@.push(byte),
            final(self).lines@ =~= old(self).lines@.push(line),
            final(self).constants == old(self).constants,
    {
        self.code.push(byte);
        self.lines.push(line);
    }

    /// Appends a value to the constant pool and returns its index.
    pub fn add_constant(&mut self, value: Value) -> (idx: usize)
        ensures
            final(self).constants.values@ =~= old(self).constants.values@.push(value),
            final(self).code == old(self).code,
            final(self).lines == old(self).lines,
            idx == old(self).constants.values@.len(),
    {
        self.constants.write_value_array(value);
        self.constants.len() - 1
    }
}

/// Growing the constant pool, or appending an opcode that is itself well
/// formed in the grown chunk, never breaks the well-formedness of the
/// opcodes already emitted.
pub proof fn lemma_chunk_wf_grow(old_c: Chunk, new_c: Chunk)
    requires
        chunk_wf(old_c),
        old_c.code@.len() <= new_c.code@.len(),
        old_c.constants.values@.len() <= new_c.constants.values@.len(),
        forall|pc: int| 0 <= pc < old_c.code@.len() ==> new_c.code@[pc] == old_c.code@[pc],
        forall|pc: int|
            old_c.code@.len() <= pc < new_c.code@.len() ==> op_wf(
                #[trigger] new_c.code@[pc],
                pc,
                new_c.code@.len() as int,
                new_c.constants.values@.len() as int,
            ),
        new_c.code@.len() == new_c.lines@.len(),
    ensures
        chunk_wf(new_c),
{
    assert forall|pc: int| 0 <= pc < new_c.code@.len() implies op_wf(
        #[trigger] new_c.code@[pc],
        pc,
        new_c.code@.len() as int,
        new_c.constants.values@.len() as int,
    ) by {
        if pc < old_c.code@.len() {
            assert(op_wf(
                old_c.code@[pc],
                pc,
                old_c.code@.len() as int,
                old_c.constants.values@.len() as int,
            ));
        }
    }
}

} // verus!
