use vstd::prelude::*;

verus! {

/// A runtime value of the language. Numbers are IEEE-754 binary64 and are
/// carried as their 64-bit pattern; the arithmetic on them lives in `num`.
/// A string value is a handle into the interning `Table`: two string values
/// with the same text share the same handle.
#[derive(Debug, Clone, Copy, PartialEq, Eq, Structural)]
pub enum Value {
    Boolean(bool),
    Number(u64),
    Nil,
    Str(usize),
}

impl Value {
    /// A value is falsy exactly when it is `Nil` or `Boolean(false)`;
    /// every other value, zero and the empty string included, is truthy.
    pub open spec fn spec_is_falsey(self) -> bool {
        self == Value::Nil || self == Value::Boolean(false)
    }
}

/// The constant pool of a chunk: an append-only table of values, indexed by
/// the byte operand of an opcode.
#[derive(Debug, Clone)]
pub struct ValueArray {
    pub values: Vec<Value>,
}

impl ValueArray {
    pub fn new() -> (r: ValueArray)
        ensures
            r.values@ =~= Seq::<Value>::empty(),
    {
        ValueArray { values: Vec::new() }
    }

    pub fn write_value_array(&mut self, value: Value)
        ensures
            final(self).values@ =~= old(self).values@.push(value),
    {
        self.values.push(value);
    }

    pub fn len(&self) -> (n: usize)
        ensures
            n == self.values@.len(),
    {
        self.values.len()
    }
}

} // verus!
