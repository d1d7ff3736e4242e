use vstd::prelude::*;
use vstd::string::StringExecFns;
use crate::chunk::{chunk_wf, Chunk, OpCode};
use crate::compiler::Compiler;
use crate::num::{
    add_bits, decimal_string, div_bits, eq_bits, gt_bits, is_nan_bits, lt_bits, mul_bits,
    neg_bits, num_add, num_div, num_eq, num_gt, num_lt, num_mul, num_neg, num_sub, render_number,
    rendered_bits, spec_decimal, sub_bits,
};
use crate::object::Object;
use crate::table::{spec_intern_index, spec_intern_pool, table_wf, Table};
use crate::value::Value;

verus! {

#[derive(Debug, Clone, Copy, PartialEq, Eq, Structural)]
pub enum InterpretError {
    CompileError,
    RuntimeError,
}

/// Structural equality of two runtime values: same tag and same payload.
/// Numbers compare by IEEE-754 equality; strings, being interned, compare
/// by handle.
pub open spec fn sp_values_equal(a: Value, b: Value) -> bool {
    match (a, b) {
        (Value::Boolean(x), Value::Boolean(y)) => x == y,
        (Value::Number(x), Value::Number(y)) => eq_bits(x, y),
        (Value::Nil, Value::Nil) => true,
        (Value::Str(i), Value::Str(j)) => i == j,
        _ => false,
    }
}

/// How a value prints: numbers in decimal, booleans as `true`/`false`,
/// `nil`, and a string as its text. A number's rendering is the decimal
/// form named by `rendered_bits`: always enough digits to round-trip the
/// value, which for a fraction with no exact binary representation can be
/// more digits than the shortest form, and scientific notation for
/// extreme magnitudes - not always the host formatter's shortest output.
pub open spec fn sp_format(v: Value, pool: Seq<Seq<char>>) -> Seq<char> {
    match v {
        Value::Nil => "nil"@,
        Value::Boolean(b) => if b {
            "true"@
        } else {
            "false"@
        },
        Value::Number(n) => rendered_bits(n),
        Value::Str(i) => if (i as int) < pool.len() {
            pool[i as int]
        } else {
            Seq::empty()
        },
    }
}

/// The position of a key in the globals, scanning from `i`.
pub open spec fn gfind(g: Seq<(usize, Value)>, k: usize, i: int) -> Option<int>
    decreases g.len() - i,
{
    if i < 0 || i >= g.len() {
        None
    } else if g[i].0 == k {
        Some(i)
    } else {
        gfind(g, k, i + 1)
    }
}

/// The trailer of a runtime error report.
pub open spec fn sp_line_msg(line: nat) -> Seq<char> {
    "[line "@ + spec_decimal(line) + "] in script"@
}

/// The whole observable state of the machine, as one value.
#[verifier::ext_equal]
pub struct VmState {
    pub code: Seq<OpCode>,
    pub lines: Seq<usize>,
    pub consts: Seq<Value>,
    pub ip: int,
    pub stack: Seq<Value>,
    pub pool: Seq<Seq<char>>,
    pub globals: Seq<(usize, Value)>,
    pub output: Seq<Seq<char>>,
    pub errors: Seq<Seq<char>>,
}

#[derive(PartialEq, Eq, Structural)]
pub enum VmOutcome {
    Done,
    Fault,
}

/// A runtime error: both report lines pushed, the stack cleared.
pub open spec fn sp_runtime_error(st: VmState, msg: Seq<char>) -> VmState {
    let line = if st.ip < st.lines.len() {
        st.lines[st.ip] as nat
    } else {
        0
    };
    VmState {
        stack: Seq::empty(),
        errors: st.errors.push(msg).push(sp_line_msg(line)),
        ..st
    }
}

/// An internal fault: an opcode found the stack or an operand out of
/// shape. The compiler never emits such code; the machine stops without a
/// report, clearing the stack.
pub open spec fn sp_internal(st: VmState) -> (VmState, VmOutcome) {
    (VmState { stack: Seq::empty(), ..st }, VmOutcome::Fault)
}

/// How far the machine still has to run; every step moves `ip` forward,
/// jumps included, so this shrinks.
pub open spec fn vm_measure(st: VmState) -> int {
    if st.ip < st.code.len() {
        st.code.len() - st.ip
    } else {
        0
    }
}

/// The reference machine: runs the state to completion and yields the
/// final state and whether it halted cleanly or faulted.
pub open spec fn spec_run(st: VmState) -> (VmState, VmOutcome)
    decreases vm_measure(st), 1int,
{
    if !(0 <= st.ip < st.code.len()) {
        (st, VmOutcome::Done)
    } else {
        let op = st.code[st.ip];
        match op {
            OpCode::Constant(i) => if (i as int) < st.consts.len() {
                spec_run(
                    VmState {
                        ip: st.ip + 1,
                        stack: st.stack.push(st.consts[i as int]),
                        ..st
                    },
                )
            } else {
                sp_internal(st)
            },
            OpCode::Nil => spec_run(
                VmState { ip: st.ip + 1, stack: st.stack.push(Value::Nil), ..st },
            ),
            OpCode::True => spec_run(
                VmState { ip: st.ip + 1, stack: st.stack.push(Value::Boolean(true)), ..st },
            ),
            OpCode::False => spec_run(
                VmState { ip: st.ip + 1, stack: st.stack.push(Value::Boolean(false)), ..st },
            ),
            OpCode::Pop => if st.stack.len() >= 1 {
                spec_run(VmState { ip: st.ip + 1, stack: st.stack.drop_last(), ..st })
            } else {
                sp_internal(st)
            },
            OpCode::GetLocal(s) => if (s as int) < st.stack.len() {
                spec_run(
                    VmState {
                        ip: st.ip + 1,
                        stack: st.stack.push(st.stack[s as int]),
                        ..st
                    },
                )
            } else {
                sp_internal(st)
            },
            OpCode::SetLocal(s) => if (s as int) < st.stack.len() && st.stack.len() >= 1 {
                spec_run(
                    VmState {
                        ip: st.ip + 1,
                        stack: st.stack.update(s as int, st.stack.last()),
                        ..st
                    },
                )
            } else {
                sp_internal(st)
            },
            OpCode::GetGlobal(i) => if (i as int) < st.consts.len() && (st.consts[i as int] matches
            Value::Str(h)) {
                let h = st.consts[i as int]->Str_0;
                match gfind(st.globals, h, 0) {
                    Some(j) => spec_run(
                        VmState {
                            ip: st.ip + 1,
                            stack: st.stack.push(st.globals[j].1),
                            ..st
                        },
                    ),
                    None => (
                        sp_runtime_error(
                            st,
                            "Undefined variable '"@ + (if (h as int) < st.pool.len() {
                                st.pool[h as int]
                            } else {
                                Seq::empty()
                            }) + "'."@,
                        ),
                        VmOutcome::Fault,
                    ),
                }
            } else {
                sp_internal(st)
            },
            OpCode::DefineGlobal(i) => if (i as int) < st.consts.len() && (
            st.consts[i as int] matches Value::Str(h)) && st.stack.len() >= 1 {
                let h = st.consts[i as int]->Str_0;
                let v = st.stack.last();
                let g = match gfind(st.globals, h, 0) {
                    Some(j) => st.globals.update(j, (h, v)),
                    None => st.globals.push((h, v)),
                };
                spec_run(
                    VmState { ip: st.ip + 1, stack: st.stack.drop_last(), globals: g, ..st },
                )
            } else {
                sp_internal(st)
            },
            OpCode::SetGlobal(i) => if (i as int) < st.consts.len() && (st.consts[i as int] matches
            Value::Str(h)) && st.stack.len() >= 1 {
                let h = st.consts[i as int]->Str_0;
                match gfind(st.globals, h, 0) {
                    Some(j) => spec_run(
                        VmState {
                            ip: st.ip + 1,
                            globals: st.globals.update(j, (h, st.stack.last())),
                            ..st
                        },
                    ),
                    None => (
                        sp_runtime_error(
                            st,
                            "Undefined variable '"@ + (if (h as int) < st.pool.len() {
                                st.pool[h as int]
                            } else {
                                Seq::empty()
                            }) + "'."@,
                        ),
                        VmOutcome::Fault,
                    ),
                }
            } else {
                sp_internal(st)
            },
            OpCode::Equal => if st.stack.len() >= 2 {
                let a = st.stack.last();
                let b = st.stack.drop_last().last();
                spec_run(
                    VmState {
                        ip: st.ip + 1,
                        stack: st.stack.drop_last().drop_last().push(
                            Value::Boolean(sp_values_equal(a, b)),
                        ),
                        ..st
                    },
                )
            } else {
                sp_internal(st)
            },
            OpCode::Greater => sp_num_binop(st, OpCode::Greater),
            OpCode::Less => sp_num_binop(st, OpCode::Less),
            OpCode::Subtract => sp_num_binop(st, OpCode::Subtract),
            OpCode::Multiply => sp_num_binop(st, OpCode::Multiply),
            OpCode::Divide => sp_num_binop(st, OpCode::Divide),
            OpCode::Add => if st.stack.len() >= 2 && (st.stack.drop_last().last() matches
            Value::Str(ia)) {
                let b = st.stack.last();
                let a = st.stack.drop_last().last();
                match a {
                    Value::Str(ia) => match b {
                        Value::Str(ib) => {
                            let text = (if (ia as int) < st.pool.len() {
                                st.pool[ia as int]
                            } else {
                                Seq::empty()
                            }) + (if (ib as int) < st.pool.len() {
                                st.pool[ib as int]
                            } else {
                                Seq::empty()
                            });
                            spec_run(
                                VmState {
                                    ip: st.ip + 1,
                                    stack: st.stack.drop_last().drop_last().push(
                                        Value::Str(spec_intern_index(st.pool, text) as usize),
                                    ),
                                    pool: spec_intern_pool(st.pool, text),
                                    ..st
                                },
                            )
                        },
                        _ => (
                            sp_runtime_error(
                                VmState {
                                    stack: st.stack.drop_last().drop_last(),
                                    ..st
                                },
                                "Operands must be strings."@,
                            ),
                            VmOutcome::Fault,
                        ),
                    },
                    _ => sp_internal(st),
                }
            } else {
                sp_num_binop(st, OpCode::Add)
            },
            OpCode::Not => if st.stack.len() >= 1 {
                spec_run(
                    VmState {
                        ip: st.ip + 1,
                        stack: st.stack.drop_last().push(
                            Value::Boolean(st.stack.last().spec_is_falsey()),
                        ),
                        ..st
                    },
                )
            } else {
                sp_internal(st)
            },
            OpCode::Negate => if st.stack.len() >= 1 {
                match st.stack.last() {
                    Value::Number(n) => spec_run(
                        VmState {
                            ip: st.ip + 1,
                            stack: st.stack.drop_last().push(Value::Number(neg_bits(n))),
                            ..st
                        },
                    ),
                    _ => (
                        sp_runtime_error(
                            VmState { stack: st.stack.drop_last(), ..st },
                            "Operand must be a number."@,
                        ),
                        VmOutcome::Fault,
                    ),
                }
            } else {
                sp_internal(st)
            },
            OpCode::Print => if st.stack.len() >= 1 {
                spec_run(
                    VmState {
                        ip: st.ip + 1,
                        stack: st.stack.drop_last(),
                        output: st.output.push(sp_format(st.stack.last(), st.pool)),
                        ..st
                    },
                )
            } else {
                sp_internal(st)
            },
            OpCode::Jump(o) => spec_run(VmState { ip: sp_jump_target(st, o), ..st }),
            OpCode::JumpIfFalse(o) => if st.stack.len() >= 1 {
                if st.stack.last().spec_is_falsey() {
                    spec_run(VmState { ip: sp_jump_target(st, o), ..st })
                } else {
                    spec_run(VmState { ip: st.ip + 1, ..st })
                }
            } else {
                sp_internal(st)
            },
            OpCode::Return => (st, VmOutcome::Done),
        }
    }
}

/// Where a taken jump lands: just past the operand's distance, capped at
/// the end of the code (where the machine halts).
pub open spec fn sp_jump_target(st: VmState, o: u16) -> int {
    if st.ip + o + 1 >= st.code.len() {
        st.code.len() as int
    } else {
        st.ip + o + 1
    }
}

/// One numeric two-operand opcode: both operands must be numbers, the
/// top of the stack being the right one.
pub open spec fn sp_num_binop(st: VmState, op: OpCode) -> (VmState, VmOutcome)
    decreases vm_measure(st), 0int,
{
    if !(0 <= st.ip < st.code.len()) {
        sp_internal(st)
    } else if st.stack.len() >= 1 {
        let b = st.stack.last();
        let after_b = st.stack.drop_last();
        match b {
            Value::Number(nb) => if after_b.len() < 1 {
                sp_internal(st)
            } else {
                let a = after_b.last();
                match a {
                    Value::Number(na) => {
                        let res = match op {
                            OpCode::Add => Value::Number(add_bits(na, nb)),
                            OpCode::Subtract => Value::Number(sub_bits(na, nb)),
                            OpCode::Multiply => Value::Number(mul_bits(na, nb)),
                            OpCode::Divide => Value::Number(div_bits(na, nb)),
                            OpCode::Greater => Value::Boolean(gt_bits(na, nb)),
                            OpCode::Less => Value::Boolean(lt_bits(na, nb)),
                            _ => Value::Nil,
                        };
                        spec_run(
                            VmState {
                                ip: st.ip + 1,
                                stack: after_b.drop_last().push(res),
                                ..st
                            },
                        )
                    },
                    _ => (
                        sp_runtime_error(
                            VmState { stack: after_b.drop_last(), ..st },
                            "Operands must be numbers."@,
                        ),
                        VmOutcome::Fault,
                    ),
                }
            },
            _ => (
                sp_runtime_error(
                    VmState { stack: after_b, ..st },
                    "Operands must be numbers."@,
                ),
                VmOutcome::Fault,
            ),
        }
    } else {
        sp_internal(st)
    }
}

/// The virtual machine: the chunk being executed, the instruction
/// pointer, the value stack, the interned strings, the global bindings,
/// and what the program wrote: printed lines, runtime error reports, and
/// the compile diagnostics of the last `interpret`.
pub struct VM {
    chunk: Chunk,
    ip: usize,
    stack: Vec<Value>,
    strings: Table,
    globals: Vec<(usize, Value)>,
    output: Vec<String>,
    errors: Vec<String>,
    diagnostics: Vec<String>,
}

impl VM {
    /// The machine's state as a mathematical value.
    pub closed spec fn st(self) -> VmState {
        VmState {
            code: self.chunk.code@,
            lines: self.chunk.lines@,
            consts: self.chunk.constants.values@,
            ip: self.ip as int,
            stack: self.stack@,
            pool: self.strings@,
            globals: self.globals@,
            output: self.output@.map(|i: int, s: String| s@),
            errors: self.errors@.map(|i: int, s: String| s@),
        }
    }

    pub closed spec fn tbl(self) -> Table {
        self.strings
    }

    pub closed spec fn chunk_of(self) -> Chunk {
        self.chunk
    }

    pub closed spec fn cdiags(self) -> Seq<Seq<char>> {
        self.diagnostics@.map(|i: int, s: String| s@)
    }

    pub fn new() -> (r: VM)
        ensures
            r.st().code =~= Seq::<OpCode>::empty(),
            r.st().stack =~= Seq::<Value>::empty(),
            r.st().pool =~= Seq::<Seq<char>>::empty(),
            r.st().globals =~= Seq::<(usize, Value)>::empty(),
            r.st().output =~= Seq::<Seq<char>>::empty(),
            r.st().errors =~= Seq::<Seq<char>>::empty(),
            table_wf(r.tbl()),
    {
        let r = VM {
            chunk: Chunk::new(),
            ip: 0,
            stack: Vec::new(),
            strings: Table::new(),
            globals: Vec::new(),
            output: Vec::new(),
            errors: Vec::new(),
            diagnostics: Vec::new(),
        };
        proof {
            assert(r.st().output =~= Seq::<Seq<char>>::empty());
            assert(r.st().errors =~= Seq::<Seq<char>>::empty());
        }
        r
    }

    /// Interns a string and hands back the value holding its handle: two
    /// calls with the same text yield the same handle.
    pub fn new_string(&mut self, s: String) -> (v: Value)
        ensures
            v == Value::Str(spec_intern_index(old(self).tbl()@, s@) as usize),
            final(self).tbl()@ == spec_intern_pool(old(self).tbl()@, s@),
            table_wf(old(self).tbl()) ==> table_wf(final(self).tbl()),
            v matches Value::Str(h) && (h as int) < final(self).tbl()@.len() && final(self).tbl()@[v->Str_0 as int] == s@,
    {
        let handle = self.strings.intern(s);
        Value::Str(handle)
    }

    /// What the program printed, one line per `print`.
    pub fn output(&self) -> (r: &Vec<String>)
        ensures
            r@.map(|i: int, s: String| s@) == self.st().output,
    {
        &self.output
    }

    /// The runtime error report of the last run, if any.
    pub fn errors(&self) -> (r: &Vec<String>)
        ensures
            r@.map(|i: int, s: String| s@) == self.st().errors,
    {
        &self.errors
    }

    /// The compile diagnostics of the last `interpret`.
    pub fn diagnostics(&self) -> (r: &Vec<String>)
        ensures
            r@.map(|i: int, s: String| s@) == self.cdiags(),
    {
        &self.diagnostics
    }

    /// The chunk most recently executed.
    pub fn chunk(&self) -> (r: &Chunk)
        ensures
            *r == self.chunk_of(),
    {
        &self.chunk
    }

    /// The text of an interned string value, for callers that hold a
    /// handle.
    pub fn string_text(&self, v: &Value) -> (r: Option<&Object>)
        ensures
            match r {
                Some(o) => v matches Value::Str(h) && (h as int) < self.tbl()@.len() && o@
                    == self.tbl()@[v->Str_0 as int],
                None => !(v matches Value::Str(h) && (h as int) < self.tbl()@.len()),
            },
    {
        match v {
            Value::Str(h) => {
                if *h < self.strings.len() {
                    Some(self.strings.get(*h))
                } else {
                    None
                }
            },
            _ => None,
        }
    }

    fn reset_stack(&mut self)
        ensures
            final(self).st() == (VmState { stack: Seq::empty(), ..old(self).st() }),
            final(self).tbl() == old(self).tbl(),
            final(self).chunk_of() == old(self).chunk_of(),
            final(self).cdiags() == old(self).cdiags(),
    {
        self.stack.clear();
    }

    fn push(&mut self, value: Value)
        ensures
            final(self).st() == (VmState {
                stack: old(self).st().stack.push(value),
                ..old(self).st()
            }),
            final(self).tbl() == old(self).tbl(),
            final(self).chunk_of() == old(self).chunk_of(),
            final(self).cdiags() == old(self).cdiags(),
    {
        self.stack.push(value);
    }

    fn pop(&mut self) -> (r: Option<Value>)
        ensures
            old(self).st().stack.len() == 0 ==> (r is None && final(self).st() == old(self).st()),
            old(self).st().stack.len() >= 1 ==> (r == Some(old(self).st().stack.last()) && final(self).st() == (VmState { stack: old(self).st().stack.drop_last(), ..old(self).st() })),
            final(self).tbl() == old(self).tbl(),
            final(self).chunk_of() == old(self).chunk_of(),
            final(self).cdiags() == old(self).cdiags(),
    {
        let r = self.stack.pop();
        proof {
            if old(self).st().stack.len() >= 1 {
                assert(self.stack@ =~= old(self).st().stack.drop_last());
            } else {
                assert(self.st() =~= old(self).st());
            }
        }
        r
    }

    /// Reports a runtime error: the message, then the line of the
    /// offending instruction, and the stack is cleared.
    fn runtime_error(&mut self, message: &str)
        ensures
            final(self).st() == sp_runtime_error(old(self).st(), message@),
            final(self).tbl() == old(self).tbl(),
            final(self).chunk_of() == old(self).chunk_of(),
            final(self).cdiags() == old(self).cdiags(),
    {
        let ghost st0 = self.st();
        self.errors.push(message.to_owned());
        let line: usize = if self.ip < self.chunk.lines.len() {
            self.chunk.lines[self.ip]
        } else {
            0
        };
        let mut t = String::new();
        t.append("[line ");
        let num = decimal_string(line);
        t.append(num.as_str());
        t.append("] in script");
        proof {
            reveal_strlit("[line ");
            reveal_strlit("] in script");
            assert(t@ =~= sp_line_msg(line as nat));
        }
        self.errors.push(t);
        self.stack.clear();
        proof {
            assert(self.errors@.map(|i: int, s: String| s@) =~= st0.errors.push(message@).push(
                sp_line_msg(line as nat),
            ));
            assert(self.st() =~= sp_runtime_error(st0, message@));
        }
    }

    /// The position of a global binding, scanning from the front.
    fn find_global(&self, key: usize) -> (r: Option<usize>)
        ensures
            match r {
                Some(j) => gfind(self.st().globals, key, 0) == Some(j as int) && (j as int)
                    < self.st().globals.len() && self.st().globals[j as int].0 == key,
                None => gfind(self.st().globals, key, 0) is None,
            },
    {
        let n = self.globals.len();
        let mut j: usize = 0;
        loop
            invariant
                n == self.globals@.len(),
                j <= n,
                gfind(self.globals@, key, 0) == gfind(self.globals@, key, j as int),
            decreases n - j,
        {
            if j >= n {
                return None;
            }
            if self.globals[j].0 == key {
                return Some(j);
            }
            j = j + 1;
        }
    }

    /// How a value prints.
    fn format_value(&self, v: Value) -> (s: String)
        ensures
            s@ == sp_format(v, self.st().pool),
    {
        match v {
            Value::Nil => {
                proof {
                    reveal_strlit("nil");
                }
                "nil".to_owned()
            },
            Value::Boolean(b) => {
                proof {
                    reveal_strlit("true");
                    reveal_strlit("false");
                }
                if b {
                    "true".to_owned()
                } else {
                    "false".to_owned()
                }
            },
            Value::Number(n) => render_number(n),
            Value::Str(i) => {
                if i < self.strings.len() {
                    match self.strings.get(i) {
                        Object::String(t) => t.clone(),
                    }
                } else {
                    String::new()
                }
            },
        }
    }
}

/// Every string value in sight holds a live handle into the pool.
pub open spec fn state_strings_ok(st: VmState) -> bool {
    &&& (forall|i: int|
        0 <= i < st.stack.len() ==> ((#[trigger] st.stack[i]) matches Value::Str(h) ==> (
        h as int) < st.pool.len()))
    &&& (forall|i: int|
        0 <= i < st.consts.len() ==> ((#[trigger] st.consts[i]) matches Value::Str(h) ==> (
        h as int) < st.pool.len()))
    &&& (forall|i: int|
        0 <= i < st.globals.len() ==> ((#[trigger] st.globals[i]).1 matches Value::Str(h) ==> (
        h as int) < st.pool.len()))
}

impl VM {
    /// The report of a read or write of a global nobody defined.
    fn undefined_var_message(&self, h: usize) -> (m: String)
        ensures
            m@ == "Undefined variable '"@ + (if (h as int) < self.st().pool.len() {
                self.st().pool[h as int]
            } else {
                Seq::<char>::empty()
            }) + "'."@,
    {
        let mut m = String::new();
        m.append("Undefined variable '");
        if h < self.strings.len() {
            match self.strings.get(h) {
                Object::String(t) => m.append(t.as_str()),
            }
        }
        m.append("'.");
        proof {
            reveal_strlit("Undefined variable '");
            reveal_strlit("'.");
            if (h as int) >= self.st().pool.len() {
                assert(m@ =~= "Undefined variable '"@ + Seq::<char>::empty() + "'."@);
            }
        }
        m
    }

    /// One numeric two-operand opcode: pops the right then the left
    /// operand, both of which must be numbers, and pushes the result.
    fn number_binop(&mut self, op: OpCode) -> (r: Result<(), InterpretError>)
        requires
            0 <= old(self).st().ip < old(self).st().code.len(),
        ensures
            ({
                let step = sp_num_binop(old(self).st(), op);
                &&& (r is Ok ==> step == spec_run(final(self).st()))
                &&& (r is Ok ==> final(self).st().ip == old(self).st().ip + 1 && final(
                self).st().code == old(self).st().code)
                &&& (r matches Err(e) ==> e == InterpretError::RuntimeError && step == (
                final(self).st(), VmOutcome::Fault))
            }),
            final(self).chunk_of() == old(self).chunk_of(),
            final(self).cdiags() == old(self).cdiags(),
            final(self).tbl() == old(self).tbl(),
            final(self).keeps(*old(self)),
    {
        let ghost st0 = self.st();
        let _len = self.chunk.code.len();
        let popped_b = self.pop();
        match popped_b {
            None => {
                self.reset_stack();
                proof {
                    assert(st0.stack.len() == 0);
                    assert(sp_num_binop(st0, op) == sp_internal(st0));
                    assert(self.st() =~= sp_internal(st0).0);
                }
                return Err(InterpretError::RuntimeError);
            },
            Some(bv) => {
                match bv {
                    Value::Number(nb) => {
                        let popped_a = self.pop();
                        match popped_a {
                            None => {
                                self.reset_stack();
                                proof {
                                    assert(st0.stack.len() == 1);
                                    assert(sp_num_binop(st0, op) == sp_internal(st0));
                                    assert(self.st() =~= sp_internal(st0).0);
                                }
                                return Err(InterpretError::RuntimeError);
                            },
                            Some(av) => {
                                match av {
                                    Value::Number(na) => {
                                        let res: Value = match op {
                                            OpCode::Add => Value::Number(num_add(na, nb)),
                                            OpCode::Subtract => Value::Number(num_sub(na, nb)),
                                            OpCode::Multiply => Value::Number(num_mul(na, nb)),
                                            OpCode::Divide => Value::Number(num_div(na, nb)),
                                            OpCode::Greater => Value::Boolean(num_gt(na, nb)),
                                            OpCode::Less => Value::Boolean(num_lt(na, nb)),
                                            _ => Value::Nil,
                                        };
                                        self.push(res);
                                        self.ip = self.ip + 1;
                                        proof {
                                            assert(self.st() =~= (VmState {
                                                ip: st0.ip + 1,
                                                stack: st0.stack.drop_last().drop_last().push(
                                                    res,
                                                ),
                                                ..st0
                                            }));
                                            assert(sp_num_binop(st0, op) == spec_run(self.st()));
                                        }
                                        Ok(())
                                    },
                                    _ => {
                                        self.runtime_error("Operands must be numbers.");
                                        proof {
                                            assert(self.st() == sp_runtime_error(
                                                VmState {
                                                    stack: st0.stack.drop_last().drop_last(),
                                                    ..st0
                                                },
                                                "Operands must be numbers."@,
                                            ));
                                            assert(sp_num_binop(st0, op) == (
                                            self.st(),
                                            VmOutcome::Fault,
                                            ));
                                        }
                                        Err(InterpretError::RuntimeError)
                                    },
                                }
                            },
                        }
                    },
                    _ => {
                        self.runtime_error("Operands must be numbers.");
                        proof {
                            assert(self.st() == sp_runtime_error(
                                VmState { stack: st0.stack.drop_last(), ..st0 },
                                "Operands must be numbers."@,
                            ));
                            assert(sp_num_binop(st0, op) == (self.st(), VmOutcome::Fault));
                        }
                        Err(InterpretError::RuntimeError)
                    },
                }
            },
        }
    }
}

impl VM {
    /// What every step of the machine preserves: the chunk and the
    /// compile diagnostics; the interning invariant; the pool only grows;
    /// and string handles stay live.
    pub open spec fn keeps(self, o: VM) -> bool {
        &&& self.chunk_of() == o.chunk_of()
        &&& self.cdiags() == o.cdiags()
        &&& (table_wf(o.tbl()) ==> table_wf(self.tbl()))
        &&& o.st().pool.len() <= self.st().pool.len()
        &&& (forall|i: int| 0 <= i < o.st().pool.len() ==> self.st().pool[i] == o.st().pool[i])
        &&& o.st().output.len() <= self.st().output.len()
        &&& (forall|i: int|
            0 <= i < o.st().output.len() ==> self.st().output[i] == o.st().output[i])
        &&& (state_strings_ok(o.st()) ==> state_strings_ok(self.st()))
    }

    #[verifier::rlimit(60)]
    fn step_stack(&mut self, op: OpCode) -> (r: Result<(), InterpretError>)
        requires
            0 <= old(self).st().ip < old(self).st().code.len(),
            old(self).st().code[old(self).st().ip] == op,
            (op matches OpCode::Constant(_) || op == OpCode::Nil || op == OpCode::True || op
                == OpCode::False || op == OpCode::Pop || op matches OpCode::GetLocal(_) || op
                matches OpCode::SetLocal(_)),
        ensures
            final(self).keeps(*old(self)),
            r is Ok ==> spec_run(final(self).st()) == spec_run(old(self).st()) && final(
            self).st().ip > old(self).st().ip && final(self).st().code == old(self).st().code,
            r matches Err(e) ==> e == InterpretError::RuntimeError && spec_run(old(self).st())
                == (final(self).st(), VmOutcome::Fault),
    {
        let ghost st0 = self.st();
        let _len = self.chunk.code.len();
        match op {
        OpCode::Constant(ci) => {
            if (ci as usize) < self.chunk.constants.values.len() {
                let v = self.chunk.constants.values[ci as usize];
                self.push(v);
                self.ip = self.ip + 1;
                proof {
                    assert(self.st() =~= (VmState {
                        ip: st0.ip + 1,
                        stack: st0.stack.push(st0.consts[ci as int]),
                        ..st0
                    }));
                }
            } else {
                self.reset_stack();
                proof {
                    assert(self.st() =~= sp_internal(st0).0);
                }
                return Err(InterpretError::RuntimeError);
            }
        },
        OpCode::Nil => {
            self.push(Value::Nil);
            self.ip = self.ip + 1;
            proof {
                assert(self.st() =~= (VmState {
                    ip: st0.ip + 1,
                    stack: st0.stack.push(Value::Nil),
                    ..st0
                }));
            }
        },
        OpCode::True => {
            self.push(Value::Boolean(true));
            self.ip = self.ip + 1;
            proof {
                assert(self.st() =~= (VmState {
                    ip: st0.ip + 1,
                    stack: st0.stack.push(Value::Boolean(true)),
                    ..st0
                }));
            }
        },
        OpCode::False => {
            self.push(Value::Boolean(false));
            self.ip = self.ip + 1;
            proof {
                assert(self.st() =~= (VmState {
                    ip: st0.ip + 1,
                    stack: st0.stack.push(Value::Boolean(false)),
                    ..st0
                }));
            }
        },
        OpCode::Pop => {
            let popped = self.pop();
            match popped {
                Some(_) => {
                    self.ip = self.ip + 1;
                    proof {
                        assert(self.st() =~= (VmState {
                            ip: st0.ip + 1,
                            stack: st0.stack.drop_last(),
                            ..st0
                        }));
                    }
                },
                None => {
                    self.reset_stack();
                    proof {
                        assert(self.st() =~= sp_internal(st0).0);
                    }
                    return Err(InterpretError::RuntimeError);
                },
            }
        },
        OpCode::GetLocal(sl) => {
            if (sl as usize) < self.stack.len() {
                let v = self.stack[sl as usize];
                self.push(v);
                self.ip = self.ip + 1;
                proof {
                    assert(self.st() =~= (VmState {
                        ip: st0.ip + 1,
                        stack: st0.stack.push(st0.stack[sl as int]),
                        ..st0
                    }));
                }
            } else {
                self.reset_stack();
                proof {
                    assert(self.st() =~= sp_internal(st0).0);
                }
                return Err(InterpretError::RuntimeError);
            }
        },
        OpCode::SetLocal(sl) => {
            if (sl as usize) < self.stack.len() {
                let top = self.stack[self.stack.len() - 1];
                self.stack[sl as usize] = top;
                self.ip = self.ip + 1;
                proof {
                    assert(self.st() =~= (VmState {
                        ip: st0.ip + 1,
                        stack: st0.stack.update(sl as int, st0.stack.last()),
                        ..st0
                    }));
                }
            } else {
                self.reset_stack();
                proof {
                    assert(self.st() =~= sp_internal(st0).0);
                }
                return Err(InterpretError::RuntimeError);
            }
        },
            _ => {
                proof {
                    assert(false);
                }
                return Err(InterpretError::RuntimeError);
            },
        }
        Ok(())
    }

    #[verifier::rlimit(60)]
    fn step_global(&mut self, op: OpCode) -> (r: Result<(), InterpretError>)
        requires
            0 <= old(self).st().ip < old(self).st().code.len(),
            old(self).st().code[old(self).st().ip] == op,
            (op matches OpCode::GetGlobal(_) || op matches OpCode::DefineGlobal(_) || op
                matches OpCode::SetGlobal(_)),
        ensures
            final(self).keeps(*old(self)),
            r is Ok ==> spec_run(final(self).st()) == spec_run(old(self).st()) && final(
            self).st().ip > old(self).st().ip && final(self).st().code == old(self).st().code,
            r matches Err(e) ==> e == InterpretError::RuntimeError && spec_run(old(self).st())
                == (final(self).st(), VmOutcome::Fault),
    {
        let ghost st0 = self.st();
        let _len = self.chunk.code.len();
        match op {
        OpCode::GetGlobal(gi) => {
            let hit: Option<usize> = if (gi as usize)
                < self.chunk.constants.values.len() {
                match self.chunk.constants.values[gi as usize] {
                    Value::Str(h) => Some(h),
                    _ => None,
                }
            } else {
                None
            };
            match hit {
                Some(h) => {
                    match self.find_global(h) {
                        Some(j) => {
                            let v = self.globals[j].1;
                            self.push(v);
                            self.ip = self.ip + 1;
                            proof {
                                assert(self.st() =~= (VmState {
                                    ip: st0.ip + 1,
                                    stack: st0.stack.push(
                                        st0.globals[gfind(
                                            st0.globals,
                                            h,
                                            0,
                                        )->Some_0].1,
                                    ),
                                    ..st0
                                }));
                            }
                        },
                        None => {
                            let m = self.undefined_var_message(h);
                            self.runtime_error(m.as_str());
                            proof {
                                assert(spec_run(st0) == (
                                self.st(),
                                VmOutcome::Fault,
                                ));
                            }
                            return Err(InterpretError::RuntimeError);
                        },
                    }
                },
                None => {
                    self.reset_stack();
                    proof {
                        assert(self.st() =~= sp_internal(st0).0);
                    }
                    return Err(InterpretError::RuntimeError);
                },
            }
        },
        OpCode::DefineGlobal(gi) => {
            let hit: Option<usize> = if (gi as usize)
                < self.chunk.constants.values.len() {
                match self.chunk.constants.values[gi as usize] {
                    Value::Str(h) => Some(h),
                    _ => None,
                }
            } else {
                None
            };
            match hit {
                Some(h) => {
                    let popped = self.pop();
                    match popped {
                        Some(v) => {
                            match self.find_global(h) {
                                Some(j) => {
                                    self.globals[j] = (h, v);
                                    proof {
                                        assert(self.globals@ =~= st0.globals.update(
                                            gfind(st0.globals, h, 0)->Some_0,
                                            (h, st0.stack.last()),
                                        ));
                                    }
                                },
                                None => {
                                    self.globals.push((h, v));
                                },
                            }
                            self.ip = self.ip + 1;
                            proof {
                                let g1 = match gfind(st0.globals, h, 0) {
                                    Some(j) => st0.globals.update(
                                        j,
                                        (h, st0.stack.last()),
                                    ),
                                    None => st0.globals.push((h, st0.stack.last())),
                                };
                                assert(self.st() =~= (VmState {
                                    ip: st0.ip + 1,
                                    stack: st0.stack.drop_last(),
                                    globals: g1,
                                    ..st0
                                }));
                            }
                        },
                        None => {
                            self.reset_stack();
                            proof {
                                assert(self.st() =~= sp_internal(st0).0);
                            }
                            return Err(InterpretError::RuntimeError);
                        },
                    }
                },
                None => {
                    self.reset_stack();
                    proof {
                        assert(self.st() =~= sp_internal(st0).0);
                    }
                    return Err(InterpretError::RuntimeError);
                },
            }
        },
        OpCode::SetGlobal(gi) => {
            let hit: Option<usize> = if (gi as usize)
                < self.chunk.constants.values.len() {
                match self.chunk.constants.values[gi as usize] {
                    Value::Str(h) => Some(h),
                    _ => None,
                }
            } else {
                None
            };
            match hit {
                Some(h) => {
                    if self.stack.len() == 0 {
                        self.reset_stack();
                        proof {
                            assert(self.st() =~= sp_internal(st0).0);
                        }
                        return Err(InterpretError::RuntimeError);
                    }
                    let top = self.stack[self.stack.len() - 1];
                    match self.find_global(h) {
                        Some(j) => {
                            self.globals[j] = (h, top);
                            self.ip = self.ip + 1;
                            proof {
                                assert(self.st() =~= (VmState {
                                    ip: st0.ip + 1,
                                    globals: st0.globals.update(
                                        gfind(st0.globals, h, 0)->Some_0,
                                        (h, st0.stack.last()),
                                    ),
                                    ..st0
                                }));
                            }
                        },
                        None => {
                            let m = self.undefined_var_message(h);
                            self.runtime_error(m.as_str());
                            proof {
                                assert(spec_run(st0) == (
                                self.st(),
                                VmOutcome::Fault,
                                ));
                            }
                            return Err(InterpretError::RuntimeError);
                        },
                    }
                },
                None => {
                    self.reset_stack();
                    proof {
                        assert(self.st() =~= sp_internal(st0).0);
                    }
                    return Err(InterpretError::RuntimeError);
                },
            }
        },
            _ => {
                proof {
                    assert(false);
                }
                return Err(InterpretError::RuntimeError);
            },
        }
        Ok(())
    }

    #[verifier::rlimit(60)]
    fn step_misc(&mut self, op: OpCode) -> (r: Result<(), InterpretError>)
        requires
            0 <= old(self).st().ip < old(self).st().code.len(),
            old(self).st().code[old(self).st().ip] == op,
            (op == OpCode::Equal || op == OpCode::Not || op == OpCode::Negate || op
                == OpCode::Print),
        ensures
            final(self).keeps(*old(self)),
            r is Ok ==> spec_run(final(self).st()) == spec_run(old(self).st()) && final(
            self).st().ip > old(self).st().ip && final(self).st().code == old(self).st().code,
            r matches Err(e) ==> e == InterpretError::RuntimeError && spec_run(old(self).st())
                == (final(self).st(), VmOutcome::Fault),
    {
        let ghost st0 = self.st();
        let _len = self.chunk.code.len();
        match op {
        OpCode::Equal => {
            let pa = self.pop();
            match pa {
                Some(a) => {
                    let pb = self.pop();
                    match pb {
                        Some(b) => {
                            self.push(Value::Boolean(values_equal(a, b)));
                            self.ip = self.ip + 1;
                            proof {
                                assert(self.st() =~= (VmState {
                                    ip: st0.ip + 1,
                                    stack: st0.stack.drop_last().drop_last().push(
                                        Value::Boolean(
                                            sp_values_equal(
                                                st0.stack.last(),
                                                st0.stack.drop_last().last(),
                                            ),
                                        ),
                                    ),
                                    ..st0
                                }));
                            }
                        },
                        None => {
                            self.reset_stack();
                            proof {
                                assert(self.st() =~= sp_internal(st0).0);
                            }
                            return Err(InterpretError::RuntimeError);
                        },
                    }
                },
                None => {
                    self.reset_stack();
                    proof {
                        assert(self.st() =~= sp_internal(st0).0);
                    }
                    return Err(InterpretError::RuntimeError);
                },
            }
        },
        OpCode::Not => {
            let popped = self.pop();
            match popped {
                Some(v) => {
                    self.push(Value::Boolean(is_falsey(v)));
                    self.ip = self.ip + 1;
                    proof {
                        assert(self.st() =~= (VmState {
                            ip: st0.ip + 1,
                            stack: st0.stack.drop_last().push(
                                Value::Boolean(st0.stack.last().spec_is_falsey()),
                            ),
                            ..st0
                        }));
                    }
                },
                None => {
                    self.reset_stack();
                    proof {
                        assert(self.st() =~= sp_internal(st0).0);
                    }
                    return Err(InterpretError::RuntimeError);
                },
            }
        },
        OpCode::Negate => {
            let popped = self.pop();
            match popped {
                Some(v) => {
                    match v {
                        Value::Number(nv) => {
                            self.push(Value::Number(num_neg(nv)));
                            self.ip = self.ip + 1;
                            proof {
                                assert(self.st() =~= (VmState {
                                    ip: st0.ip + 1,
                                    stack: st0.stack.drop_last().push(
                                        Value::Number(
                                            neg_bits(st0.stack.last()->Number_0),
                                        ),
                                    ),
                                    ..st0
                                }));
                            }
                        },
                        _ => {
                            self.runtime_error("Operand must be a number.");
                            proof {
                                assert(spec_run(st0) == (
                                self.st(),
                                VmOutcome::Fault,
                                ));
                            }
                            return Err(InterpretError::RuntimeError);
                        },
                    }
                },
                None => {
                    self.reset_stack();
                    proof {
                        assert(self.st() =~= sp_internal(st0).0);
                    }
                    return Err(InterpretError::RuntimeError);
                },
            }
        },
        OpCode::Print => {
            let popped = self.pop();
            match popped {
                Some(v) => {
                    let line = self.format_value(v);
                    let ghost outs0 = self.output@;
                    self.output.push(line);
                    self.ip = self.ip + 1;
                    proof {
                        assert(self.output@.map(|i: int, t: String| t@)
                            =~= outs0.map(|i: int, t: String| t@).push(
                            sp_format(st0.stack.last(), st0.pool),
                        ));
                        assert(self.st() =~= (VmState {
                            ip: st0.ip + 1,
                            stack: st0.stack.drop_last(),
                            output: st0.output.push(
                                sp_format(st0.stack.last(), st0.pool),
                            ),
                            ..st0
                        }));
                    }
                },
                None => {
                    self.reset_stack();
                    proof {
                        assert(self.st() =~= sp_internal(st0).0);
                    }
                    return Err(InterpretError::RuntimeError);
                },
            }
        },
            _ => {
                proof {
                    assert(false);
                }
                return Err(InterpretError::RuntimeError);
            },
        }
        Ok(())
    }

    #[verifier::rlimit(60)]
    fn step_add(&mut self, op: OpCode) -> (r: Result<(), InterpretError>)
        requires
            0 <= old(self).st().ip < old(self).st().code.len(),
            old(self).st().code[old(self).st().ip] == op,
            op == OpCode::Add,
        ensures
            final(self).keeps(*old(self)),
            r is Ok ==> spec_run(final(self).st()) == spec_run(old(self).st()) && final(
            self).st().ip > old(self).st().ip && final(self).st().code == old(self).st().code,
            r matches Err(e) ==> e == InterpretError::RuntimeError && spec_run(old(self).st())
                == (final(self).st(), VmOutcome::Fault),
    {
        let ghost st0 = self.st();
        let _len = self.chunk.code.len();
        match op {
        OpCode::Add => {
            let second_is_str: bool = self.stack.len() >= 2 && (match self.stack[
                self.stack.len() - 2] {
                Value::Str(_) => true,
                _ => false,
            });
            if !second_is_str {
                let brr = self.number_binop(OpCode::Add);
                match brr {
                    Ok(()) => {},
                    Err(e) => {
                        return Err(e);
                    },
                }
            } else {
                let b = self.stack[self.stack.len() - 1];
                let a = self.stack[self.stack.len() - 2];
                match a {
                    Value::Str(ia) => {
                        match b {
                            Value::Str(ib) => {
                                let tb: String = if ib < self.strings.len() {
                                    match self.strings.get(ib) {
                                        Object::String(t) => t.clone(),
                                    }
                                } else {
                                    String::new()
                                };
                                let mut ta: String = if ia < self.strings.len() {
                                    match self.strings.get(ia) {
                                        Object::String(t) => t.clone(),
                                    }
                                } else {
                                    String::new()
                                };
                                ta.append(tb.as_str());
                                let _ = self.pop();
                                let _ = self.pop();
                                let ghost text = ta@;
                                let handle = self.strings.intern(ta);
                                self.push(Value::Str(handle));
                                self.ip = self.ip + 1;
                                proof {
                                    assert(self.st() =~= (VmState {
                                        ip: st0.ip + 1,
                                        stack: st0.stack.drop_last().drop_last().push(
                                            Value::Str(
                                                spec_intern_index(
                                                    st0.pool,
                                                    text,
                                                ) as usize,
                                            ),
                                        ),
                                        pool: spec_intern_pool(st0.pool, text),
                                        ..st0
                                    }));
                                    crate::table::lemma_intern_index(st0.pool, text);
                                }
                            },
                            _ => {
                                let _ = self.pop();
                                let _ = self.pop();
                                self.runtime_error("Operands must be strings.");
                                proof {
                                    assert(spec_run(st0) == (
                                    self.st(),
                                    VmOutcome::Fault,
                                    ));
                                }
                                return Err(InterpretError::RuntimeError);
                            },
                        }
                    },
                    _ => {
                        self.reset_stack();
                        proof {
                            assert(self.st() =~= sp_internal(st0).0);
                        }
                        return Err(InterpretError::RuntimeError);
                    },
                }
            }
        },
            _ => {
                proof {
                    assert(false);
                }
                return Err(InterpretError::RuntimeError);
            },
        }
        Ok(())
    }

    /// Executes the chunk from the current instruction pointer to the
    /// end: exactly what the reference machine `spec_run` says, a clean
    /// halt on `Return` or past the last opcode, a `RuntimeError` on a
    /// fault. Interned strings stay valid: the pool only grows, stays
    /// duplicate free, and every string value keeps pointing into it.
    pub fn run(&mut self) -> (r: Result<(), InterpretError>)
        ensures
            ({
                let rr = spec_run(old(self).st());
                &&& final(self).st() == rr.0
                &&& (r is Ok <==> rr.1 == VmOutcome::Done)
                &&& (r matches Err(e) ==> e == InterpretError::RuntimeError)
            }),
            final(self).keeps(*old(self)),
    {
        loop
            invariant
                spec_run(self.st()) == spec_run(old(self).st()),
                self.keeps(*old(self)),
            decreases vm_measure(self.st()),
        {
            let ghost st0 = self.st();
            let n = self.chunk.code.len();
            if self.ip >= n {
                proof {
                    assert(spec_run(st0) == (st0, VmOutcome::Done));
                }
                return Ok(());
            }
            let op = self.chunk.code[self.ip];
            proof {
                assert(op == st0.code[st0.ip]);
            }
            let sr: Result<(), InterpretError> = match op {
                OpCode::Constant(_) => self.step_stack(op),
                OpCode::Nil => self.step_stack(op),
                OpCode::True => self.step_stack(op),
                OpCode::False => self.step_stack(op),
                OpCode::Pop => self.step_stack(op),
                OpCode::GetLocal(_) => self.step_stack(op),
                OpCode::SetLocal(_) => self.step_stack(op),
                OpCode::GetGlobal(_) => self.step_global(op),
                OpCode::DefineGlobal(_) => self.step_global(op),
                OpCode::SetGlobal(_) => self.step_global(op),
                OpCode::Equal => self.step_misc(op),
                OpCode::Not => self.step_misc(op),
                OpCode::Negate => self.step_misc(op),
                OpCode::Print => self.step_misc(op),
                OpCode::Add => self.step_add(op),
                OpCode::Greater => {
                    let rb = self.number_binop(op);
                    proof {
                        assert(spec_run(st0) == sp_num_binop(st0, op));
                    }
                    rb
                },
                OpCode::Less => {
                    let rb = self.number_binop(op);
                    proof {
                        assert(spec_run(st0) == sp_num_binop(st0, op));
                    }
                    rb
                },
                OpCode::Subtract => {
                    let rb = self.number_binop(op);
                    proof {
                        assert(spec_run(st0) == sp_num_binop(st0, op));
                    }
                    rb
                },
                OpCode::Multiply => {
                    let rb = self.number_binop(op);
                    proof {
                        assert(spec_run(st0) == sp_num_binop(st0, op));
                    }
                    rb
                },
                OpCode::Divide => {
                    let rb = self.number_binop(op);
                    proof {
                        assert(spec_run(st0) == sp_num_binop(st0, op));
                    }
                    rb
                },
                OpCode::Jump(o) => {
                    let rest = n - self.ip - 1;
                    if (o as usize) >= rest {
                        self.ip = n;
                    } else {
                        self.ip = self.ip + (o as usize) + 1;
                    }
                    proof {
                        assert(self.st() =~= (VmState { ip: sp_jump_target(st0, o), ..st0 }));
                    }
                    Ok(())
                },
                OpCode::JumpIfFalse(o) => {
                    if self.stack.len() == 0 {
                        self.reset_stack();
                        proof {
                            assert(self.st() =~= sp_internal(st0).0);
                        }
                        return Err(InterpretError::RuntimeError);
                    }
                    let top = self.stack[self.stack.len() - 1];
                    if is_falsey(top) {
                        let rest = n - self.ip - 1;
                        if (o as usize) >= rest {
                            self.ip = n;
                        } else {
                            self.ip = self.ip + (o as usize) + 1;
                        }
                        proof {
                            assert(self.st() =~= (VmState {
                                ip: sp_jump_target(st0, o),
                                ..st0
                            }));
                        }
                    } else {
                        self.ip = self.ip + 1;
                        proof {
                            assert(self.st() =~= (VmState { ip: st0.ip + 1, ..st0 }));
                        }
                    }
                    Ok(())
                },
                OpCode::Return => {
                    proof {
                        assert(spec_run(st0) == (st0, VmOutcome::Done));
                    }
                    return Ok(());
                },
            };
            match sr {
                Ok(()) => {},
                Err(e) => {
                    return Err(e);
                },
            }
        }
    }
}


impl VM {
    /// Compiles the source into a fresh chunk and, when no diagnostic was
    /// reported, runs it. The interning table and the globals persist
    /// across calls, so a session keeps its definitions; printed lines
    /// accumulate in `output`, runtime error reports in `errors`, and
    /// compile diagnostics in `diagnostics`. A compile error leaves the
    /// machine exactly as it was.
    pub fn interpret(&mut self, source: &str) -> (r: Result<(), InterpretError>)
        requires
            source@.len() < usize::MAX,
            table_wf(old(self).tbl()),
        ensures
            table_wf(final(self).tbl()),
            (r == Err::<(), InterpretError>(InterpretError::CompileError) <==> final(
            self).cdiags().len() > 0),
            r == Err::<(), InterpretError>(InterpretError::CompileError) ==> (final(self).st()
                == (VmState { pool: final(self).st().pool, ..old(self).st() }) && final(
            self).chunk_of() == old(self).chunk_of()),
            r != Err::<(), InterpretError>(InterpretError::CompileError) ==> ({
                &&& chunk_wf(final(self).chunk_of())
                &&& final(self).chunk_of().code@.len() >= 1
                &&& final(self).chunk_of().code@.last() == OpCode::Return
                &&& (r matches Err(e) ==> e == InterpretError::RuntimeError)
            }),
            ({
                let t1 = crate::scanner::spec_scan(source@, 0, 1);
                let t2 = crate::scanner::spec_scan(source@, t1.end, t1.line);
                let t3 = crate::scanner::spec_scan(source@, t2.end, t2.line);
                let t4 = crate::scanner::spec_scan(source@, t3.end, t3.line);
                (t1.typ == crate::scanner::TokenType::Print && t2.typ
                    == crate::scanner::TokenType::Number && t3.typ
                    == crate::scanner::TokenType::Semicolon && t4.typ
                    == crate::scanner::TokenType::Eof) ==> (r == Ok::<(), InterpretError>(())
                    && final(self).st().output == old(self).st().output.push(
                    rendered_bits(crate::num::number_bits(t2.lex).unwrap()),
                ) && final(self).st().errors == old(self).st().errors && final(self).st().globals
                    == old(self).st().globals && final(self).st().stack == old(self).st().stack)
            }),
            crate::scanner::spec_scan(source@, 0, 1).typ == crate::scanner::TokenType::Eof
                ==> (r == Ok::<(), InterpretError>(()) && final(self).cdiags().len() == 0
                && final(self).st().output == old(self).st().output && final(self).st().errors
                == old(self).st().errors && final(self).st().globals == old(self).st().globals),
            r != Err::<(), InterpretError>(InterpretError::CompileError) ==> crate::compiler::global_ops_stringly(
                final(self).chunk_of().code@,
                final(self).chunk_of().constants.values@,
                final(self).st().pool,
            ),
            r != Err::<(), InterpretError>(InterpretError::CompileError) ==> ({
                let first = crate::scanner::spec_scan(source@, 0, 1);
                let c = final(self).chunk_of().code@;
                &&& (first.typ == crate::scanner::TokenType::Print ==> (exists|i: int|
                    0 <= i < c.len() && c[i] == OpCode::Print))
                &&& (first.typ == crate::scanner::TokenType::Var ==> (exists|i: int|
                    0 <= i < c.len() && (#[trigger] c[i]) matches OpCode::DefineGlobal(_)))
                &&& ((first.typ != crate::scanner::TokenType::Print && first.typ
                    != crate::scanner::TokenType::If && first.typ
                    != crate::scanner::TokenType::LeftBrace && first.typ
                    != crate::scanner::TokenType::Var && first.typ
                    != crate::scanner::TokenType::Eof && first.typ
                    != crate::scanner::TokenType::Error) ==> (exists|i: int|
                    0 <= i < c.len() && c[i] == OpCode::Pop))
            }),
            r != Err::<(), InterpretError>(InterpretError::CompileError) ==> (exists|p: Seq<
                Seq<char>,
            >|
                {
                    let begin = #[trigger] session_begin(final(self).chunk_of(), old(self).st(), p);
                    &&& spec_run(begin).0 == final(self).st()
                    &&& (r is Ok <==> spec_run(begin).1 == VmOutcome::Done)
                }),
            old(self).st().pool.len() <= final(self).st().pool.len(),
            forall|i: int|
                0 <= i < old(self).st().pool.len() ==> final(self).st().pool[i] == old(
                self).st().pool[i],
            old(self).st().output.len() <= final(self).st().output.len(),
            forall|i: int|
                0 <= i < old(self).st().output.len() ==> final(self).st().output[i] == old(
                self).st().output[i],
            state_strings_ok(old(self).st()) ==> state_strings_ok(final(self).st()),
    {
        let ghost st_in = self.st();
        let mut pool = Table::new();
        core::mem::swap(&mut self.strings, &mut pool);
        let mut compiler = Compiler::new(source, pool);
        let cres = compiler.compile();
        let parts = compiler.into_parts();
        let chunk = parts.0;
        self.strings = parts.1;
        self.diagnostics = parts.2;
        match cres {
            Err(_) => {
                proof {
                    assert(self.st() =~= (VmState { pool: self.st().pool, ..st_in }));
                }
                return Err(InterpretError::CompileError);
            },
            Ok(()) => {},
        }
        self.chunk = chunk;
        self.ip = 0;
        proof {
            if state_strings_ok(st_in) {
                assert(state_strings_ok(self.st()));
            }
        }
        let ghost st_entry = self.st();
        let rr = self.run();
        proof {
            assert(session_begin(self.chunk_of(), st_in, st_entry.pool) =~= st_entry);
            if crate::scanner::spec_scan(source@, 0, 1).typ == crate::scanner::TokenType::Eof {
                assert(st_entry.code.len() == 1 && st_entry.code[0] == OpCode::Return);
                assert(spec_run(st_entry) == (st_entry, VmOutcome::Done));
            }
            {
                let t1 = crate::scanner::spec_scan(source@, 0, 1);
                let t2 = crate::scanner::spec_scan(source@, t1.end, t1.line);
                let t3 = crate::scanner::spec_scan(source@, t2.end, t2.line);
                let t4 = crate::scanner::spec_scan(source@, t3.end, t3.line);
                if t1.typ == crate::scanner::TokenType::Print && t2.typ
                    == crate::scanner::TokenType::Number && t3.typ
                    == crate::scanner::TokenType::Semicolon && t4.typ
                    == crate::scanner::TokenType::Eof {
                    let b = crate::num::number_bits(t2.lex).unwrap();
                    assert(st_entry.code =~= seq![
                        OpCode::Constant(0u8),
                        OpCode::Print,
                        OpCode::Return,
                    ]);
                    assert(st_entry.consts =~= seq![Value::Number(b)]);
                    let st1 = VmState {
                        ip: 1,
                        stack: st_entry.stack.push(Value::Number(b)),
                        ..st_entry
                    };
                    assert(spec_run(st_entry) == spec_run(st1));
                    assert(st1.stack.drop_last() =~= st_entry.stack);
                    let st2 = VmState {
                        ip: 2,
                        stack: st_entry.stack,
                        output: st_entry.output.push(rendered_bits(b)),
                        ..st_entry
                    };
                    assert(st1.stack.last() == Value::Number(b));
                    assert(sp_format(Value::Number(b), st1.pool) == rendered_bits(b));
                    assert(spec_run(st1) == spec_run(st2));
                    assert(spec_run(st2) == (st2, VmOutcome::Done));
                }
            }
        }
        match rr {
            Ok(()) => Ok(()),
            Err(_) => Err(InterpretError::RuntimeError),
        }
    }
}

/// The machine state at the start of a session's run: the compiled
/// chunk installed at instruction zero, with the stack, globals and
/// prior output carried over and the given interning pool.
pub open spec fn session_begin(c: Chunk, prior: VmState, p: Seq<Seq<char>>) -> VmState {
    VmState {
        code: c.code@,
        lines: c.lines@,
        consts: c.constants.values@,
        ip: 0,
        stack: prior.stack,
        pool: p,
        globals: prior.globals,
        output: prior.output,
        errors: prior.errors,
    }
}

/// Whether a value is falsy: exactly `nil` and `false` are.
pub fn is_falsey(value: Value) -> (r: bool)
    ensures
        r == value.spec_is_falsey(),
{
    match value {
        Value::Nil => true,
        Value::Boolean(b) => !b,
        _ => false,
    }
}

/// Structural equality of two runtime values.
pub fn values_equal(a: Value, b: Value) -> (r: bool)
    ensures
        r == sp_values_equal(a, b),
{
    match (a, b) {
        (Value::Boolean(x), Value::Boolean(y)) => x == y,
        (Value::Number(x), Value::Number(y)) => num_eq(x, y),
        (Value::Nil, Value::Nil) => true,
        (Value::Str(i), Value::Str(j)) => i == j,
        _ => false,
    }
}

/// Exactly `nil` and `false` are falsy; every other value, the number
/// zero and the empty string included, is truthy.
pub proof fn lemma_falsey(n: u64, h: usize)
    ensures
        Value::Nil.spec_is_falsey(),
        Value::Boolean(false).spec_is_falsey(),
        !Value::Boolean(true).spec_is_falsey(),
        !Value::Number(n).spec_is_falsey(),
        !Value::Str(h).spec_is_falsey(),
{
}

/// Number equality is IEEE-754 equality: a `NaN` value is not even equal
/// to itself, every other number is, and the comparison is symmetric.
pub proof fn lemma_number_equality(a: u64, b: u64)
    ensures
        is_nan_bits(a) ==> !sp_values_equal(Value::Number(a), Value::Number(a)),
        !is_nan_bits(a) ==> sp_values_equal(Value::Number(a), Value::Number(a)),
        sp_values_equal(Value::Number(a), Value::Number(b)) == sp_values_equal(
            Value::Number(b),
            Value::Number(a),
        ),
{
}

/// Interned equality is text equality: against a well-formed pool, two
/// string values are equal exactly when their texts are, so a string
/// built by concatenation is the same value as the same text written as
/// one literal.
pub proof fn lemma_string_equality(t: &Table, i: usize, j: usize)
    requires
        table_wf(*t),
        (i as int) < t@.len(),
        (j as int) < t@.len(),
    ensures
        sp_values_equal(Value::Str(i), Value::Str(j)) <==> t@[i as int] == t@[j as int],
{
    if t@[i as int] == t@[j as int] {
        crate::table::lemma_interned_handle_unique(t, i as int, j as int);
    }
}

} // verus!
