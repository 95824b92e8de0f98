//! A bytecode interpreter: one shared operand stack, an explicit call stack
//! of frames, locals that values can be moved out of, and gas charged before
//! each instruction.
use vstd::prelude::*;

verus! {

pub const OPERAND_STACK_SIZE_LIMIT: usize = 1024;

pub const CALL_STACK_SIZE_LIMIT: usize = 1024;

/// A runtime value.
#[derive(Clone, Copy, PartialEq, Eq, Structural, Debug)]
pub enum Value {
    U64(u64),
    Bool(bool),
    /// An account address: its sixteen bytes as one integer.
    Address(u128),
}

/// Whether two values are of the same kind.
pub open spec fn same_kind(a: Value, b: Value) -> bool {
    ||| (a is U64 && b is U64)
    ||| (a is Bool && b is Bool)
    ||| (a is Address && b is Address)
}

/// The instructions the interpreter executes.
#[derive(Clone, Copy, PartialEq, Eq, Structural, Debug)]
pub enum Bytecode {
    Pop,
    Ret,
    BrTrue(u16),
    BrFalse(u16),
    Branch(u16),
    LdConst(u64),
    LdTrue,
    LdFalse,
    CopyLoc(u8),
    MoveLoc(u8),
    StLoc(u8),
    Call(u16),
    Add,
    Sub,
    Mul,
    Mod,
    Div,
    BitOr,
    BitAnd,
    Xor,
    Or,
    And,
    Lt,
    Gt,
    Le,
    Ge,
    Eq,
    Neq,
    Not,
    Abort,
    GetGasRemaining,
    /// Moves the value on top of the stack to the resource slot of the
    /// address below it.
    MoveTo(u16),
    /// Moves a resource out of the slot of the address on top of the stack.
    MoveFrom(u16),
    /// Whether the address on top of the stack holds the resource.
    Exists(u16),
    /// Borrows the resource of the address on top of the stack.
    BorrowGlobal(u16),
}

/// The operations on global storage.
#[derive(Clone, Copy, PartialEq, Eq, Structural, Debug)]
pub enum GlobalOp {
    MoveTo,
    MoveFrom,
    Exists,
    BorrowGlobal,
}

/// Why an execution stopped.
#[derive(Clone, Copy, PartialEq, Eq, Structural, Debug)]
pub enum StatusCode {
    OutOfGas,
    ArithmeticError,
    TypeMismatch,
    EmptyValueStack,
    ExecutionStackOverflow,
    CallStackOverflow,
    LinkerError,
    PcOverflow,
    IndexOutOfBounds,
    UnavailableLocal,
    Aborted(u64),
}

/// The operand stack.
pub struct Stack {
    values: Vec<Value>,
}

impl View for Stack {
    type V = Seq<Value>;

    closed spec fn view(&self) -> Seq<Value> {
        self.values@
    }
}

impl Stack {
    pub fn new() -> (r: Self)
        ensures
            r@ == Seq::<Value>::empty(),
    {
        Stack { values: Vec::new() }
    }

    /// Pushes a value unless the stack is full.
    pub fn push(&mut self, value: Value) -> (r: Result<(), StatusCode>)
        ensures
            old(self)@.len() < OPERAND_STACK_SIZE_LIMIT ==> r is Ok && final(self)@ == old(
                self,
            )@.push(value),
            old(self)@.len() >= OPERAND_STACK_SIZE_LIMIT ==> r == Err::<(), StatusCode>(
                StatusCode::ExecutionStackOverflow,
            ) && final(self)@ == old(self)@,
    {
        if self.values.len() < OPERAND_STACK_SIZE_LIMIT {
            self.values.push(value);
            Ok(())
        } else {
            Err(StatusCode::ExecutionStackOverflow)
        }
    }

    /// Pops the top value.
    pub fn pop(&mut self) -> (r: Result<Value, StatusCode>)
        ensures
            old(self)@.len() > 0 ==> r == Ok::<Value, StatusCode>(old(self)@.last())
                && final(self)@ == old(self)@.drop_last(),
            old(self)@.len() == 0 ==> r == Err::<Value, StatusCode>(StatusCode::EmptyValueStack)
                && final(self)@ == old(self)@,
    {
        match self.values.pop() {
            Some(v) => Ok(v),
            None => Err(StatusCode::EmptyValueStack),
        }
    }

    /// Pops the top value, which must be an integer.
    pub fn pop_u64(&mut self) -> (r: Result<u64, StatusCode>)
        ensures
            r == pop_u64_spec(old(self)@),
            old(self)@.len() > 0 ==> final(self)@ == old(self)@.drop_last(),
            old(self)@.len() == 0 ==> final(self)@ == old(self)@,
    {
        match self.pop()? {
            Value::U64(n) => Ok(n),
            _ => Err(StatusCode::TypeMismatch),
        }
    }

    /// Pops the top value, which must be an address.
    pub fn pop_address(&mut self) -> (r: Result<u128, StatusCode>)
        ensures
            r == pop_address_spec(old(self)@),
            old(self)@.len() > 0 ==> final(self)@ == old(self)@.drop_last(),
            old(self)@.len() == 0 ==> final(self)@ == old(self)@,
    {
        match self.pop()? {
            Value::Address(a) => Ok(a),
            _ => Err(StatusCode::TypeMismatch),
        }
    }

    /// Pops the top value, which must be a boolean.
    pub fn pop_bool(&mut self) -> (r: Result<bool, StatusCode>)
        ensures
            r == pop_bool_spec(old(self)@),
            old(self)@.len() > 0 ==> final(self)@ == old(self)@.drop_last(),
            old(self)@.len() == 0 ==> final(self)@ == old(self)@,
    {
        match self.pop()? {
            Value::Bool(b) => Ok(b),
            _ => Err(StatusCode::TypeMismatch),
        }
    }

    /// Pops the top `n` values, deepest first.
    pub fn popn(&mut self, n: u16) -> (r: Result<Vec<Value>, StatusCode>)
        ensures
            n <= old(self)@.len() ==> (r matches Ok(v) && v@ == old(self)@.subrange(
                old(self)@.len() - n,
                old(self)@.len() as int,
            ) && final(self)@ == old(self)@.subrange(0, old(self)@.len() - n)),
            n > old(self)@.len() ==> (r matches Err(e) && e == StatusCode::EmptyValueStack
                && final(self)@ == old(self)@),
    {
        if (n as usize) > self.values.len() {
            return Err(StatusCode::EmptyValueStack);
        }
        let at = self.values.len() - n as usize;
        let args = self.values.split_off(at);
        Ok(args)
    }

    /// Pops the top `n` values, deepest first; there must be that many.
    fn pop_many(&mut self, n: usize) -> (r: Vec<Value>)
        requires
            n <= old(self)@.len(),
        ensures
            r@ == old(self)@.subrange(old(self)@.len() - n, old(self)@.len() as int),
            final(self)@ == old(self)@.subrange(0, old(self)@.len() - n),
    {
        let at = self.values.len() - n;
        self.values.split_off(at)
    }

    /// Empties the stack.
    pub fn clear(&mut self)
        ensures
            final(self)@ == Seq::<Value>::empty(),
    {
        self.values.clear();
    }

    pub fn len(&self) -> (r: usize)
        ensures
            r == self@.len(),
    {
        self.values.len()
    }

    /// The values on the stack, bottom first.
    pub fn values(&self) -> (r: Vec<Value>)
        ensures
            r@ == self@,
    {
        let mut out: Vec<Value> = Vec::new();
        let mut i: usize = 0;
        while i < self.values.len()
            invariant
                i <= self.values@.len(),
                out@ == self.values@.take(i as int),
            decreases self.values.len() - i,
        {
            out.push(self.values[i]);
            i = i + 1;
            assert(out@ =~= self.values@.take(i as int));
        }
        assert(self.values@.take(i as int) =~= self.values@);
        out
    }
}

/// What popping an integer off `s` gives.
pub open spec fn pop_u64_spec(s: Seq<Value>) -> Result<u64, StatusCode> {
    if s.len() == 0 {
        Err(StatusCode::EmptyValueStack)
    } else {
        match s.last() {
            Value::U64(n) => Ok(n),
            _ => Err(StatusCode::TypeMismatch),
        }
    }
}

/// What popping a boolean off `s` gives.
pub open spec fn pop_bool_spec(s: Seq<Value>) -> Result<bool, StatusCode> {
    if s.len() == 0 {
        Err(StatusCode::EmptyValueStack)
    } else {
        match s.last() {
            Value::Bool(b) => Ok(b),
            _ => Err(StatusCode::TypeMismatch),
        }
    }
}

/// The execution context of one function: its program counter, its locals
/// (`None` where a local is unset or was moved out) and which function of
/// the program it runs.
pub struct Frame {
    pub pc: u16,
    pub locals: Vec<Option<Value>>,
    pub function: usize,
}

/// A frame as a value.
pub struct FrameView {
    pub pc: u16,
    pub locals: Seq<Option<Value>>,
    pub function: usize,
}

impl View for Frame {
    type V = FrameView;

    open spec fn view(&self) -> FrameView {
        FrameView { pc: self.pc, locals: self.locals@, function: self.function }
    }
}

/// What reading local `idx` of `locals` gives.
pub open spec fn read_local(locals: Seq<Option<Value>>, idx: u8) -> Result<Value, StatusCode> {
    if idx as int >= locals.len() {
        Err(StatusCode::IndexOutOfBounds)
    } else {
        match locals[idx as int] {
            Some(v) => Ok(v),
            None => Err(StatusCode::UnavailableLocal),
        }
    }
}

impl Frame {
    /// A frame at the start of `function` with the given locals.
    pub fn new(function: usize, locals: Vec<Option<Value>>) -> (r: Self)
        ensures
            r@ == (FrameView { pc: 0, locals: locals@, function }),
    {
        Frame { pc: 0, locals, function }
    }

    /// Copies local `idx`.
    pub fn copy_loc(&self, idx: u8) -> (r: Result<Value, StatusCode>)
        ensures
            r == read_local(self.locals@, idx),
    {
        if idx as usize >= self.locals.len() {
            return Err(StatusCode::IndexOutOfBounds);
        }
        match self.locals[idx as usize] {
            Some(v) => Ok(v),
            None => Err(StatusCode::UnavailableLocal),
        }
    }

    /// Moves local `idx` out, leaving it unavailable.
    pub fn move_loc(&mut self, idx: u8) -> (r: Result<Value, StatusCode>)
        ensures
            r == read_local(old(self).locals@, idx),
            r is Ok ==> final(self)@ == (FrameView {
                locals: old(self).locals@.update(idx as int, None),
                ..old(self)@
            }),
            r is Err ==> final(self)@ == old(self)@,
    {
        let v = self.copy_loc(idx)?;
        self.locals.set(idx as usize, None);
        Ok(v)
    }

    /// Stores `value` into local `idx`.
    pub fn store_loc(&mut self, idx: u8, value: Value) -> (r: Result<(), StatusCode>)
        ensures
            idx < old(self).locals@.len() ==> r is Ok && final(self)@ == (FrameView {
                locals: old(self).locals@.update(idx as int, Some(value)),
                ..old(self)@
            }),
            idx >= old(self).locals@.len() ==> r == Err::<(), StatusCode>(
                StatusCode::IndexOutOfBounds,
            ) && final(self)@ == old(self)@,
    {
        if idx as usize >= self.locals.len() {
            return Err(StatusCode::IndexOutOfBounds);
        }
        self.locals.set(idx as usize, Some(value));
        Ok(())
    }
}

/// The frames of the callers of the running function, outermost first.
pub struct CallStack {
    frames: Vec<Frame>,
}

impl View for CallStack {
    type V = Seq<FrameView>;

    closed spec fn view(&self) -> Seq<FrameView> {
        self.frames@.map_values(|f: Frame| f@)
    }
}

impl CallStack {
    pub fn new() -> (r: Self)
        ensures
            r@ == Seq::<FrameView>::empty(),
    {
        let r = CallStack { frames: Vec::new() };
        assert(r@ =~= Seq::<FrameView>::empty());
        r
    }

    /// Pushes a frame unless the stack is full; a refused frame comes back.
    pub fn push(&mut self, frame: Frame) -> (r: Result<(), Frame>)
        ensures
            old(self)@.len() < CALL_STACK_SIZE_LIMIT ==> r is Ok && final(self)@ == old(
                self,
            )@.push(frame@),
            old(self)@.len() >= CALL_STACK_SIZE_LIMIT ==> (r matches Err(f) && f@ == frame@
                && final(self)@ == old(self)@),
    {
        if self.frames.len() < CALL_STACK_SIZE_LIMIT {
            let ghost fv = frame@;
            self.frames.push(frame);
            assert(self@ =~= old(self)@.push(fv));
            Ok(())
        } else {
            Err(frame)
        }
    }

    /// Pops the innermost caller.
    pub fn pop(&mut self) -> (r: Option<Frame>)
        ensures
            old(self)@.len() > 0 ==> (r matches Some(f) && f@ == old(self)@.last()
                && final(self)@ == old(self)@.drop_last()),
            old(self)@.len() == 0 ==> r is None && final(self)@ == old(self)@,
    {
        let r = self.frames.pop();
        assert(self@ =~= old(self)@.take(self.frames@.len() as int));
        r
    }

    /// Drops every frame.
    pub fn clear(&mut self)
        ensures
            final(self)@ == Seq::<FrameView>::empty(),
    {
        self.frames.clear();
        assert(self@ =~= Seq::<FrameView>::empty());
    }

    pub fn len(&self) -> (r: usize)
        ensures
            r == self@.len(),
    {
        self.frames.len()
    }
}

/// The result of a binary integer instruction on `lhs` and `rhs`: checked
/// arithmetic (`None` on overflow or a zero divisor), bitwise operations and
/// comparisons.
pub open spec fn int_op(instr: Bytecode, lhs: u64, rhs: u64) -> Option<Value> {
    match instr {
        Bytecode::Add => if lhs + rhs > u64::MAX {
            None
        } else {
            Some(Value::U64((lhs + rhs) as u64))
        },
        Bytecode::Sub => if lhs - rhs < 0 {
            None
        } else {
            Some(Value::U64((lhs - rhs) as u64))
        },
        Bytecode::Mul => if lhs * rhs > u64::MAX {
            None
        } else {
            Some(Value::U64((lhs * rhs) as u64))
        },
        Bytecode::Div => if rhs == 0 {
            None
        } else {
            Some(Value::U64(lhs / rhs))
        },
        Bytecode::Mod => if rhs == 0 {
            None
        } else {
            Some(Value::U64(lhs % rhs))
        },
        Bytecode::BitOr => Some(Value::U64(lhs | rhs)),
        Bytecode::BitAnd => Some(Value::U64(lhs & rhs)),
        Bytecode::Xor => Some(Value::U64(lhs ^ rhs)),
        Bytecode::Lt => Some(Value::Bool(lhs < rhs)),
        Bytecode::Gt => Some(Value::Bool(lhs > rhs)),
        Bytecode::Le => Some(Value::Bool(lhs <= rhs)),
        _ => Some(Value::Bool(lhs >= rhs)),
    }
}

pub open spec fn is_int_op(instr: Bytecode) -> bool {
    matches!(instr, Bytecode::Add | Bytecode::Sub | Bytecode::Mul | Bytecode::Div | Bytecode::Mod
        | Bytecode::BitOr | Bytecode::BitAnd | Bytecode::Xor | Bytecode::Lt | Bytecode::Gt
        | Bytecode::Le | Bytecode::Ge)
}

/// The instructions that touch the operand stack alone.
pub open spec fn is_stack_op(instr: Bytecode) -> bool {
    is_int_op(instr) || matches!(instr, Bytecode::Pop | Bytecode::LdConst(_) | Bytecode::LdTrue
        | Bytecode::LdFalse | Bytecode::Or | Bytecode::And | Bytecode::Eq | Bytecode::Neq
        | Bytecode::Not | Bytecode::Abort | Bytecode::GetGasRemaining)
}

/// Pushing `v` onto `s`, refused on a full stack.
pub open spec fn push_spec(s: Seq<Value>, v: Value) -> Result<Seq<Value>, StatusCode> {
    if s.len() >= OPERAND_STACK_SIZE_LIMIT {
        Err(StatusCode::ExecutionStackOverflow)
    } else {
        Ok(s.push(v))
    }
}

/// The operand stack after a stack-only instruction, with `gas` left; the
/// right operand of a binary instruction is on top.
pub open spec fn stack_op_spec(s: Seq<Value>, instr: Bytecode, gas: u64) -> Result<
    Seq<Value>,
    StatusCode,
> {
    match instr {
        Bytecode::Pop => if s.len() == 0 {
            Err(StatusCode::EmptyValueStack)
        } else {
            Ok(s.drop_last())
        },
        Bytecode::LdConst(c) => push_spec(s, Value::U64(c)),
        Bytecode::LdTrue => push_spec(s, Value::Bool(true)),
        Bytecode::LdFalse => push_spec(s, Value::Bool(false)),
        Bytecode::GetGasRemaining => push_spec(s, Value::U64(gas)),
        Bytecode::Not => match pop_bool_spec(s) {
            Err(e) => Err(e),
            Ok(b) => push_spec(s.drop_last(), Value::Bool(!b)),
        },
        Bytecode::Abort => match pop_u64_spec(s) {
            Err(e) => Err(e),
            Ok(code) => Err(StatusCode::Aborted(code)),
        },
        Bytecode::Or | Bytecode::And => match pop_bool_spec(s) {
            Err(e) => Err(e),
            Ok(rhs) => match pop_bool_spec(s.drop_last()) {
                Err(e) => Err(e),
                Ok(lhs) => push_spec(
                    s.drop_last().drop_last(),
                    Value::Bool(
                        if instr is Or {
                            lhs || rhs
                        } else {
                            lhs && rhs
                        },
                    ),
                ),
            },
        },
        Bytecode::Eq | Bytecode::Neq => if s.len() < 2 {
            Err(StatusCode::EmptyValueStack)
        } else {
            let a = s.last();
            let b = s.drop_last().last();
            if !same_kind(a, b) {
                Err(StatusCode::TypeMismatch)
            } else {
                push_spec(
                    s.drop_last().drop_last(),
                    Value::Bool(
                        if instr is Eq {
                            a == b
                        } else {
                            a != b
                        },
                    ),
                )
            }
        },
        _ => match pop_u64_spec(s) {
            Err(e) => Err(e),
            Ok(rhs) => match pop_u64_spec(s.drop_last()) {
                Err(e) => Err(e),
                Ok(lhs) => match int_op(instr, lhs, rhs) {
                    None => Err(StatusCode::ArithmeticError),
                    Some(v) => push_spec(s.drop_last().drop_last(), v),
                },
            },
        },
    }
}

fn int_op_exec(instr: Bytecode, lhs: u64, rhs: u64) -> (r: Option<Value>)
    requires
        is_int_op(instr),
    ensures
        r == int_op(instr, lhs, rhs),
{
    match instr {
        Bytecode::Add => match lhs.checked_add(rhs) {
            Some(v) => Some(Value::U64(v)),
            None => None,
        },
        Bytecode::Sub => match lhs.checked_sub(rhs) {
            Some(v) => Some(Value::U64(v)),
            None => None,
        },
        Bytecode::Mul => match lhs.checked_mul(rhs) {
            Some(v) => Some(Value::U64(v)),
            None => None,
        },
        Bytecode::Div => if rhs == 0 {
            None
        } else {
            Some(Value::U64(lhs / rhs))
        },
        Bytecode::Mod => if rhs == 0 {
            None
        } else {
            Some(Value::U64(lhs % rhs))
        },
        Bytecode::BitOr => Some(Value::U64(lhs | rhs)),
        Bytecode::BitAnd => Some(Value::U64(lhs & rhs)),
        Bytecode::Xor => Some(Value::U64(lhs ^ rhs)),
        Bytecode::Lt => Some(Value::Bool(lhs < rhs)),
        Bytecode::Gt => Some(Value::Bool(lhs > rhs)),
        Bytecode::Le => Some(Value::Bool(lhs <= rhs)),
        _ => Some(Value::Bool(lhs >= rhs)),
    }
}

/// Executes a stack-only instruction with `gas` left.
fn apply_stack_op(stack: &mut Stack, instr: Bytecode, gas: u64) -> (r: Result<(), StatusCode>)
    requires
        is_stack_op(instr),
    ensures
        match stack_op_spec(old(stack)@, instr, gas) {
            Ok(s) => r is Ok && final(stack)@ == s,
            Err(e) => r == Err::<(), StatusCode>(e),
        },
{
    match instr {
        Bytecode::Pop => {
            stack.pop()?;
            Ok(())
        },
        Bytecode::LdConst(c) => stack.push(Value::U64(c)),
        Bytecode::LdTrue => stack.push(Value::Bool(true)),
        Bytecode::LdFalse => stack.push(Value::Bool(false)),
        Bytecode::GetGasRemaining => stack.push(Value::U64(gas)),
        Bytecode::Not => {
            let b = stack.pop_bool()?;
            stack.push(Value::Bool(!b))
        },
        Bytecode::Abort => {
            let code = stack.pop_u64()?;
            Err(StatusCode::Aborted(code))
        },
        Bytecode::Or | Bytecode::And => {
            let rhs = stack.pop_bool()?;
            let lhs = stack.pop_bool()?;
            let v = if let Bytecode::Or = instr {
                lhs || rhs
            } else {
                lhs && rhs
            };
            stack.push(Value::Bool(v))
        },
        Bytecode::Eq | Bytecode::Neq => {
            if stack.len() < 2 {
                return Err(StatusCode::EmptyValueStack);
            }
            let lhs = stack.pop()?;
            let rhs = stack.pop()?;
            let same_type = match (lhs, rhs) {
                (Value::U64(_), Value::U64(_)) => true,
                (Value::Bool(_), Value::Bool(_)) => true,
                (Value::Address(_), Value::Address(_)) => true,
                _ => false,
            };
            if !same_type {
                return Err(StatusCode::TypeMismatch);
            }
            let v = if let Bytecode::Eq = instr {
                lhs == rhs
            } else {
                lhs != rhs
            };
            stack.push(Value::Bool(v))
        },
        _ => {
            let rhs = stack.pop_u64()?;
            let lhs = stack.pop_u64()?;
            match int_op_exec(instr, lhs, rhs) {
                Some(v) => stack.push(v),
                None => Err(StatusCode::ArithmeticError),
            }
        },
    }
}

/// A function of the program: its code, how many arguments it takes, and
/// how many locals it has, the arguments first. A native function has no
/// code here: `native_arity` is the argument count that the native table
/// declares for it, and it runs outside the interpreter.
pub struct Function {
    pub code: Vec<Bytecode>,
    pub arg_count: usize,
    pub local_count: usize,
    pub native_arity: Option<usize>,
}

/// Why an execution stopped for outside work: a native call of function
/// `idx` on its arguments in call order, or an operation on global storage
/// for a struct definition at an address, with the value to move there.
pub enum Suspension {
    Native(u16, Seq<Value>),
    Global(GlobalOp, u16, u128, Option<Value>),
}

/// Every function's code can be addressed by a 16-bit program counter.
pub open spec fn program_wf(prog: Seq<Function>) -> bool {
    forall|i: int| 0 <= i < prog.len() ==> (#[trigger] prog[i]).code@.len() <= u16::MAX
}

/// The number of distinct instructions.
pub const NUM_OPCODES: usize = 35;

/// The position of an instruction's kind in a cost table.
pub open spec fn opcode(instr: Bytecode) -> int {
    match instr {
        Bytecode::Pop => 0,
        Bytecode::Ret => 1,
        Bytecode::BrTrue(_) => 2,
        Bytecode::BrFalse(_) => 3,
        Bytecode::Branch(_) => 4,
        Bytecode::LdConst(_) => 5,
        Bytecode::LdTrue => 6,
        Bytecode::LdFalse => 7,
        Bytecode::CopyLoc(_) => 8,
        Bytecode::MoveLoc(_) => 9,
        Bytecode::StLoc(_) => 10,
        Bytecode::Call(_) => 11,
        Bytecode::Add => 12,
        Bytecode::Sub => 13,
        Bytecode::Mul => 14,
        Bytecode::Mod => 15,
        Bytecode::Div => 16,
        Bytecode::BitOr => 17,
        Bytecode::BitAnd => 18,
        Bytecode::Xor => 19,
        Bytecode::Or => 20,
        Bytecode::And => 21,
        Bytecode::Lt => 22,
        Bytecode::Gt => 23,
        Bytecode::Le => 24,
        Bytecode::Ge => 25,
        Bytecode::Eq => 26,
        Bytecode::Neq => 27,
        Bytecode::Not => 28,
        Bytecode::Abort => 29,
        Bytecode::GetGasRemaining => 30,
        Bytecode::MoveTo(_) => 31,
        Bytecode::MoveFrom(_) => 32,
        Bytecode::Exists(_) => 33,
        Bytecode::BorrowGlobal(_) => 34,
    }
}

fn opcode_of(instr: Bytecode) -> (r: usize)
    ensures
        r == opcode(instr),
        r < NUM_OPCODES,
{
    match instr {
        Bytecode::Pop => 0,
        Bytecode::Ret => 1,
        Bytecode::BrTrue(_) => 2,
        Bytecode::BrFalse(_) => 3,
        Bytecode::Branch(_) => 4,
        Bytecode::LdConst(_) => 5,
        Bytecode::LdTrue => 6,
        Bytecode::LdFalse => 7,
        Bytecode::CopyLoc(_) => 8,
        Bytecode::MoveLoc(_) => 9,
        Bytecode::StLoc(_) => 10,
        Bytecode::Call(_) => 11,
        Bytecode::Add => 12,
        Bytecode::Sub => 13,
        Bytecode::Mul => 14,
        Bytecode::Mod => 15,
        Bytecode::Div => 16,
        Bytecode::BitOr => 17,
        Bytecode::BitAnd => 18,
        Bytecode::Xor => 19,
        Bytecode::Or => 20,
        Bytecode::And => 21,
        Bytecode::Lt => 22,
        Bytecode::Gt => 23,
        Bytecode::Le => 24,
        Bytecode::Ge => 25,
        Bytecode::Eq => 26,
        Bytecode::Neq => 27,
        Bytecode::Not => 28,
        Bytecode::Abort => 29,
        Bytecode::GetGasRemaining => 30,
        Bytecode::MoveTo(_) => 31,
        Bytecode::MoveFrom(_) => 32,
        Bytecode::Exists(_) => 33,
        Bytecode::BorrowGlobal(_) => 34,
    }
}

/// The gas that each kind of instruction costs, at least one unit each.
pub struct GasSchedule {
    costs: Vec<u64>,
}

impl View for GasSchedule {
    type V = Seq<u64>;

    closed spec fn view(&self) -> Seq<u64> {
        self.costs@
    }
}

/// One cost for each kind of instruction, none of them zero.
pub open spec fn costs_wf(costs: Seq<u64>) -> bool {
    costs.len() == NUM_OPCODES && forall|i: int| 0 <= i < costs.len() ==> #[trigger] costs[i] >= 1
}

/// What `instr` costs under `costs`.
pub open spec fn cost_spec(costs: Seq<u64>, instr: Bytecode) -> u64 {
    costs[opcode(instr)]
}

impl GasSchedule {
    pub open spec fn wf(&self) -> bool {
        costs_wf(self@)
    }

    /// A schedule from one cost per kind of instruction, in the order of
    /// [`Bytecode`]; `None` unless there is one for each and none is zero.
    pub fn new(costs: Vec<u64>) -> (r: Option<Self>)
        ensures
            r is Some <==> costs_wf(costs@),
            r matches Some(g) ==> g@ == costs@,
    {
        if costs.len() != NUM_OPCODES {
            return None;
        }
        let mut i: usize = 0;
        while i < costs.len()
            invariant
                i <= costs@.len(),
                forall|k: int| 0 <= k < i ==> #[trigger] costs@[k] >= 1,
            decreases costs.len() - i,
        {
            if costs[i] == 0 {
                return None;
            }
            i = i + 1;
        }
        Some(GasSchedule { costs })
    }

    /// A schedule in which every instruction costs `cost`.
    pub fn uniform(cost: u64) -> (r: Self)
        requires
            cost >= 1,
        ensures
            r.wf(),
            forall|i: int| 0 <= i < NUM_OPCODES ==> #[trigger] r@[i] == cost,
    {
        let mut costs: Vec<u64> = Vec::new();
        while costs.len() < NUM_OPCODES
            invariant
                costs@.len() <= NUM_OPCODES,
                forall|k: int| 0 <= k < costs@.len() ==> #[trigger] costs@[k] == cost,
            decreases NUM_OPCODES - costs.len(),
        {
            costs.push(cost);
        }
        GasSchedule { costs }
    }

    pub fn cost_of(&self, instr: Bytecode) -> (r: u64)
        requires
            self.wf(),
        ensures
            r == cost_spec(self@, instr),
            r >= 1,
    {
        self.costs[opcode_of(instr)]
    }
}

/// The state of an execution: the operand stack, the running frame, its
/// callers and the gas left.
pub struct MachineView {
    pub stack: Seq<Value>,
    pub frame: FrameView,
    pub callers: Seq<FrameView>,
    pub gas: u64,
}

/// What one instruction does.
pub enum StepResult {
    /// The execution goes on from this state.
    Continue(MachineView),
    /// The outermost function returned, leaving this state.
    Done(MachineView),
    /// The execution stopped with this error and this much gas left.
    Fail(StatusCode, u64),
    /// The execution waits, in this state, for outside work.
    Suspend(MachineView, Suspension),
}

/// The locals of a called function: the arguments first, the rest unset.
pub open spec fn call_locals(args: Seq<Value>, local_count: nat) -> Seq<Option<Value>> {
    Seq::new(local_count, |k: int| if k < args.len() { Some(args[k]) } else { None })
}

/// A call of function `idx` from state `m`, whose pc is already past the
/// call: the arguments leave the operand stack for the callee's locals, the
/// caller's frame goes on the call stack.
pub open spec fn call_spec(prog: Seq<Function>, m: MachineView, idx: u16) -> StepResult {
    if idx as int >= prog.len() {
        StepResult::Fail(StatusCode::LinkerError, m.gas)
    } else {
        let callee = prog[idx as int];
        let n = callee.arg_count as int;
        let s = m.stack;
        if callee.native_arity is Some {
            if callee.native_arity != Some(callee.arg_count) {
                StepResult::Fail(StatusCode::LinkerError, m.gas)
            } else if s.len() < n {
                StepResult::Fail(StatusCode::EmptyValueStack, m.gas)
            } else {
                StepResult::Suspend(
                    MachineView { stack: s.subrange(0, s.len() - n), ..m },
                    Suspension::Native(idx, s.subrange(s.len() - n, s.len() as int)),
                )
            }
        } else if n > 0 && s.len() == 0 {
            StepResult::Fail(StatusCode::EmptyValueStack, m.gas)
        } else if n > callee.local_count {
            StepResult::Fail(StatusCode::IndexOutOfBounds, m.gas)
        } else if s.len() < n {
            StepResult::Fail(StatusCode::EmptyValueStack, m.gas)
        } else if m.callers.len() >= CALL_STACK_SIZE_LIMIT {
            StepResult::Fail(StatusCode::CallStackOverflow, m.gas)
        } else {
            StepResult::Continue(
                MachineView {
                    stack: s.subrange(0, s.len() - n),
                    frame: FrameView {
                        pc: 0,
                        locals: call_locals(
                            s.subrange(s.len() - n, s.len() as int),
                            callee.local_count as nat,
                        ),
                        function: idx as usize,
                    },
                    callers: m.callers.push(m.frame),
                    gas: m.gas,
                },
            )
        }
    }
}

/// What popping an address off `s` gives.
pub open spec fn pop_address_spec(s: Seq<Value>) -> Result<u128, StatusCode> {
    if s.len() == 0 {
        Err(StatusCode::EmptyValueStack)
    } else {
        match s.last() {
            Value::Address(a) => Ok(a),
            _ => Err(StatusCode::TypeMismatch),
        }
    }
}

/// A global-storage operation on the address on top of the stack, in state
/// `m` with the pc already past it: the execution waits for storage.
pub open spec fn global_spec(m: MachineView, op: GlobalOp, sd: u16) -> StepResult {
    match pop_address_spec(m.stack) {
        Err(e) => StepResult::Fail(e, m.gas),
        Ok(a) => StepResult::Suspend(
            MachineView { stack: m.stack.drop_last(), ..m },
            Suspension::Global(op, sd, a, None),
        ),
    }
}

/// One instruction: the one at the running frame's pc is charged its cost
/// before anything else happens, then executed with the pc past it.
pub open spec fn step_spec(prog: Seq<Function>, costs: Seq<u64>, m: MachineView) -> StepResult {
    let f = m.frame;
    if f.function >= prog.len() {
        StepResult::Fail(StatusCode::LinkerError, m.gas)
    } else if f.pc >= prog[f.function as int].code@.len() {
        StepResult::Fail(StatusCode::PcOverflow, m.gas)
    } else {
        let instr = prog[f.function as int].code@[f.pc as int];
        let cost = cost_spec(costs, instr);
        if cost > m.gas {
            StepResult::Fail(StatusCode::OutOfGas, m.gas)
        } else {
            let g = (m.gas - cost) as u64;
            let next = FrameView { pc: (f.pc + 1) as u16, ..f };
            let m1 = MachineView { frame: next, gas: g, ..m };
            if is_stack_op(instr) {
                match stack_op_spec(m.stack, instr, g) {
                    Ok(s) => StepResult::Continue(MachineView { stack: s, ..m1 }),
                    Err(e) => StepResult::Fail(e, g),
                }
            } else {
                match instr {
                    Bytecode::Ret => if m.callers.len() == 0 {
                        StepResult::Done(m1)
                    } else {
                        StepResult::Continue(
                            MachineView {
                                frame: m.callers.last(),
                                callers: m.callers.drop_last(),
                                ..m1
                            },
                        )
                    },
                    Bytecode::BrTrue(off) => match pop_bool_spec(m.stack) {
                        Err(e) => StepResult::Fail(e, g),
                        Ok(b) => StepResult::Continue(
                            MachineView {
                                stack: m.stack.drop_last(),
                                frame: if b {
                                    FrameView { pc: off, ..f }
                                } else {
                                    next
                                },
                                ..m1
                            },
                        ),
                    },
                    Bytecode::BrFalse(off) => match pop_bool_spec(m.stack) {
                        Err(e) => StepResult::Fail(e, g),
                        Ok(b) => StepResult::Continue(
                            MachineView {
                                stack: m.stack.drop_last(),
                                frame: if !b {
                                    FrameView { pc: off, ..f }
                                } else {
                                    next
                                },
                                ..m1
                            },
                        ),
                    },
                    Bytecode::Branch(off) => StepResult::Continue(
                        MachineView { frame: FrameView { pc: off, ..f }, ..m1 },
                    ),
                    Bytecode::CopyLoc(i) => match read_local(f.locals, i) {
                        Err(e) => StepResult::Fail(e, g),
                        Ok(v) => match push_spec(m.stack, v) {
                            Err(e) => StepResult::Fail(e, g),
                            Ok(s) => StepResult::Continue(MachineView { stack: s, ..m1 }),
                        },
                    },
                    Bytecode::MoveLoc(i) => match read_local(f.locals, i) {
                        Err(e) => StepResult::Fail(e, g),
                        Ok(v) => match push_spec(m.stack, v) {
                            Err(e) => StepResult::Fail(e, g),
                            Ok(s) => StepResult::Continue(
                                MachineView {
                                    stack: s,
                                    frame: FrameView {
                                        locals: f.locals.update(i as int, None),
                                        ..next
                                    },
                                    ..m1
                                },
                            ),
                        },
                    },
                    Bytecode::StLoc(i) => if m.stack.len() == 0 {
                        StepResult::Fail(StatusCode::EmptyValueStack, g)
                    } else if i as int >= f.locals.len() {
                        StepResult::Fail(StatusCode::IndexOutOfBounds, g)
                    } else {
                        StepResult::Continue(
                            MachineView {
                                stack: m.stack.drop_last(),
                                frame: FrameView {
                                    locals: f.locals.update(i as int, Some(m.stack.last())),
                                    ..next
                                },
                                ..m1
                            },
                        )
                    },
                    Bytecode::Call(idx) => call_spec(prog, m1, idx),
                    Bytecode::MoveTo(sd) => if m.stack.len() == 0 {
                        StepResult::Fail(StatusCode::EmptyValueStack, g)
                    } else {
                        match pop_address_spec(m.stack.drop_last()) {
                            Err(e) => StepResult::Fail(e, g),
                            Ok(a) => StepResult::Suspend(
                                MachineView { stack: m.stack.drop_last().drop_last(), ..m1 },
                                Suspension::Global(GlobalOp::MoveTo, sd, a, Some(m.stack.last())),
                            ),
                        }
                    },
                    Bytecode::MoveFrom(sd) => global_spec(m1, GlobalOp::MoveFrom, sd),
                    Bytecode::Exists(sd) => global_spec(m1, GlobalOp::Exists, sd),
                    Bytecode::BorrowGlobal(sd) => global_spec(m1, GlobalOp::BorrowGlobal, sd),
                    _ => StepResult::Fail(StatusCode::LinkerError, g),
                }
            }
        }
    }
}

/// How an execution ends.
pub enum Outcome {
    /// The outermost function returned, leaving this state.
    Finished(MachineView),
    /// The execution stopped with this error and this much gas left.
    Failed(StatusCode, u64),
    /// The execution waits, in this state, for outside work.
    Suspended(MachineView, Suspension),
}

/// Runs from state `m` for at most `fuel` instructions; running out of them
/// counts as running out of gas.
pub open spec fn run_spec(prog: Seq<Function>, costs: Seq<u64>, m: MachineView, fuel: nat) -> Outcome
    decreases fuel,
{
    if fuel == 0 {
        Outcome::Failed(StatusCode::OutOfGas, m.gas)
    } else {
        match step_spec(prog, costs, m) {
            StepResult::Continue(next) => run_spec(prog, costs, next, (fuel - 1) as nat),
            StepResult::Done(end) => Outcome::Finished(end),
            StepResult::Fail(e, g) => Outcome::Failed(e, g),
            StepResult::Suspend(waiting, why) => Outcome::Suspended(waiting, why),
        }
    }
}

/// Pushes `vs` onto `s` in order, refused as soon as the stack is full.
pub open spec fn push_all(s: Seq<Value>, vs: Seq<Value>) -> Result<Seq<Value>, StatusCode>
    decreases vs.len(),
{
    if vs.len() == 0 {
        Ok(s)
    } else {
        match push_spec(s, vs[0]) {
            Err(e) => Err(e),
            Ok(s2) => push_all(s2, vs.drop_first()),
        }
    }
}

/// Resuming the execution that waits in state `m`, once the outside work
/// gave `results` (the values to push, or an error) and costs `cost`: the
/// cost is charged first, then the values are pushed, then the execution
/// runs on.
pub open spec fn resume_spec(
    prog: Seq<Function>,
    costs: Seq<u64>,
    m: MachineView,
    results: Result<Seq<Value>, StatusCode>,
    cost: u64,
) -> Outcome {
    if cost > m.gas {
        Outcome::Failed(StatusCode::OutOfGas, m.gas)
    } else {
        let g = (m.gas - cost) as u64;
        match results {
            Err(e) => Outcome::Failed(e, g),
            Ok(vs) => match push_all(m.stack, vs) {
                Err(e) => Outcome::Failed(e, g),
                Ok(s) => run_spec(prog, costs, MachineView { stack: s, gas: g, ..m }, g as nat + 1),
            },
        }
    }
}

/// The execution of `function` on `args`, over an operand stack that holds
/// `stack` and with `gas` to spend: one instruction per unit of gas at most.
pub open spec fn execution_spec(
    prog: Seq<Function>,
    costs: Seq<u64>,
    stack: Seq<Value>,
    function: usize,
    args: Seq<Value>,
    gas: u64,
) -> Outcome {
    if function >= prog.len() {
        Outcome::Failed(StatusCode::LinkerError, gas)
    } else if args.len() > prog[function as int].local_count {
        Outcome::Failed(StatusCode::IndexOutOfBounds, gas)
    } else {
        run_spec(
            prog,
            costs,
            MachineView {
                stack,
                frame: FrameView {
                    pc: 0,
                    locals: call_locals(args, prog[function as int].local_count as nat),
                    function,
                },
                callers: Seq::empty(),
                gas,
            },
            gas as nat + 1,
        )
    }
}

/// What the execution loop hears from one step.
enum StepExit {
    Continue,
    Done,
    Fail(StatusCode),
    Suspend(Exit),
}

/// Why an execution handed control back to its caller.
#[derive(Debug, PartialEq)]
pub enum Exit {
    /// The outermost function returned.
    Returned,
    /// Native function `function` is to run on `args`, in call order; its
    /// results and cost go to [`Interpreter::resume`].
    Native { function: u16, args: Vec<Value> },
    /// Global storage is to perform `op` on the resource of struct
    /// definition `struct_idx` at `address`, moving `value` there for
    /// `MoveTo`; the values it yields and the cost that depends on the
    /// resource's size go to [`Interpreter::resume`].
    Global { op: GlobalOp, struct_idx: u16, address: u128, value: Option<Value> },
}

impl Exit {
    /// The outside work this exit waits for, if any.
    pub open spec fn suspension(&self) -> Option<Suspension> {
        match self {
            Exit::Returned => None,
            Exit::Native { function, args } => Some(Suspension::Native(*function, args@)),
            Exit::Global { op, struct_idx, address, value } => Some(
                Suspension::Global(*op, *struct_idx, *address, *value),
            ),
        }
    }
}

/// The locals of a frame: `args` first, the rest unset.
fn make_locals(args: &[Value], local_count: usize) -> (r: Vec<Option<Value>>)
    requires
        args@.len() <= local_count,
    ensures
        r@ == call_locals(args@, local_count as nat),
{
    let mut locals: Vec<Option<Value>> = Vec::new();
    let mut k: usize = 0;
    while k < local_count
        invariant
            k <= local_count,
            args@.len() <= local_count,
            locals@ == call_locals(args@, local_count as nat).take(k as int),
        decreases local_count - k,
    {
        if k < args.len() {
            locals.push(Some(args[k]));
        } else {
            locals.push(None);
        }
        k = k + 1;
        assert(locals@ =~= call_locals(args@, local_count as nat).take(k as int));
    }
    assert(call_locals(args@, local_count as nat).take(k as int) =~= call_locals(
        args@,
        local_count as nat,
    ));
    locals
}

/// Executes functions of a program against one operand stack and one gas
/// budget.
pub struct Interpreter {
    operand_stack: Stack,
    call_stack: CallStack,
    gas_remaining: u64,
    suspended: Option<Frame>,
}

impl Interpreter {
    /// Unless an execution waits for outside work, no frame is left on the
    /// call stack.
    pub open spec fn wf(&self) -> bool {
        self.spec_suspended() is None ==> self.spec_call_stack().len() == 0
    }

    /// The frame of the execution that waits for outside work, if one does.
    pub closed spec fn spec_suspended(&self) -> Option<FrameView> {
        match self.suspended {
            Some(f) => Some(f@),
            None => None,
        }
    }

    pub closed spec fn spec_stack(&self) -> Seq<Value> {
        self.operand_stack@
    }

    pub closed spec fn spec_call_stack(&self) -> Seq<FrameView> {
        self.call_stack@
    }

    pub closed spec fn spec_gas(&self) -> u64 {
        self.gas_remaining
    }

    /// The execution state with `frame` running.
    pub open spec fn machine_of(&self, frame: FrameView) -> MachineView {
        MachineView {
            stack: self.spec_stack(),
            frame,
            callers: self.spec_call_stack(),
            gas: self.spec_gas(),
        }
    }

    /// An interpreter with empty stacks and `gas` to spend.
    pub fn new(gas: u64) -> (r: Self)
        ensures
            r.wf(),
            r.spec_stack() == Seq::<Value>::empty(),
            r.spec_gas() == gas,
            r.spec_suspended() is None,
    {
        Interpreter {
            operand_stack: Stack::new(),
            call_stack: CallStack::new(),
            gas_remaining: gas,
            suspended: None,
        }
    }

    pub fn gas_remaining(&self) -> (r: u64)
        ensures
            r == self.spec_gas(),
    {
        self.gas_remaining
    }

    /// The operand stack, bottom first.
    pub fn operand_stack_values(&self) -> (r: Vec<Value>)
        ensures
            r@ == self.spec_stack(),
    {
        self.operand_stack.values()
    }

    pub fn call_stack_height(&self) -> (r: usize)
        ensures
            r == self.spec_call_stack().len(),
    {
        self.call_stack.len()
    }

    /// Executes the instruction at `frame`'s pc.
    fn step(&mut self, prog: &Vec<Function>, sched: &GasSchedule, frame: &mut Frame) -> (r: StepExit)
        requires
            sched.wf(),
            program_wf(prog@),
        ensures
            match step_spec(prog@, sched@, old(self).machine_of(old(frame)@)) {
                StepResult::Continue(m) => r is Continue && final(self).machine_of(final(frame)@) == m,
                StepResult::Done(m) => r is Done && final(self).machine_of(final(frame)@) == m,
                StepResult::Fail(e, g) => r == StepExit::Fail(e) && final(self).spec_gas() == g,
                StepResult::Suspend(m, why) => (r matches StepExit::Suspend(x) && x.suspension()
                    == Some(why)) && final(self).machine_of(final(frame)@) == m,
            },
            final(self).suspended == old(self).suspended,
    {
        let ghost m = self.machine_of(frame@);
        if frame.function >= prog.len() {
            return StepExit::Fail(StatusCode::LinkerError);
        }
        let code = &prog[frame.function].code;
        if frame.pc as usize >= code.len() {
            return StepExit::Fail(StatusCode::PcOverflow);
        }
        proof {
            assert(prog@[frame.function as int].code@.len() <= u16::MAX);
        }
        let instr = code[frame.pc as usize];
        let cost = sched.cost_of(instr);
        if cost > self.gas_remaining {
            return StepExit::Fail(StatusCode::OutOfGas);
        }
        self.gas_remaining = self.gas_remaining - cost;
        let pc = frame.pc;
        frame.pc = pc + 1;
        match instr {
            Bytecode::Ret => {
                match self.call_stack.pop() {
                    Some(caller) => {
                        *frame = caller;
                        StepExit::Continue
                    },
                    None => StepExit::Done,
                }
            },
            Bytecode::BrTrue(off) | Bytecode::BrFalse(off) => {
                match self.operand_stack.pop_bool() {
                    Ok(b) => {
                        let jump = if let Bytecode::BrTrue(_) = instr {
                            b
                        } else {
                            !b
                        };
                        if jump {
                            frame.pc = off;
                        }
                        StepExit::Continue
                    },
                    Err(e) => StepExit::Fail(e),
                }
            },
            Bytecode::Branch(off) => {
                frame.pc = off;
                StepExit::Continue
            },
            Bytecode::CopyLoc(i) => {
                let v = match frame.copy_loc(i) {
                    Ok(v) => v,
                    Err(e) => return StepExit::Fail(e),
                };
                match self.operand_stack.push(v) {
                    Ok(()) => StepExit::Continue,
                    Err(e) => StepExit::Fail(e),
                }
            },
            Bytecode::MoveLoc(i) => {
                let v = match frame.copy_loc(i) {
                    Ok(v) => v,
                    Err(e) => return StepExit::Fail(e),
                };
                match self.operand_stack.push(v) {
                    Ok(()) => {
                        let _ = frame.move_loc(i);
                        StepExit::Continue
                    },
                    Err(e) => StepExit::Fail(e),
                }
            },
            Bytecode::StLoc(i) => {
                let v = match self.operand_stack.pop() {
                    Ok(v) => v,
                    Err(e) => return StepExit::Fail(e),
                };
                match frame.store_loc(i, v) {
                    Ok(()) => StepExit::Continue,
                    Err(e) => StepExit::Fail(e),
                }
            },
            Bytecode::Call(idx) => self.call(prog, frame, idx),
            Bytecode::MoveTo(sd) => {
                let v = match self.operand_stack.pop() {
                    Ok(v) => v,
                    Err(e) => return StepExit::Fail(e),
                };
                match self.operand_stack.pop_address() {
                    Ok(a) => StepExit::Suspend(
                        Exit::Global { op: GlobalOp::MoveTo, struct_idx: sd, address: a, value: Some(v) },
                    ),
                    Err(e) => StepExit::Fail(e),
                }
            },
            Bytecode::MoveFrom(sd) | Bytecode::Exists(sd) | Bytecode::BorrowGlobal(sd) => {
                let op = match instr {
                    Bytecode::MoveFrom(_) => GlobalOp::MoveFrom,
                    Bytecode::Exists(_) => GlobalOp::Exists,
                    _ => GlobalOp::BorrowGlobal,
                };
                match self.operand_stack.pop_address() {
                    Ok(a) => StepExit::Suspend(
                        Exit::Global { op, struct_idx: sd, address: a, value: None },
                    ),
                    Err(e) => StepExit::Fail(e),
                }
            },
            _ => {
                match apply_stack_op(&mut self.operand_stack, instr, self.gas_remaining) {
                    Ok(()) => StepExit::Continue,
                    Err(e) => StepExit::Fail(e),
                }
            },
        }
    }

    /// Calls function `idx` from `frame`, whose pc is already past the call.
    fn call(&mut self, prog: &Vec<Function>, frame: &mut Frame, idx: u16) -> (r: StepExit)
        ensures
            match call_spec(prog@, old(self).machine_of(old(frame)@), idx) {
                StepResult::Continue(m) => r is Continue && final(self).machine_of(final(frame)@) == m,
                StepResult::Done(m) => false,
                StepResult::Fail(e, g) => r == StepExit::Fail(e) && final(self).spec_gas() == g,
                StepResult::Suspend(m, why) => (r matches StepExit::Suspend(x) && x.suspension()
                    == Some(why)) && final(self).machine_of(final(frame)@) == m,
            },
            final(self).suspended == old(self).suspended,
    {
        if idx as usize >= prog.len() {
            return StepExit::Fail(StatusCode::LinkerError);
        }
        let n = prog[idx as usize].arg_count;
        let local_count = prog[idx as usize].local_count;
        let depth = self.operand_stack.len();
        if let Some(arity) = prog[idx as usize].native_arity {
            if arity != n {
                return StepExit::Fail(StatusCode::LinkerError);
            }
            if depth < n {
                return StepExit::Fail(StatusCode::EmptyValueStack);
            }
            let args = self.operand_stack.pop_many(n);
            return StepExit::Suspend(Exit::Native { function: idx, args });
        }
        if n > 0 && depth == 0 {
            return StepExit::Fail(StatusCode::EmptyValueStack);
        }
        if n > local_count {
            return StepExit::Fail(StatusCode::IndexOutOfBounds);
        }
        if depth < n {
            return StepExit::Fail(StatusCode::EmptyValueStack);
        }
        if self.call_stack.len() >= CALL_STACK_SIZE_LIMIT {
            return StepExit::Fail(StatusCode::CallStackOverflow);
        }
        let args = self.operand_stack.pop_many(n);
        let mut callee = Frame::new(idx as usize, make_locals(args.as_slice(), local_count));
        core::mem::swap(frame, &mut callee);
        match self.call_stack.push(callee) {
            Ok(()) => StepExit::Continue,
            Err(_) => StepExit::Fail(StatusCode::CallStackOverflow),
        }
    }

    /// Runs from `frame` until the outermost function returns, an error
    /// stops the execution, or it waits for outside work.
    fn run(&mut self, prog: &Vec<Function>, sched: &GasSchedule, frame: Frame) -> (r: Result<
        Exit,
        StatusCode,
    >)
        requires
            program_wf(prog@),
            sched.wf(),
            old(self).spec_suspended() is None,
        ensures
            match run_spec(prog@, sched@, old(self).machine_of(frame@), old(self).spec_gas() as nat + 1) {
                Outcome::Finished(m) => (r matches Ok(x) && x is Returned) && final(self).spec_stack()
                    == m.stack && final(self).spec_gas() == m.gas && final(self).spec_call_stack().len()
                    == 0 && final(self).spec_suspended() is None,
                Outcome::Failed(e, g) => r == Err::<Exit, StatusCode>(e) && final(self).spec_stack()
                    == Seq::<Value>::empty() && final(self).spec_call_stack().len() == 0
                    && final(self).spec_gas() == g && final(self).spec_suspended() is None,
                Outcome::Suspended(m, why) => (r matches Ok(x) && x.suspension() == Some(why))
                    && final(self).spec_suspended() == Some(m.frame) && final(self).machine_of(m.frame)
                    == m,
            },
    {
        let mut cur = frame;
        let mut fuel: u64 = self.gas_remaining;
        loop
            invariant
                program_wf(prog@),
                sched.wf(),
                self.spec_suspended() is None,
                run_spec(prog@, sched@, self.machine_of(cur@), fuel as nat + 1) == run_spec(
                    prog@,
                    sched@,
                    old(self).machine_of(frame@),
                    old(self).spec_gas() as nat + 1,
                ),
            decreases fuel,
        {
            proof {
                lemma_done_has_no_callers(prog@, sched@, self.machine_of(cur@));
            }
            match self.step(prog, sched, &mut cur) {
                StepExit::Continue => {
                    if fuel == 0 {
                        assert(run_spec(prog@, sched@, self.machine_of(cur@), 0) == Outcome::Failed(
                            StatusCode::OutOfGas,
                            self.spec_gas(),
                        ));
                        self.operand_stack.clear();
                        self.call_stack.clear();
                        return Err(StatusCode::OutOfGas);
                    }
                    fuel = fuel - 1;
                },
                StepExit::Done => {
                    return Ok(Exit::Returned);
                },
                StepExit::Fail(e) => {
                    self.operand_stack.clear();
                    self.call_stack.clear();
                    return Err(e);
                },
                StepExit::Suspend(x) => {
                    self.suspended = Some(cur);
                    return Ok(x);
                },
            }
        }
    }

    /// Executes `function` of `prog` on `args`. On an error both stacks are
    /// emptied; on a return the operand stack keeps what the function left;
    /// for a native call or a global-storage operation the execution waits
    /// for [`Interpreter::resume`].
    pub fn execute_function(
        &mut self,
        prog: &Vec<Function>,
        sched: &GasSchedule,
        function: usize,
        args: Vec<Value>,
    ) -> (r: Result<Exit, StatusCode>)
        requires
            old(self).wf(),
            old(self).spec_suspended() is None,
            program_wf(prog@),
            sched.wf(),
        ensures
            final(self).wf(),
            match execution_spec(
                prog@,
                sched@,
                old(self).spec_stack(),
                function,
                args@,
                old(self).spec_gas(),
            ) {
                Outcome::Finished(m) => (r matches Ok(x) && x is Returned) && final(self).spec_stack()
                    == m.stack && final(self).spec_gas() == m.gas && final(self).spec_call_stack().len()
                    == 0 && final(self).spec_suspended() is None,
                Outcome::Failed(e, g) => r == Err::<Exit, StatusCode>(e) && final(self).spec_stack()
                    == Seq::<Value>::empty() && final(self).spec_call_stack().len() == 0
                    && final(self).spec_gas() == g && final(self).spec_suspended() is None,
                Outcome::Suspended(m, why) => (r matches Ok(x) && x.suspension() == Some(why))
                    && final(self).spec_suspended() == Some(m.frame) && final(self).machine_of(m.frame)
                    == m,
            },
    {
        if function >= prog.len() {
            self.operand_stack.clear();
            return Err(StatusCode::LinkerError);
        }
        let local_count = prog[function].local_count;
        if args.len() > local_count {
            self.operand_stack.clear();
            return Err(StatusCode::IndexOutOfBounds);
        }
        let frame = Frame::new(function, make_locals(args.as_slice(), local_count));
        assert(self.spec_call_stack() =~= Seq::<FrameView>::empty());
        assert(run_spec(prog@, sched@, self.machine_of(frame@), self.spec_gas() as nat + 1)
            == execution_spec(
            prog@,
            sched@,
            old(self).spec_stack(),
            function,
            args@,
            old(self).spec_gas(),
        ));
        self.run(prog, sched, frame)
    }

    /// Resumes the execution that waits for outside work, once that work
    /// gave `results` (the values to push in order, or an error) and costs
    /// `cost`: the cost is charged first, then the values are pushed, then
    /// the execution runs on. On an error both stacks are emptied.
    pub fn resume(
        &mut self,
        prog: &Vec<Function>,
        sched: &GasSchedule,
        results: Result<Vec<Value>, StatusCode>,
        cost: u64,
    ) -> (r: Result<Exit, StatusCode>)
        requires
            old(self).spec_suspended() is Some,
            program_wf(prog@),
            sched.wf(),
        ensures
            final(self).wf(),
            match resume_spec(
                prog@,
                sched@,
                old(self).machine_of(old(self).spec_suspended().unwrap()),
                match results {
                    Ok(vs) => Ok::<Seq<Value>, StatusCode>(vs@),
                    Err(e) => Err::<Seq<Value>, StatusCode>(e),
                },
                cost,
            ) {
                Outcome::Finished(m) => (r matches Ok(x) && x is Returned) && final(self).spec_stack()
                    == m.stack && final(self).spec_gas() == m.gas && final(self).spec_call_stack().len()
                    == 0 && final(self).spec_suspended() is None,
                Outcome::Failed(e, g) => r == Err::<Exit, StatusCode>(e) && final(self).spec_stack()
                    == Seq::<Value>::empty() && final(self).spec_call_stack().len() == 0
                    && final(self).spec_gas() == g && final(self).spec_suspended() is None,
                Outcome::Suspended(m, why) => (r matches Ok(x) && x.suspension() == Some(why))
                    && final(self).spec_suspended() == Some(m.frame) && final(self).machine_of(m.frame)
                    == m,
            },
    {
        let ghost m = self.machine_of(self.spec_suspended().unwrap());
        let mut slot: Option<Frame> = None;
        core::mem::swap(&mut self.suspended, &mut slot);
        let frame = match slot {
            Some(f) => f,
            None => return Err(StatusCode::LinkerError),
        };
        assert(frame@ == m.frame);
        if cost > self.gas_remaining {
            self.operand_stack.clear();
            self.call_stack.clear();
            return Err(StatusCode::OutOfGas);
        }
        self.gas_remaining = self.gas_remaining - cost;
        match results {
            Err(e) => {
                self.operand_stack.clear();
                self.call_stack.clear();
                return Err(e);
            },
            Ok(vs) => {
                let mut k: usize = 0;
                assert(vs@.subrange(0, vs@.len() as int) =~= vs@);
                while k < vs.len()
                    invariant
                        k <= vs@.len(),
                        results == Ok::<Vec<Value>, StatusCode>(vs),
                        cost <= old(self).spec_gas(),
                        push_all(old(self).spec_stack(), vs@) == push_all(
                            self.spec_stack(),
                            vs@.subrange(k as int, vs@.len() as int),
                        ),
                        self.spec_call_stack() == old(self).spec_call_stack(),
                        self.spec_gas() == old(self).spec_gas() - cost,
                        self.spec_suspended() is None,
                    decreases vs.len() - k,
                {
                    let ghost rest = vs@.subrange(k as int, vs@.len() as int);
                    let ghost before = self.spec_stack();
                    assert(rest.drop_first() =~= vs@.subrange(k + 1, vs@.len() as int));
                    assert(rest[0] == vs@[k as int]);
                    match self.operand_stack.push(vs[k]) {
                        Ok(()) => {},
                        Err(e) => {
                            assert(push_spec(before, vs@[k as int]) == Err::<Seq<Value>, StatusCode>(
                                e,
                            ));
                            assert(push_all(before, rest) == Err::<Seq<Value>, StatusCode>(e));
                            self.operand_stack.clear();
                            self.call_stack.clear();
                            return Err(e);
                        },
                    }
                    k = k + 1;
                }
            },
        }
        self.run(prog, sched, frame)
    }
}

/// A step that finishes the execution leaves no caller behind.
proof fn lemma_done_has_no_callers(prog: Seq<Function>, costs: Seq<u64>, m: MachineView)
    ensures
        step_spec(prog, costs, m) matches StepResult::Done(end) ==> end.callers.len() == 0,
{
}

/// The instruction at the running frame's pc, if there is one.
pub open spec fn current_instr(prog: Seq<Function>, m: MachineView) -> Option<Bytecode> {
    if m.frame.function < prog.len() && m.frame.pc < prog[m.frame.function as int].code@.len() {
        Some(prog[m.frame.function as int].code@[m.frame.pc as int])
    } else {
        None
    }
}

proof fn lemma_stack_op_not_out_of_gas(s: Seq<Value>, instr: Bytecode, gas: u64)
    ensures
        stack_op_spec(s, instr, gas) != Err::<Seq<Value>, StatusCode>(StatusCode::OutOfGas),
{
}

/// Every instruction spends gas: a step that goes on or finishes leaves
/// less gas than it found, by the instruction's cost, and a failing one no
/// more. A step fails for want of gas exactly when its instruction costs
/// more than is left, and then nothing is charged.
pub proof fn lemma_gas_monotone(prog: Seq<Function>, costs: Seq<u64>, m: MachineView)
    requires
        costs_wf(costs),
    ensures
        match step_spec(prog, costs, m) {
            StepResult::Continue(next) => next.gas == m.gas - cost_spec(
                costs,
                current_instr(prog, m).unwrap(),
            ) && next.gas < m.gas,
            StepResult::Done(end) => end.gas == m.gas - cost_spec(
                costs,
                current_instr(prog, m).unwrap(),
            ) && end.gas < m.gas,
            StepResult::Fail(e, g) => g <= m.gas,
            StepResult::Suspend(waiting, why) => waiting.gas == m.gas - cost_spec(
                costs,
                current_instr(prog, m).unwrap(),
            ) && waiting.gas < m.gas,
        },
        (step_spec(prog, costs, m) matches StepResult::Fail(e, g) && e == StatusCode::OutOfGas)
            <==> (current_instr(prog, m) matches Some(i) && cost_spec(costs, i) > m.gas),
        step_spec(prog, costs, m) matches StepResult::Fail(e, g) ==> (e == StatusCode::OutOfGas
            ==> g == m.gas),
{
    if let Some(i) = current_instr(prog, m) {
        assert(0 <= opcode(i) < NUM_OPCODES);
        assert(cost_spec(costs, i) >= 1);
        lemma_stack_op_not_out_of_gas(m.stack, i, (m.gas - cost_spec(costs, i)) as u64);
    }
}

/// A run never ends with more gas than it started with, and a failing step
/// ends the run with that step's error: no instruction after it executes.
pub proof fn lemma_run_gas(prog: Seq<Function>, costs: Seq<u64>, m: MachineView, fuel: nat)
    requires
        costs_wf(costs),
    ensures
        match run_spec(prog, costs, m, fuel) {
            Outcome::Finished(end) => end.gas <= m.gas,
            Outcome::Failed(e, g) => g <= m.gas,
            Outcome::Suspended(waiting, why) => waiting.gas <= m.gas,
        },
        fuel > 0 ==> (step_spec(prog, costs, m) matches StepResult::Fail(e, g) ==> run_spec(
            prog,
            costs,
            m,
            fuel,
        ) == Outcome::Failed(e, g)),
    decreases fuel,
{
    lemma_gas_monotone(prog, costs, m);
    if fuel > 0 {
        if let StepResult::Continue(next) = step_spec(prog, costs, m) {
            lemma_run_gas(prog, costs, next, (fuel - 1) as nat);
        }
    }
}


} // verus!
