//! Virtual machine to run l9 programs.
//!
//! The machine executes one instruction per call of [`Vm::step`]. What an
//! instruction needs from outside the machine (showing a value, or computing
//! with binary64 numbers) it asks for in the [`Step`] that it returns; the
//! caller performs it and, for a computation, hands the result back with
//! [`Vm::resume`].
use vstd::prelude::*;

use crate::text::{decimal, decimal_digits};
use crate::value::ValueType;
use crate::vm::globals::Globals;
use crate::vm::opcode::{copy_op, Chunk, Op};

verus! {

#[derive(Debug, Clone, PartialEq)]
pub enum VmError {
    CompilationError,
    RuntimeError(VmRuntimeError),
}

#[derive(Debug, Clone, PartialEq)]
pub enum VmRuntimeError {
    Unknown,
    StackExhausted,
    TypeMismatch,
    UndefinedVariable(String),
    WrongOperation,
    IllegalJump(usize, isize),
}

impl Default for VmRuntimeError {
    fn default() -> (e: VmRuntimeError)
        ensures
            e == VmRuntimeError::Unknown,
    {
        VmRuntimeError::Unknown
    }
}

/// The value of a runtime error, with the text of a variable's name as a
/// sequence of characters.
pub enum RuntimeFault {
    Unknown,
    StackExhausted,
    TypeMismatch,
    UndefinedVariable(Seq<char>),
    WrongOperation,
    IllegalJump(usize, isize),
}

/// The value of an error of the machine.
pub enum Fault {
    Compilation,
    Runtime(RuntimeFault),
}

impl View for VmRuntimeError {
    type V = RuntimeFault;

    open spec fn view(&self) -> RuntimeFault {
        match self {
            VmRuntimeError::Unknown => RuntimeFault::Unknown,
            VmRuntimeError::StackExhausted => RuntimeFault::StackExhausted,
            VmRuntimeError::TypeMismatch => RuntimeFault::TypeMismatch,
            VmRuntimeError::UndefinedVariable(name) => RuntimeFault::UndefinedVariable(name@),
            VmRuntimeError::WrongOperation => RuntimeFault::WrongOperation,
            VmRuntimeError::IllegalJump(from, offset) => RuntimeFault::IllegalJump(*from, *offset),
        }
    }
}

impl View for VmError {
    type V = Fault;

    open spec fn view(&self) -> Fault {
        match self {
            VmError::CompilationError => Fault::Compilation,
            VmError::RuntimeError(e) => Fault::Runtime(e@),
        }
    }
}

/// The error of a pop from an empty stack, and of a write past its end.
pub open spec fn exhausted() -> Fault {
    Fault::Runtime(RuntimeFault::StackExhausted)
}

/// The error of an operation on operands of the wrong type.
pub open spec fn mismatch() -> Fault {
    Fault::Runtime(RuntimeFault::TypeMismatch)
}

fn stack_exhausted() -> (e: VmError)
    ensures
        e@ == exhausted(),
{
    VmError::RuntimeError(VmRuntimeError::StackExhausted)
}

fn type_mismatch() -> (e: VmError)
    ensures
        e@ == mismatch(),
{
    VmError::RuntimeError(VmRuntimeError::TypeMismatch)
}

/// The capacity that a new stack is made with.
pub const STACK_SIZE: usize = 1024 * 1024;

/// The operand stack of the machine. Its view is the sequence of values,
/// the top last.
#[derive(Debug)]
pub struct VmStack {
    stack: Vec<ValueType>,
}

impl View for VmStack {
    type V = Seq<ValueType>;

    closed spec fn view(&self) -> Seq<ValueType> {
        self.stack@
    }
}

impl VmStack {
    /// Takes the top value off the stack.
    pub fn pop(&mut self) -> (r: Result<ValueType, VmError>)
        ensures
            old(self)@.len() > 0 ==> r == Ok::<ValueType, VmError>(old(self)@.last())
                && final(self)@ == old(self)@.drop_last(),
            old(self)@.len() == 0 ==> r is Err && r->Err_0@ == exhausted() && final(self)@ == old(
                self,
            )@,
    {
        match self.stack.pop() {
            Some(v) => Ok(v),
            None => Err(stack_exhausted()),
        }
    }

    /// The value at `offset` from the bottom of the stack.
    pub fn peek(&self, offset: usize) -> (r: Option<&ValueType>)
        ensures
            r is Some <==> offset < self@.len(),
            r matches Some(v) ==> *v == self@[offset as int],
    {
        if offset < self.stack.len() {
            Some(&self.stack[offset])
        } else {
            None
        }
    }

    /// The top value.
    pub fn last(&self) -> (r: Option<&ValueType>)
        ensures
            r is Some <==> self@.len() > 0,
            r matches Some(v) ==> *v == self@.last(),
    {
        let n = self.stack.len();
        if n > 0 {
            Some(&self.stack[n - 1])
        } else {
            None
        }
    }

    pub fn len(&self) -> (n: usize)
        ensures
            n == self@.len(),
    {
        self.stack.len()
    }

    pub fn is_empty(&self) -> (b: bool)
        ensures
            b == (self@.len() == 0),
    {
        self.stack.is_empty()
    }

    /// Puts `value` on top of the stack.
    pub fn push(&mut self, value: ValueType)
        ensures
            final(self)@ == old(self)@.push(value),
    {
        self.stack.push(value);
    }

    /// Replaces the value at `offset` from the bottom of the stack.
    pub fn set(&mut self, offset: usize, value: ValueType) -> (r: Result<(), VmError>)
        ensures
            offset < old(self)@.len() ==> r is Ok && final(self)@ == old(self)@.update(
                offset as int,
                value,
            ),
            offset >= old(self)@.len() ==> r is Err && r->Err_0@ == exhausted() && final(self)@
                == old(self)@,
    {
        if offset < self.stack.len() {
            self.stack.set(offset, value);
            Ok(())
        } else {
            Err(stack_exhausted())
        }
    }
}

impl Default for VmStack {
    fn default() -> (s: VmStack)
        ensures
            s@ == Seq::<ValueType>::empty(),
    {
        let stack = Vec::with_capacity(STACK_SIZE);
        VmStack { stack }
    }
}

/// A computation on two binary64 numbers that the machine asks for.
#[derive(Debug, Clone, Copy, PartialEq, Eq, Structural)]
pub enum ArithmeticOp {
    /// `a + b`, a number.
    Add,
    /// `a - b`, a number.
    Sub,
    /// `a * b`, a number.
    Mul,
    /// `a / b`, a number.
    Div,
    /// `a >= b`, a boolean.
    Ge,
    /// `a <= b`, a boolean.
    Le,
    /// `a == b`, a boolean.
    Cmp,
}

/// What an executed instruction asks of the caller.
#[derive(Debug, Clone, Copy, PartialEq, Eq, Structural)]
pub enum Step {
    /// There is no instruction at the instruction pointer: the program ended.
    Halted,
    /// The instruction is done.
    Continue,
    /// Show the value at the bottom of the stack, or that there is none.
    Show(Option<ValueType>),
    /// Print a value.
    Print(ValueType),
    /// Compute `op` on the numbers with bit patterns `a` (taken from the top
    /// of the stack) and `b` (taken from below it), and hand the result back
    /// with [`Vm::resume`].
    Arithmetic(ArithmeticOp, u64, u64),
}

/// The state of the machine.
pub struct Machine {
    pub ip: usize,
    pub code: Seq<Op>,
    pub stack: Seq<ValueType>,
    pub globals: Map<Seq<char>, ValueType>,
}

impl Machine {
    pub open spec fn with_ip(self, ip: usize) -> Machine {
        Machine { ip, code: self.code, stack: self.stack, globals: self.globals }
    }

    pub open spec fn with_stack(self, stack: Seq<ValueType>) -> Machine {
        Machine { ip: self.ip, code: self.code, stack, globals: self.globals }
    }

    pub open spec fn with_globals(self, globals: Map<Seq<char>, ValueType>) -> Machine {
        Machine { ip: self.ip, code: self.code, stack: self.stack, globals }
    }

    /// The state after pushing `value`.
    pub open spec fn pushed(self, value: ValueType) -> Machine {
        self.with_stack(self.stack.push(value))
    }

    /// The state after popping the top value.
    pub open spec fn popped(self) -> Machine {
        self.with_stack(self.stack.drop_last())
    }
}

/// What executing an instruction gives: its result and the next state.
pub type Outcome = (Result<Step, Fault>, Machine);

/// One step: the instruction at the instruction pointer, after the pointer
/// has moved past it.
pub open spec fn spec_step(m: Machine) -> Outcome {
    if m.ip >= m.code.len() {
        (Ok(Step::Halted), m)
    } else {
        spec_execute(m.code[m.ip as int], m.with_ip((m.ip + 1) as usize))
    }
}

/// Executes `op` in state `m`.
pub open spec fn spec_execute(op: Op, m: Machine) -> Outcome {
    match op {
        Op::Return => (
            Ok(Step::Show(
                if m.stack.len() > 0 {
                    Some(m.stack[0])
                } else {
                    None
                },
            )),
            m,
        ),
        Op::ConstFloat(n) => (Ok(Step::Continue), m.pushed(ValueType::Number(n))),
        Op::ConstBool(b) => (Ok(Step::Continue), m.pushed(ValueType::Bool(b))),
        Op::Pop => if m.stack.len() > 0 {
            (Ok(Step::Continue), m.popped())
        } else {
            (Err(exhausted()), m)
        },
        Op::Nil => (Ok(Step::Continue), m.pushed(ValueType::Nil)),
        Op::Add | Op::Sub | Op::Mul | Op::Div | Op::Ge | Op::Le | Op::Cmp => spec_binary(op, m),
        Op::Not => spec_not(m),
        Op::Print => spec_print(m),
        Op::StoreGlobal(name) => spec_store_global(name@, m),
        Op::LoadGlobal(name) => spec_load_global(name@, m),
        Op::StoreLocal(offset) => spec_store_local(offset, m),
        Op::LoadLocal(offset) => spec_load_local(offset, m),
        Op::Jump(offset) => spec_jump(offset, m),
        Op::JumpIfFalse(offset) => spec_jump_if_false(offset, m),
    }
}

/// The computation that a binary instruction asks for on two numbers.
pub open spec fn arithmetic_of(op: Op) -> Option<ArithmeticOp> {
    match op {
        Op::Add => Some(ArithmeticOp::Add),
        Op::Sub => Some(ArithmeticOp::Sub),
        Op::Mul => Some(ArithmeticOp::Mul),
        Op::Div => Some(ArithmeticOp::Div),
        Op::Ge => Some(ArithmeticOp::Ge),
        Op::Le => Some(ArithmeticOp::Le),
        Op::Cmp => Some(ArithmeticOp::Cmp),
        _ => None,
    }
}

/// A binary instruction: pops `a`, then `b`, and combines them.
pub open spec fn spec_binary(op: Op, m: Machine) -> Outcome {
    if m.stack.len() == 0 {
        (Err(exhausted()), m)
    } else if m.stack.len() == 1 {
        (Err(exhausted()), m.popped())
    } else {
        let a = m.stack.last();
        let b = m.popped().stack.last();
        let rest = m.popped().popped();
        match (arithmetic_of(op), a, b) {
            (Some(arith), ValueType::Number(x), ValueType::Number(y)) => (
                Ok(Step::Arithmetic(arith, x, y)),
                rest,
            ),
            (Some(ArithmeticOp::Cmp), ValueType::Bool(x), ValueType::Bool(y)) => (
                Ok(Step::Continue),
                rest.pushed(ValueType::Bool(x == y)),
            ),
            _ => if op is Not {
                (Err(Fault::Runtime(RuntimeFault::WrongOperation)), rest)
            } else {
                (Err(mismatch()), rest)
            },
        }
    }
}

/// Boolean negation of the top value.
pub open spec fn spec_not(m: Machine) -> Outcome {
    if m.stack.len() == 0 {
        (Err(exhausted()), m)
    } else {
        match m.stack.last() {
            ValueType::Bool(b) => (Ok(Step::Continue), m.popped().pushed(ValueType::Bool(!b))),
            _ => (Err(mismatch()), m.popped()),
        }
    }
}

/// Pops the top value and asks for it to be printed; `Nil` cannot be.
pub open spec fn spec_print(m: Machine) -> Outcome {
    if m.stack.len() == 0 {
        (Err(exhausted()), m)
    } else {
        match m.stack.last() {
            ValueType::Nil => (Err(mismatch()), m.popped()),
            v => (Ok(Step::Print(v)), m.popped()),
        }
    }
}

/// Pops the top value into the global variable `name`.
pub open spec fn spec_store_global(name: Seq<char>, m: Machine) -> Outcome {
    if m.stack.len() == 0 {
        (Err(exhausted()), m)
    } else {
        (Ok(Step::Continue), m.popped().with_globals(m.globals.insert(name, m.stack.last())))
    }
}

/// Pushes the value of the global variable `name`.
pub open spec fn spec_load_global(name: Seq<char>, m: Machine) -> Outcome {
    if m.globals.dom().contains(name) {
        (Ok(Step::Continue), m.pushed(m.globals[name]))
    } else {
        (Err(Fault::Runtime(RuntimeFault::UndefinedVariable(name))), m)
    }
}

/// Copies the top value to `offset` from the bottom of the stack.
pub open spec fn spec_store_local(offset: usize, m: Machine) -> Outcome {
    if m.stack.len() == 0 || offset >= m.stack.len() {
        (Err(exhausted()), m)
    } else {
        (Ok(Step::Continue), m.with_stack(m.stack.update(offset as int, m.stack.last())))
    }
}

/// Pushes a copy of the value at `offset` from the bottom of the stack.
pub open spec fn spec_load_local(offset: usize, m: Machine) -> Outcome {
    if offset < m.stack.len() {
        (Ok(Step::Continue), m.pushed(m.stack[offset as int]))
    } else {
        (
            Err(Fault::Runtime(RuntimeFault::UndefinedVariable(decimal_digits(offset as nat)))),
            m,
        )
    }
}

/// Moves the instruction pointer by `offset`.
pub open spec fn spec_jump(offset: i32, m: Machine) -> Outcome {
    let target = m.ip + offset;
    if 0 <= target <= usize::MAX {
        (Ok(Step::Continue), m.with_ip(target as usize))
    } else {
        (Err(Fault::Runtime(RuntimeFault::IllegalJump(m.ip, offset as isize))), m)
    }
}

/// Pops a boolean and moves the instruction pointer by `offset` if it is
/// false.
pub open spec fn spec_jump_if_false(offset: i32, m: Machine) -> Outcome {
    if m.stack.len() == 0 {
        (Err(exhausted()), m)
    } else {
        match m.stack.last() {
            ValueType::Bool(b) => if !b {
                spec_jump(offset, m.popped())
            } else {
                (Ok(Step::Continue), m.popped())
            },
            _ => (Err(mismatch()), m.popped()),
        }
    }
}

/// The value of what an instruction gave back.
pub open spec fn step_view(r: Result<Step, VmError>) -> Result<Step, Fault> {
    match r {
        Ok(s) => Ok(s),
        Err(e) => Err(e@),
    }
}

/// The value of what an instruction that needs nothing from outside gave
/// back.
pub open spec fn done_view(r: Result<(), VmError>) -> Result<Step, Fault> {
    match r {
        Ok(_) => Ok(Step::Continue),
        Err(e) => Err(e@),
    }
}

fn finished(r: Result<(), VmError>) -> (s: Result<Step, VmError>)
    ensures
        step_view(s) == done_view(r),
{
    match r {
        Ok(_) => Ok(Step::Continue),
        Err(e) => Err(e),
    }
}

/// The virtual machine.
#[derive(Debug)]
pub struct Vm {
    ip: usize,
    chunk: Chunk,
    stack: VmStack,
    globals: Globals,
}

impl View for Vm {
    type V = Machine;

    closed spec fn view(&self) -> Machine {
        Machine { ip: self.ip, code: self.chunk@, stack: self.stack@, globals: self.globals@ }
    }
}

impl Vm {
    /// Loads `chunk` and points the instruction pointer at its first
    /// instruction, keeping the stack and the global variables as they are.
    /// Nothing is executed here: the caller runs the chunk by calling
    /// [`Vm::step`] until it halts or fails.
    pub fn interpret(&mut self, chunk: Chunk)
        ensures
            final(self)@ == (Machine { ip: 0, code: chunk@, ..old(self)@ }),
    {
        self.ip = 0;
        self.chunk = chunk;
    }

    /// Executes the instruction at the instruction pointer.
    pub fn step(&mut self) -> (r: Result<Step, VmError>)
        ensures
            (step_view(r), final(self)@) == spec_step(old(self)@),
    {
        let op = match self.chunk.op(self.ip) {
            Some(op) => copy_op(op),
            None => {
                return Ok(Step::Halted);
            },
        };
        self.ip = self.ip + 1;
        match op {
            Op::Return => {
                let shown = match self.stack.peek(0) {
                    Some(v) => Some(*v),
                    None => None,
                };
                Ok(Step::Show(shown))
            },
            Op::ConstFloat(n) => {
                self.stack.push(ValueType::Number(n));
                Ok(Step::Continue)
            },
            Op::ConstBool(b) => {
                self.stack.push(ValueType::Bool(b));
                Ok(Step::Continue)
            },
            Op::Pop => match self.stack.pop() {
                Ok(_) => Ok(Step::Continue),
                Err(e) => Err(e),
            },
            Op::Nil => {
                self.stack.push(ValueType::Nil);
                Ok(Step::Continue)
            },
            Op::Add | Op::Sub | Op::Mul | Op::Div | Op::Ge | Op::Le | Op::Cmp => {
                self.binary_operation(op)
            },
            Op::Not => finished(self.not()),
            Op::Print => self.print(),
            Op::StoreGlobal(name) => finished(self.global_variable(name)),
            Op::LoadGlobal(name) => finished(self.load_global_variable(name)),
            Op::StoreLocal(offset) => finished(self.write_local_variable(offset)),
            Op::LoadLocal(offset) => finished(self.read_local_variable(offset)),
            Op::Jump(offset) => finished(self.jump(offset)),
            Op::JumpIfFalse(offset) => finished(self.jump_if_false(offset)),
        }
    }

    /// Pushes `value`: the result of the computation that the last step
    /// asked for.
    pub fn resume(&mut self, value: ValueType)
        ensures
            final(self)@ == old(self)@.pushed(value),
    {
        self.stack.push(value);
    }

    /// The instruction pointer.
    pub fn ip(&self) -> (ip: usize)
        ensures
            ip == self@.ip,
    {
        self.ip
    }

    /// The program being run.
    pub fn chunk(&self) -> (c: &Chunk)
        ensures
            c@ == self@.code,
    {
        &self.chunk
    }

    /// The operand stack.
    pub fn stack(&self) -> (s: &VmStack)
        ensures
            s@ == self@.stack,
    {
        &self.stack
    }

    fn binary_operation(&mut self, operation: Op) -> (r: Result<Step, VmError>)
        ensures
            (step_view(r), final(self)@) == spec_binary(operation, old(self)@),
    {
        let value_a = match self.stack.pop() {
            Ok(v) => v,
            Err(e) => {
                return Err(e);
            },
        };
        let value_b = match self.stack.pop() {
            Ok(v) => v,
            Err(e) => {
                return Err(e);
            },
        };
        match (operation, value_a, value_b) {
            (Op::Add, ValueType::Number(a), ValueType::Number(b)) => Ok(
                Step::Arithmetic(ArithmeticOp::Add, a, b),
            ),
            (Op::Sub, ValueType::Number(a), ValueType::Number(b)) => Ok(
                Step::Arithmetic(ArithmeticOp::Sub, a, b),
            ),
            (Op::Mul, ValueType::Number(a), ValueType::Number(b)) => Ok(
                Step::Arithmetic(ArithmeticOp::Mul, a, b),
            ),
            (Op::Div, ValueType::Number(a), ValueType::Number(b)) => Ok(
                Step::Arithmetic(ArithmeticOp::Div, a, b),
            ),
            (Op::Ge, ValueType::Number(a), ValueType::Number(b)) => Ok(
                Step::Arithmetic(ArithmeticOp::Ge, a, b),
            ),
            (Op::Le, ValueType::Number(a), ValueType::Number(b)) => Ok(
                Step::Arithmetic(ArithmeticOp::Le, a, b),
            ),
            (Op::Cmp, ValueType::Number(a), ValueType::Number(b)) => Ok(
                Step::Arithmetic(ArithmeticOp::Cmp, a, b),
            ),
            (Op::Cmp, ValueType::Bool(a), ValueType::Bool(b)) => {
                self.stack.push(ValueType::Bool(a == b));
                Ok(Step::Continue)
            },
            (Op::Not, _, _) => Err(VmError::RuntimeError(VmRuntimeError::WrongOperation)),
            _ => Err(type_mismatch()),
        }
    }

    fn not(&mut self) -> (r: Result<(), VmError>)
        ensures
            (done_view(r), final(self)@) == spec_not(old(self)@),
    {
        let result = match self.stack.pop() {
            Ok(ValueType::Bool(b)) => ValueType::Bool(!b),
            Ok(_) => {
                return Err(type_mismatch());
            },
            Err(e) => {
                return Err(e);
            },
        };
        self.stack.push(result);
        Ok(())
    }

    fn print(&mut self) -> (r: Result<Step, VmError>)
        ensures
            (step_view(r), final(self)@) == spec_print(old(self)@),
    {
        match self.stack.pop() {
            Ok(ValueType::Nil) => Err(type_mismatch()),
            Ok(v) => Ok(Step::Print(v)),
            Err(e) => Err(e),
        }
    }

    fn global_variable(&mut self, name: String) -> (r: Result<(), VmError>)
        ensures
            (done_view(r), final(self)@) == spec_store_global(name@, old(self)@),
    {
        let value = match self.stack.pop() {
            Ok(v) => v,
            Err(e) => {
                return Err(e);
            },
        };
        self.globals.insert(name, value);
        Ok(())
    }

    fn load_global_variable(&mut self, name: String) -> (r: Result<(), VmError>)
        ensures
            (done_view(r), final(self)@) == spec_load_global(name@, old(self)@),
    {
        let value = match self.globals.get(&name) {
            Some(v) => v,
            None => {
                return Err(VmError::RuntimeError(VmRuntimeError::UndefinedVariable(name)));
            },
        };
        self.stack.push(value);
        Ok(())
    }

    fn write_local_variable(&mut self, offset: usize) -> (r: Result<(), VmError>)
        ensures
            (done_view(r), final(self)@) == spec_store_local(offset, old(self)@),
    {
        let value = match self.stack.last() {
            Some(v) => *v,
            None => {
                return Err(stack_exhausted());
            },
        };
        self.stack.set(offset, value)
    }

    fn read_local_variable(&mut self, offset: usize) -> (r: Result<(), VmError>)
        ensures
            (done_view(r), final(self)@) == spec_load_local(offset, old(self)@),
    {
        let value = match self.stack.peek(offset) {
            Some(v) => *v,
            None => {
                return Err(
                    VmError::RuntimeError(VmRuntimeError::UndefinedVariable(decimal(offset))),
                );
            },
        };
        self.stack.push(value);
        Ok(())
    }

    fn jump(&mut self, offset: i32) -> (r: Result<(), VmError>)
        ensures
            (done_view(r), final(self)@) == spec_jump(offset, old(self)@),
    {
        let ip = self.ip;
        if offset >= 0 {
            let forward = offset as usize;
            if ip <= usize::MAX - forward {
                self.ip = ip + forward;
                Ok(())
            } else {
                Err(VmError::RuntimeError(VmRuntimeError::IllegalJump(ip, offset as isize)))
            }
        } else {
            let back = (0i64 - offset as i64) as usize;
            if back <= ip {
                self.ip = ip - back;
                Ok(())
            } else {
                Err(VmError::RuntimeError(VmRuntimeError::IllegalJump(ip, offset as isize)))
            }
        }
    }

    fn jump_if_false(&mut self, offset: i32) -> (r: Result<(), VmError>)
        ensures
            (done_view(r), final(self)@) == spec_jump_if_false(offset, old(self)@),
    {
        match self.stack.pop() {
            Ok(ValueType::Bool(b)) => {
                if !b {
                    self.jump(offset)
                } else {
                    Ok(())
                }
            },
            Ok(_) => Err(type_mismatch()),
            Err(e) => Err(e),
        }
    }
}

impl Default for Vm {
    fn default() -> (vm: Vm)
        ensures
            vm@ == (Machine {
                ip: 0,
                code: Seq::empty(),
                stack: Seq::empty(),
                globals: Map::empty(),
            }),
    {
        Vm { ip: 0, chunk: Chunk::default(), stack: VmStack::default(), globals: Globals::new() }
    }
}

} // verus!
