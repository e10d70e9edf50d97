//! Instructions of the virtual machine.
use vstd::prelude::*;

verus! {

/// An instruction. `ConstFloat` holds the IEEE-754 binary64 bit pattern of
/// the number it pushes; jump offsets count from the next instruction.
#[derive(Debug, Clone, PartialEq)]
pub enum Op {
    Return,
    ConstFloat(u64),
    ConstBool(bool),
    Pop,
    Nil,
    Add,
    Sub,
    Mul,
    Div,
    Ge,
    Le,
    Cmp,
    Not,
    Print,
    StoreGlobal(String),
    LoadGlobal(String),
    StoreLocal(usize),
    LoadLocal(usize),
    Jump(i32),
    JumpIfFalse(i32),
}

/// A copy of `op`.
pub fn copy_op(op: &Op) -> (r: Op)
    ensures
        r == *op,
{
    match op {
        Op::Return => Op::Return,
        Op::ConstFloat(n) => Op::ConstFloat(*n),
        Op::ConstBool(b) => Op::ConstBool(*b),
        Op::Pop => Op::Pop,
        Op::Nil => Op::Nil,
        Op::Add => Op::Add,
        Op::Sub => Op::Sub,
        Op::Mul => Op::Mul,
        Op::Div => Op::Div,
        Op::Ge => Op::Ge,
        Op::Le => Op::Le,
        Op::Cmp => Op::Cmp,
        Op::Not => Op::Not,
        Op::Print => Op::Print,
        Op::StoreGlobal(name) => Op::StoreGlobal(name.clone()),
        Op::LoadGlobal(name) => Op::LoadGlobal(name.clone()),
        Op::StoreLocal(k) => Op::StoreLocal(*k),
        Op::LoadLocal(k) => Op::LoadLocal(*k),
        Op::Jump(offset) => Op::Jump(*offset),
        Op::JumpIfFalse(offset) => Op::JumpIfFalse(*offset),
    }
}

/// A sequence of instructions. Its view is the sequence itself.
#[derive(Debug)]
pub struct Chunk {
    ops: Vec<Op>,
}

impl View for Chunk {
    type V = Seq<Op>;

    closed spec fn view(&self) -> Seq<Op> {
        self.ops@
    }
}

impl Chunk {
    pub fn new(ops: Vec<Op>) -> (c: Chunk)
        ensures
            c@ == ops@,
    {
        Chunk { ops }
    }

    /// The instruction at `index`, if there is one.
    pub fn op(&self, index: usize) -> (r: Option<&Op>)
        ensures
            r is Some <==> index < self@.len(),
            self@.len() <= usize::MAX,
            r matches Some(op) ==> *op == self@[index as int],
    {
        if index < self.ops.len() {
            Some(&self.ops[index])
        } else {
            None
        }
    }

    pub fn len(&self) -> (n: usize)
        ensures
            n == self@.len(),
    {
        self.ops.len()
    }

    pub fn is_empty(&self) -> (b: bool)
        ensures
            b == (self@.len() == 0),
    {
        self.ops.len() == 0
    }
}

impl Default for Chunk {
    fn default() -> (c: Chunk)
        ensures
            c@ == Seq::<Op>::empty(),
    {
        Chunk { ops: Vec::new() }
    }
}

} // verus!
