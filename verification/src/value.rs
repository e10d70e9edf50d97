//! Values that the virtual machine computes with.
use vstd::prelude::*;

verus! {

/// A value on the stack of the virtual machine or in a variable. A number
/// holds the IEEE-754 binary64 bit pattern of its value.
#[derive(Debug, Clone, Copy, PartialEq, Eq, Structural)]
pub enum ValueType {
    Nil,
    Bool(bool),
    Number(u64),
    Address(usize),
}

} // verus!
