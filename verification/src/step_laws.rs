//! What each instruction of the virtual machine does, stated directly as
//! changes to the stack, the variables and the instruction pointer.
use vstd::prelude::*;

use crate::text::decimal_digits;
use crate::value::ValueType;
use crate::vm::opcode::Op;
use crate::vm::vm::{spec_step, ArithmeticOp, Fault, Machine, RuntimeFault, Step};

verus! {

/// The state with the instruction pointer on the next instruction and the
/// given stack.
pub open spec fn moved(m: Machine, stack: Seq<ValueType>) -> Machine {
    Machine { ip: (m.ip + 1) as usize, code: m.code, stack, globals: m.globals }
}

/// The instruction at the instruction pointer.
pub open spec fn current(m: Machine) -> Op {
    m.code[m.ip as int]
}

/// The computation that an arithmetic or comparison instruction asks for.
pub open spec fn computation_named(op: Op) -> Option<ArithmeticOp> {
    match op {
        Op::Add => Some(ArithmeticOp::Add),
        Op::Sub => Some(ArithmeticOp::Sub),
        Op::Mul => Some(ArithmeticOp::Mul),
        Op::Div => Some(ArithmeticOp::Div),
        Op::Ge => Some(ArithmeticOp::Ge),
        Op::Le => Some(ArithmeticOp::Le),
        Op::Cmp => Some(ArithmeticOp::Cmp),
        _ => None,
    }
}

/// The stack without its two top values.
pub open spec fn below_two(stack: Seq<ValueType>) -> Seq<ValueType> {
    stack.subrange(0, stack.len() - 2)
}

/// `ConstFloat`, `ConstBool` and `Nil` push their value.
pub proof fn law_constants_push(m: Machine)
    requires
        m.ip < m.code.len() <= usize::MAX,
    ensures
        current(m) matches Op::ConstFloat(n) ==> spec_step(m) == (
            Ok::<Step, Fault>(Step::Continue),
            moved(m, m.stack.push(ValueType::Number(n))),
        ),
        current(m) matches Op::ConstBool(b) ==> spec_step(m) == (
            Ok::<Step, Fault>(Step::Continue),
            moved(m, m.stack.push(ValueType::Bool(b))),
        ),
        current(m) is Nil ==> spec_step(m) == (
            Ok::<Step, Fault>(Step::Continue),
            moved(m, m.stack.push(ValueType::Nil)),
        ),
{
}

/// `Pop` removes the top value, and fails on an empty stack.
pub proof fn law_pop_removes_top(m: Machine)
    requires
        m.ip < m.code.len() <= usize::MAX,
        current(m) is Pop,
    ensures
        m.stack.len() > 0 ==> spec_step(m) == (
            Ok::<Step, Fault>(Step::Continue),
            moved(m, m.stack.drop_last()),
        ),
        m.stack.len() == 0 ==> spec_step(m) == (
            Err::<Step, Fault>(Fault::Runtime(RuntimeFault::StackExhausted)),
            moved(m, m.stack),
        ),
{
}

/// An arithmetic or comparison instruction on two numbers takes `x` off the
/// top and `y` from below it and asks for the computation of its own name on
/// `x` and `y`, in that order.
pub proof fn law_arithmetic_request(m: Machine, x: u64, y: u64)
    requires
        m.ip < m.code.len() <= usize::MAX,
        computation_named(current(m)) is Some,
        m.stack.len() >= 2,
        m.stack.last() == ValueType::Number(x),
        m.stack[m.stack.len() - 2] == ValueType::Number(y),
    ensures
        spec_step(m) == (
            Ok::<Step, Fault>(Step::Arithmetic(computation_named(current(m)).unwrap(), x, y)),
            moved(m, below_two(m.stack)),
        ),
{
    assert(m.stack.drop_last().drop_last() =~= below_two(m.stack));
}

/// `Cmp` on two booleans pushes whether they are equal in their place.
pub proof fn law_boolean_equality(m: Machine, x: bool, y: bool)
    requires
        m.ip < m.code.len() <= usize::MAX,
        current(m) is Cmp,
        m.stack.len() >= 2,
        m.stack.last() == ValueType::Bool(x),
        m.stack[m.stack.len() - 2] == ValueType::Bool(y),
    ensures
        spec_step(m) == (
            Ok::<Step, Fault>(Step::Continue),
            moved(m, below_two(m.stack).push(ValueType::Bool(x == y))),
        ),
{
    assert(m.stack.drop_last().drop_last() =~= below_two(m.stack));
}

/// An arithmetic or comparison instruction fails with an exhausted stack
/// when there are not two values, and with a type mismatch, having taken
/// both values, when they are neither two numbers nor (for `Cmp`) two
/// booleans.
pub proof fn law_binary_failures(m: Machine)
    requires
        m.ip < m.code.len() <= usize::MAX,
        computation_named(current(m)) is Some,
    ensures
        m.stack.len() == 0 ==> spec_step(m) == (
            Err::<Step, Fault>(Fault::Runtime(RuntimeFault::StackExhausted)),
            moved(m, m.stack),
        ),
        m.stack.len() == 1 ==> spec_step(m) == (
            Err::<Step, Fault>(Fault::Runtime(RuntimeFault::StackExhausted)),
            moved(m, m.stack.drop_last()),
        ),
        m.stack.len() >= 2 && !(m.stack.last() is Number && m.stack[m.stack.len() - 2] is Number)
            && !(current(m) is Cmp && m.stack.last() is Bool && m.stack[m.stack.len() - 2] is Bool)
            ==> spec_step(m) == (
            Err::<Step, Fault>(Fault::Runtime(RuntimeFault::TypeMismatch)),
            moved(m, below_two(m.stack)),
        ),
{
    if m.stack.len() >= 2 {
        assert(m.stack.drop_last().drop_last() =~= below_two(m.stack));
    }
}

/// `Not` replaces a boolean on top by its negation; on anything else it
/// fails with a type mismatch, having taken the value.
pub proof fn law_not_negates(m: Machine)
    requires
        m.ip < m.code.len() <= usize::MAX,
        current(m) is Not,
    ensures
        m.stack.len() > 0 && m.stack.last() is Bool ==> spec_step(m) == (
            Ok::<Step, Fault>(Step::Continue),
            moved(m, m.stack.drop_last().push(ValueType::Bool(!m.stack.last()->Bool_0))),
        ),
        m.stack.len() > 0 && !(m.stack.last() is Bool) ==> spec_step(m) == (
            Err::<Step, Fault>(Fault::Runtime(RuntimeFault::TypeMismatch)),
            moved(m, m.stack.drop_last()),
        ),
        m.stack.len() == 0 ==> spec_step(m) == (
            Err::<Step, Fault>(Fault::Runtime(RuntimeFault::StackExhausted)),
            moved(m, m.stack),
        ),
{
}

/// `Print` takes the top value off and asks for it to be printed; `Nil`
/// cannot be printed.
pub proof fn law_print_takes_top(m: Machine)
    requires
        m.ip < m.code.len() <= usize::MAX,
        current(m) is Print,
    ensures
        m.stack.len() > 0 && m.stack.last() != ValueType::Nil ==> spec_step(m) == (
            Ok::<Step, Fault>(Step::Print(m.stack.last())),
            moved(m, m.stack.drop_last()),
        ),
        m.stack.len() > 0 && m.stack.last() == ValueType::Nil ==> spec_step(m) == (
            Err::<Step, Fault>(Fault::Runtime(RuntimeFault::TypeMismatch)),
            moved(m, m.stack.drop_last()),
        ),
        m.stack.len() == 0 ==> spec_step(m) == (
            Err::<Step, Fault>(Fault::Runtime(RuntimeFault::StackExhausted)),
            moved(m, m.stack),
        ),
{
}

/// `Return` asks for the bottom value of the stack to be shown, or that
/// there is none, and changes nothing.
pub proof fn law_return_shows_bottom(m: Machine)
    requires
        m.ip < m.code.len() <= usize::MAX,
        current(m) is Return,
    ensures
        m.stack.len() > 0 ==> spec_step(m) == (
            Ok::<Step, Fault>(Step::Show(Some(m.stack[0]))),
            moved(m, m.stack),
        ),
        m.stack.len() == 0 ==> spec_step(m) == (
            Ok::<Step, Fault>(Step::Show(None)),
            moved(m, m.stack),
        ),
{
}

/// `Jump` moves the instruction pointer by its offset from the next
/// instruction, and fails when that leaves the range of addresses.
pub proof fn law_jump_moves(m: Machine, offset: i32)
    requires
        m.ip < m.code.len() <= usize::MAX,
        current(m) == Op::Jump(offset),
    ensures
        0 <= m.ip + 1 + offset <= usize::MAX ==> spec_step(m) == (
            Ok::<Step, Fault>(Step::Continue),
            Machine {
                ip: (m.ip + 1 + offset) as usize,
                code: m.code,
                stack: m.stack,
                globals: m.globals,
            },
        ),
        !(0 <= m.ip + 1 + offset <= usize::MAX) ==> spec_step(m) == (
            Err::<Step, Fault>(
                Fault::Runtime(RuntimeFault::IllegalJump((m.ip + 1) as usize, offset as isize)),
            ),
            moved(m, m.stack),
        ),
{
}

/// `JumpIfFalse` takes a boolean off the stack and jumps as `Jump` does when
/// it is false; it goes on with the next instruction when it is true, and
/// fails on anything that is not a boolean.
pub proof fn law_jump_if_false(m: Machine, offset: i32)
    requires
        m.ip < m.code.len() <= usize::MAX,
        current(m) == Op::JumpIfFalse(offset),
        m.stack.len() > 0,
    ensures
        m.stack.last() == ValueType::Bool(false) && 0 <= m.ip + 1 + offset <= usize::MAX
            ==> spec_step(m) == (
            Ok::<Step, Fault>(Step::Continue),
            Machine {
                ip: (m.ip + 1 + offset) as usize,
                code: m.code,
                stack: m.stack.drop_last(),
                globals: m.globals,
            },
        ),
        m.stack.last() == ValueType::Bool(true) ==> spec_step(m) == (
            Ok::<Step, Fault>(Step::Continue),
            moved(m, m.stack.drop_last()),
        ),
        !(m.stack.last() is Bool) ==> spec_step(m) == (
            Err::<Step, Fault>(Fault::Runtime(RuntimeFault::TypeMismatch)),
            moved(m, m.stack.drop_last()),
        ),
{
}

/// `StoreGlobal` takes the top value into the variable; `LoadGlobal` pushes
/// the variable's value, and fails naming the variable when it has none.
pub proof fn law_global_variables(m: Machine, name: String)
    requires
        m.ip < m.code.len() <= usize::MAX,
    ensures
        current(m) == Op::StoreGlobal(name) && m.stack.len() > 0 ==> spec_step(m) == (
            Ok::<Step, Fault>(Step::Continue),
            Machine {
                ip: (m.ip + 1) as usize,
                code: m.code,
                stack: m.stack.drop_last(),
                globals: m.globals.insert(name@, m.stack.last()),
            },
        ),
        current(m) == Op::LoadGlobal(name) && m.globals.dom().contains(name@) ==> spec_step(
            m,
        ) == (Ok::<Step, Fault>(Step::Continue), moved(m, m.stack.push(m.globals[name@]))),
        current(m) == Op::LoadGlobal(name) && !m.globals.dom().contains(name@) ==> spec_step(
            m,
        ) == (
            Err::<Step, Fault>(Fault::Runtime(RuntimeFault::UndefinedVariable(name@))),
            moved(m, m.stack),
        ),
{
}

/// `StoreLocal` copies the top value into a slot of the stack; `LoadLocal`
/// pushes a copy of a slot, and fails naming the slot's offset in decimal
/// when there is no such slot.
pub proof fn law_local_variables(m: Machine, k: usize)
    requires
        m.ip < m.code.len() <= usize::MAX,
    ensures
        current(m) == Op::StoreLocal(k) && k < m.stack.len() ==> spec_step(m) == (
            Ok::<Step, Fault>(Step::Continue),
            moved(m, m.stack.update(k as int, m.stack.last())),
        ),
        current(m) == Op::StoreLocal(k) && k >= m.stack.len() ==> spec_step(m) == (
            Err::<Step, Fault>(Fault::Runtime(RuntimeFault::StackExhausted)),
            moved(m, m.stack),
        ),
        current(m) == Op::LoadLocal(k) && k < m.stack.len() ==> spec_step(m) == (
            Ok::<Step, Fault>(Step::Continue),
            moved(m, m.stack.push(m.stack[k as int])),
        ),
        current(m) == Op::LoadLocal(k) && k >= m.stack.len() ==> spec_step(m) == (
            Err::<Step, Fault>(
                Fault::Runtime(RuntimeFault::UndefinedVariable(decimal_digits(k as nat))),
            ),
            moved(m, m.stack),
        ),
{
}

} // verus!
