use l9_vm::log::LoggingTracer;
use l9_vm::text::decimal;
use l9_vm::value::ValueType;
use l9_vm::vm::opcode::{Chunk, Op};
use l9_vm::vm::vm::{ArithmeticOp, Step, Vm, VmError, VmRuntimeError, VmStack};

fn num(x: f64) -> ValueType {
    ValueType::Number(x.to_bits())
}

fn compute(op: ArithmeticOp, a: u64, b: u64) -> ValueType {
    let (a, b) = (f64::from_bits(a), f64::from_bits(b));
    match op {
        ArithmeticOp::Add => num(a + b),
        ArithmeticOp::Sub => num(a - b),
        ArithmeticOp::Mul => num(a * b),
        ArithmeticOp::Div => num(a / b),
        ArithmeticOp::Ge => ValueType::Bool(a >= b),
        ArithmeticOp::Le => ValueType::Bool(a <= b),
        ArithmeticOp::Cmp => ValueType::Bool(a == b),
    }
}

/// Runs the machine to its end; returns what it printed or showed.
fn run(vm: &mut Vm, chunk: Chunk) -> Result<Vec<Option<ValueType>>, VmError> {
    vm.interpret(chunk);
    let mut output = Vec::new();
    loop {
        match vm.step()? {
            Step::Halted => return Ok(output),
            Step::Continue => {}
            Step::Show(v) => output.push(v),
            Step::Print(v) => output.push(Some(v)),
            Step::Arithmetic(op, a, b) => vm.resume(compute(op, a, b)),
        }
    }
}

fn runtime(e: VmRuntimeError) -> VmError {
    VmError::RuntimeError(e)
}

#[test]
fn interpret_correct_program() {
    let program = Chunk::new(vec![Op::Return]);
    let mut vm = Vm::default();
    let result = run(&mut vm, program);
    assert!(result.is_ok());
}

#[test]
fn set_value_by_offset() {
    let mut stack = VmStack::default();
    stack.push(num(1.0));
    stack.push(num(2.0));
    stack.set(0, num(3.0)).unwrap();
    stack.set(1, num(4.0)).unwrap();
    assert_eq!(stack.peek(0), Some(&num(3.0)));
    assert_eq!(stack.peek(1), Some(&num(4.0)));
}

#[test]
fn set_past_the_top_fails() {
    let mut stack = VmStack::default();
    stack.push(num(1.0));
    assert_eq!(stack.set(1, num(2.0)), Err(runtime(VmRuntimeError::StackExhausted)));
    assert_eq!(stack.len(), 1);
}

#[test]
fn pop_after_push() {
    let mut stack = VmStack::default();
    assert!(stack.is_empty());
    stack.push(ValueType::Bool(true));
    stack.push(ValueType::Nil);
    assert_eq!(stack.pop(), Ok(ValueType::Nil));
    assert_eq!(stack.last(), Some(&ValueType::Bool(true)));
    assert_eq!(stack.pop(), Ok(ValueType::Bool(true)));
    assert_eq!(stack.pop(), Err(runtime(VmRuntimeError::StackExhausted)));
}

#[test]
fn arithmetic_takes_the_top_value_first() {
    let mut vm = Vm::default();
    let chunk = Chunk::new(vec![
        Op::ConstFloat(2.0f64.to_bits()),
        Op::ConstFloat(10.0f64.to_bits()),
        Op::Sub,
        Op::Print,
    ]);
    assert_eq!(run(&mut vm, chunk), Ok(vec![Some(num(8.0))]));
}

#[test]
fn arithmetic_is_asked_for() {
    let mut vm = Vm::default();
    vm.interpret(Chunk::new(vec![
        Op::ConstFloat(3.0f64.to_bits()),
        Op::ConstFloat(4.0f64.to_bits()),
        Op::Mul,
    ]));
    assert_eq!(vm.step(), Ok(Step::Continue));
    assert_eq!(vm.step(), Ok(Step::Continue));
    assert_eq!(
        vm.step(),
        Ok(Step::Arithmetic(ArithmeticOp::Mul, 4.0f64.to_bits(), 3.0f64.to_bits()))
    );
    assert!(vm.stack().is_empty());
    vm.resume(num(12.0));
    assert_eq!(vm.stack().peek(0), Some(&num(12.0)));
    assert_eq!(vm.step(), Ok(Step::Halted));
}

#[test]
fn boolean_comparison_is_computed_inside() {
    let mut vm = Vm::default();
    let chunk = Chunk::new(vec![
        Op::ConstBool(true),
        Op::ConstBool(false),
        Op::Cmp,
        Op::Print,
        Op::ConstBool(false),
        Op::ConstBool(false),
        Op::Cmp,
        Op::Print,
    ]);
    assert_eq!(
        run(&mut vm, chunk),
        Ok(vec![Some(ValueType::Bool(false)), Some(ValueType::Bool(true))])
    );
}

#[test]
fn return_shows_the_bottom_of_the_stack() {
    let mut vm = Vm::default();
    let chunk = Chunk::new(vec![
        Op::Return,
        Op::ConstBool(true),
        Op::Nil,
        Op::Return,
    ]);
    assert_eq!(run(&mut vm, chunk), Ok(vec![None, Some(ValueType::Bool(true))]));
}

#[test]
fn double_negation() {
    let mut vm = Vm::default();
    let chunk = Chunk::new(vec![Op::ConstBool(true), Op::Not, Op::Not, Op::Print]);
    assert_eq!(run(&mut vm, chunk), Ok(vec![Some(ValueType::Bool(true))]));
}

#[test]
fn not_of_a_number_is_a_type_mismatch() {
    let mut vm = Vm::default();
    let chunk = Chunk::new(vec![Op::ConstFloat(1.0f64.to_bits()), Op::Not]);
    assert_eq!(run(&mut vm, chunk), Err(runtime(VmRuntimeError::TypeMismatch)));
}

#[test]
fn binary_on_mixed_operands_is_a_type_mismatch() {
    let mut vm = Vm::default();
    let chunk = Chunk::new(vec![Op::ConstBool(true), Op::ConstFloat(1.0f64.to_bits()), Op::Add]);
    assert_eq!(run(&mut vm, chunk), Err(runtime(VmRuntimeError::TypeMismatch)));
}

#[test]
fn binary_on_one_value_exhausts_the_stack() {
    let mut vm = Vm::default();
    let chunk = Chunk::new(vec![Op::ConstFloat(1.0f64.to_bits()), Op::Add]);
    assert_eq!(run(&mut vm, chunk), Err(runtime(VmRuntimeError::StackExhausted)));
}

#[test]
fn printing_nil_is_a_type_mismatch() {
    let mut vm = Vm::default();
    let chunk = Chunk::new(vec![Op::Nil, Op::Print]);
    assert_eq!(run(&mut vm, chunk), Err(runtime(VmRuntimeError::TypeMismatch)));
}

#[test]
fn pop_of_empty_stack() {
    let mut vm = Vm::default();
    assert_eq!(
        run(&mut vm, Chunk::new(vec![Op::Pop])),
        Err(runtime(VmRuntimeError::StackExhausted))
    );
}

#[test]
fn globals_round_trip() {
    let mut vm = Vm::default();
    let chunk = Chunk::new(vec![
        Op::ConstFloat(5.0f64.to_bits()),
        Op::StoreGlobal("i".to_string()),
        Op::ConstBool(true),
        Op::StoreGlobal("i".to_string()),
        Op::LoadGlobal("i".to_string()),
        Op::Print,
    ]);
    assert_eq!(run(&mut vm, chunk), Ok(vec![Some(ValueType::Bool(true))]));
}

#[test]
fn undefined_global() {
    let mut vm = Vm::default();
    let chunk = Chunk::new(vec![Op::LoadGlobal("nope".to_string())]);
    assert_eq!(
        run(&mut vm, chunk),
        Err(runtime(VmRuntimeError::UndefinedVariable("nope".to_string())))
    );
}

#[test]
fn locals_round_trip() {
    let mut vm = Vm::default();
    let chunk = Chunk::new(vec![
        Op::ConstFloat(1.0f64.to_bits()),
        Op::ConstFloat(2.0f64.to_bits()),
        Op::StoreLocal(0),
        Op::LoadLocal(0),
        Op::Print,
        Op::Print,
        Op::Print,
    ]);
    assert_eq!(
        run(&mut vm, chunk),
        Ok(vec![Some(num(2.0)), Some(num(2.0)), Some(num(2.0))])
    );
}

#[test]
fn store_local_past_the_top() {
    let mut vm = Vm::default();
    let chunk = Chunk::new(vec![Op::ConstBool(true), Op::StoreLocal(3)]);
    assert_eq!(run(&mut vm, chunk), Err(runtime(VmRuntimeError::StackExhausted)));
}

#[test]
fn store_local_on_empty_stack() {
    let mut vm = Vm::default();
    let chunk = Chunk::new(vec![Op::StoreLocal(0)]);
    assert_eq!(run(&mut vm, chunk), Err(runtime(VmRuntimeError::StackExhausted)));
}

#[test]
fn load_local_past_the_top_names_the_offset() {
    let mut vm = Vm::default();
    let chunk = Chunk::new(vec![Op::LoadLocal(1207)]);
    assert_eq!(
        run(&mut vm, chunk),
        Err(runtime(VmRuntimeError::UndefinedVariable("1207".to_string())))
    );
}

#[test]
fn counting_loop() {
    // i = 0; while (i <= 2) { print i; i = i + 1; }
    let mut vm = Vm::default();
    let chunk = Chunk::new(vec![
        Op::ConstFloat(0.0f64.to_bits()),
        Op::StoreGlobal("i".to_string()),
        Op::ConstFloat(2.0f64.to_bits()),
        Op::LoadGlobal("i".to_string()),
        Op::Le,
        Op::JumpIfFalse(7),
        Op::LoadGlobal("i".to_string()),
        Op::Print,
        Op::ConstFloat(1.0f64.to_bits()),
        Op::LoadGlobal("i".to_string()),
        Op::Add,
        Op::StoreGlobal("i".to_string()),
        Op::Jump(-11),
    ]);
    assert_eq!(
        run(&mut vm, chunk),
        Ok(vec![Some(num(0.0)), Some(num(1.0)), Some(num(2.0))])
    );
}

#[test]
fn jump_before_the_start_is_illegal() {
    let mut vm = Vm::default();
    let chunk = Chunk::new(vec![Op::Nil, Op::Jump(-3)]);
    assert_eq!(run(&mut vm, chunk), Err(runtime(VmRuntimeError::IllegalJump(2, -3))));
}

#[test]
fn jump_past_the_end_halts() {
    let mut vm = Vm::default();
    let chunk = Chunk::new(vec![Op::Jump(10), Op::Return]);
    assert_eq!(run(&mut vm, chunk), Ok(vec![]));
    assert_eq!(vm.ip(), 11);
}

#[test]
fn jump_if_false_needs_a_boolean() {
    let mut vm = Vm::default();
    let chunk = Chunk::new(vec![Op::Nil, Op::JumpIfFalse(1)]);
    assert_eq!(run(&mut vm, chunk), Err(runtime(VmRuntimeError::TypeMismatch)));
}

#[test]
fn jump_if_false_falls_through_on_true() {
    let mut vm = Vm::default();
    let chunk = Chunk::new(vec![
        Op::ConstBool(true),
        Op::JumpIfFalse(1),
        Op::Return,
    ]);
    assert_eq!(run(&mut vm, chunk), Ok(vec![None]));
}

#[test]
fn interpret_keeps_stack_and_globals() {
    let mut vm = Vm::default();
    let first = Chunk::new(vec![Op::ConstBool(true), Op::StoreGlobal("g".to_string()), Op::Nil]);
    assert_eq!(run(&mut vm, first), Ok(vec![]));
    let second = Chunk::new(vec![Op::LoadGlobal("g".to_string()), Op::Return]);
    assert_eq!(run(&mut vm, second), Ok(vec![Some(ValueType::Nil)]));
    assert_eq!(vm.stack().len(), 2);
}

#[test]
fn default_runtime_error_is_unknown() {
    assert_eq!(VmRuntimeError::default(), VmRuntimeError::Unknown);
}

#[test]
fn decimal_text() {
    assert_eq!(decimal(0), "0");
    assert_eq!(decimal(7), "7");
    assert_eq!(decimal(10), "10");
    assert_eq!(decimal(90210), "90210");
    assert_eq!(decimal(usize::MAX), usize::MAX.to_string());
}

#[test]
fn instructions_window() {
    let tracer = LoggingTracer::default();
    let chunk = Chunk::new(vec![Op::Nil; 10]);
    assert_eq!(tracer.instructions_window(0, &chunk, 5), (0, 2));
    assert_eq!(tracer.instructions_window(5, &chunk, 5), (3, 7));
    assert_eq!(tracer.instructions_window(9, &chunk, 5), (7, 10));
    let short = Chunk::new(vec![Op::Nil; 3]);
    assert_eq!(tracer.instructions_window(1, &short, 5), (0, 2));
    assert_eq!(tracer.instructions_window(2, &short, 5), (1, 3));
}

#[test]
fn forward_only_program_ends_within_its_length() {
    let ops = vec![
        Op::ConstFloat(1.0f64.to_bits()),
        Op::ConstFloat(2.0f64.to_bits()),
        Op::Add,
        Op::ConstBool(false),
        Op::JumpIfFalse(1),
        Op::Print,
        Op::Jump(0),
        Op::Print,
    ];
    let n = ops.len();
    let mut vm = Vm::default();
    vm.interpret(Chunk::new(ops));
    let mut steps = 0;
    let mut printed = Vec::new();
    loop {
        steps += 1;
        assert!(steps <= n + 1);
        match vm.step().unwrap() {
            Step::Halted => break,
            Step::Arithmetic(op, a, b) => vm.resume(compute(op, a, b)),
            Step::Print(v) => printed.push(v),
            _ => {}
        }
    }
    assert_eq!(printed, vec![num(3.0)]);
}
