use parallelized_programming_language::num::Num;
use parallelized_programming_language::vm::{Bytecode, RuntimeError, Status, VM};

fn num(x: f64) -> Num {
    Num::from_bits(x.to_bits())
}

fn val(n: Num) -> f64 {
    f64::from_bits(n.to_bits())
}

#[test]
fn test_addition() {
    let bytecode = vec![
        Bytecode::LoadConst(num(2.0)),
        Bytecode::LoadConst(num(3.0)),
        Bytecode::Add,
        Bytecode::Halt,
    ];
    let mut vm = VM::new(bytecode);
    let _ = vm.execute();
    assert_eq!(vm.stack.pop(), Some(num(5.0)));
}

#[test]
fn test_subtraction() {
    let bytecode = vec![
        Bytecode::LoadConst(num(10.0)),
        Bytecode::LoadConst(num(4.0)),
        Bytecode::Sub,
        Bytecode::Halt,
    ];
    let mut vm = VM::new(bytecode);
    let _ = vm.execute();
    assert_eq!(vm.stack.pop(), Some(num(6.0)));
}

#[test]
fn test_multiplication() {
    let bytecode = vec![
        Bytecode::LoadConst(num(6.0)),
        Bytecode::LoadConst(num(7.0)),
        Bytecode::Mul,
        Bytecode::Halt,
    ];
    let mut vm = VM::new(bytecode);
    let _ = vm.execute();
    assert_eq!(vm.stack.pop(), Some(num(42.0)));
}

#[test]
fn test_division() {
    let bytecode = vec![
        Bytecode::LoadConst(num(20.0)),
        Bytecode::LoadConst(num(4.0)),
        Bytecode::Div,
        Bytecode::Halt,
    ];
    let mut vm = VM::new(bytecode);
    let _ = vm.execute();
    assert_eq!(vm.stack.pop(), Some(num(5.0)));
}

#[test]
fn test_store_and_load_var() {
    let bytecode = vec![
        Bytecode::LoadConst(num(99.0)),
        Bytecode::StoreVar(1),
        Bytecode::LoadVar(1),
        Bytecode::Halt,
    ];
    let mut vm = VM::new(bytecode);
    let _ = vm.execute();
    assert_eq!(vm.stack.pop(), Some(num(99.0)));
}

#[test]
fn test_jump() {
    let bytecode = vec![
        Bytecode::LoadConst(num(1.0)),
        Bytecode::Jump(4),
        Bytecode::LoadConst(num(2.0)),
        Bytecode::LoadConst(num(3.0)),
        Bytecode::LoadConst(num(4.0)),
        Bytecode::Halt,
    ];
    let mut vm = VM::new(bytecode);
    let _ = vm.execute();
    assert_eq!(vm.stack, vec![num(1.0), num(4.0)]);
}

#[test]
fn test_jump_if_zero() {
    let bytecode = vec![
        Bytecode::LoadConst(num(0.0)),
        Bytecode::JumpIfZero(4),
        Bytecode::LoadConst(num(99.0)),
        Bytecode::LoadConst(num(88.0)),
        Bytecode::LoadConst(num(42.0)),
        Bytecode::Halt,
    ];
    let mut vm = VM::new(bytecode);
    let _ = vm.execute();
    assert_eq!(vm.stack, vec![num(0.0), num(42.0)]);
}

#[test]
fn test_jump_if_not_zero() {
    let bytecode = vec![
        Bytecode::LoadConst(num(5.0)),
        Bytecode::JumpIfNotZero(4),
        Bytecode::LoadConst(num(99.0)),
        Bytecode::LoadConst(num(88.0)),
        Bytecode::LoadConst(num(42.0)),
        Bytecode::Halt,
    ];
    let mut vm = VM::new(bytecode);
    let _ = vm.execute();
    assert_eq!(vm.stack, vec![num(5.0), num(42.0)]);
}

#[test]
fn test_dup_and_pop() {
    let bytecode = vec![
        Bytecode::LoadConst(num(7.0)),
        Bytecode::Dup,
        Bytecode::Add,
        Bytecode::Pop,
        Bytecode::Halt,
    ];
    let mut vm = VM::new(bytecode);
    let _ = vm.execute();
    assert!(vm.stack.is_empty());
}

#[test]
fn test_parallel_spawn_and_sync() {
    let bytecode = vec![
        Bytecode::LoadConst(num(2.0)),
        Bytecode::LoadConst(num(3.0)),
        Bytecode::Add,
        Bytecode::Spawn,
        Bytecode::Sync,
        Bytecode::Halt,
    ];
    let mut vm = VM::new(bytecode);
    let _ = vm.execute();
    assert_eq!(vm.stack.pop(), Some(num(5.0)));
}

#[test]
#[should_panic(expected = "Variable not found in memory")]
fn test_load_var_not_found() {
    let bytecode = vec![Bytecode::LoadVar(999), Bytecode::Halt];
    let mut vm = VM::new(bytecode);
    if let Err(RuntimeError::UnboundVariable(_)) = vm.execute() {
        panic!("Variable not found in memory");
    }
}

#[test]
#[should_panic(expected = "Stack is empty")]
fn test_stack_underflow_add() {
    let bytecode = vec![Bytecode::Add, Bytecode::Halt];
    let mut vm = VM::new(bytecode);
    if let Err(RuntimeError::StackUnderflow) = vm.execute() {
        panic!("Stack is empty");
    }
}

#[test]
fn test_negation() {
    let bytecode = vec![Bytecode::LoadConst(num(5.0)), Bytecode::Neg, Bytecode::Halt];
    let mut vm = VM::new(bytecode);
    let _ = vm.execute();
    let v = vm.stack.pop().unwrap();
    assert_eq!(val(v), -(5.0_f64));
}

#[test]
fn test_barrier_does_not_collect_results() {
    let bytecode = vec![
        Bytecode::LoadConst(num(10.0)),
        Bytecode::Spawn,
        Bytecode::Barrier,
        Bytecode::Pop,
        Bytecode::Halt,
    ];
    let mut vm = VM::new(bytecode.clone());
    let _ = vm.execute();
    assert!(vm.stack.is_empty());
}

#[test]
fn test_multiple_spawns_and_sync_collects_all() {
    let bytecode = vec![
        Bytecode::LoadConst(num(4.0)),
        Bytecode::LoadConst(num(1.0)),
        Bytecode::Add,
        Bytecode::Spawn,
        Bytecode::Spawn,
        Bytecode::Sync,
        Bytecode::Halt,
    ];
    let mut vm = VM::new(bytecode);
    let _ = vm.execute();
    assert_eq!(vm.stack, vec![num(5.0), num(5.0)]);
}

#[test]
fn test_native_print_function() {
    let mut vm = VM::new(vec![
        Bytecode::LoadConst(num(42.0)),
        Bytecode::Call("print".to_string(), 1),
        Bytecode::Halt,
    ]);
    assert_eq!(vm.execute(), Ok(Status::Halted));
    assert_eq!(vm.output, vec![vec![num(42.0)]]);
    assert_eq!(vm.stack, vec![num(0.0)]);
}

#[test]
fn test_user_function_call() {
    let bytecode = vec![
        Bytecode::LoadConst(num(5.0)),
        Bytecode::StoreVar(0),
        Bytecode::Call("inc".to_string(), 1),
        Bytecode::Halt,
        Bytecode::LoadVar(0),
        Bytecode::LoadConst(num(1.0)),
        Bytecode::Add,
        Bytecode::Return,
    ];
    let mut vm = VM::new(bytecode);
    vm.user_functions.insert("inc".to_string(), 4);
    let _ = vm.execute();
    assert_eq!(vm.stack.pop(), Some(num(6.0)));
}

#[test]
fn unknown_function_is_skipped() {
    let mut vm = VM::new(vec![
        Bytecode::LoadConst(num(3.0)),
        Bytecode::Call("nosuch".to_string(), 2),
        Bytecode::LoadConst(num(4.0)),
        Bytecode::Halt,
    ]);
    assert_eq!(vm.execute(), Ok(Status::Halted));
    assert_eq!(vm.stack, vec![num(3.0), num(4.0)]);
}

#[test]
fn arithmetic_with_one_operand_underflows() {
    for op in [Bytecode::Add, Bytecode::Sub, Bytecode::Mul, Bytecode::Div] {
        let mut vm = VM::new(vec![Bytecode::LoadConst(num(1.0)), op, Bytecode::Halt]);
        assert_eq!(vm.execute(), Err(RuntimeError::StackUnderflow));
        assert_eq!(vm.stack, vec![num(1.0)]);
        assert_eq!(vm.pc, 1);
    }
}

#[test]
fn unbound_variable_names_the_slot() {
    assert_eq!(VM::run(vec![Bytecode::LoadVar(7)]), Err(RuntimeError::UnboundVariable(7)));
}

#[test]
fn two_spawns_then_sync_on_five() {
    let mut vm = VM::new(vec![
        Bytecode::LoadConst(num(5.0)),
        Bytecode::Spawn,
        Bytecode::Spawn,
        Bytecode::Sync,
        Bytecode::Halt,
    ]);
    let _ = vm.execute();
    assert_eq!(vm.stack, vec![num(5.0), num(5.0)]);
    assert!(vm.pending.is_empty());
}

#[test]
fn sync_keeps_spawn_order() {
    let mut vm = VM::new(vec![
        Bytecode::LoadConst(num(1.0)),
        Bytecode::Spawn,
        Bytecode::LoadConst(num(2.0)),
        Bytecode::Spawn,
        Bytecode::LoadConst(num(3.0)),
        Bytecode::Spawn,
        Bytecode::Sync,
        Bytecode::Halt,
    ]);
    let _ = vm.execute();
    assert_eq!(vm.stack, vec![num(1.0), num(2.0), num(3.0)]);
}

#[test]
fn barrier_keeps_stack_and_drops_results() {
    let mut vm = VM::new(vec![
        Bytecode::LoadConst(num(1.0)),
        Bytecode::LoadConst(num(2.0)),
        Bytecode::Spawn,
        Bytecode::Barrier,
        Bytecode::Sync,
        Bytecode::Halt,
    ]);
    vm.execute_steps(4).unwrap();
    assert_eq!(vm.stack, vec![num(1.0), num(2.0)]);
    assert!(vm.pending.is_empty());
    let _ = vm.execute();
    assert!(vm.stack.is_empty());
}

#[test]
fn spawn_on_empty_stack_samples_zero() {
    let mut vm = VM::new(vec![Bytecode::Spawn, Bytecode::Sync]);
    assert_eq!(vm.execute(), Ok(Status::Finished));
    assert_eq!(vm.stack, vec![num(0.0)]);
}

#[test]
fn halt_ignores_following_code() {
    let a = VM::run(vec![Bytecode::LoadConst(num(1.0)), Bytecode::Halt]);
    let b = VM::run(vec![
        Bytecode::LoadConst(num(1.0)),
        Bytecode::Halt,
        Bytecode::LoadConst(num(9.0)),
        Bytecode::Add,
    ]);
    assert_eq!(a, Ok(num(1.0)));
    assert_eq!(a, b);
}

#[test]
fn empty_program_runs_to_zero() {
    assert_eq!(VM::run(vec![]), Ok(num(0.0)));
    assert_eq!(VM::run(vec![Bytecode::LoadConst(num(1.0)), Bytecode::Pop, Bytecode::Pop]), Ok(num(0.0)));
}

#[test]
fn negative_zero_counts_as_zero() {
    let mut vm = VM::new(vec![
        Bytecode::LoadConst(num(-0.0)),
        Bytecode::JumpIfZero(3),
        Bytecode::LoadConst(num(1.0)),
        Bytecode::Halt,
    ]);
    let _ = vm.execute();
    assert_eq!(vm.stack.len(), 1);
}

#[test]
fn jumps_on_empty_stack_underflow() {
    assert_eq!(VM::run(vec![Bytecode::JumpIfZero(0)]), Err(RuntimeError::StackUnderflow));
    assert_eq!(VM::run(vec![Bytecode::JumpIfNotZero(0)]), Err(RuntimeError::StackUnderflow));
    assert_eq!(VM::run(vec![Bytecode::Dup]), Err(RuntimeError::StackUnderflow));
    assert_eq!(VM::run(vec![Bytecode::StoreVar(0)]), Err(RuntimeError::StackUnderflow));
    assert_eq!(VM::run(vec![Bytecode::Neg]), Err(RuntimeError::StackUnderflow));
}

#[test]
fn return_without_call_underflows() {
    assert_eq!(VM::run(vec![Bytecode::LoadConst(num(1.0)), Bytecode::Return]), Err(RuntimeError::StackUnderflow));
}

#[test]
fn division_by_zero_is_infinite() {
    let r = VM::run(vec![Bytecode::LoadConst(num(1.0)), Bytecode::LoadConst(num(0.0)), Bytecode::Div]).unwrap();
    assert_eq!(val(r), f64::INFINITY);
}

#[test]
fn arithmetic_rounds_like_hardware() {
    let r = VM::run(vec![Bytecode::LoadConst(num(0.1)), Bytecode::LoadConst(num(0.2)), Bytecode::Add]).unwrap();
    assert_eq!(val(r), 0.1 + 0.2);
    let r = VM::run(vec![Bytecode::LoadConst(num(1.0)), Bytecode::LoadConst(num(3.0)), Bytecode::Div]).unwrap();
    assert_eq!(val(r), 1.0 / 3.0);
    let r = VM::run(vec![Bytecode::LoadConst(num(1.5)), Bytecode::LoadConst(num(-2.25)), Bytecode::Mul]).unwrap();
    assert_eq!(val(r), -3.375);
}

#[test]
fn native_call_on_too_few_values_underflows() {
    let mut vm = VM::new(vec![
        Bytecode::LoadConst(num(8.0)),
        Bytecode::Call("print".to_string(), 3),
        Bytecode::Halt,
    ]);
    assert_eq!(vm.execute(), Err(RuntimeError::StackUnderflow));
    assert!(vm.output.is_empty());
    assert_eq!(vm.stack, vec![num(8.0)]);
    let mut vm = VM::new(vec![
        Bytecode::LoadConst(num(1.0)),
        Bytecode::LoadConst(num(2.0)),
        Bytecode::Call("print".to_string(), 2),
        Bytecode::Halt,
    ]);
    assert_eq!(vm.execute(), Ok(Status::Halted));
    assert_eq!(vm.output, vec![vec![num(1.0), num(2.0)]]);
    assert_eq!(vm.stack, vec![num(0.0)]);
}

#[test]
fn nested_user_calls_return_in_order() {
    // main calls f, f calls g; each returns to the instruction after its call
    let mut vm = VM::new(vec![
        Bytecode::Call("f".to_string(), 0),
        Bytecode::Halt,
        Bytecode::LoadConst(num(1.0)),
        Bytecode::Call("g".to_string(), 0),
        Bytecode::Add,
        Bytecode::Return,
        Bytecode::LoadConst(num(2.0)),
        Bytecode::Return,
    ]);
    vm.user_functions.insert("f".to_string(), 2);
    vm.user_functions.insert("g".to_string(), 6);
    assert_eq!(vm.execute(), Ok(Status::Halted));
    assert_eq!(vm.stack, vec![num(3.0)]);
    assert!(vm.frames.is_empty());
}

#[test]
fn fuel_limits_a_loop() {
    let mut vm = VM::new(vec![Bytecode::Jump(0)]);
    assert_eq!(vm.execute_steps(10), Ok(Status::Running));
    assert_eq!(vm.pc, 0);
}
