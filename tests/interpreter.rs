use pow_chain::interpreter::{
    Bytecode, Exit, Frame, Function, GasSchedule, GlobalOp, Interpreter, Stack, StatusCode, Value,
    CALL_STACK_SIZE_LIMIT, NUM_OPCODES, OPERAND_STACK_SIZE_LIMIT,
};

fn func(code: Vec<Bytecode>, arg_count: usize, local_count: usize) -> Function {
    Function { code, arg_count, local_count, native_arity: None }
}

fn native(arg_count: usize, arity: usize) -> Function {
    Function { code: vec![], arg_count, local_count: arg_count, native_arity: Some(arity) }
}

fn run(prog: &Vec<Function>, gas: u64, args: Vec<Value>) -> (Result<Exit, StatusCode>, Interpreter) {
    let mut vm = Interpreter::new(gas);
    let r = vm.execute_function(prog, &GasSchedule::uniform(1), 0, args);
    (r, vm)
}

#[test]
fn adds_constants() {
    let prog = vec![func(vec![Bytecode::LdConst(2), Bytecode::LdConst(3), Bytecode::Add, Bytecode::Ret], 0, 0)];
    let (r, vm) = run(&prog, 100, vec![]);
    assert_eq!(r, Ok(Exit::Returned));
    assert_eq!(vm.operand_stack_values(), vec![Value::U64(5)]);
    assert_eq!(vm.gas_remaining(), 96);
    assert_eq!(vm.call_stack_height(), 0);
}

#[test]
fn call_moves_arguments_into_callee_locals() {
    let prog = vec![
        func(vec![Bytecode::LdConst(7), Bytecode::LdConst(2), Bytecode::Call(1), Bytecode::Ret], 0, 0),
        func(vec![Bytecode::CopyLoc(0), Bytecode::CopyLoc(1), Bytecode::Sub, Bytecode::Ret], 2, 3),
    ];
    let (r, vm) = run(&prog, 100, vec![]);
    assert_eq!(r, Ok(Exit::Returned));
    assert_eq!(vm.operand_stack_values(), vec![Value::U64(5)]);
}

#[test]
fn loop_counts_down() {
    // local0 = 3; while local0 != 0 { local0 = local0 - 1 }; push local0
    let prog = vec![func(
        vec![
            Bytecode::CopyLoc(0),
            Bytecode::LdConst(0),
            Bytecode::Eq,
            Bytecode::BrTrue(9),
            Bytecode::CopyLoc(0),
            Bytecode::LdConst(1),
            Bytecode::Sub,
            Bytecode::StLoc(0),
            Bytecode::Branch(0),
            Bytecode::MoveLoc(0),
            Bytecode::Ret,
        ],
        1,
        1,
    )];
    let (r, vm) = run(&prog, 1000, vec![Value::U64(3)]);
    assert_eq!(r, Ok(Exit::Returned));
    assert_eq!(vm.operand_stack_values(), vec![Value::U64(0)]);
}

#[test]
fn errors_are_distinct_and_clear_both_stacks() {
    let cases: Vec<(Vec<Bytecode>, StatusCode)> = vec![
        (vec![Bytecode::LdConst(u64::MAX), Bytecode::LdConst(1), Bytecode::Add], StatusCode::ArithmeticError),
        (vec![Bytecode::LdConst(1), Bytecode::LdConst(0), Bytecode::Div], StatusCode::ArithmeticError),
        (vec![Bytecode::LdTrue, Bytecode::LdConst(1), Bytecode::Add], StatusCode::TypeMismatch),
        (vec![Bytecode::LdTrue, Bytecode::LdConst(1), Bytecode::Eq], StatusCode::TypeMismatch),
        (vec![Bytecode::Pop], StatusCode::EmptyValueStack),
        (vec![Bytecode::LdConst(42), Bytecode::Abort], StatusCode::Aborted(42)),
        (vec![Bytecode::LdTrue], StatusCode::PcOverflow),
        (vec![Bytecode::Call(9)], StatusCode::LinkerError),
        (vec![Bytecode::CopyLoc(3)], StatusCode::IndexOutOfBounds),
        (vec![Bytecode::MoveLoc(0), Bytecode::MoveLoc(0)], StatusCode::UnavailableLocal),
        (vec![Bytecode::LdTrue, Bytecode::Branch(0)], StatusCode::ExecutionStackOverflow),
    ];
    for (code, expected) in cases {
        let prog = vec![func(code, 1, 1)];
        let (r, vm) = run(&prog, 1_000_000, vec![Value::U64(1)]);
        assert_eq!(r, Err(expected));
        assert!(vm.operand_stack_values().is_empty());
        assert_eq!(vm.call_stack_height(), 0);
    }
}

#[test]
fn deep_recursion_overflows_the_call_stack() {
    let prog = vec![func(vec![Bytecode::Call(0), Bytecode::Ret], 0, 0)];
    let (r, vm) = run(&prog, 1_000_000, vec![]);
    assert_eq!(r, Err(StatusCode::CallStackOverflow));
    assert_eq!(vm.gas_remaining(), 1_000_000 - CALL_STACK_SIZE_LIMIT as u64 - 1);
    assert_eq!(vm.call_stack_height(), 0);
}

#[test]
fn running_out_of_gas_stops_before_the_instruction() {
    let prog = vec![func(vec![Bytecode::LdConst(1), Bytecode::LdConst(2), Bytecode::Add, Bytecode::Ret], 0, 0)];
    let (r, vm) = run(&prog, 2, vec![]);
    assert_eq!(r, Err(StatusCode::OutOfGas));
    assert_eq!(vm.gas_remaining(), 0);
    assert!(vm.operand_stack_values().is_empty());
}

#[test]
fn gas_falls_by_the_cost_of_each_instruction() {
    let mut costs = vec![1u64; NUM_OPCODES];
    costs[5] = 10; // LdConst
    let sched = GasSchedule::new(costs).unwrap();
    let prog = vec![func(vec![Bytecode::LdConst(1), Bytecode::GetGasRemaining, Bytecode::Ret], 0, 0)];
    let mut vm = Interpreter::new(50);
    assert_eq!(vm.execute_function(&prog, &sched, 0, vec![]), Ok(Exit::Returned));
    assert_eq!(vm.operand_stack_values(), vec![Value::U64(1), Value::U64(39)]);
    assert_eq!(vm.gas_remaining(), 38);
    assert!(GasSchedule::new(vec![0u64; NUM_OPCODES]).is_none());
    assert!(GasSchedule::new(vec![1u64; 3]).is_none());
}

#[test]
fn an_error_does_not_leak_into_the_next_execution() {
    let bad = vec![func(vec![Bytecode::LdConst(5), Bytecode::LdConst(0), Bytecode::Mod], 0, 0)];
    let good = vec![func(vec![Bytecode::LdTrue, Bytecode::Not, Bytecode::Ret], 0, 0)];
    let sched = GasSchedule::uniform(1);
    let mut vm = Interpreter::new(100);
    assert_eq!(vm.execute_function(&bad, &sched, 0, vec![]), Err(StatusCode::ArithmeticError));
    let gas = vm.gas_remaining();
    assert_eq!(gas, 97);
    assert_eq!(vm.execute_function(&good, &sched, 0, vec![]), Ok(Exit::Returned));
    let mut fresh = Interpreter::new(gas);
    assert_eq!(fresh.execute_function(&good, &sched, 0, vec![]), Ok(Exit::Returned));
    assert_eq!(vm.operand_stack_values(), fresh.operand_stack_values());
    assert_eq!(vm.gas_remaining(), fresh.gas_remaining());
}

#[test]
fn unknown_function_and_too_many_arguments_are_refused() {
    let prog = vec![func(vec![Bytecode::Ret], 0, 1)];
    let sched = GasSchedule::uniform(1);
    let mut vm = Interpreter::new(10);
    assert_eq!(vm.execute_function(&prog, &sched, 3, vec![]), Err(StatusCode::LinkerError));
    assert_eq!(
        vm.execute_function(&prog, &sched, 0, vec![Value::Bool(true), Value::Bool(false)]),
        Err(StatusCode::IndexOutOfBounds)
    );
}

#[test]
fn stack_and_frame_primitives() {
    let mut s = Stack::new();
    assert_eq!(s.pop(), Err(StatusCode::EmptyValueStack));
    for i in 0..OPERAND_STACK_SIZE_LIMIT {
        assert_eq!(s.push(Value::U64(i as u64)), Ok(()));
    }
    assert_eq!(s.push(Value::Bool(true)), Err(StatusCode::ExecutionStackOverflow));
    assert_eq!(s.popn(2), Ok(vec![Value::U64(1022), Value::U64(1023)]));
    assert_eq!(s.pop_bool(), Err(StatusCode::TypeMismatch));
    assert_eq!(s.pop_u64(), Ok(1020));
    s.clear();
    assert_eq!(s.len(), 0);
    let mut f = Frame::new(0, vec![Some(Value::U64(4)), None]);
    assert_eq!(f.copy_loc(1), Err(StatusCode::UnavailableLocal));
    assert_eq!(f.move_loc(0), Ok(Value::U64(4)));
    assert_eq!(f.copy_loc(0), Err(StatusCode::UnavailableLocal));
    assert_eq!(f.store_loc(1, Value::Bool(true)), Ok(()));
    assert_eq!(f.copy_loc(1), Ok(Value::Bool(true)));
    assert_eq!(f.store_loc(2, Value::Bool(true)), Err(StatusCode::IndexOutOfBounds));
}

#[test]
fn native_call_waits_for_its_results_and_cost() {
    let prog = vec![
        func(vec![Bytecode::LdConst(3), Bytecode::LdConst(4), Bytecode::Call(1), Bytecode::Ret], 0, 0),
        native(2, 2),
    ];
    let sched = GasSchedule::uniform(1);
    let mut vm = Interpreter::new(100);
    let exit = vm.execute_function(&prog, &sched, 0, vec![]);
    assert_eq!(exit, Ok(Exit::Native { function: 1, args: vec![Value::U64(3), Value::U64(4)] }));
    assert!(vm.operand_stack_values().is_empty());
    assert_eq!(vm.gas_remaining(), 97);
    assert_eq!(vm.resume(&prog, &sched, Ok(vec![Value::U64(7)]), 5), Ok(Exit::Returned));
    assert_eq!(vm.operand_stack_values(), vec![Value::U64(7)]);
    assert_eq!(vm.gas_remaining(), 91);
}

#[test]
fn native_arity_mismatch_is_a_linker_error() {
    let prog = vec![
        func(vec![Bytecode::LdConst(3), Bytecode::LdConst(4), Bytecode::Call(1), Bytecode::Ret], 0, 0),
        native(2, 1),
    ];
    let (r, vm) = run(&prog, 100, vec![]);
    assert_eq!(r, Err(StatusCode::LinkerError));
    assert!(vm.operand_stack_values().is_empty());
}

#[test]
fn native_failure_and_unaffordable_cost_clear_the_stacks() {
    let prog = vec![
        func(vec![Bytecode::LdConst(1), Bytecode::LdConst(3), Bytecode::Call(1), Bytecode::Ret], 0, 0),
        native(1, 1),
    ];
    let sched = GasSchedule::uniform(1);
    let mut vm = Interpreter::new(100);
    assert!(matches!(vm.execute_function(&prog, &sched, 0, vec![]), Ok(Exit::Native { .. })));
    assert_eq!(vm.resume(&prog, &sched, Err(StatusCode::Aborted(9)), 1), Err(StatusCode::Aborted(9)));
    assert!(vm.operand_stack_values().is_empty());
    assert_eq!(vm.call_stack_height(), 0);
    let mut vm = Interpreter::new(100);
    assert!(matches!(vm.execute_function(&prog, &sched, 0, vec![]), Ok(Exit::Native { .. })));
    assert_eq!(vm.resume(&prog, &sched, Ok(vec![]), 1000), Err(StatusCode::OutOfGas));
    assert_eq!(vm.gas_remaining(), 97);
    assert!(vm.operand_stack_values().is_empty());
}

#[test]
fn resource_opcodes_wait_for_storage() {
    let sched = GasSchedule::uniform(1);
    let exists = vec![func(vec![Bytecode::CopyLoc(0), Bytecode::Exists(2), Bytecode::Ret], 1, 1)];
    let mut vm = Interpreter::new(100);
    assert_eq!(
        vm.execute_function(&exists, &sched, 0, vec![Value::Address(5)]),
        Ok(Exit::Global { op: GlobalOp::Exists, struct_idx: 2, address: 5, value: None })
    );
    assert_eq!(vm.resume(&exists, &sched, Ok(vec![Value::Bool(true)]), 4), Ok(Exit::Returned));
    assert_eq!(vm.operand_stack_values(), vec![Value::Bool(true)]);
    assert_eq!(vm.gas_remaining(), 100 - 3 - 4);

    let move_to = vec![func(vec![Bytecode::CopyLoc(0), Bytecode::LdConst(9), Bytecode::MoveTo(1), Bytecode::Ret], 1, 1)];
    let mut vm = Interpreter::new(100);
    assert_eq!(
        vm.execute_function(&move_to, &sched, 0, vec![Value::Address(5)]),
        Ok(Exit::Global { op: GlobalOp::MoveTo, struct_idx: 1, address: 5, value: Some(Value::U64(9)) })
    );
    assert_eq!(vm.resume(&move_to, &sched, Ok(vec![]), 0), Ok(Exit::Returned));
    assert!(vm.operand_stack_values().is_empty());

    let bad = vec![func(vec![Bytecode::LdConst(5), Bytecode::MoveFrom(1), Bytecode::Ret], 0, 0)];
    let (r, _) = run(&bad, 100, vec![]);
    assert_eq!(r, Err(StatusCode::TypeMismatch));
}
