use airl::bytecode::{
    unmarshal_functions, read_streaming_batches, needs_full_runtime,
    int_to_op, is_simple_closure, value_to_bytecode_func, BytecodeFunc, BytecodeVm, Instruction, Op,
    DEFAULT_MAX_CALL_DEPTH,
};
use airl::error::RuntimeError;
use airl::value::Value;

fn make_bcfunc(name: &str, arity: i64, reg_count: i64, capture_count: i64, constants: Vec<Value>, instrs: Vec<Value>) -> Value {
    Value::Variant(
        "BCFunc".into(),
        Box::new(Value::List(vec![
            Value::Str(name.into()),
            Value::Int(arity),
            Value::Int(reg_count),
            Value::Int(capture_count),
            Value::List(constants),
            Value::List(instrs),
        ])),
    )
}

fn instr(op: i64, dst: i64, a: i64, b: i64) -> Value {
    Value::List(vec![Value::Int(op), Value::Int(dst), Value::Int(a), Value::Int(b)])
}

fn validation_message(func: BytecodeFunc) -> String {
    let mut vm = BytecodeVm::new();
    vm.load_function(func);
    match vm.validate_bytecode() {
        Err(RuntimeError::BytecodeValidation(msg)) => msg,
        other => panic!("expected BytecodeValidation, got: {:?}", other),
    }
}

#[test]
fn test_marshal_simple_func() {
    let func_val = make_bcfunc("__main__", 0, 2, 0, vec![Value::Int(42)], vec![instr(0, 1, 0, 0), instr(25, 0, 1, 0)]);
    let func = value_to_bytecode_func(&func_val).unwrap();
    assert_eq!(func.name, "__main__");
    assert_eq!(func.arity, 0);
    assert_eq!(func.register_count, 2);
    assert_eq!(func.capture_count, 0);
    assert_eq!(func.constants, vec![Value::Int(42)]);
    assert_eq!(func.instructions.len(), 2);
    assert_eq!(func.instructions[0].op, Op::LoadConst);
    assert_eq!(func.instructions[0].dst, 1);
    assert_eq!(func.instructions[0].a, 0);
    assert_eq!(func.instructions[1].op, Op::Return);
    assert_eq!(func.instructions[1].a, 1);
}

#[test]
fn test_int_to_op_roundtrip() {
    assert_eq!(int_to_op(0).unwrap(), Op::LoadConst);
    assert_eq!(int_to_op(5).unwrap(), Op::Add);
    assert_eq!(int_to_op(25).unwrap(), Op::Return);
    assert_eq!(int_to_op(33).unwrap(), Op::TryUnwrap);
    assert_eq!(int_to_op(34).unwrap(), Op::AssertRequires);
    assert_eq!(int_to_op(35).unwrap(), Op::AssertEnsures);
    assert_eq!(int_to_op(36).unwrap(), Op::AssertInvariant);
    assert_eq!(int_to_op(37).unwrap(), Op::MarkMoved);
    assert_eq!(int_to_op(38).unwrap(), Op::CheckNotMoved);
    assert_eq!(int_to_op(39).unwrap(), Op::Release);
    assert!(int_to_op(40).is_err());
}

#[test]
fn test_bad_variant_tag() {
    let bad = Value::Variant("NotAFunc".into(), Box::new(Value::List(vec![])));
    assert!(value_to_bytecode_func(&bad).is_err());
}

#[test]
fn test_unknown_opcode() {
    assert!(int_to_op(99).is_err());
}

#[test]
fn every_code_roundtrips() {
    for n in 0u16..40 {
        assert_eq!(int_to_op(n).unwrap().code(), n);
    }
    match int_to_op(40) {
        Err(RuntimeError::TypeError(m)) => assert_eq!(m, "bytecode marshal: unknown opcode: 40"),
        other => panic!("unexpected {:?}", other),
    }
}

#[test]
fn marshal_errors_name_the_field() {
    let f = make_bcfunc("f", -1, 2, 0, vec![], vec![]);
    match value_to_bytecode_func(&f) {
        Err(RuntimeError::TypeError(m)) => assert_eq!(m, "bytecode marshal: BCFunc arity: value -1 out of u16 range"),
        other => panic!("unexpected {:?}", other),
    }
    let g = make_bcfunc("g", 0, 2, 0, vec![], vec![Value::List(vec![Value::Int(0)])]);
    match value_to_bytecode_func(&g) {
        Err(RuntimeError::TypeError(m)) => assert_eq!(m, "bytecode marshal: instruction: expected 4 elements, got 1"),
        other => panic!("unexpected {:?}", other),
    }
    let h = Value::Variant("BCFunc".into(), Box::new(Value::List(vec![Value::Int(1)])));
    match value_to_bytecode_func(&h) {
        Err(RuntimeError::TypeError(m)) => assert_eq!(m, "bytecode marshal: BCFunc: expected 6 fields, got 1"),
        other => panic!("unexpected {:?}", other),
    }
    match value_to_bytecode_func(&Value::Int(3)) {
        Err(RuntimeError::TypeError(m)) => assert_eq!(m, "bytecode marshal: expected Variant, got non-variant value"),
        other => panic!("unexpected {:?}", other),
    }
}

#[test]
fn tuple_payload_and_int_list_instructions() {
    let f = Value::Variant(
        "BCFunc".into(),
        Box::new(Value::Tuple(vec![
            Value::Str("t".into()),
            Value::Int(1),
            Value::Int(3),
            Value::Int(0),
            Value::List(vec![]),
            Value::List(vec![Value::IntList(vec![4, 0, 1, 0])]),
        ])),
    );
    let func = value_to_bytecode_func(&f).unwrap();
    assert_eq!(func.instructions, vec![Instruction::new(Op::Move, 0, 1, 0)]);
    let bad = make_bcfunc("b", 0, 1, 0, vec![], vec![Value::IntList(vec![1, 70000, 0, 0])]);
    match value_to_bytecode_func(&bad) {
        Err(RuntimeError::TypeError(m)) => assert_eq!(m, "bytecode marshal: instruction field 1: value 70000 out of u16 range"),
        other => panic!("unexpected {:?}", other),
    }
}

#[test]
fn test_is_simple_closure_check() {
    let simple_func = BytecodeFunc {
        name: "test_simple".into(), arity: 1, register_count: 3, capture_count: 0,
        instructions: vec![
            Instruction::new(Op::LoadConst, 1, 0, 0),
            Instruction::new(Op::Add, 2, 0, 1),
            Instruction::new(Op::Return, 0, 2, 0),
        ],
        constants: vec![Value::Int(1)],
    };
    assert!(is_simple_closure(&simple_func));
    let complex_func = BytecodeFunc {
        name: "test_complex".into(), arity: 1, register_count: 3, capture_count: 0,
        instructions: vec![Instruction::new(Op::Call, 1, 0, 1), Instruction::new(Op::Return, 0, 1, 0)],
        constants: vec![Value::Str("foo".into())],
    };
    assert!(!is_simple_closure(&complex_func));
}

#[test]
fn test_max_call_depth_default() {
    let vm = BytecodeVm::new();
    assert_eq!(vm.max_call_depth(), DEFAULT_MAX_CALL_DEPTH);
}

#[test]
fn test_set_max_call_depth() {
    let mut vm = BytecodeVm::new();
    vm.set_max_call_depth(500);
    assert_eq!(vm.max_call_depth(), 500);
}

#[test]
fn test_spawn_child_inherits_max_call_depth() {
    let mut vm = BytecodeVm::new();
    vm.set_max_call_depth(42);
    let child = vm.spawn_child();
    assert_eq!(child.max_call_depth(), 42);
}

#[test]
fn test_validate_register_oob_dst() {
    let msg = validation_message(BytecodeFunc {
        name: "__main__".into(), arity: 0, register_count: 2, capture_count: 0,
        instructions: vec![Instruction::new(Op::LoadNil, 5, 0, 0)],
        constants: vec![],
    });
    assert!(msg.contains("register index 5"), "msg was: {}", msg);
}

#[test]
fn test_validate_register_oob_a() {
    let msg = validation_message(BytecodeFunc {
        name: "__main__".into(), arity: 0, register_count: 2, capture_count: 0,
        instructions: vec![Instruction::new(Op::Move, 0, 10, 0)],
        constants: vec![],
    });
    assert!(msg.contains("register index 10"), "msg was: {}", msg);
}

#[test]
fn test_validate_register_oob_b() {
    let msg = validation_message(BytecodeFunc {
        name: "__main__".into(), arity: 0, register_count: 3, capture_count: 0,
        instructions: vec![
            Instruction::new(Op::LoadNil, 0, 0, 0),
            Instruction::new(Op::LoadNil, 1, 0, 0),
            Instruction::new(Op::Add, 0, 0, 99),
        ],
        constants: vec![],
    });
    assert!(msg.contains("register index 99"), "msg was: {}", msg);
}

#[test]
fn test_validate_valid_bytecode_passes() {
    let func = BytecodeFunc {
        name: "__main__".into(), arity: 0, register_count: 3, capture_count: 0,
        instructions: vec![Instruction::new(Op::LoadConst, 0, 0, 0), Instruction::new(Op::Return, 0, 0, 0)],
        constants: vec![Value::Int(42)],
    };
    let mut vm = BytecodeVm::new();
    vm.load_function(func);
    assert!(vm.validate_bytecode().is_ok());
}

#[test]
fn test_validate_constant_oob_loadconst() {
    let msg = validation_message(BytecodeFunc {
        name: "__main__".into(), arity: 0, register_count: 2, capture_count: 0,
        instructions: vec![Instruction::new(Op::LoadConst, 0, 5, 0)],
        constants: vec![],
    });
    assert!(msg.contains("constant index 5"), "msg was: {}", msg);
}

#[test]
fn test_validate_constant_oob_call() {
    let msg = validation_message(BytecodeFunc {
        name: "__main__".into(), arity: 0, register_count: 2, capture_count: 0,
        instructions: vec![Instruction::new(Op::Call, 0, 3, 0)],
        constants: vec![],
    });
    assert!(msg.contains("constant index 3"), "msg was: {}", msg);
}

#[test]
fn test_validate_constant_oob_make_variant() {
    let msg = validation_message(BytecodeFunc {
        name: "__main__".into(), arity: 0, register_count: 3, capture_count: 0,
        instructions: vec![Instruction::new(Op::LoadNil, 1, 0, 0), Instruction::new(Op::MakeVariant, 0, 10, 1)],
        constants: vec![],
    });
    assert!(msg.contains("constant index 10"), "msg was: {}", msg);
}

#[test]
fn test_validate_call_args_register_range() {
    let msg = validation_message(BytecodeFunc {
        name: "__main__".into(), arity: 0, register_count: 3, capture_count: 0,
        instructions: vec![Instruction::new(Op::Call, 0, 0, 5)],
        constants: vec![Value::Str("foo".into())],
    });
    assert!(msg.contains("register range"), "msg was: {}", msg);
}

#[test]
fn validation_message_is_complete() {
    let msg = validation_message(BytecodeFunc {
        name: "f".into(), arity: 0, register_count: 3, capture_count: 0,
        instructions: vec![Instruction::new(Op::LoadNil, 0, 0, 0), Instruction::new(Op::Call, 0, 0, 5)],
        constants: vec![Value::Str("g".into())],
    });
    assert_eq!(msg, "function 'f' instruction 1: args register range 1..6 exceeds register_count 3");
}

#[test]
fn loading_replaces_by_name_and_metadata_is_kept() {
    let mut vm = BytecodeVm::new();
    let mk = |rc: u16| BytecodeFunc {
        name: "f".into(), arity: 0, register_count: rc, capture_count: 0,
        instructions: vec![Instruction::new(Op::LoadNil, 1, 0, 0)],
        constants: vec![],
    };
    vm.load_function(mk(1));
    assert!(vm.validate_bytecode().is_err());
    vm.load_function(mk(2));
    assert!(vm.validate_bytecode().is_ok());
    assert_eq!(vm.get_function("f").unwrap().register_count, 2);
    assert!(vm.get_function("g").is_none());
}

#[test]
fn unmarshal_keeps_the_first_of_each_name() {
    let funcs = vec![
        make_bcfunc("main", 0, 2, 0, vec![Value::Int(1)], vec![]),
        make_bcfunc("helper", 1, 3, 0, vec![], vec![]),
        make_bcfunc("main", 5, 9, 0, vec![], vec![]),
    ];
    let out = unmarshal_functions(&funcs).expect("all decode");
    assert_eq!(out.len(), 2);
    assert_eq!(out[0].name, "main");
    assert_eq!(out[0].arity, 0);
    assert_eq!(out[0].register_count, 2);
    assert_eq!(out[1].name, "helper");
}

#[test]
fn unmarshal_reports_the_first_bad_value() {
    let funcs = vec![
        make_bcfunc("ok", 0, 1, 0, vec![], vec![]),
        Value::Int(3),
        Value::Variant("Other".into(), Box::new(Value::Unit)),
    ];
    match unmarshal_functions(&funcs) {
        Err(RuntimeError::TypeError(m)) => assert_eq!(m, "bytecode marshal: expected Variant, got non-variant value"),
        _ => panic!("expected a marshal error"),
    }
    assert!(unmarshal_functions(&vec![]).unwrap().is_empty());
}

#[test]
fn streaming_batches_are_read_in_order() {
    assert!(matches!(read_streaming_batches(&vec![]),
        Err(RuntimeError::Custom(m)) if m == "compile-bytecode-streaming: empty batch list"));
    let batches = vec![
        Value::List(vec![make_bcfunc("a", 0, 1, 0, vec![], vec![]), make_bcfunc("a", 1, 1, 0, vec![], vec![])]),
        Value::List(vec![]),
        Value::List(vec![make_bcfunc("b", 0, 1, 0, vec![Value::Str("run-bytecode".into())], vec![])]),
    ];
    let read = read_streaming_batches(&batches).expect("well-formed batches");
    assert_eq!(read.len(), 2);
    assert_eq!(read[0].len(), 1);
    assert_eq!(read[0][0].arity, 0);
    assert_eq!(read[1][0].name, "b");
    assert!(!needs_full_runtime(&read[0]));
    assert!(needs_full_runtime(&read[1]));
    let bad = vec![Value::List(vec![]), Value::Int(1)];
    assert!(matches!(read_streaming_batches(&bad),
        Err(RuntimeError::Custom(m)) if m == "compile-bytecode-streaming: batch 1 must be a list of BCFunc"));
}
