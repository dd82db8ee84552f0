use mercenary::fold::build_block;
use mercenary::instruction::{Block, Instruction};
use mercenary::intrinsics::intrinsics;
use mercenary::runtime::{BreakRequested, Fault, Host, Runtime, Stop};
use mercenary::value::Value;
use mercenary::wire::{
    BooleanConst, CallUnknown, GetLocal, IntegerConst, InstructionAndTag, Instructions, ListConst,
    Payload, SetLocal, decode_instructions,
};

struct Recorder {
    out: String,
    lines: Vec<String>,
    programs: Vec<(String, Vec<Instruction>)>,
}

impl Host for Recorder {
    fn read_instructions(&mut self, path: &str, _base_path: &str) -> Result<Vec<Instruction>, String> {
        for (p, insns) in self.programs.iter() {
            if p == path {
                return Ok(insns.iter().map(|i| i.duplicate()).collect());
            }
        }
        Err("missing".to_string())
    }

    fn write_text(&mut self, text: &str) {
        self.out.push_str(text);
    }

    fn read_line(&mut self) -> String {
        if self.lines.is_empty() { String::new() } else { self.lines.remove(0) }
    }
}

fn host() -> Recorder {
    Recorder { out: String::new(), lines: Vec::new(), programs: Vec::new() }
}

fn rt() -> Runtime {
    Runtime::create(&intrinsics(), None, "/base".to_string())
}

fn call(n: u64, name: &str) -> Instruction {
    Instruction::CallKnownFunction { arg_count: n, identifier: name.to_string() }
}

fn s(text: &str) -> Instruction {
    Instruction::StringConst(text.to_string())
}

fn result_text(r: &Runtime) -> String {
    r.return_value.to_string(&r.store)
}

#[test]
fn global_declared_twice_then_set_reads_value() {
    let prog = vec![
        s("x"), Instruction::Global,
        s("x"), Instruction::Global,
        Instruction::IntegerConst(5), s("x"), Instruction::SetFree,
        s("x"), Instruction::Global,
        s("x"), Instruction::GetFree,
        Instruction::Return,
    ];
    let mut r = rt();
    let mut h = host();
    assert!(r.execute_program(&mut h, &prog, 1000).is_ok());
    assert!(matches!(r.return_value, Value::Integer(5)));
    assert_eq!(r.globals.len(), 3);
}

#[test]
fn get_free_falls_back_to_functions() {
    let prog = vec![s("print"), Instruction::GetFree, call(1, "kindof"), Instruction::Return];
    let mut r = rt();
    let mut h = host();
    assert!(r.execute_program(&mut h, &prog, 1000).is_ok());
    assert_eq!(result_text(&r), "$$function##");
}

#[test]
fn call_leaves_exactly_one_value() {
    // f(a, b) = a - b, with a stray value pushed inside.
    let prog = vec![
        Instruction::StartBlock,
        Instruction::IntegerConst(99),
        Instruction::GetLocal { local_idx: 0 },
        Instruction::GetLocal { local_idx: 1 },
        call(2, "~-"),
        Instruction::Return,
        Instruction::EndBlock,
        Instruction::DefineFunction { param_count: 2, identifier: "f".to_string() },
        Instruction::IntegerConst(7),
        Instruction::IntegerConst(10),
        Instruction::IntegerConst(4),
        call(2, "f"),
    ];
    let mut r = rt();
    let mut h = host();
    let (res, _) = r.execute_insns(&mut h, &prog, 1000);
    assert_eq!(res, Ok(BreakRequested::No));
    assert_eq!(r.value_stack.len(), 2);
    assert!(matches!(r.value_stack[0], Value::Integer(7)));
    assert!(matches!(r.value_stack[1], Value::Integer(6)));
}

#[test]
fn definitions_leave_stack_empty() {
    let prog = vec![
        Instruction::StartBlock,
        Instruction::NullConst,
        Instruction::Return,
        Instruction::EndBlock,
        Instruction::DefineFunction { param_count: 0, identifier: "g".to_string() },
        s("y"),
        Instruction::Global,
    ];
    let mut r = rt();
    let mut h = host();
    let (res, _) = r.execute_insns(&mut h, &prog, 10);
    assert_eq!(res, Ok(BreakRequested::No));
    assert!(r.value_stack.is_empty());
}

#[test]
fn folding_nests_if_arms() {
    // then-arm pushes 1, else-arm pushes 2, inside a function body.
    let stream = vec![
        Instruction::BooleanConst(true),
        Instruction::StartBlock,
        Instruction::IntegerConst(1),
        Instruction::EndBlock,
        Instruction::StartBlock,
        Instruction::IntegerConst(2),
        Instruction::EndBlock,
        Instruction::If { then: Block(vec![]), else_: Block(vec![]) },
        Instruction::EndBlock,
        Instruction::DefineFunction { param_count: 0, identifier: "h".to_string() },
        Instruction::Drop,
    ];
    let folded = build_block(&stream, 0).expect("balanced");
    assert_eq!(folded.next, 10);
    let (arity, name, body) = folded.function.expect("a definition");
    assert_eq!(arity, 0);
    assert_eq!(name, "h");
    assert_eq!(body.0.len(), 2);
    match &body.0[1] {
        Instruction::If { then, else_ } => {
            assert!(matches!(then.0[..], [Instruction::IntegerConst(1)]));
            assert!(matches!(else_.0[..], [Instruction::IntegerConst(2)]));
        }
        _ => panic!("expected an if"),
    }
}

#[test]
fn unbalanced_stream_faults() {
    let prog = vec![Instruction::StartBlock, Instruction::If { then: Block(vec![]), else_: Block(vec![]) }];
    let mut r = rt();
    let mut h = host();
    assert_eq!(r.execute_program(&mut h, &prog, 10), Err(Stop::Fault(Fault::Unbalanced)));
}

#[test]
fn call_unknown_needs_a_function() {
    let prog = vec![Instruction::IntegerConst(1), Instruction::CallUnknownFunction { arg_count: 0 }];
    let mut r = rt();
    let mut h = host();
    assert_eq!(r.execute_program(&mut h, &prog, 10), Err(Stop::Fault(Fault::NotAFunction)));
}

#[test]
fn call_unknown_calls_function_value() {
    let prog = vec![
        Instruction::IntegerConst(3),
        Instruction::IntegerConst(4),
        s("~*"),
        Instruction::GetFree,
        Instruction::CallUnknownFunction { arg_count: 2 },
        Instruction::Return,
    ];
    let mut r = rt();
    let mut h = host();
    assert!(r.execute_program(&mut h, &prog, 10).is_ok());
    assert!(matches!(r.return_value, Value::Integer(12)));
}

#[test]
fn import_runs_program_and_faults() {
    let lib = vec![s("z"), Instruction::Global];
    let mut h = host();
    h.programs.push(("lib.merc".to_string(), lib));
    let mut r = rt();
    let prog = vec![s("\"lib.merc\""), Instruction::Import];
    assert!(r.execute_program(&mut h, &prog, 10).is_ok());
    assert_eq!(r.globals.len(), 1);
    assert_eq!(r.globals[0].0, "z");
    let mut r = rt();
    let prog = vec![s("\"nope\""), Instruction::Import];
    assert_eq!(r.execute_program(&mut h, &prog, 10), Err(Stop::Fault(Fault::ImportFailed)));
    let mut r = rt();
    assert_eq!(r.execute_program(&mut h, &[Instruction::Import], 10), Err(Stop::Fault(Fault::MissingImportPath)));
}

#[test]
fn endless_loop_runs_out_of_fuel() {
    let prog = vec![Instruction::Loop { block: Block(vec![Instruction::NullConst, Instruction::Drop]) }];
    let mut r = rt();
    let mut h = host();
    assert_eq!(r.execute_program(&mut h, &prog, 50), Err(Stop::OutOfFuel));
}

#[test]
fn list_intrinsics() {
    let prog = vec![
        Instruction::IntegerConst(1),
        Instruction::IntegerConst(2),
        Instruction::IntegerConst(3),
        Instruction::ListCount { count: 3 },
        s("l"), Instruction::SetFree,
        // delete(l, 0)
        s("l"), Instruction::GetFree, Instruction::IntegerConst(0), call(2, "delete"),
        // l[4] = 9
        Instruction::IntegerConst(9), s("l"), Instruction::GetFree, Instruction::IntegerConst(4), call(3, "==[]"),
        // insert(l, 1, 7)
        s("l"), Instruction::GetFree, Instruction::IntegerConst(1), Instruction::IntegerConst(7), call(3, "insert"),
        s("l"), Instruction::GetFree, Instruction::Return,
    ];
    let mut r = rt();
    let mut h = host();
    assert!(r.execute_program(&mut h, &prog, 10).is_ok());
    assert_eq!(result_text(&r), "[2, 7, 3, null, null, 9]");
}

#[test]
fn index_and_substr() {
    let prog = vec![
        Instruction::IntegerConst(5), Instruction::IntegerConst(6), Instruction::ListCount { count: 2 },
        Instruction::IntegerConst(1), call(2, "~[]"),
        s("hello"), Instruction::IntegerConst(1), call(2, "~[]"),
        call(2, "~+"),
        s("hello"), Instruction::IntegerConst(1), Instruction::IntegerConst(3), call(3, "substr"),
        call(2, "~+"),
        Instruction::Return,
    ];
    let mut r = rt();
    let mut h = host();
    assert!(r.execute_program(&mut h, &prog, 10).is_ok());
    assert_eq!(result_text(&r), "6eell");
    let mut r = rt();
    let bad = vec![Instruction::ListCount { count: 0 }, Instruction::IntegerConst(0), call(2, "~[]")];
    assert_eq!(r.execute_program(&mut h, &bad, 10), Err(Stop::Fault(Fault::BadIndex)));
}

#[test]
fn relations_and_logic() {
    let prog = vec![
        Instruction::IntegerConst(1), Instruction::IntegerConst(2), call(2, "~<"),
        Instruction::NullConst, Instruction::IntegerConst(0), call(2, "~!="),
        call(2, "~&&"),
        Instruction::NullConst, Instruction::NullConst, call(2, "~>="),
        call(2, "~&&"),
        Instruction::IntegerConst(0), call(1, "#!"),
        call(2, "~&&"),
        Instruction::Return,
    ];
    let mut r = rt();
    let mut h = host();
    assert!(r.execute_program(&mut h, &prog, 10).is_ok());
    assert!(matches!(r.return_value, Value::Boolean(true)));
}

#[test]
fn prompt_dump_itoa_atoi() {
    let prog = vec![
        call(0, "prompt"), call(1, "atoi"), Instruction::IntegerConst(1), call(2, "~+"),
        call(1, "itoa"), call(1, "dump"),
        call(0, "random"), Instruction::IntegerConst(0), call(2, "~>="), Instruction::Return,
    ];
    let mut r = rt();
    let mut h = host();
    h.lines.push("41\n".to_string());
    assert!(r.execute_program(&mut h, &prog, 10).is_ok());
    assert_eq!(h.out, "string(42)\n");
    assert!(matches!(r.return_value, Value::Boolean(true)));
}

#[test]
fn if_branches_on_truthiness() {
    let prog = vec![
        Instruction::StringConst(String::new()),
        Instruction::If {
            then: Block(vec![Instruction::IntegerConst(1), s("r"), Instruction::SetFree]),
            else_: Block(vec![Instruction::IntegerConst(2), s("r"), Instruction::SetFree]),
        },
        s("r"), Instruction::GetFree, Instruction::Return,
    ];
    let mut r = rt();
    let mut h = host();
    assert!(r.execute_program(&mut h, &prog, 10).is_ok());
    assert!(matches!(r.return_value, Value::Integer(2)));
}

#[test]
fn records_decode_and_skip_unknown_tags() {
    let raw = Instructions {
        insns: vec![
            InstructionAndTag { insn: Payload::IntegerConst(IntegerConst { value: 3 }), tag: 9 },
            InstructionAndTag { insn: Payload::BooleanConst(BooleanConst { value: true }), tag: 8 },
            InstructionAndTag { insn: Payload::Empty, tag: 99 },
            InstructionAndTag { insn: Payload::ListConst(ListConst { value: 2 }), tag: 11 },
            InstructionAndTag { insn: Payload::GetLocal(GetLocal { idx: 4 }), tag: 12 },
            InstructionAndTag { insn: Payload::SetLocal(SetLocal { idx: 5 }), tag: 13 },
            InstructionAndTag { insn: Payload::CallUnknown(CallUnknown { arg_count: 1 }), tag: 6 },
            InstructionAndTag { insn: Payload::Empty, tag: 15 },
        ],
    };
    let insns = decode_instructions(&raw);
    assert_eq!(insns.len(), 7);
    assert!(matches!(insns[0], Instruction::IntegerConst(3)));
    assert!(matches!(insns[1], Instruction::BooleanConst(true)));
    assert!(matches!(insns[2], Instruction::ListCount { count: 2 }));
    assert!(matches!(insns[3], Instruction::GetLocal { local_idx: 4 }));
    assert!(matches!(insns[4], Instruction::SetLocal { local_idx: 5 }));
    assert!(matches!(insns[5], Instruction::CallUnknownFunction { arg_count: 1 }));
    assert!(matches!(insns[6], Instruction::If { .. }));
}

#[test]
fn return_ends_the_activation() {
    let mut r = rt();
    let mut h = host();
    let (res, _) = r.execute_insns(&mut h, &[Instruction::IntegerConst(4), Instruction::Return, Instruction::IntegerConst(5)], 10);
    assert_eq!(res, Ok(BreakRequested::Return));
    assert!(r.call_stack.is_empty());
    assert!(r.value_stack.is_empty());
    assert!(matches!(r.return_value, Value::Integer(4)));
}

#[test]
fn import_path_too_short_faults() {
    let mut r = rt();
    let mut h = host();
    let prog = vec![s("q"), Instruction::Import];
    assert_eq!(r.execute_program(&mut h, &prog, 10), Err(Stop::Fault(Fault::MissingImportPath)));
}

#[test]
fn return_inside_function_keeps_caller_activation() {
    let prog = vec![
        Instruction::StartBlock,
        Instruction::IntegerConst(1),
        Instruction::If {
            then: Block(vec![Instruction::IntegerConst(8), Instruction::Return]),
            else_: Block(vec![Instruction::NullConst, Instruction::Drop]),
        },
        Instruction::IntegerConst(9),
        Instruction::Return,
        Instruction::EndBlock,
        Instruction::DefineFunction { param_count: 0, identifier: "k".to_string() },
        call(0, "k"),
    ];
    let mut r = rt();
    let mut h = host();
    let (res, _) = r.execute_insns(&mut h, &prog, 100);
    assert_eq!(res, Ok(BreakRequested::No));
    assert_eq!(r.call_stack.len(), 1);
    assert_eq!(r.value_stack.len(), 1);
    assert!(matches!(r.value_stack[0], Value::Integer(8)));
}
