use mercenary::instruction::{Block, Instruction};
use mercenary::intrinsics::intrinsics;
use mercenary::runtime::{BreakRequested, Fault, Host, Runtime, Stop};
use mercenary::value::Value;

struct TestHost {
    out: String,
    lines: Vec<String>,
    programs: Vec<(String, Vec<Instruction>)>,
}

impl TestHost {
    fn new() -> TestHost {
        TestHost { out: String::new(), lines: Vec::new(), programs: Vec::new() }
    }
}

impl Host for TestHost {
    fn read_instructions(&mut self, path: &str, _base_path: &str) -> Result<Vec<Instruction>, String> {
        for (p, insns) in self.programs.iter() {
            if p == path {
                return Ok(insns.iter().map(|i| i.duplicate()).collect());
            }
        }
        Err(format!("no program at {}", path))
    }

    fn write_text(&mut self, text: &str) {
        self.out.push_str(text);
    }

    fn read_line(&mut self) -> String {
        if self.lines.is_empty() {
            String::new()
        } else {
            self.lines.remove(0)
        }
    }
}

fn call(n: u64, name: &str) -> Instruction {
    Instruction::CallKnownFunction { arg_count: n, identifier: name.to_string() }
}

fn s(text: &str) -> Instruction {
    Instruction::StringConst(text.to_string())
}

fn run(prog: &[Instruction]) -> (Runtime, TestHost, Result<(), Stop>) {
    let mut rt = Runtime::create(&intrinsics(), None, String::new());
    let mut host = TestHost::new();
    let r = rt.execute_program(&mut host, prog, u64::MAX);
    (rt, host, r)
}

#[test]
fn s1_arithmetic() {
    let prog = vec![Instruction::IntegerConst(2), Instruction::IntegerConst(3), call(2, "~+"), Instruction::Return];
    let (rt, _, r) = run(&prog);
    assert!(r.is_ok());
    assert!(matches!(rt.return_value, Value::Integer(5)));
    assert!(rt.value_stack.is_empty());
}

#[test]
fn s2_string_concat() {
    let prog = vec![s("hi"), Instruction::IntegerConst(1), call(2, "~+"), Instruction::Return];
    let (rt, _, r) = run(&prog);
    assert!(r.is_ok());
    match &rt.return_value {
        Value::String(t) => assert_eq!(t, "hi1"),
        _ => panic!("expected a string"),
    }
}

#[test]
fn s3_divide_by_zero() {
    let prog = vec![Instruction::IntegerConst(7), Instruction::IntegerConst(0), call(2, "~/"), Instruction::Return];
    let (rt, _, r) = run(&prog);
    assert!(r.is_ok());
    match &rt.return_value {
        Value::String(t) => assert_eq!(t, "\u{221e}"),
        _ => panic!("expected a string"),
    }
}

#[test]
fn s4_list_aliasing() {
    let prog = vec![
        s("a"),
        Instruction::Global,
        s("b"),
        Instruction::Global,
        Instruction::ListCount { count: 0 },
        s("a"),
        Instruction::SetFree,
        s("a"),
        Instruction::GetFree,
        s("b"),
        Instruction::SetFree,
        s("a"),
        Instruction::GetFree,
        Instruction::IntegerConst(0),
        Instruction::IntegerConst(42),
        call(3, "insert"),
        s("b"),
        Instruction::GetFree,
        call(1, "length"),
        Instruction::Return,
    ];
    let (rt, _, r) = run(&prog);
    assert!(r.is_ok());
    assert!(matches!(rt.return_value, Value::Integer(1)));
}

#[test]
fn s5_loop_break_after_one_round() {
    let body = Block(vec![Instruction::BooleanConst(false), Instruction::BreakIfNot]);
    let prog = vec![Instruction::Loop { block: body }, Instruction::IntegerConst(9), Instruction::Return];
    let (rt, _, r) = run(&prog);
    assert!(r.is_ok());
    assert!(matches!(rt.return_value, Value::Integer(9)));
}

#[test]
fn s5_loop_counts_until_condition() {
    let body = Block(vec![
        s("n"),
        Instruction::GetFree,
        Instruction::IntegerConst(1),
        call(2, "~+"),
        s("n"),
        Instruction::SetFree,
        s("n"),
        Instruction::GetFree,
        Instruction::IntegerConst(3),
        call(2, "~<"),
        Instruction::BreakIfNot,
    ]);
    let prog = vec![Instruction::Loop { block: body }, s("n"), Instruction::GetFree, Instruction::Return];
    let (rt, _, r) = run(&prog);
    assert!(r.is_ok());
    assert!(matches!(rt.return_value, Value::Integer(3)));
    assert!(rt.value_stack.is_empty());
}

#[test]
fn s6_main_receives_argv() {
    let prog = vec![
        Instruction::StartBlock,
        Instruction::GetLocal { local_idx: 0 },
        call(1, "length"),
        Instruction::Return,
        Instruction::EndBlock,
        Instruction::DefineFunction { param_count: 1, identifier: "main".to_string() },
    ];
    let argv = vec!["prog.merc".to_string(), "x".to_string(), "y".to_string()];
    let mut rt = Runtime::create(&intrinsics(), Some(argv), String::new());
    let mut host = TestHost::new();
    let r = rt.execute_program(&mut host, &prog, u64::MAX);
    assert!(r.is_ok());
    let ret = rt.pop_value_from_stack();
    assert_eq!(ret.to_integer(), 3);
}

#[test]
fn unknown_function_faults() {
    let prog = vec![call(0, "nowhere")];
    let (_, _, r) = run(&prog);
    assert_eq!(r, Err(Stop::Fault(Fault::UnknownFunction)));
}

#[test]
fn exit_stops_with_code() {
    let prog = vec![Instruction::IntegerConst(4), call(1, "exit"), Instruction::IntegerConst(1)];
    let (_, _, r) = run(&prog);
    assert_eq!(r, Err(Stop::Exit(4)));
}

#[test]
fn print_writes_text() {
    let prog = vec![
        Instruction::IntegerConst(1),
        Instruction::IntegerConst(2),
        Instruction::ListCount { count: 2 },
        call(1, "print"),
    ];
    let (_, host, r) = run(&prog);
    assert!(r.is_ok());
    assert_eq!(host.out, "[1, 2]");
}

#[test]
fn break_status_of_plain_run() {
    let mut rt = Runtime::create(&intrinsics(), None, String::new());
    let mut host = TestHost::new();
    let (r, _) = rt.execute_insns(&mut host, &[Instruction::BooleanConst(false), Instruction::BreakIfNot], 10);
    assert_eq!(r, Ok(BreakRequested::Yes));
}
