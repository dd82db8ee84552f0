use std::cmp::Ordering;

use mercenary::intrinsics::intrinsics;
use mercenary::text::{int_to_text, parse_integer, text_to_integer};
use mercenary::value::{BytecodeFunction, Function, NativeFunction, Store, Value};
use mercenary::instruction::Block;

fn list(store: &mut Store, items: Vec<Value>) -> Value {
    Value::List(store.push_list(items))
}

fn text(v: &Value, store: &Store) -> String {
    v.to_string(store)
}

#[test]
fn add_matrix_samples() {
    let mut st = Store::new();
    assert!(matches!(Value::Integer(2).add(&Value::Boolean(true), &mut st), Value::Integer(3)));
    assert!(matches!(Value::Boolean(true).add(&Value::Boolean(true), &mut st), Value::Integer(2)));
    assert!(matches!(Value::Boolean(true).add(&Value::Null, &mut st), Value::Boolean(true)));
    assert!(matches!(Value::Null.add(&Value::Integer(4), &mut st), Value::Integer(4)));
    assert!(matches!(Value::Null.add(&Value::Null, &mut st), Value::Null));
    let r = Value::Null.add(&Value::String("x".to_string()), &mut st);
    assert_eq!(text(&r, &st), "nullx");
    let r = Value::String("x".to_string()).add(&Value::Null, &mut st);
    assert_eq!(text(&r, &st), "xnull");
    let r = Value::Boolean(false).add(&Value::String("!".to_string()), &mut st);
    assert_eq!(text(&r, &st), "false!");
    let r = Value::Integer(-12).add(&Value::String("a".to_string()), &mut st);
    assert_eq!(text(&r, &st), "-12a");
}

#[test]
fn add_with_lists_builds_new_lists() {
    let mut st = Store::new();
    let a = list(&mut st, vec![Value::Integer(1)]);
    let b = list(&mut st, vec![Value::Integer(2), Value::Integer(3)]);
    let c = a.add(&b, &mut st);
    assert_eq!(text(&c, &st), "[1, 2, 3]");
    assert_eq!(text(&a, &st), "[1]");
    assert_eq!(text(&b, &st), "[2, 3]");
    let d = Value::Integer(9).add(&a, &mut st);
    assert_eq!(text(&d, &st), "[1, 9]");
    let e = a.add(&Value::Null, &mut st);
    assert_eq!(text(&e, &st), "[1, null]");
    assert_eq!(text(&a, &st), "[1]");
}

#[test]
fn function_operands_give_null() {
    let mut st = Store::new();
    st.functions.push(Function::Native(NativeFunction {
        name: "f".to_string(),
        arity: 1,
        op: mercenary::value::Intrinsic::Print,
    }));
    let a = list(&mut st, vec![]);
    assert!(matches!(Value::Function(0).add(&Value::Integer(1), &mut st), Value::Null));
    assert!(matches!(a.add(&Value::Function(0), &mut st), Value::Null));
    assert!(matches!(Value::Function(0).negate(&mut st), Value::Boolean(false)));
}

#[test]
fn subtraction_samples() {
    assert!(matches!(Value::Integer(5).subtraction(&Value::Boolean(true)), Value::Integer(4)));
    assert!(matches!(Value::Boolean(false).subtraction(&Value::Integer(3)), Value::Integer(-3)));
    assert!(matches!(Value::String("5".to_string()).subtraction(&Value::Integer(1)), Value::Null));
}

#[test]
fn multiply_samples() {
    let mut st = Store::new();
    assert!(matches!(Value::Integer(6).multiply(&Value::Integer(7), &mut st), Value::Integer(42)));
    let r = Value::String("ab".to_string()).multiply(&Value::Integer(3), &mut st);
    assert_eq!(text(&r, &st), "ababab");
    let r = Value::Integer(2).multiply(&Value::String("xy".to_string()), &mut st);
    assert_eq!(text(&r, &st), "xyxy");
    let r = Value::String("ab".to_string()).multiply(&Value::Integer(-1), &mut st);
    assert_eq!(text(&r, &st), "");
    let l = list(&mut st, vec![Value::Integer(1), Value::Integer(2)]);
    let r = l.multiply(&Value::Integer(2), &mut st);
    assert_eq!(text(&r, &st), "[1, 2, 1, 2]");
    let r = l.multiply(&Value::Integer(0), &mut st);
    assert_eq!(text(&r, &st), "[]");
    assert!(matches!(Value::Integer(2).multiply(&l, &mut st), Value::Null));
}

#[test]
fn divide_and_modulo() {
    assert!(matches!(Value::Integer(7).divide(&Value::Integer(2)), Value::Integer(3)));
    assert!(matches!(Value::Integer(-7).divide(&Value::Integer(2)), Value::Integer(-3)));
    assert!(matches!(Value::Integer(-7).modulo(&Value::Integer(2)), Value::Integer(-1)));
    match Value::Integer(5).modulo(&Value::Integer(0)) {
        Value::String(s) => assert_eq!(s, "oopsie ><"),
        _ => panic!("expected the marker string"),
    }
    match Value::Integer(5).divide(&Value::Integer(0)) {
        Value::String(s) => assert_eq!(s, "\u{221e}"),
        _ => panic!("expected the marker string"),
    }
    assert!(matches!(Value::Boolean(true).divide(&Value::Integer(1)), Value::Null));
}

#[test]
fn compare_samples() {
    let mut st = Store::new();
    assert_eq!(Value::Integer(10).compare(&Value::String("9".to_string()), &st), Some(Ordering::Less));
    assert_eq!(Value::Boolean(true).compare(&Value::Integer(1), &st), Some(Ordering::Equal));
    assert_eq!(Value::Boolean(true).compare(&Value::String(String::new()), &st), Some(Ordering::Equal));
    assert_eq!(Value::Null.compare(&Value::Null, &st), Some(Ordering::Equal));
    assert_eq!(Value::Null.compare(&Value::Integer(0), &st), None);
    let a = list(&mut st, vec![Value::Integer(1), Value::Integer(2)]);
    let b = list(&mut st, vec![Value::Integer(1), Value::Integer(3)]);
    let c = list(&mut st, vec![Value::Integer(1)]);
    assert_eq!(a.compare(&b, &st), Some(Ordering::Less));
    assert_eq!(a.compare(&c, &st), Some(Ordering::Greater));
    assert_eq!(a.compare(&Value::Integer(1), &st), None);
    assert_eq!(Value::String("abc".to_string()).compare(&Value::String("abd".to_string()), &st), Some(Ordering::Less));
}

#[test]
fn to_string_forms() {
    let mut st = Store::new();
    let inner = list(&mut st, vec![Value::Integer(2)]);
    let outer = list(&mut st, vec![Value::Integer(1), inner, Value::String("x".to_string()), Value::Null]);
    assert_eq!(text(&outer, &st), "[1, [2], x, null]");
    assert_eq!(text(&Value::Boolean(true), &st), "true");
    st.functions.push(Function::Native(NativeFunction {
        name: "~+".to_string(),
        arity: 2,
        op: mercenary::value::Intrinsic::Add,
    }));
    st.functions.push(Function::Bytecode(BytecodeFunction {
        name: "f".to_string(),
        arity: 0,
        code: Block(vec![]),
        locals: vec![],
    }));
    assert_eq!(text(&Value::Function(0), &st), "~+(_0, _1) { /* machine code */ }");
    assert_eq!(text(&Value::Function(1), &st), "f(_0) { /* bytecode */ }");
    assert_eq!(int_to_text(-9223372036854775808), "-9223372036854775808");
}

#[test]
fn cyclic_list_prints_bounded() {
    let mut st = Store::new();
    let a = list(&mut st, vec![]);
    st.list_insert(0, 0, Value::List(0));
    assert_eq!(text(&a, &st), "[[...]]");
}

#[test]
fn to_integer_samples() {
    assert_eq!(Value::String(" 42 ".to_string()).to_integer(), 42);
    assert_eq!(Value::String("abc".to_string()).to_integer(), 0);
    assert_eq!(Value::String("+7".to_string()).to_integer(), 7);
    assert_eq!(Value::Boolean(true).to_integer(), 1);
    assert_eq!(Value::Null.to_integer(), 0);
    assert_eq!(text_to_integer("\t-15\n"), -15);
    assert_eq!(parse_integer("-9223372036854775808"), Some(i64::MIN));
    assert_eq!(parse_integer("9223372036854775808"), None);
    assert_eq!(parse_integer(" 1"), None);
    assert_eq!(parse_integer("-"), None);
}

#[test]
fn negate_samples() {
    let mut st = Store::new();
    let r = Value::String("abc".to_string()).negate(&mut st);
    assert_eq!(text(&r, &st), "cba");
    assert!(matches!(Value::Integer(5).negate(&mut st), Value::Integer(-5)));
    assert!(matches!(Value::Boolean(true).negate(&mut st), Value::Boolean(false)));
    assert!(matches!(Value::Null.negate(&mut st), Value::Null));
    let l = list(&mut st, vec![Value::Integer(1), Value::Boolean(true)]);
    let r = l.negate(&mut st);
    assert_eq!(text(&r, &st), "[-1, false]");
    assert_eq!(text(&l, &st), "[1, true]");
}

#[test]
fn length_kind_truthy() {
    let mut st = Store::new();
    assert!(matches!(Value::String("h\u{e9}llo".to_string()).length(&st), Value::Integer(6)));
    assert!(matches!(Value::Null.length(&st), Value::Integer(0)));
    assert!(matches!(Value::Integer(77).length(&st), Value::Integer(1)));
    let l = list(&mut st, vec![Value::Null, Value::Null]);
    assert!(matches!(l.length(&st), Value::Integer(2)));
    assert!(l.truthy(&st));
    assert!(!Value::String(String::new()).truthy(&st));
    assert!(!Value::Integer(0).truthy(&st));
    match l.kindof() {
        Value::String(s) => assert_eq!(s, "array"),
        _ => panic!("expected a string"),
    }
    match Value::Function(0).kindof() {
        Value::String(s) => assert_eq!(s, "$$function##"),
        _ => panic!("expected a string"),
    }
}

#[test]
fn intrinsic_table() {
    let all = intrinsics();
    assert_eq!(all.len(), 29);
    assert!(all.iter().any(|n| n.name == "~+" && n.arity == 2));
    assert!(all.iter().any(|n| n.name == "#!" && n.arity == 1));
    assert!(all.iter().any(|n| n.name == "insert" && n.arity == 3));
}

#[test]
fn operators_stay_total_on_every_pair() {
    let mut st = Store::new();
    st.functions.push(Function::Native(NativeFunction {
        name: "f".to_string(),
        arity: 1,
        op: mercenary::value::Intrinsic::Print,
    }));
    let l = list(&mut st, vec![Value::Integer(1)]);
    let values = vec![
        Value::Null,
        Value::Boolean(true),
        Value::Integer(3),
        Value::String("s".to_string()),
        l,
        Value::Function(0),
    ];
    for a in values.iter() {
        for b in values.iter() {
            for r in [
                a.add(b, &mut st),
                a.multiply(b, &mut st),
                a.subtraction(b),
                a.divide(b),
                a.modulo(b),
            ] {
                if let Value::List(h) = r {
                    assert!(h < st.lists.len());
                }
                if let Value::Function(f) = r {
                    assert!(f < st.functions.len());
                }
            }
            let _ = a.compare(b, &st);
        }
    }
}

#[test]
fn bytecode_locals() {
    let mut f = Function::Bytecode(BytecodeFunction {
        name: "g".to_string(),
        arity: 1,
        code: Block(vec![]),
        locals: vec![],
    });
    f.set_local(2, Value::Integer(8));
    assert!(matches!(f.get_local(2), Value::Integer(8)));
    assert!(matches!(f.get_local(0), Value::Null));
    assert!(matches!(f.get_local(5), Value::Null));
    assert!(f.is_bytecode());
    assert_eq!(f.name(), "g");
}
