//! Values of the language, the functions they can name, and the store that
//! holds shared lists and function definitions.
use vstd::prelude::*;
use std::cmp::Ordering;
use crate::instruction::{Block, Insn};
use crate::text::{chars_of, int_text, int_to_text, push_nat_text, push_char, push_text, utf8_len, text_integer, text_to_integer, nat_text};

verus! {

/// A value of the language. Lists and functions are handles into a `Store`:
/// copying such a value copies the handle, so every copy sees the same list.
pub enum Value {
    Null,
    String(String),
    Boolean(bool),
    Integer(i64),
    List(usize),
    Function(usize),
}

/// Mathematical form of a value.
pub enum Val {
    Null,
    Str(Seq<char>),
    Bool(bool),
    Int(i64),
    List(usize),
    Func(usize),
}

impl View for Value {
    type V = Val;

    open spec fn view(&self) -> Val {
        match self {
            Value::Null => Val::Null,
            Value::String(s) => Val::Str(s@),
            Value::Boolean(b) => Val::Bool(*b),
            Value::Integer(i) => Val::Int(*i),
            Value::List(h) => Val::List(*h),
            Value::Function(f) => Val::Func(*f),
        }
    }
}

/// Models of a sequence of values.
pub open spec fn vals(s: Seq<Value>) -> Seq<Val> {
    s.map_values(|v: Value| v@)
}

pub proof fn lemma_vals_push(s: Seq<Value>, x: Value)
    ensures
        vals(s.push(x)) == vals(s).push(x@),
{
    assert(vals(s.push(x)) =~= vals(s).push(x@));
}

/// The natively implemented operations that the registry offers.
#[derive(PartialEq, Eq, Structural, Clone, Copy)]
pub enum Intrinsic {
    IndexSet,
    Equal,
    NotEqual,
    LessThan,
    LessThanOrEqual,
    GreaterThan,
    GreaterThanOrEqual,
    And,
    Or,
    Add,
    Sub,
    Multiply,
    Divide,
    Modulo,
    Index,
    Negate,
    Not,
    Print,
    Exit,
    Itoa,
    Atoi,
    Kindof,
    Length,
    Insert,
    Prompt,
    Delete,
    Random,
    Substr,
    Dump,
}

/// A function implemented by the host.
pub struct NativeFunction {
    pub name: String,
    pub arity: u64,
    pub op: Intrinsic,
}

/// A function defined in bytecode. The registered form has no locals; each
/// activation gets its own.
pub struct BytecodeFunction {
    pub name: String,
    pub arity: u64,
    pub code: Block,
    pub locals: Vec<Value>,
}

/// An entry of the function registry.
pub enum Function {
    Bytecode(BytecodeFunction),
    Native(NativeFunction),
}

/// Mathematical form of a registry entry.
pub enum FnModel {
    Bytecode { name: Seq<char>, arity: u64, code: Seq<Insn>, locals: Seq<Val> },
    Native { name: Seq<char>, arity: u64, op: Intrinsic },
}

impl View for Function {
    type V = FnModel;

    open spec fn view(&self) -> FnModel {
        match self {
            Function::Bytecode(b) => FnModel::Bytecode {
                name: b.name@,
                arity: b.arity,
                code: b.code@,
                locals: vals(b.locals@),
            },
            Function::Native(n) => FnModel::Native { name: n.name@, arity: n.arity, op: n.op },
        }
    }
}

/// Mathematical form of a store: list contents by handle, and function
/// definitions by handle.
pub struct Heap {
    pub lists: Seq<Seq<Val>>,
    pub funcs: Seq<FnModel>,
}

/// Shared lists and function definitions, addressed by handle. Entries are
/// never removed, so a handle stays valid.
pub struct Store {
    pub lists: Vec<Vec<Value>>,
    pub functions: Vec<Function>,
}

impl View for Store {
    type V = Heap;

    open spec fn view(&self) -> Heap {
        Heap {
            lists: self.lists@.map_values(|l: Vec<Value>| vals(l@)),
            funcs: self.functions@.map_values(|f: Function| f@),
        }
    }
}

/// Contents of the list behind a handle; a handle that names no list reads as
/// an empty list.
pub open spec fn list_at(h: Heap, i: usize) -> Seq<Val> {
    if i < h.lists.len() {
        h.lists[i as int]
    } else {
        Seq::empty()
    }
}

pub open spec fn fn_name(f: FnModel) -> Seq<char> {
    match f {
        FnModel::Bytecode { name, .. } => name,
        FnModel::Native { name, .. } => name,
    }
}

pub open spec fn fn_arity(f: FnModel) -> u64 {
    match f {
        FnModel::Bytecode { arity, .. } => arity,
        FnModel::Native { arity, .. } => arity,
    }
}

/// The parameter list `_0, _1, ...` shown for a function of `n` parameters;
/// it always names `_0`.
pub open spec fn params_text(n: nat) -> Seq<char>
    decreases n,
{
    if n <= 1 {
        "_0"@
    } else {
        params_text((n - 1) as nat) + ", _"@ + nat_text((n - 1) as nat)
    }
}

/// Text of a function value: its name, its parameters and what implements it.
pub open spec fn fn_text(f: FnModel) -> Seq<char> {
    fn_name(f) + "("@ + params_text(fn_arity(f) as nat) + match f {
        FnModel::Bytecode { .. } => ") { /* bytecode */ }"@,
        FnModel::Native { .. } => ") { /* machine code */ }"@,
    }
}

pub open spec fn bool_text(b: bool) -> Seq<char> {
    if b {
        "true"@
    } else {
        "false"@
    }
}

pub open spec fn kind_text(v: Val) -> Seq<char> {
    match v {
        Val::Null => "null"@,
        Val::Str(_) => "string"@,
        Val::Bool(_) => "boolean"@,
        Val::Int(_) => "integer"@,
        Val::List(_) => "array"@,
        Val::Func(_) => "$$function##"@,
    }
}

pub open spec fn truthy_of(v: Val, h: Heap) -> bool {
    match v {
        Val::Null => false,
        Val::Str(s) => s.len() > 0,
        Val::Bool(b) => b,
        Val::Int(i) => i != 0,
        Val::List(l) => list_at(h, l).len() > 0,
        Val::Func(_) => true,
    }
}

/// Length of a value: bytes of a string, elements of a list, parameters of a
/// function, zero for null and one for anything else.
pub open spec fn length_of(v: Val, h: Heap) -> i64 {
    match v {
        Val::Str(s) => utf8_len(s) as i64,
        Val::List(l) => list_at(h, l).len() as i64,
        Val::Func(f) => if f < h.funcs.len() {
            fn_arity(h.funcs[f as int]) as i64
        } else {
            0
        },
        Val::Null => 0,
        _ => 1,
    }
}

pub open spec fn integer_of(v: Val) -> i64 {
    match v {
        Val::Str(s) => text_integer(s),
        Val::Bool(b) => if b {
            1
        } else {
            0
        },
        Val::Int(i) => i,
        _ => 0,
    }
}

pub open spec fn b01(b: bool) -> i64 {
    if b {
        1
    } else {
        0
    }
}

pub open spec fn subtraction_of(a: Val, b: Val) -> Val {
    match (a, b) {
        (Val::Int(x), Val::Int(y)) => Val::Int(x.wrapping_sub(y)),
        (Val::Int(x), Val::Bool(y)) => Val::Int(x.wrapping_sub(b01(y))),
        (Val::Bool(x), Val::Int(y)) => Val::Int(b01(x).wrapping_sub(y)),
        _ => Val::Null,
    }
}

/// Integer quotient rounded toward zero; the one overflowing case wraps.
pub open spec fn divide_of(a: Val, b: Val) -> Val {
    match (a, b) {
        (Val::Int(x), Val::Int(y)) => if y == 0 {
            Val::Str("\u{221e}"@)
        } else {
            match x.checked_div(y) {
                Some(q) => Val::Int(q),
                None => Val::Int(i64::MIN),
            }
        },
        _ => Val::Null,
    }
}

/// Remainder with the sign of the dividend; the one overflowing case gives 0.
pub open spec fn modulo_of(a: Val, b: Val) -> Val {
    match (a, b) {
        (Val::Int(x), Val::Int(y)) => if y == 0 {
            Val::Str("oopsie ><"@)
        } else {
            match x.checked_rem(y) {
                Some(q) => Val::Int(q),
                None => Val::Int(0),
            }
        },
        _ => Val::Null,
    }
}


/// Text of a value. Lists nest at most `fuel` deep; deeper, which only a
/// cycle of lists allows, a list shows as `[...]`.
pub open spec fn text_of(v: Val, h: Heap, fuel: nat) -> Seq<char>
    decreases fuel, 0nat, 0nat,
{
    match v {
        Val::Null => "null"@,
        Val::Str(s) => s,
        Val::Bool(b) => bool_text(b),
        Val::Int(i) => int_text(i as int),
        Val::List(l) => if fuel == 0 {
            "[...]"@
        } else {
            "["@ + items_text(list_at(h, l), h, (fuel - 1) as nat) + "]"@
        },
        Val::Func(f) => if f < h.funcs.len() {
            fn_text(h.funcs[f as int])
        } else {
            Seq::empty()
        },
    }
}

/// Texts of list elements, separated by `, `.
pub open spec fn items_text(items: Seq<Val>, h: Heap, fuel: nat) -> Seq<char>
    decreases fuel, 1nat, items.len(),
{
    if items.len() == 0 {
        Seq::empty()
    } else if items.len() == 1 {
        text_of(items[0], h, fuel)
    } else {
        items_text(items.drop_last(), h, fuel) + ", "@ + text_of(items.last(), h, fuel)
    }
}

/// Nesting depth allowed when walking a value held in `h`: no chain of lists
/// without a cycle is deeper than the number of lists.
pub open spec fn depth_of(h: Heap) -> nat {
    h.lists.len()
}

pub open spec fn int_cmp(a: int, b: int) -> Ordering {
    if a < b {
        Ordering::Less
    } else if a == b {
        Ordering::Equal
    } else {
        Ordering::Greater
    }
}

/// Lexicographic order of texts by character, which is the order of their
/// UTF-8 bytes.
pub open spec fn text_cmp(a: Seq<char>, b: Seq<char>) -> Ordering
    decreases a.len(),
{
    if a.len() == 0 {
        if b.len() == 0 {
            Ordering::Equal
        } else {
            Ordering::Less
        }
    } else if b.len() == 0 {
        Ordering::Greater
    } else if (a[0] as u32) < (b[0] as u32) {
        Ordering::Less
    } else if (a[0] as u32) > (b[0] as u32) {
        Ordering::Greater
    } else {
        text_cmp(a.drop_first(), b.drop_first())
    }
}

/// The partial order of values. Lists compare element by element, then by
/// length; past `fuel` levels of nesting they are incomparable.
pub open spec fn compare_of(a: Val, b: Val, h: Heap, fuel: nat) -> Option<Ordering>
    decreases fuel, 0nat, 0nat,
{
    match (a, b) {
        (Val::Int(x), Val::Int(y)) => Some(int_cmp(x as int, y as int)),
        (Val::Str(x), Val::Str(y)) => Some(text_cmp(x, y)),
        (Val::Int(x), Val::Str(y)) => Some(text_cmp(int_text(x as int), y)),
        (Val::Str(x), Val::Int(y)) => Some(text_cmp(x, int_text(y as int))),
        (Val::Bool(x), Val::Bool(y)) => Some(int_cmp(b01(x) as int, b01(y) as int)),
        (Val::Bool(x), Val::Int(y)) => Some(int_cmp(b01(x) as int, y as int)),
        (Val::Int(x), Val::Bool(y)) => Some(int_cmp(x as int, b01(y) as int)),
        (Val::Bool(x), Val::Str(y)) => Some(int_cmp(b01(x) as int, b01(y.len() == 0) as int)),
        (Val::Str(x), Val::Bool(y)) => Some(int_cmp(b01(x.len() == 0) as int, b01(y) as int)),
        (Val::Null, Val::Null) => Some(Ordering::Equal),
        (Val::List(x), Val::List(y)) => if fuel == 0 {
            None
        } else {
            items_cmp(list_at(h, x), list_at(h, y), h, (fuel - 1) as nat)
        },
        (Val::Func(x), Val::Func(y)) => if x < h.funcs.len() && y < h.funcs.len() && (
        h.funcs[x as int] is Bytecode) == (h.funcs[y as int] is Bytecode) {
            Some(text_cmp(fn_name(h.funcs[x as int]), fn_name(h.funcs[y as int])))
        } else {
            None
        },
        _ => None,
    }
}

/// Lexicographic order of element sequences; the first pair that is not
/// equal decides, and a shorter prefix comes first.
pub open spec fn items_cmp(x: Seq<Val>, y: Seq<Val>, h: Heap, fuel: nat) -> Option<Ordering>
    decreases fuel, 1nat, x.len(),
{
    if x.len() == 0 || y.len() == 0 {
        Some(int_cmp(x.len() as int, y.len() as int))
    } else {
        match compare_of(x[0], y[0], h, fuel) {
            Some(Ordering::Equal) => items_cmp(x.drop_first(), y.drop_first(), h, fuel),
            other => other,
        }
    }
}

/// The heap after a new list with `items` is added; its handle is the old
/// number of lists.
pub open spec fn with_list(h: Heap, items: Seq<Val>) -> Heap {
    Heap { lists: h.lists.push(items), funcs: h.funcs }
}

pub open spec fn new_list(h: Heap, items: Seq<Val>) -> (Val, Heap) {
    (Val::List(h.lists.len() as usize), with_list(h, items))
}

pub open spec fn reversed<A>(s: Seq<A>) -> Seq<A> {
    Seq::new(s.len(), |i: int| s[s.len() - 1 - i])
}

/// Negation: integers negate (wrapping), booleans flip, strings reverse by
/// character, lists become a new list of the negated elements in reverse
/// order, null stays null and a function gives false.
pub open spec fn negate_of(v: Val, h: Heap, fuel: nat) -> (Val, Heap)
    decreases fuel, 0nat, 0nat,
{
    match v {
        Val::Null => (Val::Null, h),
        Val::Str(s) => (Val::Str(reversed(s)), h),
        Val::Bool(b) => (Val::Bool(!b), h),
        Val::Int(i) => (Val::Int(0i64.wrapping_sub(i)), h),
        Val::List(l) => if fuel == 0 {
            new_list(h, Seq::empty())
        } else {
            let (items, h2) = negate_items(list_at(h, l), h, (fuel - 1) as nat);
            new_list(h2, items)
        },
        Val::Func(_) => (Val::Bool(false), h),
    }
}

/// Negates each element in turn, threading the heap through.
pub open spec fn negate_items(xs: Seq<Val>, h: Heap, fuel: nat) -> (Seq<Val>, Heap)
    decreases fuel, 1nat, xs.len(),
{
    if xs.len() == 0 {
        (Seq::empty(), h)
    } else {
        let (init, h1) = negate_items(xs.drop_last(), h, fuel);
        let (v, h2) = negate_of(xs.last(), h1, fuel);
        (init.push(v), h2)
    }
}

/// `s` repeated `n` times.
pub open spec fn repeat<A>(s: Seq<A>, n: nat) -> Seq<A>
    decreases n,
{
    if n == 0 {
        Seq::empty()
    } else {
        repeat(s, (n - 1) as nat) + s
    }
}

pub open spec fn times(n: i64) -> nat {
    if n < 0 {
        0
    } else {
        n as nat
    }
}

/// Addition over every pair of variants. A list operand gives a new list:
/// two lists concatenate, a list and another value append that value.
/// Anything with a function gives null.
pub open spec fn add_of(a: Val, b: Val, h: Heap) -> (Val, Heap) {
    match (a, b) {
        (Val::Func(_), _) => (Val::Null, h),
        (_, Val::Func(_)) => (Val::Null, h),
        (Val::List(x), Val::List(y)) => new_list(h, list_at(h, x) + list_at(h, y)),
        (Val::List(x), v) => new_list(h, list_at(h, x).push(v)),
        (v, Val::List(y)) => new_list(h, list_at(h, y).push(v)),
        (Val::Int(x), Val::Int(y)) => (Val::Int(x.wrapping_add(y)), h),
        (Val::Int(x), Val::Bool(y)) => (Val::Int(x.wrapping_add(b01(y))), h),
        (Val::Bool(x), Val::Int(y)) => (Val::Int(b01(x).wrapping_add(y)), h),
        (Val::Int(x), Val::Null) => (Val::Int(x), h),
        (Val::Null, Val::Int(y)) => (Val::Int(y), h),
        (Val::Bool(x), Val::Bool(y)) => (Val::Int((b01(x) + b01(y)) as i64), h),
        (Val::Bool(x), Val::Null) => (Val::Bool(x), h),
        (Val::Null, Val::Bool(y)) => (Val::Bool(y), h),
        (Val::Str(x), Val::Str(y)) => (Val::Str(x + y), h),
        (Val::Str(x), Val::Int(y)) => (Val::Str(x + int_text(y as int)), h),
        (Val::Int(x), Val::Str(y)) => (Val::Str(int_text(x as int) + y), h),
        (Val::Str(x), Val::Null) => (Val::Str(x + "null"@), h),
        (Val::Null, Val::Str(y)) => (Val::Str("null"@ + y), h),
        (Val::Bool(x), Val::Str(y)) => (Val::Str(bool_text(x) + y), h),
        (Val::Str(x), Val::Bool(y)) => (Val::Str(x + bool_text(y)), h),
        (Val::Null, Val::Null) => (Val::Null, h),
    }
}

/// Multiplication: integers multiply (wrapping), a string and an integer
/// repeat the string, a list and an integer give a new list of the contents
/// repeated; a negative count repeats nothing.
pub open spec fn multiply_of(a: Val, b: Val, h: Heap) -> (Val, Heap) {
    match (a, b) {
        (Val::Int(x), Val::Int(y)) => (Val::Int(x.wrapping_mul(y)), h),
        (Val::Int(n), Val::Str(s)) => (Val::Str(repeat(s, times(n))), h),
        (Val::Str(s), Val::Int(n)) => (Val::Str(repeat(s, times(n))), h),
        (Val::List(l), Val::Int(n)) => new_list(h, repeat(list_at(h, l), times(n))),
        _ => (Val::Null, h),
    }
}

/// An owned copy of a text.
fn owned(s: &str) -> (r: String)
    ensures
        r@ == s@,
{
    s.to_owned()
}


fn bool_to_text(b: bool) -> (r: String)
    ensures
        r@ == bool_text(b),
{
    if b {
        owned("true")
    } else {
        owned("false")
    }
}

/// Order of two texts, character by character.
pub fn text_compare(a: &str, b: &str) -> (r: Ordering)
    ensures
        r == text_cmp(a@, b@),
{
    let x = chars_of(a);
    let y = chars_of(b);
    let mut i: usize = 0;
    proof {
        assert(a@.skip(0) =~= a@);
        assert(b@.skip(0) =~= b@);
    }
    while i < x.len() && i < y.len()
        invariant
            x@ == a@,
            y@ == b@,
            i <= x@.len(),
            i <= y@.len(),
            text_cmp(a@, b@) == text_cmp(a@.skip(i as int), b@.skip(i as int)),
        decreases x@.len() - i,
    {
        let c = x[i];
        let d = y[i];
        proof {
            assert(a@.skip(i as int)[0] == c);
            assert(b@.skip(i as int)[0] == d);
            assert(a@.skip(i as int).drop_first() =~= a@.skip(i + 1));
            assert(b@.skip(i as int).drop_first() =~= b@.skip(i + 1));
        }
        if (c as u32) < (d as u32) {
            return Ordering::Less;
        }
        if (c as u32) > (d as u32) {
            return Ordering::Greater;
        }
        i = i + 1;
    }
    if i < x.len() {
        Ordering::Greater
    } else if i < y.len() {
        Ordering::Less
    } else {
        Ordering::Equal
    }
}

fn int_compare(a: i64, b: i64) -> (r: Ordering)
    ensures
        r == int_cmp(a as int, b as int),
{
    if a < b {
        Ordering::Less
    } else if a == b {
        Ordering::Equal
    } else {
        Ordering::Greater
    }
}

fn reverse_text(s: &str) -> (r: String)
    ensures
        r@ == reversed(s@),
{
    let cs = chars_of(s);
    let mut r = String::new();
    let mut i: usize = cs.len();
    while i > 0
        invariant
            cs@ == s@,
            i <= cs@.len(),
            r@ == reversed(s@).take(cs@.len() - i),
        decreases i,
    {
        i = i - 1;
        push_char(&mut r, cs[i]);
        proof {
            assert(r@ =~= reversed(s@).take(cs@.len() - i));
        }
    }
    proof {
        assert(reversed(s@).take(cs@.len() as int) =~= reversed(s@));
    }
    r
}

fn repeat_text(s: &str, n: i64) -> (r: String)
    ensures
        r@ == repeat(s@, times(n)),
{
    let mut r = String::new();
    let mut k: i64 = 0;
    proof {
        assert(r@ =~= repeat(s@, 0));
    }
    while k < n
        invariant
            0 <= k,
            k <= n || n < 0,
            n < 0 ==> k == 0,
            r@ == repeat(s@, k as nat),
        decreases n - k,
    {
        push_text(&mut r, s);
        k = k + 1;
    }
    proof {
        assert(times(n) == k as nat);
    }
    r
}

impl Store {
    pub fn new() -> (r: Store)
        ensures
            r@.lists.len() == 0,
            r@.funcs.len() == 0,
    {
        Store { lists: Vec::new(), functions: Vec::new() }
    }

    /// Adds a list and returns its handle.
    pub fn push_list(&mut self, items: Vec<Value>) -> (r: usize)
        ensures
            r == old(self)@.lists.len(),
            final(self)@ == with_list(old(self)@, vals(items@)),
    {
        let r = self.lists.len();
        self.lists.push(items);
        proof {
            assert(final(self)@.lists =~= old(self)@.lists.push(vals(items@)));
        }
        r
    }

    /// A copy of the elements of a list; no elements for a handle that
    /// names no list.
    pub fn copy_list(&self, l: usize) -> (r: Vec<Value>)
        ensures
            vals(r@) == list_at(self@, l),
    {
        let mut r: Vec<Value> = Vec::new();
        if l < self.lists.len() {
            let items = &self.lists[l];
            let mut i: usize = 0;
            while i < items.len()
                invariant
                    i <= items@.len(),
                    vals(r@) == vals(items@).take(i as int),
                decreases items@.len() - i,
            {
                let x = items[i].duplicate();
                proof {
                    lemma_vals_push(r@, x);
                }
                r.push(x);
                i = i + 1;
                proof {
                    assert(vals(r@) =~= vals(items@).take(i as int));
                }
            }
            proof {
                assert(vals(items@).take(i as int) =~= vals(items@));
            }
        } else {
            proof {
                assert(vals(r@) =~= Seq::<Val>::empty());
            }
        }
        r
    }
}

fn text_with(v: &Value, store: &Store, fuel: usize) -> (r: String)
    ensures
        r@ == text_of(v@, store@, fuel as nat),
    decreases fuel,
{
    match v {
        Value::Null => owned("null"),
        Value::String(s) => s.clone(),
        Value::Boolean(b) => bool_to_text(*b),
        Value::Integer(i) => int_to_text(*i),
        Value::List(l) => {
            if fuel == 0 {
                return owned("[...]");
            }
            let mut s = owned("[");
            if *l < store.lists.len() {
                let items = &store.lists[*l];
                let ghost xs = vals(items@);
                let mut i: usize = 0;
                proof {
                    assert(xs.take(0) =~= Seq::<Val>::empty());
                }
                while i < items.len()
                    invariant
                        xs == vals(items@),
                        fuel > 0,
                        i <= items@.len(),
                        s@ == "["@ + items_text(xs.take(i as int), store@, (fuel - 1) as nat),
                    decreases items@.len() - i,
                {
                    let ghost before = s@;
                    if i > 0 {
                        push_text(&mut s, ", ");
                    }
                    let t = text_with(&items[i], store, fuel - 1);
                    push_text(&mut s, t.as_str());
                    proof {
                        let nx = xs.take(i + 1);
                        assert(nx.drop_last() =~= xs.take(i as int));
                        assert(nx.last() == items@[i as int]@);
                        if i == 0 {
                            assert(nx.len() == 1);
                            assert(s@ =~= "["@ + items_text(nx, store@, (fuel - 1) as nat));
                        } else {
                            assert(s@ =~= "["@ + items_text(nx, store@, (fuel - 1) as nat));
                        }
                    }
                    i = i + 1;
                }
                proof {
                    assert(xs.take(i as int) =~= xs);
                }
            } else {
                proof {
                    assert(s@ =~= "["@ + items_text(Seq::empty(), store@, (fuel - 1) as nat));
                }
            }
            push_text(&mut s, "]");
            s
        },
        Value::Function(f) => {
            if *f < store.functions.len() {
                store.functions[*f].to_string()
            } else {
                String::new()
            }
        },
    }
}

fn compare_with(a: &Value, b: &Value, store: &Store, fuel: usize) -> (r: Option<Ordering>)
    ensures
        r == compare_of(a@, b@, store@, fuel as nat),
    decreases fuel,
{
    match (a, b) {
        (Value::Integer(x), Value::Integer(y)) => Some(int_compare(*x, *y)),
        (Value::String(x), Value::String(y)) => Some(text_compare(x.as_str(), y.as_str())),
        (Value::Integer(x), Value::String(y)) => {
            let t = int_to_text(*x);
            Some(text_compare(t.as_str(), y.as_str()))
        },
        (Value::String(x), Value::Integer(y)) => {
            let t = int_to_text(*y);
            Some(text_compare(x.as_str(), t.as_str()))
        },
        (Value::Boolean(x), Value::Boolean(y)) => Some(
            int_compare(if *x { 1 } else { 0 }, if *y { 1 } else { 0 }),
        ),
        (Value::Boolean(x), Value::Integer(y)) => Some(int_compare(if *x { 1 } else { 0 }, *y)),
        (Value::Integer(x), Value::Boolean(y)) => Some(int_compare(*x, if *y { 1 } else { 0 })),
        (Value::Boolean(x), Value::String(y)) => {
            let e = y.as_str().unicode_len() == 0;
            Some(int_compare(if *x { 1 } else { 0 }, if e { 1 } else { 0 }))
        },
        (Value::String(x), Value::Boolean(y)) => {
            let e = x.as_str().unicode_len() == 0;
            Some(int_compare(if e { 1 } else { 0 }, if *y { 1 } else { 0 }))
        },
        (Value::Null, Value::Null) => Some(Ordering::Equal),
        (Value::List(x), Value::List(y)) => {
            if fuel == 0 {
                return None;
            }
            let ghost h = store@;
            let ghost xs = list_at(h, *x);
            let ghost ys = list_at(h, *y);
            let n: usize = if *x < store.lists.len() {
                store.lists[*x].len()
            } else {
                0
            };
            let m: usize = if *y < store.lists.len() {
                store.lists[*y].len()
            } else {
                0
            };
            let mut i: usize = 0;
            proof {
                assert(xs.skip(0) =~= xs);
                assert(ys.skip(0) =~= ys);
            }
            while i < n && i < m
                invariant
                    n == xs.len(),
                    m == ys.len(),
                    xs == list_at(h, *x),
                    ys == list_at(h, *y),
                    h == store@,
                    fuel > 0,
                    compare_of(a@, b@, h, fuel as nat) == items_cmp(xs, ys, h, (fuel - 1) as nat),
                    i <= n,
                    i <= m,
                    items_cmp(xs, ys, h, (fuel - 1) as nat) == items_cmp(
                        xs.skip(i as int),
                        ys.skip(i as int),
                        h,
                        (fuel - 1) as nat,
                    ),
                decreases n - i,
            {
                let c = compare_with(&store.lists[*x][i], &store.lists[*y][i], store, fuel - 1);
                proof {
                    assert(xs.skip(i as int)[0] == xs[i as int]);
                    assert(ys.skip(i as int)[0] == ys[i as int]);
                    assert(xs.skip(i as int).drop_first() =~= xs.skip(i + 1));
                    assert(ys.skip(i as int).drop_first() =~= ys.skip(i + 1));
                }
                proof {
                    assert(store.lists[*x as int]@[i as int]@ == xs[i as int]);
                    assert(store.lists[*y as int]@[i as int]@ == ys[i as int]);
                }
                match c {
                    Some(Ordering::Equal) => {},
                    _ => {
                        proof {
                            let sx = xs.skip(i as int);
                            let sy = ys.skip(i as int);
                            assert(sx.len() > 0 && sy.len() > 0);
                            assert(compare_of(sx[0], sy[0], h, (fuel - 1) as nat) == c);
                            assert(items_cmp(sx, sy, h, (fuel - 1) as nat) == c);
                        }
                        return c;
                    },
                }
                i = i + 1;
            }
            proof {
                assert(xs.skip(i as int).len() == 0 || ys.skip(i as int).len() == 0);
            }
            if n < m {
                Some(Ordering::Less)
            } else if n == m {
                Some(Ordering::Equal)
            } else {
                Some(Ordering::Greater)
            }
        },
        (Value::Function(x), Value::Function(y)) => {
            if *x < store.functions.len() && *y < store.functions.len() {
                let fx = &store.functions[*x];
                let fy = &store.functions[*y];
                if fx.is_bytecode() == fy.is_bytecode() {
                    Some(text_compare(fx.name(), fy.name()))
                } else {
                    None
                }
            } else {
                None
            }
        },
        _ => None,
    }
}

fn negate_with(v: &Value, store: &mut Store, fuel: usize) -> (r: Value)
    ensures
        (r@, final(store)@) == negate_of(v@, old(store)@, fuel as nat),
        final(store)@.lists.len() >= old(store)@.lists.len(),
        final(store)@.funcs == old(store)@.funcs,
    decreases fuel,
{
    match v {
        Value::Null => Value::Null,
        Value::String(s) => Value::String(reverse_text(s.as_str())),
        Value::Boolean(b) => Value::Boolean(!*b),
        Value::Integer(i) => Value::Integer(0i64.wrapping_sub(*i)),
        Value::List(l) => {
            if fuel == 0 {
                let empty: Vec<Value> = Vec::new();
                proof {
                    assert(vals(empty@) =~= Seq::<Val>::empty());
                }
                let h = store.push_list(empty);
                return Value::List(h);
            }
            let ghost h0 = store@;
            let src = store.copy_list(*l);
            let ghost rs = vals(src@);
            let mut out: Vec<Value> = Vec::new();
            let mut i: usize = 0;
            proof {
                assert(rs.take(0) =~= Seq::<Val>::empty());
                assert(vals(out@) =~= Seq::<Val>::empty());
            }
            while i < src.len()
                invariant
                    i <= src@.len(),
                    fuel > 0,
                    rs == vals(src@),
                    store@.lists.len() >= h0.lists.len(),
                    store@.funcs == h0.funcs,
                    (vals(out@), store@) == negate_items(rs.take(i as int), h0, (fuel - 1) as nat),
                decreases src@.len() - i,
            {
                let x = negate_with(&src[i], store, fuel - 1);
                let ghost pre = vals(out@);
                out.push(x);
                i = i + 1;
                proof {
                    assert(rs.take(i as int).drop_last() =~= rs.take(i - 1));
                    assert(rs.take(i as int).last() == src@[i - 1]@);
                    assert(vals(out@) =~= pre.push(x@));
                }
            }
            proof {
                assert(rs.take(src@.len() as int) =~= rs);
            }
            let h = store.push_list(out);
            Value::List(h)
        },
        Value::Function(_) => Value::Boolean(false),
    }
}

impl Value {
    /// Text of the value.
    pub fn to_string(&self, store: &Store) -> (r: String)
        ensures
            r@ == text_of(self@, store@, depth_of(store@)),
    {
        text_with(self, store, store.lists.len())
    }

    pub fn compare(&self, other: &Value, store: &Store) -> (r: Option<Ordering>)
        ensures
            r == compare_of(self@, other@, store@, depth_of(store@)),
    {
        compare_with(self, other, store, store.lists.len())
    }

    pub fn negate(&self, store: &mut Store) -> (r: Value)
        ensures
            (r@, final(store)@) == negate_of(self@, old(store)@, depth_of(old(store)@)),
            final(store)@.lists.len() >= old(store)@.lists.len(),
            final(store)@.funcs == old(store)@.funcs,
    {
        let n = store.lists.len();
        negate_with(self, store, n)
    }

    pub fn add(&self, other: &Value, store: &mut Store) -> (r: Value)
        ensures
            (r@, final(store)@) == add_of(self@, other@, old(store)@),
    {
        match (self, other) {
            (Value::Function(_), _) => Value::Null,
            (_, Value::Function(_)) => Value::Null,
            (Value::List(x), Value::List(y)) => {
                let mut items = store.copy_list(*x);
                let more = store.copy_list(*y);
                let ghost a = vals(items@);
                let mut i: usize = 0;
                while i < more.len()
                    invariant
                        i <= more@.len(),
                        vals(items@) == a + vals(more@).take(i as int),
                    decreases more@.len() - i,
                {
                    let e = more[i].duplicate();
                    proof {
                        lemma_vals_push(items@, e);
                    }
                    items.push(e);
                    i = i + 1;
                    proof {
                        assert(vals(items@) =~= a + vals(more@).take(i as int));
                    }
                }
                proof {
                    assert(vals(more@).take(i as int) =~= vals(more@));
                }
                Value::List(store.push_list(items))
            },
            (Value::List(x), v) => {
                let mut items = store.copy_list(*x);
                let ghost a = vals(items@);
                items.push(v.duplicate());
                proof {
                    assert(vals(items@) =~= a.push(v@));
                }
                Value::List(store.push_list(items))
            },
            (v, Value::List(y)) => {
                let mut items = store.copy_list(*y);
                let ghost a = vals(items@);
                items.push(v.duplicate());
                proof {
                    assert(vals(items@) =~= a.push(v@));
                }
                Value::List(store.push_list(items))
            },
            (Value::Integer(x), Value::Integer(y)) => Value::Integer(x.wrapping_add(*y)),
            (Value::Integer(x), Value::Boolean(y)) => Value::Integer(
                x.wrapping_add(if *y { 1 } else { 0 }),
            ),
            (Value::Boolean(x), Value::Integer(y)) => Value::Integer(
                (if *x { 1i64 } else { 0i64 }).wrapping_add(*y),
            ),
            (Value::Integer(x), Value::Null) => Value::Integer(*x),
            (Value::Null, Value::Integer(y)) => Value::Integer(*y),
            (Value::Boolean(x), Value::Boolean(y)) => Value::Integer(
                (if *x { 1i64 } else { 0i64 }) + (if *y { 1i64 } else { 0i64 }),
            ),
            (Value::Boolean(x), Value::Null) => Value::Boolean(*x),
            (Value::Null, Value::Boolean(y)) => Value::Boolean(*y),
            (Value::String(x), Value::String(y)) => {
                let mut s = x.clone();
                push_text(&mut s, y.as_str());
                Value::String(s)
            },
            (Value::String(x), Value::Integer(y)) => {
                let mut s = x.clone();
                let t = int_to_text(*y);
                push_text(&mut s, t.as_str());
                Value::String(s)
            },
            (Value::Integer(x), Value::String(y)) => {
                let mut s = int_to_text(*x);
                push_text(&mut s, y.as_str());
                Value::String(s)
            },
            (Value::String(x), Value::Null) => {
                let mut s = x.clone();
                push_text(&mut s, "null");
                Value::String(s)
            },
            (Value::Null, Value::String(y)) => {
                let mut s = owned("null");
                push_text(&mut s, y.as_str());
                Value::String(s)
            },
            (Value::Boolean(x), Value::String(y)) => {
                let mut s = bool_to_text(*x);
                push_text(&mut s, y.as_str());
                Value::String(s)
            },
            (Value::String(x), Value::Boolean(y)) => {
                let mut s = x.clone();
                let t = bool_to_text(*y);
                push_text(&mut s, t.as_str());
                Value::String(s)
            },
            (Value::Null, Value::Null) => Value::Null,
        }
    }

    pub fn multiply(&self, other: &Value, store: &mut Store) -> (r: Value)
        ensures
            (r@, final(store)@) == multiply_of(self@, other@, old(store)@),
    {
        match (self, other) {
            (Value::Integer(x), Value::Integer(y)) => Value::Integer(x.wrapping_mul(*y)),
            (Value::Integer(n), Value::String(s)) => Value::String(repeat_text(s.as_str(), *n)),
            (Value::String(s), Value::Integer(n)) => Value::String(repeat_text(s.as_str(), *n)),
            (Value::List(l), Value::Integer(n)) => {
                let src = store.copy_list(*l);
                let ghost a = vals(src@);
                let mut items: Vec<Value> = Vec::new();
                let mut k: i64 = 0;
                proof {
                    assert(vals(items@) =~= repeat(a, 0));
                }
                while k < *n
                    invariant
                        0 <= k,
                        k <= *n || *n < 0,
                        *n < 0 ==> k == 0,
                        a == vals(src@),
                        vals(items@) == repeat(a, k as nat),
                    decreases *n - k,
                {
                    let mut i: usize = 0;
                    let ghost base = vals(items@);
                    while i < src.len()
                        invariant
                            i <= src@.len(),
                            a == vals(src@),
                            vals(items@) == base + a.take(i as int),
                        decreases src@.len() - i,
                    {
                        let e = src[i].duplicate();
                        proof {
                            lemma_vals_push(items@, e);
                        }
                        items.push(e);
                        i = i + 1;
                        proof {
                            assert(vals(items@) =~= base + a.take(i as int));
                        }
                    }
                    proof {
                        assert(a.take(i as int) =~= a);
                    }
                    k = k + 1;
                }
                proof {
                    assert(times(*n) == k as nat);
                }
                Value::List(store.push_list(items))
            },
            _ => Value::Null,
        }
    }
}

impl Value {
    /// A copy of the value; a list copy is another handle to the same list.
    pub fn duplicate(&self) -> (r: Value)
        ensures
            r@ == self@,
    {
        match self {
            Value::Null => Value::Null,
            Value::String(s) => Value::String(s.clone()),
            Value::Boolean(b) => Value::Boolean(*b),
            Value::Integer(i) => Value::Integer(*i),
            Value::List(h) => Value::List(*h),
            Value::Function(f) => Value::Function(*f),
        }
    }

    pub fn is_null(&self) -> (r: bool)
        ensures
            r == (self@ == Val::Null),
    {
        match self {
            Value::Null => true,
            _ => false,
        }
    }

    /// The name of the value's variant, as a string value.
    pub fn kindof(&self) -> (r: Value)
        ensures
            r@ == Val::Str(kind_text(self@)),
    {
        let s = match self {
            Value::Null => owned("null"),
            Value::String(_) => owned("string"),
            Value::Boolean(_) => owned("boolean"),
            Value::Integer(_) => owned("integer"),
            Value::List(_) => owned("array"),
            Value::Function(_) => owned("$$function##"),
        };
        Value::String(s)
    }

    pub fn length(&self, store: &Store) -> (r: Value)
        ensures
            r@ == Val::Int(length_of(self@, store@)),
    {
        match self {
            Value::String(s) => {
                let n = s.as_str().as_bytes().len();
                proof {
                    assert(n as nat == utf8_len(s@));
                }
                Value::Integer(n as i64)
            },
            Value::List(l) => {
                if *l < store.lists.len() {
                    Value::Integer(store.lists[*l].len() as i64)
                } else {
                    Value::Integer(0)
                }
            },
            Value::Function(f) => {
                if *f < store.functions.len() {
                    Value::Integer(store.functions[*f].arity() as i64)
                } else {
                    Value::Integer(0)
                }
            },
            Value::Null => Value::Integer(0),
            _ => Value::Integer(1),
        }
    }

    pub fn truthy(&self, store: &Store) -> (r: bool)
        ensures
            r == truthy_of(self@, store@),
    {
        match self {
            Value::String(s) => s.as_str().unicode_len() > 0,
            Value::Boolean(b) => *b,
            Value::Integer(i) => *i != 0,
            Value::Null => false,
            Value::List(l) => *l < store.lists.len() && store.lists[*l].len() > 0,
            Value::Function(_) => true,
        }
    }

    pub fn to_integer(&self) -> (r: i64)
        ensures
            r == integer_of(self@),
    {
        match self {
            Value::Null => 0,
            Value::String(s) => text_to_integer(s.as_str()),
            Value::Boolean(a) => if *a {
                1
            } else {
                0
            },
            Value::Integer(a) => *a,
            Value::List(_) => 0,
            Value::Function(_) => 0,
        }
    }

    pub fn subtraction(&self, other: &Value) -> (r: Value)
        ensures
            r@ == subtraction_of(self@, other@),
    {
        match (self, other) {
            (Value::Integer(a), Value::Integer(b)) => Value::Integer(a.wrapping_sub(*b)),
            (Value::Integer(a), Value::Boolean(b)) => Value::Integer(
                a.wrapping_sub(if *b { 1 } else { 0 }),
            ),
            (Value::Boolean(a), Value::Integer(b)) => Value::Integer(
                (if *a { 1i64 } else { 0i64 }).wrapping_sub(*b),
            ),
            _ => Value::Null,
        }
    }

    pub fn divide(&self, other: &Value) -> (r: Value)
        ensures
            r@ == divide_of(self@, other@),
    {
        match (self, other) {
            (Value::Integer(a), Value::Integer(b)) => {
                if *b == 0 {
                    Value::String(owned("\u{221e}"))
                } else {
                    match a.checked_div(*b) {
                        Some(q) => Value::Integer(q),
                        None => Value::Integer(i64::MIN),
                    }
                }
            },
            _ => Value::Null,
        }
    }

    pub fn modulo(&self, other: &Value) -> (r: Value)
        ensures
            r@ == modulo_of(self@, other@),
    {
        match (self, other) {
            (Value::Integer(a), Value::Integer(b)) => {
                if *b == 0 {
                    Value::String(owned("oopsie ><"))
                } else {
                    match a.checked_rem(*b) {
                        Some(q) => Value::Integer(q),
                        None => Value::Integer(0),
                    }
                }
            },
            _ => Value::Null,
        }
    }
}

impl BytecodeFunction {
    /// Local `idx`; slots never written read as null.
    pub fn get_local(&self, idx: u64) -> (r: Value)
        ensures
            r@ == (if idx < self.locals@.len() {
                self.locals@[idx as int]@
            } else {
                Val::Null
            }),
    {
        if idx < self.locals.len() as u64 {
            self.locals[idx as usize].duplicate()
        } else {
            Value::Null
        }
    }

    /// Sets local `idx`, padding the locals with null up to it.
    pub fn set_local(&mut self, idx: u64, v: Value)
        requires
            idx < usize::MAX,
        ensures
            vals(final(self).locals@) == (if idx < old(self).locals@.len() {
                vals(old(self).locals@)
            } else {
                vals(old(self).locals@) + Seq::new(
                    (idx - old(self).locals@.len() + 1) as nat,
                    |i: int| Val::Null,
                )
            }).update(idx as int, v@),
            final(self).name == old(self).name,
            final(self).arity == old(self).arity,
    {
        let ghost l0 = vals(self.locals@);
        let target: usize = idx as usize;
        while self.locals.len() <= target
            invariant
                target == idx,
                target < usize::MAX,
                self.name == old(self).name,
                self.arity == old(self).arity,
                self.locals@.len() <= target + 1 || self.locals@.len() == l0.len(),
                vals(self.locals@) == l0 + Seq::new(
                    (self.locals@.len() - l0.len()) as nat,
                    |i: int| Val::Null,
                ),
                self.locals@.len() >= l0.len(),
            decreases target + 1 - self.locals@.len(),
        {
            proof {
                lemma_vals_push(self.locals@, Value::Null);
            }
            self.locals.push(Value::Null);
            proof {
                assert(vals(self.locals@) =~= l0 + Seq::new(
                    (self.locals@.len() - l0.len()) as nat,
                    |i: int| Val::Null,
                ));
            }
        }
        let ghost padded = vals(self.locals@);
        proof {
            if l0.len() > idx {
                assert(padded =~= l0);
            } else {
                assert(padded =~= l0 + Seq::new((idx - l0.len() + 1) as nat, |i: int| Val::Null));
            }
        }
        self.locals.set(target, v);
        proof {
            assert(vals(self.locals@) =~= padded.update(idx as int, v@));
        }
    }
}

impl Function {
    /// Local `idx` of a bytecode function; a native one has none.
    pub fn get_local(&self, idx: u64) -> (r: Value)
        ensures
            r@ == (match *self {
                Function::Bytecode(b) => if idx < b.locals@.len() {
                    b.locals@[idx as int]@
                } else {
                    Val::Null
                },
                Function::Native(_) => Val::Null,
            }),
    {
        match self {
            Function::Bytecode(b) => b.get_local(idx),
            Function::Native(_) => Value::Null,
        }
    }

    /// Sets local `idx` of a bytecode function; a native one is left as it is.
    pub fn set_local(&mut self, idx: u64, v: Value)
        requires
            idx < usize::MAX,
        ensures
            *old(self) is Native ==> *final(self) == *old(self),
            *old(self) is Bytecode ==> (*final(self) matches Function::Bytecode(b) && vals(b.locals@)
                == (if idx < old(self)->Bytecode_0.locals@.len() {
                vals(old(self)->Bytecode_0.locals@)
            } else {
                vals(old(self)->Bytecode_0.locals@) + Seq::new(
                    (idx - old(self)->Bytecode_0.locals@.len() + 1) as nat,
                    |i: int| Val::Null,
                )
            }).update(idx as int, v@)),
    {
        match self {
            Function::Bytecode(b) => b.set_local(idx, v),
            Function::Native(_) => {},
        }
    }

    pub fn name(&self) -> (r: &str)
        ensures
            r@ == fn_name(self@),
    {
        match self {
            Function::Bytecode(b) => b.name.as_str(),
            Function::Native(n) => n.name.as_str(),
        }
    }

    pub fn arity(&self) -> (r: u64)
        ensures
            r == fn_arity(self@),
    {
        match self {
            Function::Bytecode(b) => b.arity,
            Function::Native(n) => n.arity,
        }
    }

    pub fn is_bytecode(&self) -> (r: bool)
        ensures
            r == (*self is Bytecode),
    {
        match self {
            Function::Bytecode(_) => true,
            Function::Native(_) => false,
        }
    }

    /// The function's text: `name(_0, _1, ...) { /* bytecode */ }`, or
    /// `machine code` for a native one.
    pub fn to_string(&self) -> (r: String)
        ensures
            r@ == fn_text(self@),
    {
        let mut s = String::new();
        push_text(&mut s, self.name());
        push_text(&mut s, "(");
        push_text(&mut s, "_0");
        let n = self.arity();
        let mut i: u64 = 1;
        proof {
            assert(s@ =~= fn_name(self@) + "("@ + params_text(1));
        }
        while i < n
            invariant
                1 <= i,
                (n >= 1 && i <= n) || (n < 1 && i == 1),
                n == fn_arity(self@),
                s@ == fn_name(self@) + "("@ + params_text(i as nat),
            decreases n - i,
        {
            push_text(&mut s, ", _");
            push_nat_text(&mut s, i);
            i = i + 1;
            proof {
                assert(s@ =~= fn_name(self@) + "("@ + params_text(i as nat));
            }
        }
        proof {
            if n >= 1 {
                assert(i == n);
            }
            assert(params_text(i as nat) == params_text(n as nat));
        }
        match self {
            Function::Bytecode(_) => push_text(&mut s, ") { /* bytecode */ }"),
            Function::Native(_) => push_text(&mut s, ") { /* machine code */ }"),
        }
        proof {
            assert(s@ =~= fn_text(self@));
        }
        s
    }
}

} // verus!
