//! The natively implemented functions of the registry, and the list
//! operations they perform on the store.
use vstd::prelude::*;
use std::cmp::Ordering;
use crate::runtime::{Fault, Host, Machine, Runtime, Stop, pop_m, push_m};
use crate::exec::lemma_keeps_refl;
use crate::text::byte_slice;
use crate::value::{
    Heap, Intrinsic, NativeFunction, Store, Value, Val, compare_of, depth_of, list_at, vals,
    lemma_vals_push, kind_text, text_of, truthy_of, add_of, subtraction_of, multiply_of, divide_of,
    modulo_of, negate_of, integer_of, length_of,
};

verus! {

/// Relies on `rand::thread_rng` and `rand::Rng::gen_range`: a value drawn
/// from the inclusive range `0..=i64::MAX`.
#[verifier::external_body]
fn random_nonnegative() -> (r: i64)
    ensures
        0 <= r,
{
    rand::Rng::gen_range(&mut rand::thread_rng(), 0..=i64::MAX)
}

/// Relies on `str::get` with a byte range: the slice when both ends are in
/// range and on character boundaries, else nothing.
#[verifier::external_body]
fn slice_text(s: &str, start: usize, end: usize) -> (r: Option<String>)
    ensures
        r matches Some(t) ==> byte_slice(s@, start as int, end as int) == Some(t@),
        r is None ==> byte_slice(s@, start as int, end as int) is None,
{
    match s.get(start..end) {
        Some(t) => Some(t.to_string()),
        None => None,
    }
}

/// Bytes `start..start+len` of a text, when they form whole characters.
pub fn substring(s: &str, start: usize, len: usize) -> (r: Option<String>)
    ensures
        start + len > usize::MAX ==> r is None,
        start + len <= usize::MAX ==> (r matches Some(t) ==> byte_slice(
            s@,
            start as int,
            start + len,
        ) == Some(t@)) && (r is None ==> byte_slice(s@, start as int, start + len) is None),
{
    if start > usize::MAX - len {
        return None;
    }
    slice_text(s, start, start + len)
}

/// `Seq` of `n` nulls.
pub open spec fn nulls(n: nat) -> Seq<Val> {
    Seq::new(n, |i: int| Val::Null)
}

/// `insert`: pads the list with null up to `idx`, then inserts `v` there.
pub open spec fn insert_spec(items: Seq<Val>, idx: nat, v: Val) -> Seq<Val> {
    let padded = if idx > items.len() {
        items + nulls((idx - items.len()) as nat)
    } else {
        items
    };
    padded.insert(idx as int, v)
}

/// `==[]`: pads the list with null through `idx`, then stores `v` there.
pub open spec fn store_spec(items: Seq<Val>, idx: nat, v: Val) -> Seq<Val> {
    let padded = if idx >= items.len() {
        items + nulls((idx + 1 - items.len()) as nat)
    } else {
        items
    };
    padded.update(idx as int, v)
}

/// `delete`: removes the element at `idx` when there is one.
pub open spec fn delete_spec(items: Seq<Val>, idx: nat) -> Seq<Val> {
    if idx < items.len() {
        items.remove(idx as int)
    } else {
        items
    }
}

/// The heap with the list behind handle `l` replaced, when there is one.
pub open spec fn with_list_at(h: Heap, l: usize, items: Seq<Val>) -> Heap {
    if l < h.lists.len() {
        Heap { lists: h.lists.update(l as int, items), funcs: h.funcs }
    } else {
        h
    }
}

/// Result of the comparison intrinsics: `~==`, `~!=`, `~<`, `~<=`, `~>`,
/// `~>=`. Incomparable values give false, except for `~!=`.
pub open spec fn relation_of(op: Intrinsic, c: Option<Ordering>) -> bool {
    match c {
        None => op == Intrinsic::NotEqual,
        Some(o) => match op {
            Intrinsic::Equal => o == Ordering::Equal,
            Intrinsic::NotEqual => o != Ordering::Equal,
            Intrinsic::LessThan => o == Ordering::Less,
            Intrinsic::LessThanOrEqual => o != Ordering::Greater,
            Intrinsic::GreaterThan => o == Ordering::Greater,
            _ => o != Ordering::Less,
        },
    }
}

pub fn relation(op: Intrinsic, a: &Value, b: &Value, store: &Store) -> (r: bool)
    ensures
        r == relation_of(op, compare_of(a@, b@, store@, depth_of(store@))),
{
    match a.compare(b, store) {
        None => op == Intrinsic::NotEqual,
        Some(o) => match op {
            Intrinsic::Equal => matches!(o, Ordering::Equal),
            Intrinsic::NotEqual => !matches!(o, Ordering::Equal),
            Intrinsic::LessThan => matches!(o, Ordering::Less),
            Intrinsic::LessThanOrEqual => !matches!(o, Ordering::Greater),
            Intrinsic::GreaterThan => matches!(o, Ordering::Greater),
            _ => !matches!(o, Ordering::Less),
        },
    }
}


/// Intrinsics that take two values and push one.
pub open spec fn is_binary_op(op: Intrinsic) -> bool {
    op == Intrinsic::Equal || op == Intrinsic::NotEqual || op == Intrinsic::LessThan || op
        == Intrinsic::LessThanOrEqual || op == Intrinsic::GreaterThan || op
        == Intrinsic::GreaterThanOrEqual || op == Intrinsic::And || op == Intrinsic::Or || op
        == Intrinsic::Add || op == Intrinsic::Sub || op == Intrinsic::Multiply || op
        == Intrinsic::Divide || op == Intrinsic::Modulo
}

/// What a binary intrinsic pushes for operands `a` (pushed first) and `b`,
/// and the heap after it.
pub open spec fn binary_of(op: Intrinsic, a: Val, b: Val, h: Heap) -> (Val, Heap) {
    if op == Intrinsic::And {
        (Val::Bool(truthy_of(a, h) && truthy_of(b, h)), h)
    } else if op == Intrinsic::Or {
        (Val::Bool(truthy_of(a, h) || truthy_of(b, h)), h)
    } else if op == Intrinsic::Add {
        add_of(a, b, h)
    } else if op == Intrinsic::Sub {
        (subtraction_of(a, b), h)
    } else if op == Intrinsic::Multiply {
        multiply_of(a, b, h)
    } else if op == Intrinsic::Divide {
        (divide_of(a, b), h)
    } else if op == Intrinsic::Modulo {
        (modulo_of(a, b), h)
    } else {
        (Val::Bool(relation_of(op, compare_of(a, b, h, depth_of(h)))), h)
    }
}

/// Intrinsics that take one value and push one.
pub open spec fn is_unary_op(op: Intrinsic) -> bool {
    op == Intrinsic::Negate || op == Intrinsic::Not || op == Intrinsic::Itoa || op
        == Intrinsic::Atoi || op == Intrinsic::Kindof || op == Intrinsic::Length
}

/// What a unary intrinsic pushes for `a`, and the heap after it. `#!` is
/// logical not.
pub open spec fn unary_of(op: Intrinsic, a: Val, h: Heap) -> (Val, Heap) {
    if op == Intrinsic::Negate {
        negate_of(a, h, depth_of(h))
    } else if op == Intrinsic::Not {
        (Val::Bool(!truthy_of(a, h)), h)
    } else if op == Intrinsic::Itoa {
        (Val::Str(text_of(a, h, depth_of(h))), h)
    } else if op == Intrinsic::Atoi {
        (Val::Int(integer_of(a)), h)
    } else if op == Intrinsic::Kindof {
        (Val::Str(kind_text(a)), h)
    } else {
        (Val::Int(length_of(a, h)), h)
    }
}


/// A value as a non-negative index.
pub open spec fn idx_of(i: i64) -> Option<usize> {
    if i < 0 || i > usize::MAX {
        None
    } else {
        Some(i as usize)
    }
}

pub open spec fn with_heap(m: Machine, h: Heap) -> Machine {
    Machine { heap: h, ..m }
}

proof fn lemma_native_binary(m: Machine, op: Intrinsic)
    requires
        is_binary_op(op),
    ensures
        native_spec(m, op) == Some(
            (
                Ok::<(), Stop>(()),
                push_m(
                    with_heap(pop_m(pop_m(m).1).1, binary_of(op, pop_m(pop_m(m).1).0, pop_m(m).0, pop_m(pop_m(m).1).1.heap).1),
                    binary_of(op, pop_m(pop_m(m).1).0, pop_m(m).0, pop_m(pop_m(m).1).1.heap).0,
                ),
            ),
        ),
{
}

/// Effect of a native call on the machine, with its result. `None` for
/// `prompt` and `random`, whose value the host or chance decides.
pub open spec fn native_spec(m: Machine, op: Intrinsic) -> Option<(Result<(), Stop>, Machine)> {
    let (x, m1) = pop_m(m);
    let (y, m2) = pop_m(m1);
    let (z, m3) = pop_m(m2);
    if is_binary_op(op) {
        let (v, h) = binary_of(op, y, x, m2.heap);
        Some((Ok(()), push_m(with_heap(m2, h), v)))
    } else if is_unary_op(op) {
        let (v, h) = unary_of(op, x, m1.heap);
        Some((Ok(()), push_m(with_heap(m1, h), v)))
    } else if op == Intrinsic::Index {
        match idx_of(integer_of(x)) {
            None => Some((Err(Stop::Fault(Fault::BadIndex)), m2)),
            Some(k) => match y {
                Val::List(l) => if k < list_at(m2.heap, l).len() {
                    Some((Ok(()), push_m(m2, list_at(m2.heap, l)[k as int])))
                } else {
                    Some((Err(Stop::Fault(Fault::BadIndex)), m2))
                },
                Val::Str(t) => if k + 1 > usize::MAX {
                    Some((Err(Stop::Fault(Fault::BadIndex)), m2))
                } else {
                    match byte_slice(t, k as int, k + 1) {
                        Some(piece) => Some((Ok(()), push_m(m2, Val::Str(piece)))),
                        None => Some((Err(Stop::Fault(Fault::BadIndex)), m2)),
                    }
                },
                _ => Some((Ok(()), m2)),
            },
        }
    } else if op == Intrinsic::IndexSet || op == Intrinsic::Insert {
        // `==[]` pops index, list, value; `insert` pops value, index, list.
        let (t, i, v) = if op == Intrinsic::IndexSet {
            (y, x, z)
        } else {
            (z, y, x)
        };
        match t {
            Val::List(l) => match idx_of(integer_of(i)) {
                None => Some((Err(Stop::Fault(Fault::BadIndex)), m3)),
                Some(k) => if op == Intrinsic::IndexSet {
                    if k == usize::MAX {
                        Some((Err(Stop::Fault(Fault::BadIndex)), m3))
                    } else {
                        Some((Ok(()), with_heap(m3, with_list_at(m3.heap, l, store_spec(list_at(m3.heap, l), k as nat, v)))))
                    }
                } else {
                    Some((Ok(()), with_heap(m3, with_list_at(m3.heap, l, insert_spec(list_at(m3.heap, l), k as nat, v)))))
                },
            },
            _ => Some((Ok(()), m3)),
        }
    } else if op == Intrinsic::Delete {
        match (y, idx_of(integer_of(x))) {
            (Val::List(l), Some(k)) => Some((Ok(()), with_heap(m2, with_list_at(m2.heap, l, delete_spec(list_at(m2.heap, l), k as nat))))),
            _ => Some((Ok(()), m2)),
        }
    } else if op == Intrinsic::Substr {
        // Pops length, start, then the value whose text is cut.
        match (idx_of(integer_of(x)), idx_of(integer_of(y))) {
            (Some(len), Some(start)) => {
                let text = text_of(z, m3.heap, depth_of(m3.heap));
                if start + len > usize::MAX {
                    Some((Err(Stop::Fault(Fault::BadIndex)), m3))
                } else {
                    match byte_slice(text, start as int, start + len) {
                        Some(piece) => Some((Ok(()), push_m(m3, Val::Str(piece)))),
                        None => Some((Err(Stop::Fault(Fault::BadIndex)), m3)),
                    }
                }
            },
            _ => Some((Err(Stop::Fault(Fault::BadIndex)), m3)),
        }
    } else if op == Intrinsic::Print || op == Intrinsic::Dump {
        Some((Ok(()), m1))
    } else if op == Intrinsic::Exit {
        Some((Err(Stop::Exit(integer_of(x))), m1))
    } else {
        None
    }
}

impl Store {
    /// Takes the list behind `l` out of the store, leaving it empty.
    fn take_list(&mut self, l: usize) -> (r: Vec<Value>)
        requires
            l < old(self).lists@.len(),
        ensures
            vals(r@) == old(self)@.lists[l as int],
            final(self).lists@ == old(self).lists@.update(l as int, final(self).lists@[l as int]),
            final(self).functions == old(self).functions,
    {
        let mut items: Vec<Value> = Vec::new();
        std::mem::swap(&mut items, &mut self.lists[l]);
        items
    }

    fn put_list(&mut self, l: usize, items: Vec<Value>)
        requires
            l < old(self).lists@.len(),
        ensures
            final(self)@ == (Heap {
                lists: old(self)@.lists.update(l as int, vals(items@)),
                funcs: old(self)@.funcs,
            }),
    {
        let ghost v = vals(items@);
        self.lists.set(l, items);
        proof {
            assert(final(self)@.lists =~= old(self)@.lists.update(l as int, v));
        }
    }

    /// Inserts `v` at `idx` in the list behind `l`, padding with null.
    pub fn list_insert(&mut self, l: usize, idx: usize, v: Value)
        ensures
            final(self)@ == with_list_at(old(self)@, l, insert_spec(list_at(old(self)@, l), idx as nat, v@)),
    {
        if l >= self.lists.len() {
            return;
        }
        let mut items = self.take_list(l);
        let ghost xs = vals(items@);
        while items.len() < idx
            invariant
                items@.len() <= idx || vals(items@) == xs,
                items@.len() >= xs.len(),
                vals(items@) == xs + nulls((items@.len() - xs.len()) as nat),
            decreases idx - items@.len(),
        {
            proof {
                lemma_vals_push(items@, Value::Null);
            }
            items.push(Value::Null);
            proof {
                assert(vals(items@) =~= xs + nulls((items@.len() - xs.len()) as nat));
            }
        }
        let ghost padded = vals(items@);
        proof {
            if idx <= xs.len() {
                assert(padded =~= xs);
            }
        }
        let ghost vv = v@;
        items.insert(idx, v);
        proof {
            assert(vals(items@) =~= padded.insert(idx as int, vv));
        }
        self.put_list(l, items);
        proof {
            assert(final(self)@.lists =~= old(self)@.lists.update(l as int, insert_spec(xs, idx as nat, vv)));
        }
    }

    /// Stores `v` at `idx` in the list behind `l`, padding with null.
    pub fn list_store(&mut self, l: usize, idx: usize, v: Value)
        requires
            idx < usize::MAX,
        ensures
            final(self)@ == with_list_at(old(self)@, l, store_spec(list_at(old(self)@, l), idx as nat, v@)),
    {
        if l >= self.lists.len() {
            return;
        }
        let mut items = self.take_list(l);
        let ghost xs = vals(items@);
        while items.len() <= idx
            invariant
                idx < usize::MAX,
                items@.len() <= idx + 1 || vals(items@) == xs,
                items@.len() >= xs.len(),
                vals(items@) == xs + nulls((items@.len() - xs.len()) as nat),
            decreases idx + 1 - items@.len(),
        {
            proof {
                lemma_vals_push(items@, Value::Null);
            }
            items.push(Value::Null);
            proof {
                assert(vals(items@) =~= xs + nulls((items@.len() - xs.len()) as nat));
            }
        }
        let ghost padded = vals(items@);
        proof {
            if idx < xs.len() {
                assert(padded =~= xs);
            }
        }
        let ghost vv = v@;
        items.set(idx, v);
        proof {
            assert(vals(items@) =~= padded.update(idx as int, vv));
        }
        self.put_list(l, items);
        proof {
            assert(final(self)@.lists =~= old(self)@.lists.update(l as int, store_spec(xs, idx as nat, vv)));
        }
    }

    /// Removes the element at `idx` of the list behind `l`, when there is one.
    pub fn list_delete(&mut self, l: usize, idx: usize)
        ensures
            final(self)@ == with_list_at(old(self)@, l, delete_spec(list_at(old(self)@, l), idx as nat)),
    {
        if l >= self.lists.len() {
            return;
        }
        let mut items = self.take_list(l);
        let ghost xs = vals(items@);
        if idx < items.len() {
            items.remove(idx);
            proof {
                assert(vals(items@) =~= xs.remove(idx as int));
            }
        }
        self.put_list(l, items);
        proof {
            assert(final(self)@.lists =~= old(self)@.lists.update(l as int, delete_spec(xs, idx as nat)));
        }
    }

    /// Element `idx` of the list behind `l`.
    pub fn list_get(&self, l: usize, idx: usize) -> (r: Option<Value>)
        ensures
            idx < list_at(self@, l).len() ==> (r matches Some(v) && v@ == list_at(self@, l)[idx as int]),
            idx >= list_at(self@, l).len() ==> r is None,
    {
        if l < self.lists.len() && idx < self.lists[l].len() {
            Some(self.lists[l][idx].duplicate())
        } else {
            None
        }
    }
}

/// A value as a non-negative index; negative ones are rejected.
fn as_index(i: i64) -> (r: Option<usize>)
    ensures
        r == idx_of(i),
{
    if i < 0 {
        None
    } else if (i as u64) > usize::MAX as u64 {
        None
    } else {
        Some(i as usize)
    }
}

/// Text `dump` writes for a value: its kind and its text.
pub open spec fn dump_text(v: Val, h: Heap) -> Seq<char> {
    kind_text(v) + "("@ + text_of(v, h, depth_of(h)) + ")\n"@
}

fn dump_string(v: &Value, store: &Store) -> (r: String)
    ensures
        r@ == dump_text(v@, store@),
{
    let k = v.kindof();
    let mut s = match k {
        Value::String(t) => t,
        _ => String::new(),
    };
    crate::text::push_text(&mut s, "(");
    let t = v.to_string(store);
    crate::text::push_text(&mut s, t.as_str());
    crate::text::push_text(&mut s, ")\n");
    s
}

/// The registry name the front end calls an intrinsic by.
pub open spec fn intrinsic_name(op: Intrinsic) -> Seq<char> {
    match op {
        Intrinsic::IndexSet => "==[]"@,
        Intrinsic::Equal => "~=="@,
        Intrinsic::NotEqual => "~!="@,
        Intrinsic::LessThan => "~<"@,
        Intrinsic::LessThanOrEqual => "~<="@,
        Intrinsic::GreaterThan => "~>"@,
        Intrinsic::GreaterThanOrEqual => "~>="@,
        Intrinsic::And => "~&&"@,
        Intrinsic::Or => "~||"@,
        Intrinsic::Add => "~+"@,
        Intrinsic::Sub => "~-"@,
        Intrinsic::Multiply => "~*"@,
        Intrinsic::Divide => "~/"@,
        Intrinsic::Modulo => "~%"@,
        Intrinsic::Index => "~[]"@,
        Intrinsic::Negate => "#-"@,
        Intrinsic::Not => "#!"@,
        Intrinsic::Print => "print"@,
        Intrinsic::Exit => "exit"@,
        Intrinsic::Itoa => "itoa"@,
        Intrinsic::Atoi => "atoi"@,
        Intrinsic::Kindof => "kindof"@,
        Intrinsic::Length => "length"@,
        Intrinsic::Insert => "insert"@,
        Intrinsic::Prompt => "prompt"@,
        Intrinsic::Delete => "delete"@,
        Intrinsic::Random => "random"@,
        Intrinsic::Substr => "substr"@,
        Intrinsic::Dump => "dump"@,
    }
}

/// How many values an intrinsic takes from the stack.
pub open spec fn intrinsic_arity(op: Intrinsic) -> u64 {
    match op {
        Intrinsic::IndexSet | Intrinsic::Insert | Intrinsic::Substr => 3,
        Intrinsic::Negate | Intrinsic::Not | Intrinsic::Print | Intrinsic::Exit
        | Intrinsic::Itoa | Intrinsic::Atoi | Intrinsic::Kindof | Intrinsic::Length
        | Intrinsic::Dump => 1,
        Intrinsic::Prompt | Intrinsic::Random => 0,
        _ => 2,
    }
}

impl Intrinsic {
    pub fn name(&self) -> (r: &'static str)
        ensures
            r@ == intrinsic_name(*self),
    {
        match self {
            Intrinsic::IndexSet => "==[]",
            Intrinsic::Equal => "~==",
            Intrinsic::NotEqual => "~!=",
            Intrinsic::LessThan => "~<",
            Intrinsic::LessThanOrEqual => "~<=",
            Intrinsic::GreaterThan => "~>",
            Intrinsic::GreaterThanOrEqual => "~>=",
            Intrinsic::And => "~&&",
            Intrinsic::Or => "~||",
            Intrinsic::Add => "~+",
            Intrinsic::Sub => "~-",
            Intrinsic::Multiply => "~*",
            Intrinsic::Divide => "~/",
            Intrinsic::Modulo => "~%",
            Intrinsic::Index => "~[]",
            Intrinsic::Negate => "#-",
            Intrinsic::Not => "#!",
            Intrinsic::Print => "print",
            Intrinsic::Exit => "exit",
            Intrinsic::Itoa => "itoa",
            Intrinsic::Atoi => "atoi",
            Intrinsic::Kindof => "kindof",
            Intrinsic::Length => "length",
            Intrinsic::Insert => "insert",
            Intrinsic::Prompt => "prompt",
            Intrinsic::Delete => "delete",
            Intrinsic::Random => "random",
            Intrinsic::Substr => "substr",
            Intrinsic::Dump => "dump",
        }
    }

    pub fn arity(&self) -> (r: u64)
        ensures
            r == intrinsic_arity(*self),
    {
        match self {
            Intrinsic::IndexSet | Intrinsic::Insert | Intrinsic::Substr => 3,
            Intrinsic::Negate | Intrinsic::Not | Intrinsic::Print | Intrinsic::Exit
            | Intrinsic::Itoa | Intrinsic::Atoi | Intrinsic::Kindof | Intrinsic::Length
            | Intrinsic::Dump => 1,
            Intrinsic::Prompt | Intrinsic::Random => 0,
            _ => 2,
        }
    }

    /// The registry entry of the intrinsic.
    pub fn native(&self) -> (r: NativeFunction)
        ensures
            r.op == *self,
            r.arity == intrinsic_arity(*self),
            r.name@ == intrinsic_name(*self),
    {
        NativeFunction { name: self.name().to_owned(), arity: self.arity(), op: *self }
    }
}

/// `op` has an entry among `fs`.
pub open spec fn listed(fs: Seq<NativeFunction>, op: Intrinsic) -> bool {
    exists|i: int| 0 <= i < fs.len() && #[trigger] fs[i].op == op
}

/// Every intrinsic, as the registry is set up with it.
pub fn intrinsics() -> (r: Vec<NativeFunction>)
    ensures
        r@.len() == 29,
        forall|i: int|
            0 <= i < 29 ==> (#[trigger] r@[i]).name@ == intrinsic_name(r@[i].op) && r@[i].arity
                == intrinsic_arity(r@[i].op),
        forall|op: Intrinsic| #[trigger] listed(r@, op),
{
    let all = [
        Intrinsic::IndexSet,
        Intrinsic::Equal,
        Intrinsic::NotEqual,
        Intrinsic::LessThan,
        Intrinsic::LessThanOrEqual,
        Intrinsic::GreaterThan,
        Intrinsic::GreaterThanOrEqual,
        Intrinsic::And,
        Intrinsic::Or,
        Intrinsic::Add,
        Intrinsic::Sub,
        Intrinsic::Multiply,
        Intrinsic::Divide,
        Intrinsic::Modulo,
        Intrinsic::Index,
        Intrinsic::Negate,
        Intrinsic::Not,
        Intrinsic::Print,
        Intrinsic::Exit,
        Intrinsic::Itoa,
        Intrinsic::Atoi,
        Intrinsic::Kindof,
        Intrinsic::Length,
        Intrinsic::Insert,
        Intrinsic::Prompt,
        Intrinsic::Delete,
        Intrinsic::Random,
        Intrinsic::Substr,
        Intrinsic::Dump,
    ];
    let mut r: Vec<NativeFunction> = Vec::new();
    let mut i: usize = 0;
    while i < 29
        invariant
            i <= 29,
            r@.len() == i,
            all@.len() == 29,
            forall|j: int| 0 <= j < i ==> #[trigger] r@[j].op == all@[j],
            forall|j: int|
                0 <= j < i ==> (#[trigger] r@[j]).name@ == intrinsic_name(r@[j].op) && r@[j].arity
                    == intrinsic_arity(r@[j].op),
        decreases 29 - i,
    {
        r.push(all[i].native());
        i = i + 1;
    }
    proof {
        assert forall|op: Intrinsic| #[trigger] listed(r@, op) by {
            let k: int = match op {
                Intrinsic::IndexSet => 0,
                Intrinsic::Equal => 1,
                Intrinsic::NotEqual => 2,
                Intrinsic::LessThan => 3,
                Intrinsic::LessThanOrEqual => 4,
                Intrinsic::GreaterThan => 5,
                Intrinsic::GreaterThanOrEqual => 6,
                Intrinsic::And => 7,
                Intrinsic::Or => 8,
                Intrinsic::Add => 9,
                Intrinsic::Sub => 10,
                Intrinsic::Multiply => 11,
                Intrinsic::Divide => 12,
                Intrinsic::Modulo => 13,
                Intrinsic::Index => 14,
                Intrinsic::Negate => 15,
                Intrinsic::Not => 16,
                Intrinsic::Print => 17,
                Intrinsic::Exit => 18,
                Intrinsic::Itoa => 19,
                Intrinsic::Atoi => 20,
                Intrinsic::Kindof => 21,
                Intrinsic::Length => 22,
                Intrinsic::Insert => 23,
                Intrinsic::Prompt => 24,
                Intrinsic::Delete => 25,
                Intrinsic::Random => 26,
                Intrinsic::Substr => 27,
                Intrinsic::Dump => 28,
            };
            assert(r@[k].op == op);
        }
    }
    r
}

impl Runtime {
    /// Comparisons, logic and arithmetic: two values in, one out.
    #[verifier::rlimit(80)]
    fn binary_native(&mut self, op: Intrinsic) -> (r: Result<(), Stop>)
        requires
            old(self).wf(),
            is_binary_op(op),
        ensures
            native_spec(old(self).machine(), op) matches Some(p) ==> r == p.0 && final(self).machine()
                == p.1,
            old(self).keeps_frame(final(self)),
            is_binary_op(op) && old(self).value_stack@.len() >= old(self).floor() + 2 ==> ({
                let n = old(self).stack().len();
                let (v, h) = binary_of(
                    op,
                    old(self).stack()[n - 2],
                    old(self).stack()[n - 1],
                    old(self).store@,
                );
                &&& r is Ok
                &&& final(self).stack() == old(self).stack().take(n - 2).push(v)
                &&& final(self).store@ == h
                &&& final(self).globals == old(self).globals
            }),
    {
        proof {
            lemma_native_binary(self.machine(), op);
        }
        let ghost s0 = *self;
        match op {
            Intrinsic::Equal | Intrinsic::NotEqual | Intrinsic::LessThan | Intrinsic::LessThanOrEqual
            | Intrinsic::GreaterThan | Intrinsic::GreaterThanOrEqual => {
                let b = self.pop_value_from_stack();
                let ghost s1 = *self;
                let a = self.pop_value_from_stack();
                let ghost s2 = *self;
                let r = relation(op, &a, &b, &self.store);
                self.push_value_to_stack(Value::Boolean(r));
                proof {
                    crate::exec::lemma_keeps_trans(&s0, &s1, &s2);
                    crate::exec::lemma_keeps_trans(&s0, &s2, self);
                }
            },
            Intrinsic::And | Intrinsic::Or => {
                let b = self.pop_value_from_stack();
                let ghost s1 = *self;
                let a = self.pop_value_from_stack();
                let ghost s2 = *self;
                let x = a.truthy(&self.store);
                let y = b.truthy(&self.store);
                let r = if op == Intrinsic::And {
                    x && y
                } else {
                    x || y
                };
                self.push_value_to_stack(Value::Boolean(r));
                proof {
                    crate::exec::lemma_keeps_trans(&s0, &s1, &s2);
                    crate::exec::lemma_keeps_trans(&s0, &s2, self);
                }
            },
            Intrinsic::Add | Intrinsic::Sub | Intrinsic::Multiply | Intrinsic::Divide
            | Intrinsic::Modulo => {
                let b = self.pop_value_from_stack();
                let ghost s1 = *self;
                let a = self.pop_value_from_stack();
                let ghost s2 = *self;
                let mut store = Store { lists: Vec::new(), functions: Vec::new() };
                std::mem::swap(&mut store, &mut self.store);
                let r = if op == Intrinsic::Add {
                    a.add(&b, &mut store)
                } else if op == Intrinsic::Sub {
                    a.subtraction(&b)
                } else if op == Intrinsic::Multiply {
                    a.multiply(&b, &mut store)
                } else if op == Intrinsic::Divide {
                    a.divide(&b)
                } else {
                    a.modulo(&b)
                };
                proof {
                    assert(store.lists@.len() >= s2.store.lists@.len()) by {
                        assert(store@.lists.len() == store.lists@.len());
                        assert(s2.store@.lists.len() == s2.store.lists@.len());
                    }
                }
                self.store = store;
                let ghost s3 = *self;
                proof {
                    assert(s3.value_stack@.take(s3.floor() as int) =~= s2.value_stack@.take(
                        s2.floor() as int,
                    ));
                }
                self.push_value_to_stack(r);
                proof {
                    crate::exec::lemma_keeps_trans(&s0, &s1, &s2);
                    crate::exec::lemma_keeps_trans(&s0, &s2, &s3);
                    crate::exec::lemma_keeps_trans(&s0, &s3, self);
                }
            },
            _ => {},
        }
        Ok(())
    }

    /// Negation, logical not and the conversions: one value in, one out.
    fn unary_native(&mut self, op: Intrinsic) -> (r: Result<(), Stop>)
        requires
            old(self).wf(),
            is_unary_op(op),
        ensures
            native_spec(old(self).machine(), op) matches Some(p) ==> r == p.0 && final(self).machine()
                == p.1,
            old(self).keeps_frame(final(self)),
            is_unary_op(op) && old(self).value_stack@.len() >= old(self).floor() + 1 ==> ({
                let n = old(self).stack().len();
                let (v, h) = unary_of(op, old(self).stack()[n - 1], old(self).store@);
                &&& r is Ok
                &&& final(self).stack() == old(self).stack().take(n - 1).push(v)
                &&& final(self).store@ == h
                &&& final(self).globals == old(self).globals
            }),
    {
        let ghost s0 = *self;
        match op {
            Intrinsic::Negate | Intrinsic::Not | Intrinsic::Itoa | Intrinsic::Atoi
            | Intrinsic::Kindof | Intrinsic::Length => {
                let a = self.pop_value_from_stack();
                let ghost s1 = *self;
                let r = if op == Intrinsic::Negate {
                    let mut store = Store { lists: Vec::new(), functions: Vec::new() };
                    std::mem::swap(&mut store, &mut self.store);
                    let r = a.negate(&mut store);
                    proof {
                        assert(store@.lists.len() == store.lists@.len());
                        assert(s1.store@.lists.len() == s1.store.lists@.len());
                    }
                    self.store = store;
                    proof {
                        assert(self.value_stack@.take(self.floor() as int) =~= s1.value_stack@.take(
                            s1.floor() as int,
                        ));
                        assert(s1.keeps_frame(self));
                    }
                    r
                } else if op == Intrinsic::Not {
                    Value::Boolean(!a.truthy(&self.store))
                } else if op == Intrinsic::Itoa {
                    Value::String(a.to_string(&self.store))
                } else if op == Intrinsic::Atoi {
                    Value::Integer(a.to_integer())
                } else if op == Intrinsic::Kindof {
                    a.kindof()
                } else {
                    a.length(&self.store)
                };
                let ghost s2 = *self;
                self.push_value_to_stack(r);
                proof {
                    lemma_keeps_refl(&s1);
                    crate::exec::lemma_keeps_trans(&s0, &s1, &s2);
                    crate::exec::lemma_keeps_trans(&s0, &s2, self);
                }
            },
            _ => {},
        }
        Ok(())
    }

    /// `~[]`: an element of a list, or one byte of a string.
    fn index_native(&mut self, op: Intrinsic) -> (r: Result<(), Stop>)
        requires
            old(self).wf(),
            op == Intrinsic::Index,
        ensures
            native_spec(old(self).machine(), op) matches Some(p) ==> r == p.0 && final(self).machine()
                == p.1,
            old(self).keeps_frame(final(self)),
            op == Intrinsic::Index && old(self).value_stack@.len() >= old(self).floor() + 2 ==> ({
                let n = old(self).stack().len();
                let t = old(self).stack()[n - 2];
                let i = integer_of(old(self).stack()[n - 1]);
                let items = list_at(old(self).store@, t->List_0);
                &&& t is List && 0 <= i < items.len() && i <= usize::MAX ==> r is Ok
                    && final(self).stack() == old(self).stack().take(n - 2).push(items[i as int])
                &&& t is List && (i < 0 || (i <= usize::MAX && i >= items.len())) ==> r
                    == Err::<(), Stop>(Stop::Fault(Fault::BadIndex))
                &&& final(self).store@ == old(self).store@
            }),
    {
        let ghost s0 = *self;
        match op {
            Intrinsic::Index => {
                let i = self.pop_value_from_stack();
                let ghost s1 = *self;
                let c = self.pop_value_from_stack();
                let ghost s2 = *self;
                proof {
                    crate::exec::lemma_keeps_trans(&s0, &s1, &s2);
                }
                let idx = match as_index(i.to_integer()) {
                    Some(x) => x,
                    None => {
                        return Err(Stop::Fault(Fault::BadIndex));
                    },
                };
                match c {
                    Value::List(l) => match self.store.list_get(l, idx) {
                        Some(v) => {
                            self.push_value_to_stack(v);
                            proof {
                                crate::exec::lemma_keeps_trans(&s0, &s2, self);
                            }
                        },
                        None => {
                            return Err(Stop::Fault(Fault::BadIndex));
                        },
                    },
                    Value::String(t) => match substring(t.as_str(), idx, 1) {
                        Some(piece) => {
                            self.push_value_to_stack(Value::String(piece));
                            proof {
                                crate::exec::lemma_keeps_trans(&s0, &s2, self);
                            }
                        },
                        None => {
                            return Err(Stop::Fault(Fault::BadIndex));
                        },
                    },
                    _ => {},
                }
            },
            _ => {},
        }
        Ok(())
    }

    /// `==[]` and `insert`: writes into a list through its handle.
    fn store_native(&mut self, op: Intrinsic) -> (r: Result<(), Stop>)
        requires
            old(self).wf(),
            op == Intrinsic::IndexSet || op == Intrinsic::Insert,
        ensures
            native_spec(old(self).machine(), op) matches Some(p) ==> r == p.0 && final(self).machine()
                == p.1,
            old(self).keeps_frame(final(self)),
            op == Intrinsic::Insert && old(self).value_stack@.len() >= old(self).floor() + 3 ==> ({
                let n = old(self).stack().len();
                let t = old(self).stack()[n - 3];
                let i = integer_of(old(self).stack()[n - 2]);
                let v = old(self).stack()[n - 1];
                &&& final(self).stack() == old(self).stack().take(n - 3)
                &&& t is List && i < 0 ==> r == Err::<(), Stop>(Stop::Fault(Fault::BadIndex))
                &&& t is List && i >= 0 && i <= usize::MAX ==> r is Ok && final(self).store@
                    == with_list_at(
                    old(self).store@,
                    t->List_0,
                    insert_spec(list_at(old(self).store@, t->List_0), i as nat, v),
                )
                &&& !(t is List) ==> r is Ok && final(self).store@ == old(self).store@
            }),
            op == Intrinsic::IndexSet && old(self).value_stack@.len() >= old(self).floor() + 3 ==> ({
                let n = old(self).stack().len();
                let v = old(self).stack()[n - 3];
                let t = old(self).stack()[n - 2];
                let i = integer_of(old(self).stack()[n - 1]);
                &&& final(self).stack() == old(self).stack().take(n - 3)
                &&& t is List && i < 0 ==> r == Err::<(), Stop>(Stop::Fault(Fault::BadIndex))
                &&& t is List && i >= 0 && i < usize::MAX ==> r is Ok && final(self).store@
                    == with_list_at(
                    old(self).store@,
                    t->List_0,
                    store_spec(list_at(old(self).store@, t->List_0), i as nat, v),
                )
                &&& !(t is List) ==> r is Ok && final(self).store@ == old(self).store@
            }),
    {
        let ghost s0 = *self;
        match op {
            Intrinsic::IndexSet | Intrinsic::Insert => {
                let (target, idx, value) = if op == Intrinsic::IndexSet {
                    let i = self.pop_value_from_stack();
                    let t = self.pop_value_from_stack();
                    let v = self.pop_value_from_stack();
                    (t, i, v)
                } else {
                    let v = self.pop_value_from_stack();
                    let i = self.pop_value_from_stack();
                    let t = self.pop_value_from_stack();
                    (t, i, v)
                };
                let ghost s1 = *self;
                proof {
                    assert(s0.keeps_frame(&s1));
                }
                match target {
                    Value::List(l) => {
                        let k = match as_index(idx.to_integer()) {
                            Some(x) => x,
                            None => {
                                return Err(Stop::Fault(Fault::BadIndex));
                            },
                        };
                        if op == Intrinsic::IndexSet {
                            if k == usize::MAX {
                                return Err(Stop::Fault(Fault::BadIndex));
                            }
                            self.store.list_store(l, k, value);
                        } else {
                            self.store.list_insert(l, k, value);
                        }
                        proof {
                            assert(self.store@.lists.len() == self.store.lists@.len());
                            assert(s1.store@.lists.len() == s1.store.lists@.len());
                            assert(s1.keeps_frame(self));
                        }
                    },
                    _ => {},
                }
            },
            _ => {},
        }
        Ok(())
    }

    /// `delete`: removes an element of a list through its handle.
    fn delete_native(&mut self, op: Intrinsic) -> (r: Result<(), Stop>)
        requires
            old(self).wf(),
            op == Intrinsic::Delete,
        ensures
            native_spec(old(self).machine(), op) matches Some(p) ==> r == p.0 && final(self).machine()
                == p.1,
            old(self).keeps_frame(final(self)),
            op == Intrinsic::Delete && old(self).value_stack@.len() >= old(self).floor() + 2 ==> ({
                let n = old(self).stack().len();
                let t = old(self).stack()[n - 2];
                let i = integer_of(old(self).stack()[n - 1]);
                &&& r is Ok
                &&& final(self).stack() == old(self).stack().take(n - 2)
                &&& t is List && i >= 0 && i <= usize::MAX ==> final(self).store@ == with_list_at(
                    old(self).store@,
                    t->List_0,
                    delete_spec(list_at(old(self).store@, t->List_0), i as nat),
                )
                &&& !(t is List && i >= 0) ==> final(self).store@ == old(self).store@
            }),

    {
        let ghost s0 = *self;
        match op {
            Intrinsic::Delete => {
                let i = self.pop_value_from_stack();
                let ghost s1 = *self;
                let t = self.pop_value_from_stack();
                let ghost s2 = *self;
                proof {
                    crate::exec::lemma_keeps_trans(&s0, &s1, &s2);
                }
                match t {
                    Value::List(l) => {
                        match as_index(i.to_integer()) {
                            Some(k) => {
                                self.store.list_delete(l, k);
                                proof {
                                    assert(self.store@.lists.len() == self.store.lists@.len());
                                    assert(s2.store@.lists.len() == s2.store.lists@.len());
                                    assert(s2.keeps_frame(self));
                                }
                            },
                            None => {},
                        }
                    },
                    _ => {},
                }
            },
            _ => {},
        }
        Ok(())
    }

    /// `substr`: bytes of a string's text.
    fn substr_native(&mut self, op: Intrinsic) -> (r: Result<(), Stop>)
        requires
            old(self).wf(),
            op == Intrinsic::Substr,
        ensures
            native_spec(old(self).machine(), op) matches Some(p) ==> r == p.0 && final(self).machine()
                == p.1,
            old(self).keeps_frame(final(self)),

    {
        let ghost s0 = *self;
        match op {
            Intrinsic::Substr => {
                let n = self.pop_value_from_stack();
                let st = self.pop_value_from_stack();
                let t = self.pop_value_from_stack();
                let ghost s1 = *self;
                let len = match as_index(n.to_integer()) {
                    Some(x) => x,
                    None => {
                        return Err(Stop::Fault(Fault::BadIndex));
                    },
                };
                let start = match as_index(st.to_integer()) {
                    Some(x) => x,
                    None => {
                        return Err(Stop::Fault(Fault::BadIndex));
                    },
                };
                let text = t.to_string(&self.store);
                match substring(text.as_str(), start, len) {
                    Some(piece) => {
                        self.push_value_to_stack(Value::String(piece));
                        proof {
                            crate::exec::lemma_keeps_trans(&s0, &s1, self);
                        }
                    },
                    None => {
                        return Err(Stop::Fault(Fault::BadIndex));
                    },
                }
            },
            _ => {},
        }
        Ok(())
    }

    /// Runs an intrinsic against the value stack.
    pub fn call_native<H: Host>(&mut self, host: &mut H, op: Intrinsic) -> (r: Result<(), Stop>)
        requires
            old(self).wf(),
        ensures
            op == Intrinsic::Prompt ==> r is Ok && (final(self).machine().stack.last() is Str
                && final(self).machine() == push_m(old(self).machine(), final(self).machine().stack.last())),
            op == Intrinsic::Random ==> r is Ok && (final(self).machine().stack.last() matches Val::Int(v) && v >= 0
                && final(self).machine() == push_m(old(self).machine(), final(self).machine().stack.last())),
            native_spec(old(self).machine(), op) matches Some(p) ==> r == p.0 && final(self).machine()
                == p.1,
            old(self).keeps_frame(final(self)),
            is_binary_op(op) && old(self).value_stack@.len() >= old(self).floor() + 2 ==> ({
                let n = old(self).stack().len();
                let (v, h) = binary_of(
                    op,
                    old(self).stack()[n - 2],
                    old(self).stack()[n - 1],
                    old(self).store@,
                );
                &&& r is Ok
                &&& final(self).stack() == old(self).stack().take(n - 2).push(v)
                &&& final(self).store@ == h
                &&& final(self).globals == old(self).globals
            }),
            is_unary_op(op) && old(self).value_stack@.len() >= old(self).floor() + 1 ==> ({
                let n = old(self).stack().len();
                let (v, h) = unary_of(op, old(self).stack()[n - 1], old(self).store@);
                &&& r is Ok
                &&& final(self).stack() == old(self).stack().take(n - 1).push(v)
                &&& final(self).store@ == h
                &&& final(self).globals == old(self).globals
            }),
            op == Intrinsic::Index && old(self).value_stack@.len() >= old(self).floor() + 2 ==> ({
                let n = old(self).stack().len();
                let t = old(self).stack()[n - 2];
                let i = integer_of(old(self).stack()[n - 1]);
                let items = list_at(old(self).store@, t->List_0);
                &&& t is List && 0 <= i < items.len() && i <= usize::MAX ==> r is Ok
                    && final(self).stack() == old(self).stack().take(n - 2).push(items[i as int])
                &&& t is List && (i < 0 || (i <= usize::MAX && i >= items.len())) ==> r
                    == Err::<(), Stop>(Stop::Fault(Fault::BadIndex))
                &&& final(self).store@ == old(self).store@
            }),
            op == Intrinsic::Random ==> r is Ok && final(self).stack().drop_last() == old(self).stack()
                && (final(self).stack().last() matches Val::Int(x) && x >= 0),
            op == Intrinsic::Prompt ==> r is Ok && final(self).stack().drop_last() == old(self).stack()
                && final(self).stack().last() is Str,
            op == Intrinsic::Print && old(self).value_stack@.len() >= old(self).floor() + 1 ==> r is Ok
                && final(self).stack() == old(self).stack().drop_last() && final(self).store@ == old(
                self,
            ).store@,
            op == Intrinsic::Exit && old(self).value_stack@.len() >= old(self).floor() + 1 ==> r
                == Err::<(), Stop>(Stop::Exit(integer_of(old(self).stack().last()))),
            op == Intrinsic::Insert && old(self).value_stack@.len() >= old(self).floor() + 3 ==> ({
                let n = old(self).stack().len();
                let t = old(self).stack()[n - 3];
                let i = integer_of(old(self).stack()[n - 2]);
                let v = old(self).stack()[n - 1];
                &&& final(self).stack() == old(self).stack().take(n - 3)
                &&& t is List && i < 0 ==> r == Err::<(), Stop>(Stop::Fault(Fault::BadIndex))
                &&& t is List && i >= 0 && i <= usize::MAX ==> r is Ok && final(self).store@
                    == with_list_at(
                    old(self).store@,
                    t->List_0,
                    insert_spec(list_at(old(self).store@, t->List_0), i as nat, v),
                )
                &&& !(t is List) ==> r is Ok && final(self).store@ == old(self).store@
            }),
            op == Intrinsic::IndexSet && old(self).value_stack@.len() >= old(self).floor() + 3 ==> ({
                let n = old(self).stack().len();
                let v = old(self).stack()[n - 3];
                let t = old(self).stack()[n - 2];
                let i = integer_of(old(self).stack()[n - 1]);
                &&& final(self).stack() == old(self).stack().take(n - 3)
                &&& t is List && i < 0 ==> r == Err::<(), Stop>(Stop::Fault(Fault::BadIndex))
                &&& t is List && i >= 0 && i < usize::MAX ==> r is Ok && final(self).store@
                    == with_list_at(
                    old(self).store@,
                    t->List_0,
                    store_spec(list_at(old(self).store@, t->List_0), i as nat, v),
                )
                &&& !(t is List) ==> r is Ok && final(self).store@ == old(self).store@
            }),
            op == Intrinsic::Delete && old(self).value_stack@.len() >= old(self).floor() + 2 ==> ({
                let n = old(self).stack().len();
                let t = old(self).stack()[n - 2];
                let i = integer_of(old(self).stack()[n - 1]);
                &&& r is Ok
                &&& final(self).stack() == old(self).stack().take(n - 2)
                &&& t is List && i >= 0 && i <= usize::MAX ==> final(self).store@ == with_list_at(
                    old(self).store@,
                    t->List_0,
                    delete_spec(list_at(old(self).store@, t->List_0), i as nat),
                )
                &&& !(t is List && i >= 0) ==> final(self).store@ == old(self).store@
            }),
    {
        let ghost s0 = *self;
        match op {
            Intrinsic::Equal | Intrinsic::NotEqual | Intrinsic::LessThan | Intrinsic::LessThanOrEqual
            | Intrinsic::GreaterThan | Intrinsic::GreaterThanOrEqual | Intrinsic::And
            | Intrinsic::Or | Intrinsic::Add | Intrinsic::Sub | Intrinsic::Multiply
            | Intrinsic::Divide | Intrinsic::Modulo => {
                return self.binary_native(op);
            },
            Intrinsic::Negate | Intrinsic::Not | Intrinsic::Itoa | Intrinsic::Atoi
            | Intrinsic::Kindof | Intrinsic::Length => {
                return self.unary_native(op);
            },
            Intrinsic::Index => {
                return self.index_native(op);
            },
            Intrinsic::IndexSet | Intrinsic::Insert => {
                return self.store_native(op);
            },
            Intrinsic::Delete => {
                return self.delete_native(op);
            },
            Intrinsic::Substr => {
                return self.substr_native(op);
            },
            Intrinsic::Print | Intrinsic::Dump => {
                let a = self.pop_value_from_stack();
                let text = if op == Intrinsic::Print {
                    a.to_string(&self.store)
                } else {
                    dump_string(&a, &self.store)
                };
                host.write_text(text.as_str());
            },
            Intrinsic::Prompt => {
                let line = host.read_line();
                self.push_value_to_stack(Value::String(line));
            },
            Intrinsic::Exit => {
                let a = self.pop_value_from_stack();
                return Err(Stop::Exit(a.to_integer()));
            },
            Intrinsic::Random => {
                let r = random_nonnegative();
                self.push_value_to_stack(Value::Integer(r));
            },
        }
        Ok(())
    }
}

} // verus!
