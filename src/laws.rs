//! Properties that relate several operations, stated over the models and
//! proved.
use vstd::prelude::*;
use crate::fold::{Fold, fold_from, fold_run, fold_step};
use crate::instruction::Insn;
use crate::intrinsics::{insert_spec, with_list_at};
use crate::runtime::{
    assign_spec, declare_spec, find_global, first_global, get_free_spec, lookup_function,
};
use crate::value::{
    FnModel, Heap, Val, add_of, divide_of, length_of, list_at, modulo_of, multiply_of, new_list,
    repeat, subtraction_of, with_list,
};

verus! {

/// A value whose handles name entries of the heap.
pub open spec fn valid(v: Val, h: Heap) -> bool {
    match v {
        Val::List(l) => l < h.lists.len(),
        Val::Func(f) => f < h.funcs.len(),
        _ => true,
    }
}

/// Every element of every list is valid.
pub open spec fn heap_ok(h: Heap) -> bool {
    forall|i: int, j: int|
        0 <= i < h.lists.len() && 0 <= j < h.lists[i].len() ==> valid(#[trigger] h.lists[i][j], h)
}

/// `h2` keeps every entry of `h` and may add more.
pub open spec fn extends(h: Heap, h2: Heap) -> bool {
    &&& h.lists.len() <= h2.lists.len()
    &&& h2.lists.take(h.lists.len() as int) == h.lists
    &&& h2.funcs == h.funcs
}

proof fn lemma_new_list_ok(h: Heap, items: Seq<Val>)
    requires
        heap_ok(h),
        forall|j: int| 0 <= j < items.len() ==> valid(#[trigger] items[j], h),
    ensures
        heap_ok(new_list(h, items).1),
        valid(new_list(h, items).0, new_list(h, items).1),
        extends(h, new_list(h, items).1),
{
    let h2 = with_list(h, items);
    assert(h2.lists.take(h.lists.len() as int) =~= h.lists);
    assert forall|i: int, j: int|
        0 <= i < h2.lists.len() && 0 <= j < h2.lists[i].len() implies valid(
        #[trigger] h2.lists[i][j],
        h2,
    ) by {
        if i < h.lists.len() {
            assert(h2.lists[i] == h.lists[i]);
            assert(valid(h.lists[i][j], h));
        } else {
            assert(h2.lists[i] == items);
        }
    }
}

proof fn lemma_list_items_valid(h: Heap, l: usize)
    requires
        heap_ok(h),
    ensures
        forall|j: int| 0 <= j < list_at(h, l).len() ==> valid(#[trigger] list_at(h, l)[j], h),
{
    if l < h.lists.len() {
        assert forall|j: int| 0 <= j < list_at(h, l).len() implies valid(
            #[trigger] list_at(h, l)[j],
            h,
        ) by {
            assert(valid(h.lists[l as int][j], h));
        }
    }
}

proof fn lemma_repeat_valid(s: Seq<Val>, n: nat, h: Heap)
    requires
        forall|j: int| 0 <= j < s.len() ==> valid(#[trigger] s[j], h),
    ensures
        forall|j: int| 0 <= j < repeat(s, n).len() ==> valid(#[trigger] repeat(s, n)[j], h),
    decreases n,
{
    if n > 0 {
        lemma_repeat_valid(s, (n - 1) as nat, h);
        let p = repeat(s, (n - 1) as nat);
        assert forall|j: int| 0 <= j < repeat(s, n).len() implies valid(
            #[trigger] repeat(s, n)[j],
            h,
        ) by {
            if j < p.len() {
                assert(repeat(s, n)[j] == p[j]);
            } else {
                assert(repeat(s, n)[j] == s[j - p.len()]);
            }
        }
    }
}

/// Every binary operator is total: on valid operands in a well-formed heap,
/// `+`, `-`, `*`, `/` and `%` give a valid value, and any heap they grow
/// stays well formed and keeps every earlier entry.
pub proof fn law_operators_total(a: Val, b: Val, h: Heap)
    requires
        heap_ok(h),
        valid(a, h),
        valid(b, h),
    ensures
        heap_ok(add_of(a, b, h).1),
        extends(h, add_of(a, b, h).1),
        valid(add_of(a, b, h).0, add_of(a, b, h).1),
        heap_ok(multiply_of(a, b, h).1),
        extends(h, multiply_of(a, b, h).1),
        valid(multiply_of(a, b, h).0, multiply_of(a, b, h).1),
        valid(subtraction_of(a, b), h),
        valid(divide_of(a, b), h),
        valid(modulo_of(a, b), h),
{
    assert(h.lists.take(h.lists.len() as int) =~= h.lists);
    match (a, b) {
        (Val::Func(_), _) => {},
        (_, Val::Func(_)) => {},
        (Val::List(x), Val::List(y)) => {
            lemma_list_items_valid(h, x);
            lemma_list_items_valid(h, y);
            let items = list_at(h, x) + list_at(h, y);
            assert forall|j: int| 0 <= j < items.len() implies valid(#[trigger] items[j], h) by {
                if j < list_at(h, x).len() {
                    assert(items[j] == list_at(h, x)[j]);
                } else {
                    assert(items[j] == list_at(h, y)[j - list_at(h, x).len()]);
                }
            }
            lemma_new_list_ok(h, items);
        },
        (Val::List(x), v) => {
            lemma_list_items_valid(h, x);
            let items = list_at(h, x).push(v);
            assert forall|j: int| 0 <= j < items.len() implies valid(#[trigger] items[j], h) by {
                if j < list_at(h, x).len() {
                    assert(items[j] == list_at(h, x)[j]);
                }
            }
            lemma_new_list_ok(h, items);
            match v {
                Val::Int(n) => {
                    lemma_repeat_valid(list_at(h, x), crate::value::times(n), h);
                    lemma_new_list_ok(h, repeat(list_at(h, x), crate::value::times(n)));
                },
                _ => {},
            }
        },
        (v, Val::List(y)) => {
            lemma_list_items_valid(h, y);
            let items = list_at(h, y).push(v);
            assert forall|j: int| 0 <= j < items.len() implies valid(#[trigger] items[j], h) by {
                if j < list_at(h, y).len() {
                    assert(items[j] == list_at(h, y)[j]);
                }
            }
            lemma_new_list_ok(h, items);
        },
        _ => {},
    }
}

/// Lists are shared: after an insertion through one value, every value with
/// the same handle reads the new contents. Adding two lists builds a new list
/// and leaves both operands' contents as they were.
pub proof fn law_list_aliasing(h: Heap, a: Val, b: Val, idx: nat, v: Val, x: usize, y: usize)
    requires
        a == b,
        a is List,
        a->List_0 < h.lists.len(),
        x < h.lists.len(),
        y < h.lists.len(),
        h.lists.len() <= usize::MAX,
    ensures
        ({
            let h2 = with_list_at(h, a->List_0, insert_spec(list_at(h, a->List_0), idx, v));
            &&& list_at(h2, b->List_0) == insert_spec(list_at(h, a->List_0), idx, v)
            &&& length_of(b, h2) == length_of(a, h2)
        }),
        ({
            let (r, h2) = add_of(Val::List(x), Val::List(y), h);
            &&& list_at(h2, x) == list_at(h, x)
            &&& list_at(h2, y) == list_at(h, y)
            &&& r == Val::List(h.lists.len() as usize)
            &&& r != Val::List(x) && r != Val::List(y)
            &&& list_at(h2, r->List_0) == list_at(h, x) + list_at(h, y)
        }),
{
}

proof fn lemma_first_global_char(g: Seq<(Seq<char>, Val)>, x: Seq<char>, n: nat)
    ensures
        match first_global(g, x, n) {
            Some(i) => 0 <= i < n && i < g.len() && g[i].0 == x && forall|j: int|
                0 <= j < i ==> #[trigger] g[j].0 != x,
            None => forall|j: int| 0 <= j < n && j < g.len() ==> #[trigger] g[j].0 != x,
        },
    decreases n,
{
    if n > 0 {
        lemma_first_global_char(g, x, (n - 1) as nat);
    }
}

/// The first binding of `x` in `g` is at `i`.
proof fn lemma_find_global_at(g: Seq<(Seq<char>, Val)>, x: Seq<char>, i: int)
    requires
        0 <= i < g.len(),
        g[i].0 == x,
        forall|j: int| 0 <= j < i ==> #[trigger] g[j].0 != x,
    ensures
        find_global(g, x) == Some(i),
{
    lemma_first_global_char(g, x, g.len());
    match find_global(g, x) {
        Some(k) => {
            if k < i {
                assert(g[k].0 != x);
            } else if k > i {
                assert(g[i].0 != x);
            }
        },
        None => {
            assert(g[i].0 != x);
        },
    }
}

/// Declaring a global twice and then assigning it makes `GetFree` read the
/// assigned value, and a later declaration of the same name does not hide
/// it. (A null assignment reads as null only when no function has the name.)
pub proof fn law_global_shadowing(g: Seq<(Seq<char>, Val)>, funcs: Seq<FnModel>, x: Seq<char>, v: Val)
    requires
        v != Val::Null || lookup_function(funcs, x) is None,
    ensures
        get_free_spec(assign_spec(declare_spec(declare_spec(g, x), x), x, v), funcs, x) == v,
        get_free_spec(
            declare_spec(assign_spec(declare_spec(declare_spec(g, x), x), x, v), x),
            funcs,
            x,
        ) == v,
{
    let g2 = declare_spec(declare_spec(g, x), x);
    lemma_first_global_char(g2, x, g2.len());
    let i = match find_global(g2, x) {
        Some(i) => i,
        None => {
            assert(g2[g.len() as int].0 == x);
            0
        },
    };
    let g3 = assign_spec(g2, x, v);
    assert(g3 == g2.update(i, (x, v)));
    assert forall|j: int| 0 <= j < i implies #[trigger] g3[j].0 != x by {
        assert(g3[j] == g2[j]);
    }
    lemma_find_global_at(g3, x, i);
    let g4 = declare_spec(g3, x);
    assert forall|j: int| 0 <= j < i implies #[trigger] g4[j].0 != x by {
        assert(g4[j] == g3[j]);
    }
    lemma_find_global_at(g4, x, i);
    assert(g4[i] == g3[i]);
}


/// The flat stream for one folded instruction: arms and bodies come as
/// blocks between `StartBlock` and `EndBlock`, followed by their
/// instruction with empty arms.
pub open spec fn emit_insn(x: Insn) -> Seq<Insn>
    decreases x, 0nat,
{
    match x {
        Insn::If { then, else_ } => seq![Insn::StartBlock] + emit_prefix(then, then.len()) + seq![
            Insn::EndBlock,
            Insn::StartBlock,
        ] + emit_prefix(else_, else_.len()) + seq![
            Insn::EndBlock,
            Insn::If { then: Seq::empty(), else_: Seq::empty() },
        ],
        Insn::Loop { block } => seq![Insn::StartBlock] + emit_prefix(block, block.len()) + seq![
            Insn::EndBlock,
            Insn::Loop { block: Seq::empty() },
        ],
        _ => seq![x],
    }
}

/// The flat stream for the first `k` instructions of a block.
pub open spec fn emit_prefix(b: Seq<Insn>, k: nat) -> Seq<Insn>
    decreases b, k,
{
    if k == 0 || k > b.len() {
        Seq::empty()
    } else {
        emit_prefix(b, (k - 1) as nat) + emit_insn(b[k - 1])
    }
}

/// The flat stream of a function definition.
pub open spec fn emit_function(arity: u64, name: Seq<char>, body: Seq<Insn>) -> Seq<Insn> {
    seq![Insn::StartBlock] + emit_prefix(body, body.len()) + seq![
        Insn::EndBlock,
        Insn::DefineFunction { param_count: arity, identifier: name },
    ]
}

/// An instruction as folding leaves it: no block markers or definitions at
/// any depth.
pub open spec fn folded_insn(x: Insn) -> bool
    decreases x, 0nat,
{
    match x {
        Insn::StartBlock | Insn::EndBlock | Insn::DefineFunction { .. } => false,
        Insn::If { then, else_ } => folded_prefix(
            then,
            then.len(),
        ) && folded_prefix(else_, else_.len()),
        Insn::Loop { block } => folded_prefix(block, block.len()),
        _ => true,
    }
}

pub open spec fn folded_prefix(b: Seq<Insn>, k: nat) -> bool
    decreases b, k,
{
    if k == 0 || k > b.len() {
        true
    } else {
        folded_prefix(b, (k - 1) as nat) && folded_insn(b[k - 1])
    }
}

/// Counts `n` more consumed instructions in a definition.
pub open spec fn shift(f: Fold, n: nat) -> Fold {
    match f {
        Fold::Defined { arity, name, body, consumed } => Fold::Defined {
            arity,
            name,
            body,
            consumed: consumed + n,
        },
        other => other,
    }
}

/// Folding one instruction that leaves the stack open.
proof fn lemma_run_cons(st: Seq<Seq<Insn>>, y: Insn, rest: Seq<Insn>, st2: Seq<Seq<Insn>>)
    requires
        fold_step(st, y) == Fold::Open(st2),
    ensures
        fold_run(st, seq![y] + rest) == shift(fold_run(st2, rest), 1),
{
    let xs = seq![y] + rest;
    assert(xs[0] == y);
    assert(xs.drop_first() =~= rest);
}

/// Folding a stream whose head folds to `st2` without a definition.
proof fn lemma_run_append(
    st: Seq<Seq<Insn>>,
    pre: Seq<Insn>,
    rest: Seq<Insn>,
    st2: Seq<Seq<Insn>>,
)
    requires
        fold_run(st, pre) == Fold::Open(st2),
    ensures
        fold_run(st, pre + rest) == shift(fold_run(st2, rest), pre.len()),
    decreases pre.len(),
{
    if pre.len() == 0 {
        assert(pre + rest =~= rest);
        assert(st == st2);
    } else {
        let xs = pre + rest;
        assert(xs[0] == pre[0]);
        assert(xs.drop_first() =~= pre.drop_first() + rest);
        match fold_step(st, pre[0]) {
            Fold::Open(s1) => {
                lemma_run_append(s1, pre.drop_first(), rest, st2);
            },
            _ => {},
        }
    }
}

/// Emitting a folded instruction and folding it back appends it to the
/// innermost open block.
proof fn lemma_fold_emit_insn(x: Insn, st: Seq<Seq<Insn>>)
    requires
        st.len() > 0,
        folded_insn(x),
    ensures
        fold_run(st, emit_insn(x)) == Fold::Open(st.drop_last().push(st.last().push(x))),
    decreases x, 0nat,
{
    match x {
        Insn::If { then, else_ } => {
            let e0 = seq![Insn::StartBlock];
            let s1 = st.push(Seq::<Insn>::empty());
            lemma_fold_emit_prefix(then, then.len(), s1);
            assert(then.take(then.len() as int) =~= then);
            let s2 = st.push(then);
            assert(s1.drop_last().push(s1.last() + then) =~= s2);
            let s3 = s2.push(Seq::<Insn>::empty());
            lemma_fold_emit_prefix(else_, else_.len(), s3);
            assert(else_.take(else_.len() as int) =~= else_);
            let s4 = s2.push(else_);
            assert(s3.drop_last().push(s3.last() + else_) =~= s4);
            let tail = seq![Insn::EndBlock, Insn::If { then: Seq::empty(), else_: Seq::empty() }];
            let mid = seq![Insn::EndBlock, Insn::StartBlock];
            let pe = emit_prefix(then, then.len());
            let qe = emit_prefix(else_, else_.len());
            // StartBlock
            assert(fold_run(st, e0) == Fold::Open(s1)) by {
                lemma_run_cons(st, Insn::StartBlock, Seq::empty(), s1);
            }
            lemma_run_append(st, e0, pe, s1);
            lemma_run_append(st, e0 + pe, mid, s2);
            assert(fold_run(s2, mid) == Fold::Open(s3)) by {
                lemma_run_cons(s2, Insn::EndBlock, seq![Insn::StartBlock], s2);
                lemma_run_cons(s2, Insn::StartBlock, Seq::empty(), s3);
                assert(mid =~= seq![Insn::EndBlock] + seq![Insn::StartBlock]);
                assert(seq![Insn::StartBlock] =~= seq![Insn::StartBlock] + Seq::<Insn>::empty());
            }
            lemma_run_append(st, e0 + pe + mid, qe, s3);
            lemma_run_append(st, e0 + pe + mid + qe, tail, s4);
            let fin = st.drop_last().push(st.last().push(x));
            assert(fold_step(s4, Insn::If { then: Seq::empty(), else_: Seq::empty() })
                == Fold::Open(fin)) by {
                assert(s4.drop_last() =~= s2);
                assert(s2.drop_last() =~= st);
            }
            assert(fold_run(s4, tail) == Fold::Open(fin)) by {
                lemma_run_cons(s4, Insn::EndBlock, seq![Insn::If { then: Seq::empty(), else_: Seq::empty() }], s4);
                lemma_run_cons(
                    s4,
                    Insn::If { then: Seq::empty(), else_: Seq::empty() },
                    Seq::empty(),
                    fin,
                );
                assert(tail =~= seq![Insn::EndBlock] + seq![Insn::If { then: Seq::empty(), else_: Seq::empty() }]);
                assert(seq![Insn::If { then: Seq::empty(), else_: Seq::empty() }] =~= seq![Insn::If { then: Seq::empty(), else_: Seq::empty() }] + Seq::<Insn>::empty());
            }
            lemma_run_append(st, e0 + pe + mid + qe + tail, Seq::empty(), fin);
            assert(emit_insn(x) =~= e0 + pe + mid + qe + tail);
            assert(e0 + pe + mid + qe + tail + Seq::<Insn>::empty() =~= e0 + pe + mid + qe + tail);
        },
        Insn::Loop { block } => {
            let e0 = seq![Insn::StartBlock];
            let s1 = st.push(Seq::<Insn>::empty());
            lemma_fold_emit_prefix(block, block.len(), s1);
            assert(block.take(block.len() as int) =~= block);
            let s2 = st.push(block);
            assert(s1.drop_last().push(s1.last() + block) =~= s2);
            let pe = emit_prefix(block, block.len());
            let tail = seq![Insn::EndBlock, Insn::Loop { block: Seq::empty() }];
            assert(fold_run(st, e0) == Fold::Open(s1)) by {
                lemma_run_cons(st, Insn::StartBlock, Seq::empty(), s1);
            }
            lemma_run_append(st, e0, pe, s1);
            let fin = st.drop_last().push(st.last().push(x));
            assert(fold_run(s2, tail) == Fold::Open(fin)) by {
                assert(s2.drop_last() =~= st);
                lemma_run_cons(s2, Insn::EndBlock, seq![Insn::Loop { block: Seq::empty() }], s2);
                lemma_run_cons(s2, Insn::Loop { block: Seq::empty() }, Seq::empty(), fin);
                assert(tail =~= seq![Insn::EndBlock] + seq![Insn::Loop { block: Seq::empty() }]);
                assert(seq![Insn::Loop { block: Seq::empty() }] =~= seq![Insn::Loop { block: Seq::empty() }] + Seq::<Insn>::empty());
            }
            lemma_run_append(st, e0 + pe, tail, s2);
            lemma_run_append(st, e0 + pe + tail, Seq::empty(), fin);
            assert(emit_insn(x) =~= e0 + pe + tail);
            assert(e0 + pe + tail + Seq::<Insn>::empty() =~= e0 + pe + tail);
        },
        _ => {
            let fin = st.drop_last().push(st.last().push(x));
            lemma_run_cons(st, x, Seq::empty(), fin);
            assert(seq![x] + Seq::<Insn>::empty() =~= seq![x]);
        },
    }
}

/// Emitting the first `k` instructions of a folded block and folding them
/// back appends them to the innermost open block.
proof fn lemma_fold_emit_prefix(b: Seq<Insn>, k: nat, st: Seq<Seq<Insn>>)
    requires
        st.len() > 0,
        k <= b.len(),
        folded_prefix(b, k),
    ensures
        fold_run(st, emit_prefix(b, k)) == Fold::Open(st.drop_last().push(st.last() + b.take(k as int))),
    decreases b, k,
{
    if k == 0 {
        assert(st.drop_last().push(st.last() + b.take(0)) =~= st);
    } else {
        lemma_fold_emit_prefix(b, (k - 1) as nat, st);
        let s1 = st.drop_last().push(st.last() + b.take(k - 1));
        assert(decreases_to!(b => b[k - 1]));
        lemma_fold_emit_insn(b[k - 1], s1);
        lemma_run_append(st, emit_prefix(b, (k - 1) as nat), emit_insn(b[k - 1]), s1);
        assert((st.last() + b.take(k - 1)).push(b[k - 1]) =~= st.last() + b.take(k as int));
        assert(s1.drop_last().push(s1.last().push(b[k - 1])) =~= st.drop_last().push(
            st.last() + b.take(k as int),
        ));
    }
}

/// Folding is undone by emitting: the stream emitted for a function whose
/// body is in folded form folds back to that very function, consuming the
/// whole stream after its opening `StartBlock`.
pub proof fn law_fold_emit(arity: u64, name: Seq<char>, body: Seq<Insn>)
    requires
        folded_prefix(body, body.len()),
    ensures
        fold_from(emit_function(arity, name, body).drop_first()) == (Fold::Defined {
            arity,
            name,
            body,
            consumed: (emit_function(arity, name, body).len() - 1) as nat,
        }),
{
    let st = seq![Seq::<Insn>::empty()];
    let pe = emit_prefix(body, body.len());
    lemma_fold_emit_prefix(body, body.len(), st);
    assert(body.take(body.len() as int) =~= body);
    let st2 = seq![body];
    assert(st.drop_last().push(st.last() + body) =~= st2);
    let tail = seq![Insn::EndBlock, Insn::DefineFunction { param_count: arity, identifier: name }];
    assert(emit_function(arity, name, body).drop_first() =~= pe + tail);
    lemma_run_append(st, pe, tail, st2);
    let d = Insn::DefineFunction { param_count: arity, identifier: name };
    lemma_run_cons(st2, Insn::EndBlock, seq![d], st2);
    assert(tail =~= seq![Insn::EndBlock] + seq![d]);
    let one = seq![d];
    assert(one[0] == d);
    assert(fold_step(st2, d) == Fold::Defined { arity, name, body, consumed: 1 });
    assert(fold_run(st2, one) == Fold::Defined { arity, name, body, consumed: 1 });
    assert(fold_run(st2, tail) == Fold::Defined { arity, name, body, consumed: 2 });
}

/// A top-level statement that leaves the value stack as it found it: a
/// function definition, or the declaration of a global.
pub enum TopItem {
    Define { arity: u64, name: Seq<char>, body: Seq<Insn> },
    Declare(Seq<char>),
}

pub open spec fn item_stream(t: TopItem) -> Seq<Insn> {
    match t {
        TopItem::Define { arity, name, body } => emit_function(arity, name, body),
        TopItem::Declare(x) => seq![Insn::StringConst(x), Insn::Global],
    }
}

/// The stream of a sequence of top-level statements.
pub open spec fn top_stream(items: Seq<TopItem>) -> Seq<Insn>
    decreases items.len(),
{
    if items.len() == 0 {
        Seq::empty()
    } else {
        top_stream(items.drop_last()) + item_stream(items.last())
    }
}

/// Every definition among `items` has a body in folded form.
pub open spec fn top_ok(items: Seq<TopItem>) -> bool {
    forall|k: int|
        0 <= k < items.len() ==> (#[trigger] items[k] matches TopItem::Define { body, .. }
            ==> folded_prefix(body, body.len()))
}

pub proof fn lemma_top_split(items: Seq<TopItem>, k: int)
    requires
        0 <= k < items.len(),
    ensures
        top_stream(items.take(k + 1)) == top_stream(items.take(k)) + item_stream(items[k]),
        top_stream(items.take(k + 1)).len() <= top_stream(items).len(),
        top_stream(items).subrange(0, top_stream(items.take(k + 1)).len() as int) == top_stream(
            items.take(k + 1),
        ),
    decreases items.len(),
{
    assert(items.take(k + 1).drop_last() =~= items.take(k));
    if k + 1 == items.len() {
        assert(items.take(k + 1) =~= items);
        assert(top_stream(items).subrange(0, top_stream(items).len() as int) =~= top_stream(items));
    } else {
        let d = items.drop_last();
        lemma_top_split(d, k);
        assert(d.take(k + 1) =~= items.take(k + 1));
        assert(d.take(k) =~= items.take(k));
        assert(top_stream(items) == top_stream(d) + item_stream(items.last()));
        assert(top_stream(items).subrange(0, top_stream(items.take(k + 1)).len() as int)
            =~= top_stream(d).subrange(0, top_stream(items.take(k + 1)).len() as int));
    }
}

pub proof fn lemma_top_all(items: Seq<TopItem>)
    ensures
        top_stream(items.take(items.len() as int)) == top_stream(items),
{
    assert(items.take(items.len() as int) =~= items);
}

/// A definition ends folding: what follows it does not matter.
pub proof fn lemma_run_defined(st: Seq<Seq<Insn>>, pre: Seq<Insn>, rest: Seq<Insn>)
    requires
        fold_run(st, pre) is Defined,
    ensures
        fold_run(st, pre + rest) == fold_run(st, pre),
    decreases pre.len(),
{
    let xs = pre + rest;
    assert(xs[0] == pre[0]);
    assert(xs.drop_first() =~= pre.drop_first() + rest);
    match fold_step(st, pre[0]) {
        Fold::Open(s1) => {
            lemma_run_defined(s1, pre.drop_first(), rest);
        },
        _ => {},
    }
}

/// Folding the stream after the `StartBlock` of a definition among
/// top-level statements consumes exactly that definition.
pub proof fn lemma_fold_top_define(items: Seq<TopItem>, k: int)
    requires
        0 <= k < items.len(),
        top_ok(items),
        items[k] is Define,
    ensures
        ({
            let base = top_stream(items.take(k)).len();
            let s = top_stream(items);
            let e = item_stream(items[k]);
            &&& s[base as int] == Insn::StartBlock
            &&& fold_from(s.skip(base as int + 1)) matches Fold::Defined { consumed, .. } && consumed
                == e.len() - 1
        }),
{
    lemma_top_split(items, k);
    let base = top_stream(items.take(k)).len();
    let s = top_stream(items);
    let e = item_stream(items[k]);
    match items[k] {
        TopItem::Define { arity, name, body } => {
            assert(folded_prefix(body, body.len()));
            law_fold_emit(arity, name, body);
            let upto = top_stream(items.take(k + 1));
            assert(s[base as int] == upto[base as int]);
            assert(upto[base as int] == e[0]);
            let rest = s.skip(upto.len() as int);
            assert(s.skip(base as int + 1) =~= e.drop_first() + rest) by {
                assert(s =~= upto + rest);
            }
            lemma_run_defined(seq![Seq::<Insn>::empty()], e.drop_first(), rest);
        },
        _ => {},
    }
}

} // verus!
