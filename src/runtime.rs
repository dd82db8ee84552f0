//! The stack machine: value stack, activations, globals and the function
//! registry, and the loop that runs folded instructions.
use vstd::prelude::*;
use crate::instruction::{Insn, Instruction};
use crate::value::{
    FnModel, Function, Heap, Store, Val, Value, depth_of, fn_name, lemma_vals_push, text_of, vals,
};

verus! {

/// How a sequence of instructions ended.
#[derive(PartialEq, Eq, Structural, Clone, Copy, Debug, Hash)]
pub enum BreakRequested {
    /// A `Return` ran.
    Return,
    /// A `BreakIfNot` fired.
    Yes,
    /// The instructions ran out.
    No,
}

/// Where execution goes after one instruction.
#[derive(PartialEq, Eq, Structural, Clone, Copy, Debug)]
pub enum Flow {
    /// On with the instruction at this index.
    Next(usize),
    /// The sequence ends, for this reason.
    Leave(BreakRequested),
}

/// A malformed program that stops execution.
#[derive(PartialEq, Eq, Structural, Clone, Copy, Debug)]
pub enum Fault {
    /// `CallKnownFunction` names no registered function.
    UnknownFunction,
    /// `CallUnknownFunction` found no function value on the stack.
    NotAFunction,
    /// `Import` found no path on the stack, or one too short to unquote.
    MissingImportPath,
    /// The instruction reader could not provide an imported program.
    ImportFailed,
    /// A block is closed that was never opened.
    Unbalanced,
    /// An index or a range falls outside a list or a string.
    BadIndex,
}

/// Why execution stopped before the program was done.
#[derive(PartialEq, Eq, Structural, Clone, Copy, Debug)]
pub enum Stop {
    /// The program called `exit` with this code.
    Exit(i64),
    Fault(Fault),
    /// The step budget given to the run is spent.
    OutOfFuel,
}

/// What the machine needs from its host: imported programs, and text in and
/// out.
pub trait Host {
    /// The decoded instructions of the program at `path`, relative to
    /// `base_path`.
    fn read_instructions(&mut self, path: &str, base_path: &str) -> Result<Vec<Instruction>, String>;

    /// Writes text where the program's output goes.
    fn write_text(&mut self, text: &str);

    /// One line of input, with its line end; empty when none can be read.
    fn read_line(&mut self) -> String;
}

/// One activation: its own locals, and the height of the value stack below
/// which it cannot pop.
pub struct Frame {
    pub locals: Vec<Value>,
    pub base: usize,
}

pub struct Runtime {
    pub value_stack: Vec<Value>,
    pub globals: Vec<(String, Value)>,
    pub store: Store,
    pub call_stack: Vec<Frame>,
    pub argv: Value,
    pub base_path: String,
    pub return_value: Value,
}

/// Models of the global table, in declaration order.
pub open spec fn globals_view(g: Seq<(String, Value)>) -> Seq<(Seq<char>, Val)> {
    g.map_values(|e: (String, Value)| (e.0@, e.1@))
}

/// Index of the first global named `name` among the first `n`.
pub open spec fn first_global(g: Seq<(Seq<char>, Val)>, name: Seq<char>, n: nat) -> Option<int>
    decreases n,
{
    if n == 0 {
        None
    } else {
        match first_global(g, name, (n - 1) as nat) {
            Some(i) => Some(i),
            None => if n - 1 < g.len() && g[n - 1].0 == name {
                Some(n - 1)
            } else {
                None
            },
        }
    }
}

pub open spec fn find_global(g: Seq<(Seq<char>, Val)>, name: Seq<char>) -> Option<int> {
    first_global(g, name, g.len())
}

/// `Global`: a new binding to null at the end; an earlier one of the same
/// name keeps precedence.
pub open spec fn declare_spec(g: Seq<(Seq<char>, Val)>, name: Seq<char>) -> Seq<(Seq<char>, Val)> {
    g.push((name, Val::Null))
}

/// `SetFree`: overwrites the first binding of the name, or adds one.
pub open spec fn assign_spec(g: Seq<(Seq<char>, Val)>, name: Seq<char>, v: Val) -> Seq<
    (Seq<char>, Val),
> {
    match find_global(g, name) {
        Some(i) => g.update(i, (name, v)),
        None => g.push((name, v)),
    }
}

/// Handle of the function registered last under `name` among the first `n`
/// definitions: a later definition replaces an earlier one.
pub open spec fn last_function(funcs: Seq<FnModel>, name: Seq<char>, n: nat) -> Option<int>
    decreases n,
{
    if n == 0 {
        None
    } else if n - 1 < funcs.len() && fn_name(funcs[n - 1]) == name {
        Some(n - 1)
    } else {
        last_function(funcs, name, (n - 1) as nat)
    }
}

pub open spec fn lookup_function(funcs: Seq<FnModel>, name: Seq<char>) -> Option<int> {
    last_function(funcs, name, funcs.len())
}

/// `GetFree`: the first global of the name unless it is null, else the
/// registered function of the name, else null.
pub open spec fn get_free_spec(g: Seq<(Seq<char>, Val)>, funcs: Seq<FnModel>, name: Seq<char>) -> Val {
    match find_global(g, name) {
        Some(i) if g[i].1 != Val::Null => g[i].1,
        _ => match lookup_function(funcs, name) {
            Some(f) => Val::Func(f as usize),
            None => Val::Null,
        },
    }
}

/// A local slot; slots never written read as null.
pub open spec fn local_at(locals: Seq<Val>, idx: u64) -> Val {
    if idx < locals.len() {
        locals[idx as int]
    } else {
        Val::Null
    }
}

/// Locals after slot `idx` is set to `v`, null-padded as needed.
pub open spec fn set_local_spec(locals: Seq<Val>, idx: u64, v: Val) -> Seq<Val> {
    let padded = if idx < locals.len() {
        locals
    } else {
        locals + Seq::new((idx - locals.len() + 1) as nat, |i: int| Val::Null)
    };
    padded.update(idx as int, v)
}


/// The part of the machine that plain instructions read and write.
pub struct Machine {
    pub stack: Seq<Val>,
    pub floor: nat,
    pub locals: Seq<Val>,
    pub globals: Seq<(Seq<char>, Val)>,
    pub heap: Heap,
    /// The value the last `Return` took.
    pub ret: Val,
    /// An activation is running; after the outermost `Return` none is.
    pub active: bool,
}

/// Pops one value; null when the activation has nothing to pop.
pub open spec fn pop_m(m: Machine) -> (Val, Machine) {
    if m.stack.len() > m.floor {
        (m.stack.last(), Machine { stack: m.stack.drop_last(), ..m })
    } else {
        (Val::Null, m)
    }
}

pub open spec fn push_m(m: Machine, v: Val) -> Machine {
    Machine { stack: m.stack.push(v), ..m }
}

/// The name a value stands for in `Global`, `GetFree` and `SetFree`.
pub open spec fn name_of(v: Val, h: Heap) -> Seq<char> {
    text_of(v, h, depth_of(h))
}

/// Pops `n` values for a list, in the order they were pushed; slots the
/// activation cannot fill come first, as null.
pub open spec fn pop_list_m(m: Machine, n: nat) -> (Seq<Val>, Machine) {
    let avail = if m.stack.len() >= m.floor + n {
        n
    } else if m.stack.len() >= m.floor {
        (m.stack.len() - m.floor) as nat
    } else {
        0
    };
    let cut = m.stack.len() - avail;
    (
        Seq::new((n - avail) as nat, |i: int| Val::Null) + m.stack.subrange(cut, m.stack.len() as int),
        Machine { stack: m.stack.take(cut), ..m },
    )
}

/// Effect of an instruction that neither branches nor calls; `None` when it
/// cannot be carried out.
pub open spec fn simple_step(m: Machine, x: Insn) -> Option<Machine> {
    match x {
        Insn::NullConst => Some(push_m(m, Val::Null)),
        Insn::BooleanConst(b) => Some(push_m(m, Val::Bool(b))),
        Insn::IntegerConst(i) => Some(push_m(m, Val::Int(i))),
        Insn::StringConst(s) => Some(push_m(m, Val::Str(s))),
        Insn::ListCount { count } => {
            let (items, m1) = pop_list_m(m, count as nat);
            let h2 = Heap { lists: m1.heap.lists.push(items), funcs: m1.heap.funcs };
            Some(push_m(Machine { heap: h2, ..m1 }, Val::List(m1.heap.lists.len() as usize)))
        },
        Insn::GetLocal { local_idx } => Some(push_m(m, local_at(m.locals, local_idx))),
        Insn::SetLocal { local_idx } => if local_idx < usize::MAX && !m.active {
            Some(m)
        } else if local_idx < usize::MAX {
            let top = if m.stack.len() > 0 {
                m.stack.last()
            } else {
                Val::Null
            };
            Some(Machine { locals: set_local_spec(m.locals, local_idx, top), ..m })
        } else {
            None
        },
        Insn::Drop => Some(pop_m(m).1),
        Insn::Global => {
            let (v, m1) = pop_m(m);
            Some(Machine { globals: declare_spec(m1.globals, name_of(v, m1.heap)), ..m1 })
        },
        Insn::GetFree => if m.stack.len() > m.floor {
            let (v, m1) = pop_m(m);
            Some(push_m(m1, get_free_spec(m1.globals, m1.heap.funcs, name_of(v, m1.heap))))
        } else {
            Some(push_m(m, Val::Null))
        },
        Insn::SetFree => if m.stack.len() > m.floor {
            let (n, m1) = pop_m(m);
            let (v, m2) = pop_m(m1);
            Some(Machine { globals: assign_spec(m2.globals, name_of(n, m2.heap), v), ..m2 })
        } else {
            Some(m)
        },
        _ => Some(m),
    }
}

/// Instructions that `simple_step` describes.
pub open spec fn is_simple(x: Insn) -> bool {
    !(x is Import || x is StartBlock || x is Return || x is CallKnownFunction
        || x is CallUnknownFunction || x is If || x is Loop || x is BreakIfNot)
}

fn text_eq(a: &String, b: &String) -> (r: bool)
    ensures
        r == (a@ == b@),
{
    *a == *b
}

impl Runtime {
    pub open spec fn wf(&self) -> bool {
        &&& self.value_stack@.len() >= self.floor()
        &&& forall|i: int, j: int|
            0 <= i <= j < self.call_stack@.len() ==> (#[trigger] self.call_stack@[i]).base
                <= (#[trigger] self.call_stack@[j]).base
    }

    /// Height of the value stack below which the current activation cannot pop.
    pub open spec fn floor(&self) -> nat {
        if self.call_stack@.len() > 0 {
            self.call_stack@.last().base as nat
        } else {
            0
        }
    }

    /// What every step of execution keeps: the activations, the current
    /// activation's floor and the values below it, and the store's entries.
    pub open spec fn keeps_frame(&self, new: &Runtime) -> bool {
        &&& new.wf()
        &&& new.call_stack@.len() == self.call_stack@.len()
        &&& new.floor() == self.floor()
        &&& forall|i: int|
            0 <= i < self.call_stack@.len() - 1 ==> new.call_stack@[i] == self.call_stack@[i]
        &&& new.value_stack@.take(self.floor() as int) == self.value_stack@.take(
            self.floor() as int,
        )
        &&& new.store@.lists.len() >= self.store@.lists.len()
        &&& new.store@.funcs.len() >= self.store@.funcs.len()
        &&& new.argv == self.argv
    }

    /// What a `Return` leaves: the current activation is gone, the values
    /// below its floor are kept, and the store keeps its entries.
    pub open spec fn pops_frame(&self, new: &Runtime) -> bool {
        &&& new.wf()
        &&& new.call_stack@ == if self.call_stack@.len() > 0 {
            self.call_stack@.drop_last()
        } else {
            self.call_stack@
        }
        &&& new.floor() <= self.floor()
        &&& new.value_stack@.len() >= self.floor()
        &&& new.value_stack@.take(self.floor() as int) == self.value_stack@.take(
            self.floor() as int,
        )
        &&& new.store@.lists.len() >= self.store@.lists.len()
        &&& new.store@.funcs.len() >= self.store@.funcs.len()
        &&& new.argv == self.argv
    }

    /// The frame is kept, or, after a `Return`, popped.
    pub open spec fn ends_frame(&self, new: &Runtime, returned: bool) -> bool {
        if returned {
            self.pops_frame(new)
        } else {
            self.keeps_frame(new)
        }
    }

    /// The state agrees with `m`; after a `Return` only the stack, the
    /// globals, the store and the returned value are compared, since the
    /// activation that `m` describes has ended.
    pub open spec fn matches_state(&self, m: Machine, returned: bool) -> bool {
        if returned {
            &&& self.stack() == m.stack
            &&& self.globals_model() == m.globals
            &&& self.store@ == m.heap
            &&& self.return_value@ == m.ret
        } else {
            self.machine() == m
        }
    }

    pub open spec fn stack(&self) -> Seq<Val> {
        vals(self.value_stack@)
    }

    pub open spec fn locals(&self) -> Seq<Val> {
        if self.call_stack@.len() > 0 {
            vals(self.call_stack@.last().locals@)
        } else {
            Seq::empty()
        }
    }

    pub open spec fn globals_model(&self) -> Seq<(Seq<char>, Val)> {
        globals_view(self.globals@)
    }

    pub open spec fn machine(&self) -> Machine {
        Machine {
            stack: self.stack(),
            floor: self.floor(),
            locals: self.locals(),
            globals: self.globals_model(),
            heap: self.store@,
            ret: self.return_value@,
            active: self.call_stack@.len() > 0,
        }
    }

    /// Height of the value stack below which the current activation cannot pop.
    pub fn frame_floor(&self) -> (r: usize)
        ensures
            r == self.floor(),
    {
        if self.call_stack.len() == 0 {
            0
        } else {
            self.call_stack[self.call_stack.len() - 1].base
        }
    }

    /// Pops the top value; null when the current activation has nothing
    /// left to pop.
    pub fn pop_value_from_stack(&mut self) -> (r: Value)
        requires
            old(self).wf(),
        ensures
            final(self).wf(),
            old(self).keeps_frame(final(self)),
            final(self).floor() == old(self).floor(),
            final(self).call_stack == old(self).call_stack,
            final(self).store == old(self).store,
            final(self).globals == old(self).globals,
            final(self).return_value == old(self).return_value,
            final(self).argv == old(self).argv,
            final(self).base_path == old(self).base_path,
            (r@, final(self).machine()) == pop_m(old(self).machine()),
            if old(self).value_stack@.len() > old(self).floor() {
                &&& final(self).value_stack@ == old(self).value_stack@.drop_last()
                &&& final(self).stack() == old(self).stack().drop_last()
                &&& r@ == old(self).stack().last()
            } else {
                &&& final(self).value_stack == old(self).value_stack
                &&& r@ == Val::Null
            },
    {
        let f = self.frame_floor();
        if self.value_stack.len() > f {
            let ghost s = self.value_stack@;
            let r = self.value_stack.pop().unwrap();
            proof {
                assert(s == self.value_stack@.push(r));
                lemma_vals_push(self.value_stack@, r);
                assert(vals(self.value_stack@) =~= vals(s).drop_last());
                assert(self.value_stack@.take(self.floor() as int) =~= s.take(self.floor() as int));
            }
            r
        } else {
            Value::Null
        }
    }

    pub fn push_value_to_stack(&mut self, value: Value)
        requires
            old(self).wf(),
        ensures
            final(self).wf(),
            final(self).floor() == old(self).floor(),
            final(self).call_stack == old(self).call_stack,
            final(self).store == old(self).store,
            final(self).globals == old(self).globals,
            final(self).return_value == old(self).return_value,
            final(self).argv == old(self).argv,
            final(self).base_path == old(self).base_path,
            final(self).stack() == old(self).stack().push(value@),
            final(self).value_stack@ == old(self).value_stack@.push(value),
            old(self).keeps_frame(final(self)),
            final(self).machine() == push_m(old(self).machine(), value@),
    {
        proof {
            lemma_vals_push(self.value_stack@, value);
        }
        self.value_stack.push(value);
        proof {
            assert(self.value_stack@.take(self.floor() as int) =~= old(self).value_stack@.take(
                self.floor() as int,
            ));
        }
    }

    /// Handle of the function registered under `name`.
    pub fn find_function(&self, name: &String) -> (r: Option<usize>)
        ensures
            r matches Some(i) ==> lookup_function(self.store@.funcs, name@) == Some(i as int),
            r is None ==> lookup_function(self.store@.funcs, name@) is None,
    {
        let n = self.store.functions.len();
        let mut i: usize = n;
        while i > 0
            invariant
                i <= n,
                n == self.store.functions@.len(),
                lookup_function(self.store@.funcs, name@) == last_function(
                    self.store@.funcs,
                    name@,
                    i as nat,
                ),
            decreases i,
        {
            let f = &self.store.functions[i - 1];
            let same = match f {
                Function::Bytecode(b) => text_eq(&b.name, name),
                Function::Native(x) => text_eq(&x.name, name),
            };
            if same {
                return Some(i - 1);
            }
            i = i - 1;
        }
        None
    }

    fn find_global_index(&self, name: &String) -> (r: Option<usize>)
        ensures
            r matches Some(i) ==> find_global(self.globals_model(), name@) == Some(i as int) && i
                < self.globals@.len(),
            r is None ==> find_global(self.globals_model(), name@) is None,
    {
        let ghost g = self.globals_model();
        let mut i: usize = 0;
        while i < self.globals.len()
            invariant
                i <= self.globals@.len(),
                g == self.globals_model(),
                g.len() == self.globals@.len(),
                first_global(g, name@, i as nat) is None,
            decreases self.globals@.len() - i,
        {
            proof {
                assert(g[i as int].0 == self.globals@[i as int].0@);
            }
            if text_eq(&self.globals[i].0, name) {
                proof {
                    lemma_first_global_stable(g, name@, (i + 1) as nat, g.len());
                }
                return Some(i);
            }
            i = i + 1;
        }
        None
    }

    /// Declares a global bound to null.
    pub fn declare_global(&mut self, name: String)
        ensures
            final(self).globals_model() == declare_spec(old(self).globals_model(), name@),
            final(self).value_stack == old(self).value_stack,
            final(self).call_stack == old(self).call_stack,
            final(self).store == old(self).store,
            final(self).return_value == old(self).return_value,
            final(self).argv == old(self).argv,
    {
        self.globals.push((name, Value::Null));
        proof {
            assert(final(self).globals_model() =~= declare_spec(old(self).globals_model(), name@));
        }
    }

    /// Binds `name` to `value`, overwriting its first binding.
    pub fn set_free(&mut self, name: String, value: Value)
        ensures
            final(self).globals_model() == assign_spec(old(self).globals_model(), name@, value@),
            final(self).value_stack == old(self).value_stack,
            final(self).call_stack == old(self).call_stack,
            final(self).store == old(self).store,
            final(self).return_value == old(self).return_value,
            final(self).argv == old(self).argv,
    {
        match self.find_global_index(&name) {
            Some(i) => {
                let ghost v = value@;
                let ghost n = name@;
                self.globals.set(i, (name, value));
                proof {
                    assert(final(self).globals_model() =~= old(self).globals_model().update(
                        i as int,
                        (n, v),
                    ));
                }
            },
            None => {
                let ghost v = value@;
                let ghost n = name@;
                self.globals.push((name, value));
                proof {
                    assert(final(self).globals_model() =~= old(self).globals_model().push((n, v)));
                }
            },
        }
    }

    /// The value `GetFree` reads for `name`.
    pub fn get_free(&self, name: &String) -> (r: Value)
        ensures
            r@ == get_free_spec(self.globals_model(), self.store@.funcs, name@),
    {
        match self.find_global_index(name) {
            Some(i) => {
                if !self.globals[i].1.is_null() {
                    return self.globals[i].1.duplicate();
                }
            },
            None => {},
        }
        match self.find_function(name) {
            Some(f) => Value::Function(f),
            None => Value::Null,
        }
    }

    /// Local `idx` of the current activation.
    pub fn get_local(&self, idx: u64) -> (r: Value)
        ensures
            r@ == local_at(self.locals(), idx),
    {
        if self.call_stack.len() == 0 {
            return Value::Null;
        }
        let locals = &self.call_stack[self.call_stack.len() - 1].locals;
        if idx < locals.len() as u64 {
            locals[idx as usize].duplicate()
        } else {
            Value::Null
        }
    }

    /// Sets local `idx` of the current activation, padding with null.
    pub fn set_local(&mut self, idx: u64, v: Value)
        requires
            old(self).wf(),
            idx < usize::MAX,
        ensures
            final(self).wf(),
            final(self).locals() == if old(self).call_stack@.len() > 0 {
                set_local_spec(old(self).locals(), idx, v@)
            } else {
                old(self).locals()
            },
            old(self).keeps_frame(final(self)),
            final(self).call_stack@.len() == old(self).call_stack@.len(),
            forall|i: int|
                0 <= i < old(self).call_stack@.len() - 1 ==> final(self).call_stack@[i]
                    == old(self).call_stack@[i],
            final(self).floor() == old(self).floor(),
            final(self).value_stack == old(self).value_stack,
            final(self).globals == old(self).globals,
            final(self).store == old(self).store,
            final(self).return_value == old(self).return_value,
            final(self).argv == old(self).argv,
            final(self).base_path == old(self).base_path,
    {
        if self.call_stack.len() == 0 {
            proof {
                assert(self.value_stack@.take(self.floor() as int) =~= old(self).value_stack@.take(self.floor() as int));
            }
            return;
        }
        let mut frame = self.call_stack.pop().unwrap();
        let ghost l0 = vals(frame.locals@);
        let ghost b0 = frame.base;
        let target: usize = idx as usize;
        while frame.locals.len() <= target
            invariant
                target == idx,
                target < usize::MAX,
                frame.base == b0,
                frame.locals@.len() <= target + 1 || frame.locals@.len() == l0.len(),
                vals(frame.locals@) == (if l0.len() > idx {
                    l0
                } else {
                    l0 + Seq::new((frame.locals@.len() - l0.len()) as nat, |i: int| Val::Null)
                }),
                frame.locals@.len() >= l0.len(),
            decreases target + 1 - frame.locals@.len(),
        {
            let ghost pre = vals(frame.locals@);
            proof {
                lemma_vals_push(frame.locals@, Value::Null);
            }
            frame.locals.push(Value::Null);
            proof {
                assert(vals(frame.locals@) =~= l0 + Seq::new(
                    (frame.locals@.len() - l0.len()) as nat,
                    |i: int| Val::Null,
                ));
            }
        }
        let ghost padded = vals(frame.locals@);
        proof {
            if l0.len() <= idx {
                assert(padded =~= l0 + Seq::new((idx - l0.len() + 1) as nat, |i: int| Val::Null));
            }
        }
        frame.locals.set(target, v);
        proof {
            assert(vals(frame.locals@) =~= padded.update(idx as int, v@));
        }
        self.call_stack.push(frame);
    }
}

pub proof fn lemma_lookup_bound(funcs: Seq<FnModel>, name: Seq<char>)
    ensures
        lookup_function(funcs, name) matches Some(i) ==> 0 <= i < funcs.len(),
{
    lemma_last_function_bound(funcs, name, funcs.len());
}

proof fn lemma_last_function_bound(funcs: Seq<FnModel>, name: Seq<char>, n: nat)
    ensures
        last_function(funcs, name, n) matches Some(i) ==> 0 <= i < funcs.len() && i < n,
    decreases n,
{
    if n > 0 {
        lemma_last_function_bound(funcs, name, (n - 1) as nat);
    }
}

proof fn lemma_first_global_stable(g: Seq<(Seq<char>, Val)>, name: Seq<char>, k: nat, n: nat)
    requires
        k <= n,
        first_global(g, name, k) is Some,
    ensures
        first_global(g, name, n) == first_global(g, name, k),
    decreases n - k,
{
    if k < n {
        lemma_first_global_stable(g, name, k, (n - 1) as nat);
    }
}

} // verus!
