//! Running folded instructions: control flow, calls and unwinding.
use vstd::prelude::*;
use vstd::string::StringExecFns;
use crate::fold::{Fold, build_block, fold_from};
use crate::instruction::{Block, Insn, Instruction, insn_view, insns_view, lemma_block_view};
use crate::laws::{
    TopItem, item_stream, lemma_fold_top_define, lemma_top_all, lemma_top_split, top_ok, top_stream,
};
use crate::runtime::{
    BreakRequested, Fault, Flow, Frame, Host, Machine, Runtime, Stop, is_simple, lookup_function,
    pop_list_m, pop_m, simple_step,
};
use crate::semantics::{call_spec, loop_spec, program_spec, run_from, step_spec, unwind_m};
use crate::value::{
    depth_of, text_of, BytecodeFunction, FnModel, Function, NativeFunction, Store, Val, Value, lemma_vals_push,
    truthy_of, vals,
};

verus! {

/// Keeping the frame composes over consecutive steps.
pub proof fn lemma_keeps_trans(a: &Runtime, b: &Runtime, c: &Runtime)
    requires
        a.keeps_frame(b),
        b.keeps_frame(c),
    ensures
        a.keeps_frame(c),
{
    assert forall|i: int| 0 <= i < a.call_stack@.len() - 1 implies c.call_stack@[i]
        == a.call_stack@[i] by {
        assert(b.call_stack@[i] == a.call_stack@[i]);
    }
}

/// Ending the activation after steps that kept it.
pub proof fn lemma_keeps_pops(a: &Runtime, b: &Runtime, c: &Runtime)
    requires
        a.keeps_frame(b),
        b.pops_frame(c),
    ensures
        a.pops_frame(c),
{
    if a.call_stack@.len() > 0 {
        assert forall|i: int| 0 <= i < a.call_stack@.len() - 1 implies b.call_stack@[i]
            == a.call_stack@[i] by {}
        assert(b.call_stack@.drop_last() =~= a.call_stack@.drop_last());
    } else {
        assert(c.call_stack@ =~= a.call_stack@);
    }
}

/// Cutting the stack back after the activation ended keeps what the end
/// of the activation promised.
pub proof fn lemma_pops_cut(a: &Runtime, b: &Runtime, c: &Runtime, h: nat)
    requires
        a.pops_frame(b),
        h >= a.floor(),
        c.wf(),
        c.call_stack == b.call_stack,
        c.value_stack@ == b.value_stack@.take(
            if h < b.value_stack@.len() {
                h as int
            } else {
                b.value_stack@.len() as int
            },
        ),
        c.store == b.store,
        c.argv == b.argv,
    ensures
        a.pops_frame(c),
{
    assert(c.value_stack@.take(a.floor() as int) =~= b.value_stack@.take(a.floor() as int));
}

/// Ending the activation after steps that kept it.
pub proof fn lemma_end_activation(a: &Runtime, b: &Runtime, c: &Runtime)
    requires
        a.keeps_frame(b),
        c.call_stack@ == if b.call_stack@.len() > 0 {
            b.call_stack@.drop_last()
        } else {
            b.call_stack@
        },
        c.value_stack == b.value_stack,
        c.store == b.store,
        c.argv == b.argv,
    ensures
        a.pops_frame(c),
{
    if b.call_stack@.len() > 0 {
        assert(c.call_stack@ =~= a.call_stack@.drop_last());
        assert(forall|i: int| 0 <= i < c.call_stack@.len() ==> c.call_stack@[i] == b.call_stack@[i]);
        if c.call_stack@.len() > 0 {
            let n = b.call_stack@.len() as int;
            assert(b.call_stack@[n - 2].base <= b.call_stack@[n - 1].base);
            assert(c.floor() == b.call_stack@[n - 2].base);
        }
    } else {
        assert(c.call_stack@ =~= a.call_stack@);
    }
    assert(c.value_stack@.take(a.floor() as int) == a.value_stack@.take(a.floor() as int));
}

/// A state that changes nothing keeps its frame.
pub proof fn lemma_keeps_refl(a: &Runtime)
    requires
        a.wf(),
    ensures
        a.keeps_frame(a),
{
}

/// Text of the characters `1..len-1`: a quoted path without its quotes.
fn unquote(s: &String) -> (r: Option<String>)
    ensures
        s@.len() < 2 ==> r is None,
        s@.len() >= 2 ==> (r matches Some(p) && p@ == s@.subrange(1, s@.len() - 1)),
{
    let n = s.as_str().unicode_len();
    if n < 2 {
        return None;
    }
    let inner = s.as_str().substring_char(1, n - 1);
    Some(inner.to_owned())
}

/// What running the instruction at `i` of `xs` from state `a` with `fuel`
/// guarantees of the result `r` and the state `b` after it.
pub open spec fn step_done(
    a: Runtime,
    b: Runtime,
    xs: Seq<Instruction>,
    i: int,
    fuel: nat,
    r: (Result<Flow, Stop>, u64),
) -> bool {
    let x = xs[i]@;
    let returned = r.0 == Ok::<Flow, Stop>(Flow::Leave(BreakRequested::Return));
    let next = Ok::<Flow, Stop>(Flow::Next((i + 1) as usize));
    &&& (step_spec(a.machine(), insns_view(xs), i, fuel) matches Some((res, m2, left)) ==> r.0
        == res && b.matches_state(m2, returned) && r.1 == left)
    &&& a.ends_frame(&b, returned)
    &&& r.1 <= fuel
    &&& (r.0 matches Ok(Flow::Next(j)) ==> i < j <= xs.len())
    &&& (r.0 matches Ok(Flow::Leave(l)) ==> l != BreakRequested::No)
    &&& (is_simple(x) || x is StartBlock || x is Return || x is BreakIfNot ==> r.1 == fuel)
    &&& (is_simple(x) ==> match simple_step(a.machine(), x) {
        Some(m) => r.0 == next && b.machine() == m,
        None => r.0 == Err::<Flow, Stop>(Stop::Fault(Fault::BadIndex)),
    })
    // `Return` takes the top value and ends the current activation.
    &&& (x is Return ==> returned && b.return_value@ == pop_m(a.machine()).0 && b.stack()
        == pop_m(a.machine()).1.stack && a.pops_frame(&b))
    &&& (x is BreakIfNot ==> if a.value_stack@.len() > a.floor() {
        &&& b.stack() == a.stack().drop_last()
        &&& r.0 == if truthy_of(a.stack().last(), a.store@) {
            next
        } else {
            Ok::<Flow, Stop>(Flow::Leave(BreakRequested::Yes))
        }
    } else {
        r.0 == next && b.stack() == a.stack()
    })
    &&& (x is StartBlock ==> b.value_stack == a.value_stack && match fold_from(
        insns_view(xs).skip(i + 1),
    ) {
        Fold::Broken => r.0 == Err::<Flow, Stop>(Stop::Fault(Fault::Unbalanced)),
        Fold::Open(_) => r.0 == Ok::<Flow, Stop>(Flow::Next(xs.len() as usize)),
        Fold::Defined { arity, name, body, consumed } => {
            &&& r.0 == Ok::<Flow, Stop>(Flow::Next((i + 1 + consumed) as usize))
            &&& b.store@.funcs == a.store@.funcs.push(
                FnModel::Bytecode { name, arity, code: body, locals: Seq::empty() },
            )
        },
    })
    &&& (x is Loop ==> !(r.0 matches Ok(Flow::Leave(BreakRequested::Yes))))
    // A call to a bytecode function takes its arguments off the stack and
    // leaves exactly one value, the one it returned.
    &&& (x is CallKnownFunction && lookup_function(a.store@.funcs, x->CallKnownFunction_identifier)
        is Some && a.store@.funcs[lookup_function(
        a.store@.funcs,
        x->CallKnownFunction_identifier,
    )->0] is Bytecode && fuel > 0 ==> ({
        let n = x->CallKnownFunction_arg_count;
        let k = if a.value_stack@.len() - a.floor() >= n {
            a.value_stack@.len() - n
        } else {
            a.floor() as int
        };
        &&& b.value_stack@.len() == k + 1
        &&& b.value_stack@.take(k) == a.value_stack@.take(k)
    }))
    &&& (x is CallKnownFunction && lookup_function(a.store@.funcs, x->CallKnownFunction_identifier)
        is None ==> r.0 == Err::<Flow, Stop>(Stop::Fault(Fault::UnknownFunction)))
    &&& (x is CallUnknownFunction && !(pop_m(a.machine()).0 matches Val::Func(f) && f
        < a.store@.funcs.len()) ==> r.0 == Err::<Flow, Stop>(Stop::Fault(Fault::NotAFunction)))
    // `Import` needs a quoted path on the stack.
    &&& (x is Import && (a.value_stack@.len() <= a.floor() || text_of(
        pop_m(a.machine()).0,
        a.store@,
        depth_of(a.store@),
    ).len() < 2) ==> r.0 == Err::<Flow, Stop>(Stop::Fault(Fault::MissingImportPath)))
}

impl Runtime {
    /// Pops values until at most `h` remain.
    pub fn unwind_to(&mut self, h: usize)
        requires
            old(self).wf(),
            h >= old(self).floor(),
        ensures
            old(self).keeps_frame(final(self)),
            final(self).value_stack@ == old(self).value_stack@.take(
                if h < old(self).value_stack@.len() {
                    h as int
                } else {
                    old(self).value_stack@.len() as int
                },
            ),
            final(self).globals == old(self).globals,
            final(self).store == old(self).store,
            final(self).call_stack == old(self).call_stack,
            final(self).return_value == old(self).return_value,
            final(self).argv == old(self).argv,
            final(self).base_path == old(self).base_path,
    {
        if self.value_stack.len() > h {
            self.value_stack.truncate(h);
        }
        proof {
            if h >= old(self).value_stack@.len() {
                assert(old(self).value_stack@.take(old(self).value_stack@.len() as int)
                    =~= old(self).value_stack@);
            }
            assert(final(self).value_stack@.take(self.floor() as int) =~= old(
                self,
            ).value_stack@.take(self.floor() as int));
        }
    }


    /// Calls the function with handle `f`. A bytecode function gets a fresh
    /// activation whose locals are the `argc` values popped from the stack,
    /// the first argument at index 0; afterwards the stack is cut back to
    /// where the arguments began and the returned value is pushed. A native
    /// function works on the stack itself.
    #[verifier::rlimit(100)]
    pub fn execute_function<H: Host>(&mut self, host: &mut H, f: usize, argc: u64, fuel: u64) -> (r: (
        Result<(), Stop>,
        u64,
    ))
        requires
            old(self).wf(),
            f < old(self).store.functions@.len(),
        ensures
            old(self).keeps_frame(final(self)),
            r.1 <= fuel,
            old(self).store.functions@[f as int] is Bytecode ==> {
                let k = if old(self).value_stack@.len() - old(self).floor() >= argc {
                    old(self).value_stack@.len() - argc
                } else {
                    old(self).floor() as int
                };
                &&& final(self).value_stack@.len() == k + 1
                &&& final(self).value_stack@.take(k) == old(self).value_stack@.take(k)
            },
            call_spec(old(self).machine(), f as int, argc, fuel as nat) matches Some((res, m2, left))
                ==> r.0 == res && final(self).machine() == m2 && r.1 == left,
        decreases fuel, 3nat,
    {
        let body = match &self.store.functions[f] {
            Function::Native(n) => {
                let op = n.op;
                return (self.call_native(host, op), fuel);
            },
            Function::Bytecode(b) => b.code.duplicate(),
        };
        let ghost s0 = *self;
        let locals = self.pop_list(argc);
        let base = self.value_stack.len();
        let ghost s1 = *self;
        self.call_stack.push(Frame { locals, base });
        let ghost s2 = *self;
        proof {
            assert(s2.value_stack@.take(base as int) =~= s2.value_stack@);
        }
        let (res, left) = self.execute_insns(host, body.0.as_slice(), fuel);
        let ghost s3 = *self;
        match res {
            // A `Return` has ended the activation already.
            Ok(BreakRequested::Return) => {
                proof {
                    assert(self.call_stack@ =~= s1.call_stack@);
                }
            },
            _ => {
                self.call_stack.pop();
                proof {
                    assert(self.call_stack@ =~= s1.call_stack@) by {
                        assert forall|i: int| 0 <= i < s1.call_stack@.len() implies self.call_stack@[i]
                            == s1.call_stack@[i] by {
                            assert(s3.call_stack@[i] == s2.call_stack@[i]);
                        }
                    }
                }
            },
        }
        proof {
            assert(self.value_stack@.take(base as int) == s1.value_stack@.take(base as int));
        }
        self.unwind_to(base);
        proof {
            assert(self.value_stack@ =~= s1.value_stack@);
        }
        let mut ret = Value::Null;
        std::mem::swap(&mut ret, &mut self.return_value);
        self.push_value_to_stack(ret);
        proof {
            let (args, m1) = pop_list_m(s0.machine(), argc as nat);
            let callee = Machine { floor: base as nat, locals: args, active: true, ..m1 };
            lemma_block_view(body);
            assert(s2.machine() == callee);
            match run_from(callee, body@, 0, fuel as nat) {
                Some((res2, m2, left2)) => {
                    assert(s3.stack() == m2.stack);
                    assert(s3.return_value@ == m2.ret);
                    assert(s3.globals_model() == m2.globals);
                    assert(s3.store@ == m2.heap);
                    assert(self.machine().stack =~= m2.stack.take(base as int).push(m2.ret));
                },
                None => {},
            }
            assert(self.value_stack@.take(s0.floor() as int) =~= s0.value_stack@.take(
                s0.floor() as int,
            ));
            let kk = s1.value_stack@.len() as int;
            assert(self.value_stack@.take(kk) =~= s0.value_stack@.take(kk));
        }
        match res {
            Ok(_) => (Ok(()), left),
            Err(e) => (Err(e), left),
        }
    }

    /// Runs the instruction at `i` and says where to go on: the index of
    /// the next instruction, or how the sequence ends. A branch, a loop
    /// round, a call or an import spends one unit of `fuel`.
    #[verifier::rlimit(100)]
    pub fn step<H: Host>(&mut self, host: &mut H, insns: &[Instruction], i: usize, fuel: u64) -> (r: (
        Result<Flow, Stop>,
        u64,
    ))
        requires
            old(self).wf(),
            i < insns@.len(),
        ensures
            step_done(*old(self), *final(self), insns@, i as int, fuel as nat, r),
        decreases fuel, 1nat,
    {
        let ghost s0 = *self;
        let ghost before = *self;
        let ghost xs = insns_view(insns@);
        let ghost m0 = self.machine();
        proof {
            assert(xs[i as int] == insns@[i as int]@);
        }
        let mut fuel_left = fuel;
            match &insns[i] {
            Instruction::Import => {
                return self.import_step(host, insns, i, fuel);
            },
            Instruction::StartBlock => {
                match self.build_block(insns, i + 1) {
                    None => {
                        return (Err(Stop::Fault(Fault::Unbalanced)), fuel_left);
                    },
                    Some(next) => {
                        proof {
                            crate::fold::lemma_fold_consumed(
                                seq![Seq::<Insn>::empty()],
                                insns_view(insns@).skip(i + 1),
                            );
                        }
                        // Folding consumed the instructions before `next`.
                        return (Ok(Flow::Next(next)), fuel_left);
                    },
                }
            },
            Instruction::Return => {
                let v = self.pop_value_from_stack();
                let ghost popped = self.machine();
                self.return_value = v;
                let ghost kept = *self;
                proof {
                    lemma_keeps_trans(&s0, &before, &kept);
                    assert(self.machine() == (Machine { ret: v@, ..popped }));
                }
                if self.call_stack.len() > 0 {
                    self.call_stack.pop();
                }
                proof {
                    lemma_end_activation(&s0, &kept, self);
                }
                return (Ok(Flow::Leave(BreakRequested::Return)), fuel_left);
            },
            Instruction::CallKnownFunction { arg_count, identifier } => {
                return self.known_step(host, insns, i, fuel);
            },
            Instruction::CallUnknownFunction { arg_count } => {
                return self.unknown_step(host, insns, i, fuel);
            },
            Instruction::If { then, else_ } => {
                return self.if_step(host, insns, i, fuel);
            },
            Instruction::Loop { block } => {
                return self.loop_step(host, insns, i, fuel);
            },
            Instruction::BreakIfNot => {
                if self.value_stack.len() > self.frame_floor() {
                    let v = self.pop_value_from_stack();
                    proof {
                        lemma_keeps_trans(&s0, &before, self);
                    }
                    if !v.truthy(&self.store) {
                        return (Ok(Flow::Leave(BreakRequested::Yes)), fuel_left);
                    }
                }
            },
            _ => {
                let ok = self.execute_simple(&insns[i]);
                proof {
                    lemma_keeps_trans(&s0, &before, self);
                }
                if !ok {
                    return (Err(Stop::Fault(Fault::BadIndex)), fuel_left);
                }
            },
        }
        (Ok(Flow::Next(i + 1)), fuel_left)
    }

    /// `Import`: runs the program the host reads for the unquoted path.
    #[verifier::rlimit(100)]
    fn import_step<H: Host>(&mut self, host: &mut H, insns: &[Instruction], i: usize, fuel: u64) -> (r: (
        Result<Flow, Stop>,
        u64,
    ))
        requires
            old(self).wf(),
            i < insns@.len(),
            insns@[i as int]@ is Import,
        ensures
            step_done(*old(self), *final(self), insns@, i as int, fuel as nat, r),
        decreases fuel, 0nat,
    {
        let ghost s0 = *self;
        let ghost before = *self;
        let ghost xs = insns_view(insns@);
        let ghost m0 = self.machine();
        proof {
            assert(xs[i as int] == insns@[i as int]@);
        }
        let mut fuel_left = fuel;
            match &insns[i] {
            Instruction::Import => {
                if self.value_stack.len() <= self.frame_floor() {
                    return (Err(Stop::Fault(Fault::MissingImportPath)), fuel_left);
                }
                let v = self.pop_value_from_stack();
                let text = v.to_string(&self.store);
                let path = match unquote(&text) {
                    Some(p) => p,
                    None => {
                        return (Err(Stop::Fault(Fault::MissingImportPath)), fuel_left);
                    },
                };
                let read = host.read_instructions(path.as_str(), self.base_path.as_str());
                match read {
                    Ok(program) => {
                        if fuel_left == 0 {
                            return (Err(Stop::OutOfFuel), fuel_left);
                        }
                        let ghost mid = *self;
                        let (res, left) = self.execute_insns(host, program.as_slice(), fuel_left - 1);
                        fuel_left = left;
                        match res {
                            Ok(BreakRequested::Return) => {
                                // A `Return` of the imported program ends the
                                // activation that imported it.
                                proof {
                                    lemma_keeps_trans(&s0, &before, &mid);
                                    lemma_keeps_pops(&s0, &mid, self);
                                }
                                return (Ok(Flow::Leave(BreakRequested::Return)), fuel_left);
                            },
                            _ => {},
                        }
                        proof {
                            lemma_keeps_trans(&s0, &before, &mid);
                            lemma_keeps_trans(&s0, &mid, self);
                        }
                        match res {
                            Err(e) => {
                                return (Err(e), fuel_left);
                            },
                            Ok(_) => {},
                        }
                    },
                    Err(_) => {
                        return (Err(Stop::Fault(Fault::ImportFailed)), fuel_left);
                    },
                }
            },
            _ => {},
        }
        (Ok(Flow::Next(i + 1)), fuel_left)
    }

    /// `CallKnownFunction`: calls the function registered under the name.
    #[verifier::rlimit(100)]
    fn known_step<H: Host>(&mut self, host: &mut H, insns: &[Instruction], i: usize, fuel: u64) -> (r: (
        Result<Flow, Stop>,
        u64,
    ))
        requires
            old(self).wf(),
            i < insns@.len(),
            insns@[i as int]@ is CallKnownFunction,
        ensures
            step_done(*old(self), *final(self), insns@, i as int, fuel as nat, r),
        decreases fuel, 0nat,
    {
        let ghost s0 = *self;
        let ghost before = *self;
        let ghost xs = insns_view(insns@);
        let ghost m0 = self.machine();
        proof {
            assert(xs[i as int] == insns@[i as int]@);
        }
        let mut fuel_left = fuel;
            match &insns[i] {
            Instruction::CallKnownFunction { arg_count, identifier } => {
                match self.find_function(identifier) {
                    None => {
                        return (Err(Stop::Fault(Fault::UnknownFunction)), fuel_left);
                    },
                    Some(f) => {
                        if fuel_left == 0 {
                            return (Err(Stop::OutOfFuel), fuel_left);
                        }
                        proof {
                            crate::runtime::lemma_lookup_bound(self.store@.funcs, identifier@);
                        }
                        let (res, left) = self.execute_function(host, f, *arg_count, fuel_left - 1);
                        fuel_left = left;
                        proof {
                            lemma_keeps_trans(&s0, &before, self);
                        }
                        match res {
                            Err(e) => {
                                return (Err(e), fuel_left);
                            },
                            Ok(_) => {},
                        }
                    },
                }
            },
            _ => {},
        }
        (Ok(Flow::Next(i + 1)), fuel_left)
    }

    /// `CallUnknownFunction`: calls the function value on top of the stack.
    #[verifier::rlimit(100)]
    fn unknown_step<H: Host>(&mut self, host: &mut H, insns: &[Instruction], i: usize, fuel: u64) -> (r: (
        Result<Flow, Stop>,
        u64,
    ))
        requires
            old(self).wf(),
            i < insns@.len(),
            insns@[i as int]@ is CallUnknownFunction,
        ensures
            step_done(*old(self), *final(self), insns@, i as int, fuel as nat, r),
        decreases fuel, 0nat,
    {
        let ghost s0 = *self;
        let ghost before = *self;
        let ghost xs = insns_view(insns@);
        let ghost m0 = self.machine();
        proof {
            assert(xs[i as int] == insns@[i as int]@);
        }
        let mut fuel_left = fuel;
            match &insns[i] {
            Instruction::CallUnknownFunction { arg_count } => {
                let v = self.pop_value_from_stack();
                match v {
                    Value::Function(f) => {
                        if f >= self.store.functions.len() {
                            return (Err(Stop::Fault(Fault::NotAFunction)), fuel_left);
                        }
                        if fuel_left == 0 {
                            return (Err(Stop::OutOfFuel), fuel_left);
                        }
                        let ghost mid = *self;
                        let (res, left) = self.execute_function(host, f, *arg_count, fuel_left - 1);
                        fuel_left = left;
                        proof {
                            lemma_keeps_trans(&before, &mid, self);
                            lemma_keeps_trans(&s0, &before, self);
                        }
                        match res {
                            Err(e) => {
                                return (Err(e), fuel_left);
                            },
                            Ok(_) => {},
                        }
                    },
                    _ => {
                        return (Err(Stop::Fault(Fault::NotAFunction)), fuel_left);
                    },
                }
            },
            _ => {},
        }
        (Ok(Flow::Next(i + 1)), fuel_left)
    }

    /// `If`: runs the arm the popped condition picks, then cuts the stack back.
    #[verifier::rlimit(100)]
    fn if_step<H: Host>(&mut self, host: &mut H, insns: &[Instruction], i: usize, fuel: u64) -> (r: (
        Result<Flow, Stop>,
        u64,
    ))
        requires
            old(self).wf(),
            i < insns@.len(),
            insns@[i as int]@ is If,
        ensures
            step_done(*old(self), *final(self), insns@, i as int, fuel as nat, r),
        decreases fuel, 0nat,
    {
        let ghost s0 = *self;
        let ghost before = *self;
        let ghost xs = insns_view(insns@);
        let ghost m0 = self.machine();
        proof {
            assert(xs[i as int] == insns@[i as int]@);
        }
        let mut fuel_left = fuel;
            match &insns[i] {
            Instruction::If { then, else_ } => {
                let c = self.pop_value_from_stack();
                let cond = c.truthy(&self.store);
                let h = self.value_stack.len();
                if fuel_left == 0 {
                    return (Err(Stop::OutOfFuel), fuel_left);
                }
                let ghost mid = *self;
                let (res, left) = if cond {
                    self.execute_insns(host, then.0.as_slice(), fuel_left - 1)
                } else {
                    self.execute_insns(host, else_.0.as_slice(), fuel_left - 1)
                };
                fuel_left = left;
                let ghost mid2 = *self;
                proof {
                    assert(mid.floor() <= h);
                }
                self.unwind_to(h);
                proof {
                    lemma_block_view(*then);
                    lemma_block_view(*else_);
                    assert(self.machine().stack =~= unwind_m(mid2.machine(), h as nat).stack);
                    assert(self.machine() == unwind_m(mid2.machine(), h as nat));
                    if res == Ok::<BreakRequested, Stop>(BreakRequested::Return) {
                        lemma_pops_cut(&mid, &mid2, self, h as nat);
                        lemma_keeps_trans(&s0, &before, &mid);
                        lemma_keeps_pops(&s0, &mid, self);
                        let m1 = pop_m(m0).1;
                        let arm = if cond {
                            then@
                        } else {
                            else_@
                        };
                        match run_from(m1, arm, 0, (fuel - 1) as nat) {
                            Some((r2, m2, l2)) => {
                                assert(self.stack() =~= unwind_m(m2, h as nat).stack);
                            },
                            None => {},
                        }
                    } else {
                        lemma_keeps_trans(&mid, &mid2, self);
                        lemma_keeps_trans(&before, &mid, self);
                        lemma_keeps_trans(&s0, &before, self);
                    }
                }
                match res {
                    Ok(BreakRequested::No) => {},
                    Ok(b) => {
                        return (Ok(Flow::Leave(b)), fuel_left);
                    },
                    Err(e) => {
                        return (Err(e), fuel_left);
                    },
                }
            },
            _ => {},
        }
        (Ok(Flow::Next(i + 1)), fuel_left)
    }

    /// `Loop`: runs the body until a `BreakIfNot` fires, cutting the stack back after each round.
    #[verifier::rlimit(100)]
    fn loop_step<H: Host>(&mut self, host: &mut H, insns: &[Instruction], i: usize, fuel: u64) -> (r: (
        Result<Flow, Stop>,
        u64,
    ))
        requires
            old(self).wf(),
            i < insns@.len(),
            insns@[i as int]@ is Loop,
        ensures
            step_done(*old(self), *final(self), insns@, i as int, fuel as nat, r),
        decreases fuel, 0nat,
    {
        let ghost s0 = *self;
        let ghost before = *self;
        let ghost xs = insns_view(insns@);
        let ghost m0 = self.machine();
        proof {
            assert(xs[i as int] == insns@[i as int]@);
        }
        let mut fuel_left = fuel;
            match &insns[i] {
            Instruction::Loop { block } => {
                let h = self.value_stack.len();
                let ghost top = *self;
                let ghost blk = xs[i as int]->Loop_block;
                proof {
                    lemma_block_view(*block);
                    assert(blk == insns_view(block.0@));
                    assert(step_spec(m0, xs, i as int, fuel as nat) == loop_spec(
                        m0,
                        blk,
                        h as nat,
                        i as int,
                        fuel as nat,
                    ));
                }
                loop
                    invariant_except_break
                        loop_spec(m0, blk, h as nat, i as int, fuel as nat) is Some ==> loop_spec(
                            m0,
                            blk,
                            h as nat,
                            i as int,
                            fuel as nat,
                        ) == loop_spec(self.machine(), blk, h as nat, i as int, fuel_left as nat),
                    invariant
                        i < insns@.len(),
                        insns@[i as int]@ is Loop,
                        blk == insns_view(block.0@),
                        m0 == old(self).machine(),
                        h == m0.stack.len(),
                        xs == insns_view(insns@),
                        step_spec(m0, xs, i as int, fuel as nat) == loop_spec(
                            m0,
                            blk,
                            h as nat,
                            i as int,
                            fuel as nat,
                        ),
                        h == old(self).value_stack@.len(),
                        s0 == *old(self),
                        s0.wf(),
                        s0.keeps_frame(self),
                        top.keeps_frame(self),
                        top.wf(),
                        h == top.value_stack@.len(),
                        fuel_left <= fuel,
                        self.value_stack@.len() <= h,
                    ensures
                        loop_spec(m0, blk, h as nat, i as int, fuel as nat) is Some ==> loop_spec(
                            m0,
                            blk,
                            h as nat,
                            i as int,
                            fuel as nat,
                        ) == Some((Ok::<Flow, Stop>(Flow::Next((i + 1) as usize)), self.machine(), fuel_left as nat)),
                        s0.keeps_frame(self),
                        fuel_left <= fuel,
                        self.value_stack@.len() <= h,
                    decreases fuel_left,
                {
                    if fuel_left == 0 {
                        proof {
                            assert(loop_spec(self.machine(), blk, h as nat, i as int, 0) is None);
                        }
                        return (Err(Stop::OutOfFuel), fuel_left);
                    }
                    let ghost b0 = *self;
                    let ghost fl0 = fuel_left;
                    let (res, left) = self.execute_insns(host, block.0.as_slice(), fuel_left - 1);
                    fuel_left = left;
                    let ghost b1 = *self;
                    proof {
                        assert(b0.floor() <= h);
                    }
                    self.unwind_to(h);
                    proof {
                        if res == Ok::<BreakRequested, Stop>(BreakRequested::Return) {
                            lemma_pops_cut(&b0, &b1, self, h as nat);
                            lemma_keeps_pops(&s0, &b0, self);
                            match run_from(b0.machine(), blk, 0, (fl0 - 1) as nat) {
                                Some((r2, m2, l2)) => {
                                    assert(self.stack() =~= unwind_m(m2, h as nat).stack);
                                },
                                None => {},
                            }
                        } else {
                            lemma_keeps_trans(&b0, &b1, self);
                            lemma_keeps_trans(&top, &b0, self);
                            lemma_keeps_trans(&s0, &b0, self);
                        }
                        assert(self.machine().stack =~= unwind_m(b1.machine(), h as nat).stack);
                        assert(self.machine() == unwind_m(b1.machine(), h as nat));
                        let cur = b0.machine();
                        if loop_spec(cur, blk, h as nat, i as int, fl0 as nat) is Some {
                            assert(run_from(cur, blk, 0, (fl0 - 1) as nat) is Some);
                            match run_from(cur, blk, 0, (fl0 - 1) as nat) {
                                Some((r2, m2, l2)) => {
                                    assert(r2 == res && l2 == left as nat);
                                    let m3 = unwind_m(m2, h as nat);
                                    if res != Ok::<BreakRequested, Stop>(BreakRequested::Return) {
                                        assert(m2 == b1.machine());
                                        assert(m3 == self.machine());
                                    }
                                    match res {
                                        Ok(BreakRequested::No) => {
                                            assert(loop_spec(cur, blk, h as nat, i as int, fl0 as nat)
                                                == loop_spec(m3, blk, h as nat, i as int, left as nat));
                                        },
                                        Ok(BreakRequested::Yes) => {
                                            assert(loop_spec(cur, blk, h as nat, i as int, fl0 as nat) == Some(
                                                (Ok::<Flow, Stop>(Flow::Next((i + 1) as usize)), m3, left as nat),
                                            ));
                                        },
                                        Ok(b) => {
                                            assert(loop_spec(cur, blk, h as nat, i as int, fl0 as nat) == Some(
                                                (Ok::<Flow, Stop>(Flow::Leave(b)), m3, left as nat),
                                            ));
                                            assert(self.stack() =~= m3.stack);
                                        },
                                        Err(e) => {
                                            assert(loop_spec(cur, blk, h as nat, i as int, fl0 as nat) == Some(
                                                (Err::<Flow, Stop>(e), m3, left as nat),
                                            ));
                                        },
                                    }
                                },
                                None => {},
                            }
                        }
                    }
                    match res {
                        Ok(BreakRequested::Yes) => {
                            break ;
                        },
                        Ok(BreakRequested::No) => {},
                        Ok(b) => {
                            return (Ok(Flow::Leave(b)), fuel_left);
                        },
                        Err(e) => {
                            return (Err(e), fuel_left);
                        },
                    }
                }
            },
            _ => {},
        }
        (Ok(Flow::Next(i + 1)), fuel_left)
    }

    /// Runs a folded instruction sequence of the current activation. Every
    /// nested run (a branch, a loop round, a call, an import) spends one unit
    /// of `fuel`; the unspent fuel is returned.
    pub fn execute_insns<H: Host>(&mut self, host: &mut H, insns: &[Instruction], fuel: u64) -> (r: (
        Result<BreakRequested, Stop>,
        u64,
    ))
        requires
            old(self).wf(),
        ensures
            run_from(old(self).machine(), insns_view(insns@), 0, fuel as nat) matches Some(
                (res, m2, left),
            ) ==> r.0 == res && final(self).matches_state(
                m2,
                res == Ok::<BreakRequested, Stop>(BreakRequested::Return),
            ) && r.1 == left,
            old(self).ends_frame(final(self), r.0 == Ok::<BreakRequested, Stop>(BreakRequested::Return)),
            r.1 <= fuel,
            // Definitions and declarations leave the value stack as it was.
            (exists|items: Seq<TopItem>|
                top_ok(items) && insns_view(insns@) == #[trigger] top_stream(items)) ==> (r.0 == Ok::<
                BreakRequested,
                Stop,
            >(BreakRequested::No) && final(self).stack() == old(self).stack()),
        decreases fuel, 2nat,
    {
        let ghost s0 = *self;
        let mut left_fuel = fuel;
        let mut i: usize = 0;
        let ghost is_top = exists|items: Seq<TopItem>|
            top_ok(items) && insns_view(insns@) == #[trigger] top_stream(items);
        let ghost items: Seq<TopItem> = if is_top {
            choose|items: Seq<TopItem>|
                top_ok(items) && insns_view(insns@) == #[trigger] top_stream(items)
        } else {
            Seq::empty()
        };
        let ghost mut k: nat = 0;
        let ghost mut mid: bool = false;
        proof {
            if is_top {
                assert(items.take(0) =~= Seq::<TopItem>::empty());
            }
        }
        while i < insns.len()
            invariant
                s0 == *old(self),
                s0.wf(),
                s0.keeps_frame(self),
                left_fuel <= fuel,
                is_top == (exists|its: Seq<TopItem>|
                    top_ok(its) && insns_view(insns@) == #[trigger] top_stream(its)),
                is_top ==> top_ok(items) && insns_view(insns@) == top_stream(items),
                is_top ==> k <= items.len(),
                is_top && !mid ==> i == top_stream(items.take(k as int)).len() && self.stack()
                    == s0.stack(),
                is_top && mid ==> k < items.len() && items[k as int] is Declare && i == top_stream(
                    items.take(k as int),
                ).len() + 1 && self.stack() == s0.stack().push(
                    Val::Str(items[k as int]->Declare_0),
                ),
                is_top ==> left_fuel == fuel,
                i <= insns@.len(),
                run_from(s0.machine(), insns_view(insns@), 0, fuel as nat) is Some ==> run_from(
                    s0.machine(),
                    insns_view(insns@),
                    0,
                    fuel as nat,
                ) == run_from(self.machine(), insns_view(insns@), i as int, left_fuel as nat),
            decreases insns@.len() - i,
        {
            let ghost before = *self;
            proof {
                if is_top {
                    lemma_top_all(items);
                    if k == items.len() {
                        assert(!mid);
                        assert(false);
                    }
                    lemma_top_split(items, k as int);
                    let base = top_stream(items.take(k as int)).len();
                    let e = item_stream(items[k as int]);
                    let upto = top_stream(items.take(k as int + 1));
                    assert(insns_view(insns@)[i as int] == insn_view(insns@[i as int]));
                    assert(insns_view(insns@)[i as int] == upto[i as int]);
                    assert(upto[i as int] == e[i - base]);
                    if !mid {
                        assert(items[k as int] is Define ==> insn_view(insns@[i as int]) == Insn::StartBlock);
                        assert(items[k as int] is Declare ==> insn_view(insns@[i as int]) == Insn::StringConst(items[k as int]->Declare_0));
                    } else {
                        assert(insn_view(insns@[i as int]) == Insn::Global);
                    }
                }
            }
            let (res, left) = self.step(host, insns, i, left_fuel);
            left_fuel = left;
            proof {
                if res == Ok::<Flow, Stop>(Flow::Leave(BreakRequested::Return)) {
                    lemma_keeps_pops(&s0, &before, self);
                } else {
                    lemma_keeps_trans(&s0, &before, self);
                }
                if is_top {
                    if !mid && items[k as int] is Define {
                        lemma_fold_top_define(items, k as int);
                        lemma_top_split(items, k as int);
                        lemma_top_all(items);
                        k = k + 1;
                    } else if !mid {
                        mid = true;
                    } else {
                        lemma_top_split(items, k as int);
                        mid = false;
                        k = k + 1;
                    }
                }
            }
            match res {
                Ok(Flow::Next(j)) => {
                    i = j;
                },
                Ok(Flow::Leave(b)) => {
                    return (Ok(b), left_fuel);
                },
                Err(e) => {
                    return (Err(e), left_fuel);
                },
            }
        }
        proof {
            if is_top && mid {
                lemma_top_split(items, k as int);
                lemma_top_all(items);
            }
        }
        (Ok(BreakRequested::No), left_fuel)
    }


    /// A runtime with the given intrinsics registered, the top-level
    /// activation in place, and `argv` as a list of strings (or null).
    pub fn create(intrinsics: &[NativeFunction], argv: Option<Vec<String>>, base_path: String) -> (r:
        Runtime)
        ensures
            r.wf(),
            r.floor() == 0,
            r.value_stack@.len() == 0,
            r.globals@.len() == 0,
            r.return_value@ == Val::Null,
            r.base_path == base_path,
            r.call_stack@.len() == 1 && r.call_stack@[0].locals@.len() == 0,
            r.store@.funcs.len() == intrinsics@.len(),
            forall|i: int|
                0 <= i < intrinsics@.len() ==> #[trigger] r.store@.funcs[i] == (FnModel::Native {
                    name: intrinsics@[i].name@,
                    arity: intrinsics@[i].arity,
                    op: intrinsics@[i].op,
                }),
            argv is None ==> r.argv@ == Val::Null && r.store@.lists.len() == 0,
            argv matches Some(a) ==> r.argv@ == Val::List(0) && r.store@.lists.len() == 1
                && r.store@.lists[0] == a@.map_values(|s: String| Val::Str(s@)),
    {
        let mut functions: Vec<Function> = Vec::new();
        let mut i: usize = 0;
        while i < intrinsics.len()
            invariant
                i <= intrinsics@.len(),
                functions@.len() == i,
                forall|j: int|
                    0 <= j < i ==> (#[trigger] functions@[j] matches Function::Native(n) && n.name@
                        == intrinsics@[j].name@ && n.arity == intrinsics@[j].arity && n.op
                        == intrinsics@[j].op),
            decreases intrinsics@.len() - i,
        {
            let n = &intrinsics[i];
            functions.push(
                Function::Native(NativeFunction { name: n.name.clone(), arity: n.arity, op: n.op }),
            );
            i = i + 1;
        }
        let mut store = Store { lists: Vec::new(), functions };
        let argv_value = match argv {
            Some(items) => {
                let mut list: Vec<Value> = Vec::new();
                let mut k: usize = 0;
                while k < items.len()
                    invariant
                        k <= items@.len(),
                        vals(list@) == items@.take(k as int).map_values(|s: String| Val::Str(s@)),
                    decreases items@.len() - k,
                {
                    let v = Value::String(items[k].clone());
                    proof {
                        lemma_vals_push(list@, v);
                    }
                    list.push(v);
                    k = k + 1;
                    proof {
                        assert(vals(list@) =~= items@.take(k as int).map_values(
                            |s: String| Val::Str(s@),
                        ));
                    }
                }
                proof {
                    assert(items@.take(k as int) =~= items@);
                }
                Value::List(store.push_list(list))
            },
            None => Value::Null,
        };
        let top = Frame { locals: Vec::new(), base: 0 };
        let mut call_stack: Vec<Frame> = Vec::new();
        call_stack.push(top);
        let r = Runtime {
            value_stack: Vec::new(),
            globals: Vec::new(),
            store,
            call_stack,
            argv: argv_value,
            base_path,
            return_value: Value::Null,
        };
        r
    }

    /// Runs a program: its top level, then `main`, if a bytecode function
    /// of that name is registered, with `argv` as its one argument. The
    /// value `main` returns is left on the stack.
    #[verifier::rlimit(100)]
    pub fn execute_program<H: Host>(&mut self, host: &mut H, insns: &[Instruction], fuel: u64) -> (r:
        Result<(), Stop>)
        requires
            old(self).wf(),
        ensures
            old(self).call_stack@.len() == 1 ==> (program_spec(
                old(self).machine(),
                insns_view(insns@),
                fuel as nat,
                old(self).argv@,
            ) matches Some((res, m2)) ==> r == res && final(self).machine() == m2),
            final(self).wf(),
            final(self).argv == old(self).argv,
            // A program of definitions and declarations leaves at most the
            // value `main` returned.
            (exists|items: Seq<TopItem>|
                top_ok(items) && insns_view(insns@) == #[trigger] top_stream(items)) && r is Ok ==> (
            final(self).stack().len() <= old(self).stack().len() + 1 && final(self).stack().take(
                old(self).stack().len() as int,
            ) == old(self).stack()),
    {
        let ghost s0 = *self;
        let (res, left) = self.execute_insns(host, insns, fuel);
        let ghost s1 = *self;
        let ghost top_res = res;
        proof {
            if res == Ok::<BreakRequested, Stop>(BreakRequested::Return) && s0.call_stack@.len() == 1 {
                assert(s1.call_stack@.len() == 0);
                assert(s1.locals() =~= Seq::<Val>::empty());
            }
        }
        match res {
            Err(e) => {
                return Err(e);
            },
            Ok(_) => {},
        }
        let main_name = String::from_str("main");
        match self.find_function(&main_name) {
            Some(f) => {
                proof {
                    crate::runtime::lemma_lookup_bound(self.store@.funcs, main_name@);
                }
                if self.store.functions[f].is_bytecode() {
                    let a = self.argv.duplicate();
                    self.push_value_to_stack(a);
                    let ghost s2 = *self;
                    let (res, _) = self.execute_function(host, f, 1, left);
                    proof {
                        if top_res != Ok::<BreakRequested, Stop>(BreakRequested::Return) {
                            lemma_keeps_trans(&s0, &s1, &s2);
                            lemma_keeps_trans(&s0, &s2, self);
                        }
                        let k = s1.value_stack@.len() as int;
                        assert(s2.value_stack@.take(k) =~= s1.value_stack@);
                        assert(self.stack().take(k) =~= vals(self.value_stack@.take(k)));
                    }
                    match res {
                        Err(e) => {
                            return Err(e);
                        },
                        Ok(_) => {},
                    }
                }
            },
            None => {},
        }
        proof {
            if self.stack().len() == s1.stack().len() {
                assert(self.stack().take(s1.stack().len() as int) =~= self.stack());
            }
        }
        Ok(())
    }


    /// Folds the instructions after a `StartBlock`, from `start`, registers
    /// the function whose definition closes the block, and gives the index to
    /// go on from; `None` for a stream that closes a block never opened.
    pub fn build_block(&mut self, insns: &[Instruction], start: usize) -> (r: Option<usize>)
        requires
            old(self).wf(),
            start <= insns@.len(),
        ensures
            old(self).keeps_frame(final(self)),
            final(self).value_stack == old(self).value_stack,
            final(self).globals == old(self).globals,
            final(self).call_stack == old(self).call_stack,
            final(self).return_value == old(self).return_value,
            final(self).store@.lists == old(self).store@.lists,
            match fold_from(insns_view(insns@).skip(start as int)) {
                Fold::Broken => r is None && final(self).store@ == old(self).store@,
                Fold::Open(_) => r == Some(insns@.len() as usize) && final(self).store@ == old(
                    self,
                ).store@,
                Fold::Defined { arity, name, body, consumed } => {
                    &&& r == Some((start + consumed) as usize)
                    &&& final(self).store@.funcs == old(self).store@.funcs.push(
                        FnModel::Bytecode { name, arity, code: body, locals: Seq::empty() },
                    )
                },
            },
    {
        match build_block(insns, start) {
            None => None,
            Some(folded) => {
                match folded.function {
                    Some(def) => {
                        self.register(def.0, def.1, def.2);
                    },
                    None => {},
                }
                Some(folded.next)
            },
        }
    }

    /// Adds a bytecode function to the registry; it replaces an earlier one
    /// of the same name for later look-ups.
    pub fn register(&mut self, arity: u64, name: String, code: Block)
        requires
            old(self).wf(),
        ensures
            old(self).keeps_frame(final(self)),
            final(self).store@.funcs.len() == old(self).store@.funcs.len() + 1,
            final(self).store@.funcs.last() is Bytecode,
            final(self).store@.funcs == old(self).store@.funcs.push(
                FnModel::Bytecode { name: name@, arity, code: code@, locals: Seq::empty() },
            ),
            final(self).store@.lists == old(self).store@.lists,
            final(self).value_stack == old(self).value_stack,
            final(self).globals == old(self).globals,
            final(self).call_stack == old(self).call_stack,
            final(self).return_value == old(self).return_value,
    {
        let ghost model = FnModel::Bytecode { name: name@, arity, code: code@, locals: Seq::empty() };
        let locals: Vec<Value> = Vec::new();
        proof {
            assert(vals(locals@) =~= Seq::<Val>::empty());
        }
        let f = Function::Bytecode(BytecodeFunction { name, arity, code, locals });
        proof {
            assert(f@ == model);
        }
        self.store.functions.push(f);
        proof {
            assert(final(self).store@.lists =~= old(self).store@.lists);
            assert(final(self).store@.funcs =~= old(self).store@.funcs.push(model));
            assert(self.value_stack@.take(self.floor() as int) =~= old(self).value_stack@.take(
                self.floor() as int,
            ));
        }
    }
}

} // verus!
