//! What running instructions does to the machine, as spec functions. A run
//! is described up to the first step whose outcome the host decides (an
//! import, `prompt`, `random`) or whose budget is spent; there the
//! description is `None`.
use vstd::prelude::*;
use crate::fold::{Fold, fold_from};
use crate::instruction::Insn;
use crate::intrinsics::native_spec;
use crate::runtime::{
    BreakRequested, Fault, Flow, Machine, Stop, lookup_function, pop_list_m, pop_m, push_m,
    simple_step,
};
use crate::value::{FnModel, Heap, Val, depth_of, text_of, truthy_of};

verus! {

/// The machine with its value stack cut back to at most `h` values.
pub open spec fn unwind_m(m: Machine, h: nat) -> Machine {
    Machine { stack: m.stack.take(if h < m.stack.len() { h as int } else { m.stack.len() as int }), ..m }
}

/// The heap with a bytecode function registered.
pub open spec fn with_function(m: Machine, f: FnModel) -> Machine {
    Machine { heap: Heap { lists: m.heap.lists, funcs: m.heap.funcs.push(f) }, ..m }
}

/// Running `xs` from index `i`: the outcome, the machine after, and the fuel
/// left.
pub open spec fn run_from(m: Machine, xs: Seq<Insn>, i: int, fuel: nat) -> Option<
    (Result<BreakRequested, Stop>, Machine, nat),
>
    decreases fuel, 2nat, if 0 <= i < xs.len() { (xs.len() - i) as nat } else { 0nat },
{
    if i < 0 || i >= xs.len() {
        Some((Ok(BreakRequested::No), m, fuel))
    } else {
        match step_spec(m, xs, i, fuel) {
            Some((Ok(Flow::Next(j)), m2, left)) => if i < j <= xs.len() && left <= fuel {
                run_from(m2, xs, j as int, left)
            } else {
                None
            },
            Some((Ok(Flow::Leave(b)), m2, left)) => Some((Ok(b), m2, left)),
            Some((Err(e), m2, left)) => Some((Err(e), m2, left)),
            None => None,
        }
    }
}

/// Calling the function with handle `f` with `argc` arguments: a bytecode
/// function runs on a fresh activation whose locals are the arguments in the
/// order they were pushed; afterwards the stack is cut back to where the
/// arguments began and the value its `Return` took (null if none) is pushed.
pub open spec fn call_spec(m: Machine, f: int, argc: u64, fuel: nat) -> Option<
    (Result<(), Stop>, Machine, nat),
>
    decreases fuel, 3nat, 0nat,
{
    if f < 0 || f >= m.heap.funcs.len() {
        None
    } else {
        match m.heap.funcs[f] {
            FnModel::Native { op, .. } => match native_spec(m, op) {
                Some((res, m2)) => Some((res, m2, fuel)),
                None => None,
            },
            FnModel::Bytecode { code, .. } => {
                let (args, m1) = pop_list_m(m, argc as nat);
                let base = m1.stack.len();
                let callee = Machine { floor: base, locals: args, active: true, ..m1 };
                match run_from(callee, code, 0, fuel) {
                    Some((res, m2, left)) => {
                        let after = Machine {
                            stack: m2.stack.take(base as int).push(m2.ret),
                            floor: m.floor,
                            locals: m.locals,
                            active: m.active,
                            ret: Val::Null,
                            ..m2
                        };
                        match res {
                            Ok(_) => Some((Ok(()), after, left)),
                            Err(e) => Some((Err(e), after, left)),
                        }
                    },
                    None => None,
                }
            },
        }
    }
}

/// Rounds of a loop body; the stack goes back to `h` values after each.
pub open spec fn loop_spec(m: Machine, body: Seq<Insn>, h: nat, i: int, fuel: nat) -> Option<
    (Result<Flow, Stop>, Machine, nat),
>
    decreases fuel, 0nat, 0nat,
{
    if fuel == 0 {
        None
    } else {
        match run_from(m, body, 0, (fuel - 1) as nat) {
            Some((res, m2, left)) => {
                let m3 = unwind_m(m2, h);
                match res {
                    Ok(BreakRequested::Yes) => Some((Ok(Flow::Next((i + 1) as usize)), m3, left)),
                    Ok(BreakRequested::No) => if left < fuel {
                        loop_spec(m3, body, h, i, left)
                    } else {
                        None
                    },
                    Ok(b) => Some((Ok(Flow::Leave(b)), m3, left)),
                    Err(e) => Some((Err(e), m3, left)),
                }
            },
            None => None,
        }
    }
}

/// Where a call leaves the sequence it stands in.
pub open spec fn after_call(r: Option<(Result<(), Stop>, Machine, nat)>, i: int) -> Option<
    (Result<Flow, Stop>, Machine, nat),
> {
    match r {
        Some((Ok(_), m2, left)) => Some((Ok(Flow::Next((i + 1) as usize)), m2, left)),
        Some((Err(e), m2, left)) => Some((Err(e), m2, left)),
        None => None,
    }
}

/// One instruction: what it does and where execution goes on.
pub open spec fn step_spec(m: Machine, xs: Seq<Insn>, i: int, fuel: nat) -> Option<
    (Result<Flow, Stop>, Machine, nat),
>
    decreases fuel, 1nat, 0nat,
{
    if i < 0 || i >= xs.len() {
        None
    } else {
        let next = Flow::Next((i + 1) as usize);
        match xs[i] {
            Insn::Import => if m.stack.len() <= m.floor {
                Some((Err(Stop::Fault(Fault::MissingImportPath)), m, fuel))
            } else if text_of(pop_m(m).0, m.heap, depth_of(m.heap)).len() < 2 {
                Some((Err(Stop::Fault(Fault::MissingImportPath)), pop_m(m).1, fuel))
            } else {
                None
            },
            Insn::StartBlock => match fold_from(xs.skip(i + 1)) {
                Fold::Broken => Some((Err(Stop::Fault(Fault::Unbalanced)), m, fuel)),
                Fold::Open(_) => Some((Ok(Flow::Next(xs.len() as usize)), m, fuel)),
                Fold::Defined { arity, name, body, consumed } => Some(
                    (
                        Ok(Flow::Next((i + 1 + consumed) as usize)),
                        with_function(
                            m,
                            FnModel::Bytecode { name, arity, code: body, locals: Seq::empty() },
                        ),
                        fuel,
                    ),
                ),
            },
            Insn::Return => {
                let (v, m1) = pop_m(m);
                Some((Ok(Flow::Leave(BreakRequested::Return)), Machine { ret: v, ..m1 }, fuel))
            },
            Insn::BreakIfNot => if m.stack.len() > m.floor {
                let (v, m1) = pop_m(m);
                if truthy_of(v, m1.heap) {
                    Some((Ok(next), m1, fuel))
                } else {
                    Some((Ok(Flow::Leave(BreakRequested::Yes)), m1, fuel))
                }
            } else {
                Some((Ok(next), m, fuel))
            },
            Insn::CallKnownFunction { arg_count, identifier } => match lookup_function(
                m.heap.funcs,
                identifier,
            ) {
                None => Some((Err(Stop::Fault(Fault::UnknownFunction)), m, fuel)),
                Some(f) => if fuel == 0 {
                    None
                } else {
                    after_call(call_spec(m, f, arg_count, (fuel - 1) as nat), i)
                },
            },
            Insn::CallUnknownFunction { arg_count } => {
                let (v, m1) = pop_m(m);
                match v {
                    Val::Func(f) => if f >= m1.heap.funcs.len() {
                        Some((Err(Stop::Fault(Fault::NotAFunction)), m1, fuel))
                    } else if fuel == 0 {
                        None
                    } else {
                        after_call(call_spec(m1, f as int, arg_count, (fuel - 1) as nat), i)
                    },
                    _ => Some((Err(Stop::Fault(Fault::NotAFunction)), m1, fuel)),
                }
            },
            Insn::If { then, else_ } => {
                let (c, m1) = pop_m(m);
                let h = m1.stack.len();
                if fuel == 0 {
                    None
                } else {
                    let arm = if truthy_of(c, m1.heap) {
                        then
                    } else {
                        else_
                    };
                    match run_from(m1, arm, 0, (fuel - 1) as nat) {
                        Some((res, m2, left)) => {
                            let m3 = unwind_m(m2, h);
                            match res {
                                Ok(BreakRequested::No) => Some((Ok(next), m3, left)),
                                Ok(b) => Some((Ok(Flow::Leave(b)), m3, left)),
                                Err(e) => Some((Err(e), m3, left)),
                            }
                        },
                        None => None,
                    }
                }
            },
            Insn::Loop { block } => loop_spec(m, block, m.stack.len(), i, fuel),
            x => match simple_step(m, x) {
                Some(m2) => Some((Ok(next), m2, fuel)),
                None => Some((Err(Stop::Fault(Fault::BadIndex)), m, fuel)),
            },
        }
    }
}

/// A whole program, run from the top-level activation: its top level, then
/// `main` with `argv` as its one argument when `main` is a bytecode
/// function. A `Return` at the top level ends the top-level activation.
pub open spec fn program_spec(m: Machine, xs: Seq<Insn>, fuel: nat, argv: Val) -> Option<
    (Result<(), Stop>, Machine),
> {
    match run_from(m, xs, 0, fuel) {
        Some((Err(e), m1, _)) => Some((Err(e), m1)),
        Some((Ok(BreakRequested::Return), m0, left)) => {
            let m1 = Machine { floor: 0, locals: Seq::empty(), active: false, ..m0 };
            match lookup_function(m1.heap.funcs, "main"@) {
                Some(f) if m1.heap.funcs[f] is Bytecode => match call_spec(push_m(m1, argv), f, 1, left) {
                    Some((res, m2, _)) => Some((res, m2)),
                    None => None,
                },
                _ => Some((Ok(()), m1)),
            }
        },
        Some((Ok(_), m1, left)) => match lookup_function(m1.heap.funcs, "main"@) {
            Some(f) if m1.heap.funcs[f] is Bytecode => match call_spec(push_m(m1, argv), f, 1, left) {
                Some((res, m2, _)) => Some((res, m2)),
                None => None,
            },
            _ => Some((Ok(()), m1)),
        },
        None => None,
    }
}

} // verus!
