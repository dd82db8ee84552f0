//! Folding a flat instruction stream into nested blocks. `StartBlock` opens a
//! block; `If` and `Loop` close the blocks they take as arms or body;
//! `DefineFunction` closes the outermost block as a function body.
use vstd::prelude::*;
use crate::instruction::{Block, Insn, Instruction, insn_view, insns_view};

verus! {

/// Where folding stands: blocks still open, a function defined after
/// `consumed` instructions, or a stream that closes a block that is not open.
pub enum Fold {
    Open(Seq<Seq<Insn>>),
    Defined { arity: u64, name: Seq<char>, body: Seq<Insn>, consumed: nat },
    Broken,
}

/// Appends `x` to the innermost open block.
pub open spec fn append_top(st: Seq<Seq<Insn>>, x: Insn) -> Fold {
    if st.len() > 0 {
        Fold::Open(st.drop_last().push(st.last().push(x)))
    } else {
        Fold::Broken
    }
}

/// One instruction of folding.
pub open spec fn fold_step(st: Seq<Seq<Insn>>, x: Insn) -> Fold {
    match x {
        Insn::StartBlock => Fold::Open(st.push(Seq::empty())),
        Insn::EndBlock => Fold::Open(st),
        Insn::If { then, else_ } => {
            // The else arm was opened last, so it is closed first.
            let need = (if else_.len() == 0 { 1int } else { 0int }) + (if then.len() == 0 {
                1int
            } else {
                0int
            });
            if st.len() < need {
                Fold::Broken
            } else {
                let e = if else_.len() == 0 {
                    st.last()
                } else {
                    else_
                };
                let st1 = if else_.len() == 0 {
                    st.drop_last()
                } else {
                    st
                };
                let t = if then.len() == 0 {
                    st1.last()
                } else {
                    then
                };
                let st2 = if then.len() == 0 {
                    st1.drop_last()
                } else {
                    st1
                };
                append_top(st2, Insn::If { then: t, else_: e })
            }
        },
        Insn::Loop { block } => {
            if block.len() == 0 {
                if st.len() == 0 {
                    Fold::Broken
                } else {
                    append_top(st.drop_last(), Insn::Loop { block: st.last() })
                }
            } else {
                append_top(st, Insn::Loop { block })
            }
        },
        Insn::DefineFunction { param_count, identifier } => {
            if st.len() == 0 {
                Fold::Broken
            } else {
                Fold::Defined { arity: param_count, name: identifier, body: st.last(), consumed: 1 }
            }
        },
        _ => append_top(st, x),
    }
}

/// Folding a whole stream from the stack `st`, up to the first function
/// definition.
pub open spec fn fold_run(st: Seq<Seq<Insn>>, xs: Seq<Insn>) -> Fold
    decreases xs.len(),
{
    if xs.len() == 0 {
        Fold::Open(st)
    } else {
        match fold_step(st, xs[0]) {
            Fold::Open(st2) => match fold_run(st2, xs.drop_first()) {
                Fold::Defined { arity, name, body, consumed } => Fold::Defined {
                    arity,
                    name,
                    body,
                    consumed: consumed + 1,
                },
                other => other,
            },
            other => other,
        }
    }
}

pub proof fn lemma_fold_consumed(st: Seq<Seq<Insn>>, xs: Seq<Insn>)
    ensures
        fold_run(st, xs) matches Fold::Defined { consumed, .. } ==> 1 <= consumed <= xs.len(),
    decreases xs.len(),
{
    if xs.len() > 0 {
        match fold_step(st, xs[0]) {
            Fold::Open(st2) => {
                lemma_fold_consumed(st2, xs.drop_first());
            },
            _ => {},
        }
    }
}

/// Folding as `StartBlock` begins it: one block open.
pub open spec fn fold_from(xs: Seq<Insn>) -> Fold {
    fold_run(seq![Seq::<Insn>::empty()], xs)
}

/// What folding found.
pub struct Folded {
    /// Index of the first instruction after those folded.
    pub next: usize,
    /// The function that closed the outermost block, if one did.
    pub function: Option<(u64, String, Block)>,
}

pub open spec fn stack_view(s: Seq<Block>) -> Seq<Seq<Insn>> {
    s.map_values(|b: Block| b@)
}

fn append_to_top(stack: &mut Vec<Block>, x: Instruction) -> (ok: bool)
    ensures
        ok == (old(stack)@.len() > 0),
        ok ==> append_top(stack_view(old(stack)@), x@) == Fold::Open(stack_view(final(stack)@)),
{
    match stack.pop() {
        Some(top) => {
            let ghost t = top@;
            let mut v = top.0;
            v.push(x);
            let b = Block(v);
            proof {
                assert(b@ =~= t.push(x@)) by {
                    assert forall|i: int| 0 <= i < b@.len() implies b@[i] == t.push(x@)[i] by {
                        if i < t.len() {
                            assert(b.0@[i] == top.0@[i]);
                        }
                    }
                }
            }
            stack.push(b);
            proof {
                assert(stack_view(final(stack)@) =~= stack_view(old(stack)@).drop_last().push(
                    stack_view(old(stack)@).last().push(x@),
                ));
            }
            true
        },
        None => false,
    }
}

/// Folds `insns` from `start`, with one block open, until a
/// `DefineFunction` closes it or the stream ends. `None` when the stream
/// closes a block that is not open.
pub fn build_block(insns: &[Instruction], start: usize) -> (r: Option<Folded>)
    requires
        start <= insns@.len(),
    ensures
        match fold_from(insns_view(insns@).skip(start as int)) {
            Fold::Broken => r is None,
            Fold::Open(_) => r is Some && r->0.next == insns@.len() && r->0.function is None,
            Fold::Defined { arity, name, body, consumed } => r is Some && r->0.next == start
                + consumed && (r->0.function matches Some(f) && f.0 == arity && f.1@ == name
                && f.2@ == body),
        },
{
    let ghost xs = insns_view(insns@);
    let mut stack: Vec<Block> = Vec::new();
    stack.push(Block::new());
    let mut i: usize = start;
    proof {
        assert(stack_view(stack@) =~= seq![Seq::<Insn>::empty()]);
    }
    while i < insns.len()
        invariant
            start <= i <= insns@.len(),
            xs == insns_view(insns@),
            fold_from(xs.skip(start as int)) == match fold_run(stack_view(stack@), xs.skip(i as int)) {
                Fold::Defined { arity, name, body, consumed } => Fold::Defined {
                    arity,
                    name,
                    body,
                    consumed: consumed + (i - start) as nat,
                },
                other => other,
            },
        decreases insns@.len() - i,
    {
        let ghost st = stack_view(stack@);
        let ghost rest = xs.skip(i as int);
        proof {
            assert(rest[0] == insn_view(insns@[i as int]));
            assert(rest.drop_first() =~= xs.skip(i + 1));
        }
        let x = &insns[i];
        match x {
            Instruction::StartBlock => {
                stack.push(Block::new());
                proof {
                    assert(stack_view(stack@) =~= st.push(Seq::empty()));
                }
            },
            Instruction::EndBlock => {},
            Instruction::If { then, else_ } => {
                let e = if else_.is_empty() {
                    match stack.pop() {
                        Some(b) => b,
                        None => {
                            return None;
                        },
                    }
                } else {
                    else_.duplicate()
                };
                let t = if then.is_empty() {
                    match stack.pop() {
                        Some(b) => b,
                        None => {
                            return None;
                        },
                    }
                } else {
                    then.duplicate()
                };
                let ghost st2 = stack_view(stack@);
                proof {
                    if else_@.len() == 0 {
                        if then@.len() == 0 {
                            assert(st2 =~= st.drop_last().drop_last());
                        } else {
                            assert(st2 =~= st.drop_last());
                        }
                    } else {
                        if then@.len() == 0 {
                            assert(st2 =~= st.drop_last());
                        } else {
                            assert(st2 =~= st);
                        }
                    }
                }
                let y = Instruction::If { then: t, else_: e };
                if !append_to_top(&mut stack, y) {
                    return None;
                }
            },
            Instruction::Loop { block } => {
                let b = if block.is_empty() {
                    match stack.pop() {
                        Some(b) => b,
                        None => {
                            return None;
                        },
                    }
                } else {
                    block.duplicate()
                };
                proof {
                    if block@.len() == 0 {
                        assert(stack_view(stack@) =~= st.drop_last());
                    }
                }
                if !append_to_top(&mut stack, Instruction::Loop { block: b }) {
                    return None;
                }
            },
            Instruction::DefineFunction { param_count, identifier } => {
                match stack.pop() {
                    Some(body) => {
                        return Some(
                            Folded {
                                next: i + 1,
                                function: Some((*param_count, identifier.clone(), body)),
                            },
                        );
                    },
                    None => {
                        return None;
                    },
                }
            },
            _ => {
                if !append_to_top(&mut stack, x.duplicate()) {
                    return None;
                }
            },
        }
        i = i + 1;
    }
    proof {
        assert(xs.skip(i as int).len() == 0);
    }
    Some(Folded { next: insns.len(), function: None })
}

} // verus!
