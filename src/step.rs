//! Instructions that only move values between the stack, the locals, the
//! globals and the store.
use vstd::prelude::*;
use crate::instruction::Instruction;
use crate::runtime::{Runtime, is_simple, pop_list_m, simple_step};
use crate::value::{Val, Value, vals, lemma_vals_push};

verus! {

impl Runtime {
    /// Pops `count` values, in the order they were pushed; slots the
    /// activation cannot fill come first, as null.
    pub fn pop_list(&mut self, count: u64) -> (r: Vec<Value>)
        requires
            old(self).wf(),
        ensures
            old(self).keeps_frame(final(self)),
            (vals(r@), final(self).machine()) == pop_list_m(old(self).machine(), count as nat),
            final(self).globals == old(self).globals,
            final(self).call_stack == old(self).call_stack,
            final(self).store == old(self).store,
            final(self).return_value == old(self).return_value,
            final(self).value_stack@ == old(self).value_stack@.take(final(self).value_stack@.len() as int),
    {
        let ghost s0 = vals(self.value_stack@);
        let ghost len0 = s0.len();
        let ghost fl = self.floor();
        let mut rev: Vec<Value> = Vec::new();
        let mut k: u64 = 0;
        while k < count
            invariant
                old(self).wf(),
                self.wf(),
                self.floor() == fl,
                fl == old(self).floor(),
                s0 == old(self).stack(),
                len0 == s0.len(),
                self.call_stack == old(self).call_stack,
                self.store == old(self).store,
                self.globals == old(self).globals,
                self.argv == old(self).argv,
                self.return_value == old(self).return_value,
                self.value_stack@ == old(self).value_stack@.take(self.value_stack@.len() as int),
                k <= count,
                self.value_stack@.len() == len0 - (if len0 >= fl + k {
                    k as int
                } else {
                    len0 - fl
                }),
                vals(rev@) == Seq::new(
                    k as nat,
                    |i: int|
                        if i < len0 - fl {
                            s0[len0 - 1 - i]
                        } else {
                            Val::Null
                        },
                ),
            decreases count - k,
        {
            let ghost pre = vals(rev@);
            let v = self.pop_value_from_stack();
            proof {
                lemma_vals_push(rev@, v);
                if self.value_stack@.len() < old(self).value_stack@.len() {
                }
            }
            rev.push(v);
            k = k + 1;
            proof {
                assert(self.value_stack@ =~= old(self).value_stack@.take(
                    self.value_stack@.len() as int,
                ));
                assert(vals(rev@) =~= Seq::new(
                    k as nat,
                    |i: int|
                        if i < len0 - fl {
                            s0[len0 - 1 - i]
                        } else {
                            Val::Null
                        },
                ));
            }
        }
        let mut items: Vec<Value> = Vec::new();
        let mut j: usize = rev.len();
        while j > 0
            invariant
                j <= rev@.len(),
                vals(items@) == Seq::new(
                    (rev@.len() - j) as nat,
                    |i: int| vals(rev@)[rev@.len() - 1 - i],
                ),
            decreases j,
        {
            j = j - 1;
            let v = rev[j].duplicate();
            proof {
                lemma_vals_push(items@, v);
            }
            items.push(v);
            proof {
                assert(vals(items@) =~= Seq::new(
                    (rev@.len() - j) as nat,
                    |i: int| vals(rev@)[rev@.len() - 1 - i],
                ));
            }
        }
        proof {
            let (want, m1) = pop_list_m(old(self).machine(), count as nat);
            assert(m1.stack =~= vals(self.value_stack@));
            assert(vals(items@) =~= want);
            assert(self.value_stack@.take(fl as int) =~= old(self).value_stack@.take(fl as int));
        }
        items
    }

    /// Pops `count` values into a new list, in the order they were pushed,
    /// and pushes the list.
    fn list_from_stack(&mut self, count: u64)
        requires
            old(self).wf(),
        ensures
            old(self).keeps_frame(final(self)),
            ({
                let (items, m1) = pop_list_m(old(self).machine(), count as nat);
                &&& final(self).store@.lists == old(self).store@.lists.push(items)
                &&& final(self).store@.funcs == old(self).store@.funcs
                &&& final(self).stack() == m1.stack.push(
                    Val::List(old(self).store@.lists.len() as usize),
                )
            }),
            final(self).globals == old(self).globals,
            final(self).call_stack == old(self).call_stack,
            final(self).return_value == old(self).return_value,
    {
        let items = self.pop_list(count);
        let ghost s1 = *self;
        let h = self.store.push_list(items);
        let ghost mid = *self;
        self.push_value_to_stack(Value::List(h));
        proof {
            assert(mid.value_stack@.take(mid.floor() as int) =~= s1.value_stack@.take(s1.floor() as int));
            assert(mid.store@.lists.len() == s1.store@.lists.len() + 1);
            assert(s1.keeps_frame(&mid));
            crate::exec::lemma_keeps_trans(&*old(self), &s1, &mid);
            crate::exec::lemma_keeps_trans(&*old(self), &mid, self);
        }
    }

    /// Carries out an instruction that neither branches nor calls.
    pub fn execute_simple(&mut self, x: &Instruction) -> (ok: bool)
        requires
            old(self).wf(),
            is_simple(x@),
        ensures
            old(self).keeps_frame(final(self)),
            ok == simple_step(old(self).machine(), x@) is Some,
            ok ==> simple_step(old(self).machine(), x@) == Some(final(self).machine()),
            !ok ==> final(self).machine() == old(self).machine(),
    {
        match x {
            Instruction::NullConst => {
                self.push_value_to_stack(Value::Null);
            },
            Instruction::BooleanConst(b) => {
                self.push_value_to_stack(Value::Boolean(*b));
            },
            Instruction::IntegerConst(i) => {
                self.push_value_to_stack(Value::Integer(*i));
            },
            Instruction::StringConst(s) => {
                self.push_value_to_stack(Value::String(s.clone()));
            },
            Instruction::ListCount { count } => {
                self.list_from_stack(*count);
                proof {
                    let (items, m1) = pop_list_m(old(self).machine(), *count as nat);
                    assert(final(self).store@.lists =~= old(self).store@.lists.push(items));
                }
            },
            Instruction::GetLocal { local_idx } => {
                let v = self.get_local(*local_idx);
                self.push_value_to_stack(v);
            },
            Instruction::SetLocal { local_idx } => {
                if *local_idx >= usize::MAX as u64 {
                    return false;
                }
                let n = self.value_stack.len();
                let top = if n > 0 {
                    self.value_stack[n - 1].duplicate()
                } else {
                    Value::Null
                };
                self.set_local(*local_idx, top);
            },
            Instruction::Drop => {
                self.pop_value_from_stack();
            },
            Instruction::Global => {
                let v = self.pop_value_from_stack();
                let name = v.to_string(&self.store);
                self.declare_global(name);
                proof {
                    assert(self.value_stack@.take(self.floor() as int) =~= old(self).value_stack@.take(self.floor() as int));
                }
            },
            Instruction::GetFree => {
                if self.value_stack.len() > self.frame_floor() {
                    let v = self.pop_value_from_stack();
                    let name = v.to_string(&self.store);
                    let r = self.get_free(&name);
                    let ghost mid = *self;
                    self.push_value_to_stack(r);
                    proof {
                        crate::exec::lemma_keeps_trans(&*old(self), &mid, self);
                    }
                } else {
                    self.push_value_to_stack(Value::Null);
                }
            },
            Instruction::SetFree => {
                if self.value_stack.len() > self.frame_floor() {
                    let n = self.pop_value_from_stack();
                    let ghost mid = *self;
                    let v = self.pop_value_from_stack();
                    let name = n.to_string(&self.store);
                    let ghost mid2 = *self;
                    self.set_free(name, v);
                    proof {
                        crate::exec::lemma_keeps_trans(&*old(self), &mid, &mid2);
                        assert(self.value_stack@.take(self.floor() as int) =~= mid2.value_stack@.take(self.floor() as int));
                    }
                }
            },
            _ => {},
        }
        true
    }
}

} // verus!
