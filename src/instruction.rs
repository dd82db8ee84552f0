//! Decoded instructions and the blocks that nest them.
use vstd::prelude::*;

verus! {

/// An ordered sequence of instructions.
pub struct Block(pub Vec<Instruction>);

/// One decoded instruction. `If` and `Loop` come out of the decoder with
/// empty blocks; folding fills them.
pub enum Instruction {
    Import,
    DefineFunction { param_count: u64, identifier: String },
    StartBlock,
    EndBlock,
    Return,
    CallKnownFunction { arg_count: u64, identifier: String },
    CallUnknownFunction { arg_count: u64 },
    NullConst,
    BooleanConst(bool),
    IntegerConst(i64),
    StringConst(String),
    ListCount { count: u64 },
    GetLocal { local_idx: u64 },
    SetLocal { local_idx: u64 },
    Drop,
    If { then: Block, else_: Block },
    Loop { block: Block },
    /// Leaves the innermost loop when the popped value is not truthy.
    BreakIfNot,
    Global,
    GetFree,
    SetFree,
}

/// Mathematical form of an instruction: texts as character sequences and
/// blocks as sequences.
pub enum Insn {
    Import,
    DefineFunction { param_count: u64, identifier: Seq<char> },
    StartBlock,
    EndBlock,
    Return,
    CallKnownFunction { arg_count: u64, identifier: Seq<char> },
    CallUnknownFunction { arg_count: u64 },
    NullConst,
    BooleanConst(bool),
    IntegerConst(i64),
    StringConst(Seq<char>),
    ListCount { count: u64 },
    GetLocal { local_idx: u64 },
    SetLocal { local_idx: u64 },
    Drop,
    If { then: Seq<Insn>, else_: Seq<Insn> },
    Loop { block: Seq<Insn> },
    BreakIfNot,
    Global,
    GetFree,
    SetFree,
}

pub open spec fn insn_view(x: Instruction) -> Insn
    decreases x, 1nat,
{
    match x {
        Instruction::Import => Insn::Import,
        Instruction::DefineFunction { param_count, identifier } => Insn::DefineFunction {
            param_count,
            identifier: identifier@,
        },
        Instruction::StartBlock => Insn::StartBlock,
        Instruction::EndBlock => Insn::EndBlock,
        Instruction::Return => Insn::Return,
        Instruction::CallKnownFunction { arg_count, identifier } => Insn::CallKnownFunction {
            arg_count,
            identifier: identifier@,
        },
        Instruction::CallUnknownFunction { arg_count } => Insn::CallUnknownFunction { arg_count },
        Instruction::NullConst => Insn::NullConst,
        Instruction::BooleanConst(b) => Insn::BooleanConst(b),
        Instruction::IntegerConst(i) => Insn::IntegerConst(i),
        Instruction::StringConst(s) => Insn::StringConst(s@),
        Instruction::ListCount { count } => Insn::ListCount { count },
        Instruction::GetLocal { local_idx } => Insn::GetLocal { local_idx },
        Instruction::SetLocal { local_idx } => Insn::SetLocal { local_idx },
        Instruction::Drop => Insn::Drop,
        Instruction::If { then, else_ } => Insn::If {
            then: block_items(then),
            else_: block_items(else_),
        },
        Instruction::Loop { block } => Insn::Loop {
            block: block_items(block),
        },
        Instruction::BreakIfNot => Insn::BreakIfNot,
        Instruction::Global => Insn::Global,
        Instruction::GetFree => Insn::GetFree,
        Instruction::SetFree => Insn::SetFree,
    }
}

/// Mathematical form of a block.
pub open spec fn block_items(b: Block) -> Seq<Insn>
    decreases b, 0nat,
{
    Seq::new(
        b.0@.len(),
        |i: int|
            if 0 <= i < b.0@.len() {
                insn_view(b.0@[i])
            } else {
                Insn::Drop
            },
    )
}

/// Mathematical form of a sequence of instructions.
pub open spec fn insns_view(s: Seq<Instruction>) -> Seq<Insn> {
    Seq::new(s.len(), |i: int| insn_view(s[i]))
}

/// A block's model is the models of its instructions.
pub proof fn lemma_block_view(b: Block)
    ensures
        b@ == insns_view(b.0@),
{
    assert(block_items(b) =~= insns_view(b.0@));
}

impl View for Instruction {
    type V = Insn;

    open spec fn view(&self) -> Insn {
        insn_view(*self)
    }
}

impl View for Block {
    type V = Seq<Insn>;

    open spec fn view(&self) -> Seq<Insn> {
        block_items(*self)
    }
}

impl Block {
    pub fn new() -> (r: Block)
        ensures
            r@ == Seq::<Insn>::empty(),
    {
        let r = Block(Vec::new());
        proof {
            assert(r@ =~= Seq::<Insn>::empty());
        }
        r
    }

    pub fn is_empty(&self) -> (r: bool)
        ensures
            r == (self@.len() == 0),
    {
        self.0.len() == 0
    }

    /// A copy of the block, instruction by instruction.
    pub fn duplicate(&self) -> (r: Block)
        ensures
            r@ == self@,
        decreases self, 1nat,
    {
        let mut v: Vec<Instruction> = Vec::new();
        let mut i: usize = 0;
        while i < self.0.len()
            invariant
                i <= self.0@.len(),
                v@.len() == i,
                forall|j: int| 0 <= j < i ==> #[trigger] insn_view(v@[j]) == insn_view(self.0@[j]),
            decreases self.0@.len() - i,
        {
            proof {
                assert(decreases_to!(self => self.0@[i as int]));
            }
            let x = self.0[i].duplicate();
            v.push(x);
            i = i + 1;
        }
        let r = Block(v);
        proof {
            assert(r.0@ == v@);
            assert(block_items(r).len() == block_items(*self).len());
            assert forall|j: int| 0 <= j < v@.len() implies block_items(r)[j] == block_items(*self)[j] by {
                assert(insn_view(v@[j]) == insn_view(self.0@[j]));
            }
            assert(block_items(r) =~= block_items(*self));
        }
        r
    }
}

impl Instruction {
    /// A copy of the instruction, nested blocks included.
    pub fn duplicate(&self) -> (r: Instruction)
        ensures
            r@ == self@,
        decreases self, 0nat,
    {
        match self {
            Instruction::Import => Instruction::Import,
            Instruction::DefineFunction { param_count, identifier } => Instruction::DefineFunction {
                param_count: *param_count,
                identifier: identifier.clone(),
            },
            Instruction::StartBlock => Instruction::StartBlock,
            Instruction::EndBlock => Instruction::EndBlock,
            Instruction::Return => Instruction::Return,
            Instruction::CallKnownFunction { arg_count, identifier } => {
                Instruction::CallKnownFunction {
                    arg_count: *arg_count,
                    identifier: identifier.clone(),
                }
            },
            Instruction::CallUnknownFunction { arg_count } => Instruction::CallUnknownFunction {
                arg_count: *arg_count,
            },
            Instruction::NullConst => Instruction::NullConst,
            Instruction::BooleanConst(b) => Instruction::BooleanConst(*b),
            Instruction::IntegerConst(i) => Instruction::IntegerConst(*i),
            Instruction::StringConst(s) => Instruction::StringConst(s.clone()),
            Instruction::ListCount { count } => Instruction::ListCount { count: *count },
            Instruction::GetLocal { local_idx } => Instruction::GetLocal { local_idx: *local_idx },
            Instruction::SetLocal { local_idx } => Instruction::SetLocal { local_idx: *local_idx },
            Instruction::Drop => Instruction::Drop,
            Instruction::If { then, else_ } => {
                let t = then.duplicate();
                let e = else_.duplicate();
                let r = Instruction::If { then: t, else_: e };
                r
            },
            Instruction::Loop { block } => {
                let b = block.duplicate();
                let r = Instruction::Loop { block: b };
                r
            },
            Instruction::BreakIfNot => Instruction::BreakIfNot,
            Instruction::Global => Instruction::Global,
            Instruction::GetFree => Instruction::GetFree,
            Instruction::SetFree => Instruction::SetFree,
        }
    }
}

} // verus!
