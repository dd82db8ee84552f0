//! Instruction records as the front end hands them over: a tag and a
//! payload whose kind the tag names.
use vstd::prelude::*;
use crate::instruction::{Block, Insn, Instruction, insns_view};

verus! {

pub const IIMPORT: u8 = 0;
pub const IFUNC: u8 = 1;
pub const START_BLOCK: u8 = 2;
pub const END_BLOCK: u8 = 3;
pub const IRETURN: u8 = 4;
pub const CALL_KNOWN: u8 = 5;
pub const CALL_UNKNOWN: u8 = 6;
pub const NULL_CONST: u8 = 7;
pub const BOOLEAN_CONST: u8 = 8;
pub const INTEGER_CONST: u8 = 9;
pub const STRING_CONST: u8 = 10;
pub const LIST_CONST: u8 = 11;
pub const GET_LOCAL: u8 = 12;
pub const SET_LOCAL: u8 = 13;
pub const DROP: u8 = 14;
pub const IIF: u8 = 15;
pub const LOOP: u8 = 16;
pub const BREAK_IF: u8 = 17;
pub const IGLOBAL: u8 = 18;
pub const GET_FREE: u8 = 19;
pub const SET_FREE: u8 = 20;

pub struct IFunc {
    pub parm_count: u64,
    pub ident: String,
}

pub struct CallKnown {
    pub arg_count: u64,
    pub ident: String,
}

pub struct CallUnknown {
    pub arg_count: u64,
}

pub struct BooleanConst {
    pub value: bool,
}

pub struct IntegerConst {
    pub value: i64,
}

pub struct StringConst {
    pub value: String,
}

pub struct ListConst {
    pub value: u64,
}

pub struct GetLocal {
    pub idx: u64,
}

pub struct SetLocal {
    pub idx: u64,
}

/// The payload of a record; which one applies is named by the tag.
pub enum Payload {
    Empty,
    IFunc(IFunc),
    CallKnown(CallKnown),
    CallUnknown(CallUnknown),
    BooleanConst(BooleanConst),
    IntegerConst(IntegerConst),
    StringConst(StringConst),
    ListConst(ListConst),
    GetLocal(GetLocal),
    SetLocal(SetLocal),
}

pub struct InstructionAndTag {
    pub insn: Payload,
    pub tag: u8,
}

pub struct Instructions {
    pub insns: Vec<InstructionAndTag>,
}

/// The instruction a record stands for; `None` for a tag that names no
/// instruction or a payload of another kind than the tag names.
pub open spec fn decode_record(r: InstructionAndTag) -> Option<Insn> {
    match (r.tag, r.insn) {
        (0, _) => Some(Insn::Import),
        (1, Payload::IFunc(f)) => Some(
            Insn::DefineFunction { param_count: f.parm_count, identifier: f.ident@ },
        ),
        (2, _) => Some(Insn::StartBlock),
        (3, _) => Some(Insn::EndBlock),
        (4, _) => Some(Insn::Return),
        (5, Payload::CallKnown(c)) => Some(
            Insn::CallKnownFunction { arg_count: c.arg_count, identifier: c.ident@ },
        ),
        (6, Payload::CallUnknown(c)) => Some(Insn::CallUnknownFunction { arg_count: c.arg_count }),
        (7, _) => Some(Insn::NullConst),
        (8, Payload::BooleanConst(b)) => Some(Insn::BooleanConst(b.value)),
        (9, Payload::IntegerConst(i)) => Some(Insn::IntegerConst(i.value)),
        (10, Payload::StringConst(s)) => Some(Insn::StringConst(s.value@)),
        (11, Payload::ListConst(l)) => Some(Insn::ListCount { count: l.value }),
        (12, Payload::GetLocal(g)) => Some(Insn::GetLocal { local_idx: g.idx }),
        (13, Payload::SetLocal(s)) => Some(Insn::SetLocal { local_idx: s.idx }),
        (14, _) => Some(Insn::Drop),
        (15, _) => Some(Insn::If { then: Seq::empty(), else_: Seq::empty() }),
        (16, _) => Some(Insn::Loop { block: Seq::empty() }),
        (17, _) => Some(Insn::BreakIfNot),
        (18, _) => Some(Insn::Global),
        (19, _) => Some(Insn::GetFree),
        (20, _) => Some(Insn::SetFree),
        _ => None,
    }
}

/// The instructions of a record sequence, records that decode to none
/// skipped.
pub open spec fn decode_all(rs: Seq<InstructionAndTag>) -> Seq<Insn>
    decreases rs.len(),
{
    if rs.len() == 0 {
        Seq::empty()
    } else {
        let init = decode_all(rs.drop_last());
        match decode_record(rs.last()) {
            Some(x) => init.push(x),
            None => init,
        }
    }
}

pub fn decode_record_exec(r: &InstructionAndTag) -> (x: Option<Instruction>)
    ensures
        x matches Some(i) ==> decode_record(*r) == Some(i@),
        x is None ==> decode_record(*r) is None,
{
    let x = match (r.tag, &r.insn) {
        (0, _) => Some(Instruction::Import),
        (1, Payload::IFunc(f)) => Some(
            Instruction::DefineFunction { param_count: f.parm_count, identifier: f.ident.clone() },
        ),
        (2, _) => Some(Instruction::StartBlock),
        (3, _) => Some(Instruction::EndBlock),
        (4, _) => Some(Instruction::Return),
        (5, Payload::CallKnown(c)) => Some(
            Instruction::CallKnownFunction { arg_count: c.arg_count, identifier: c.ident.clone() },
        ),
        (6, Payload::CallUnknown(c)) => Some(
            Instruction::CallUnknownFunction { arg_count: c.arg_count },
        ),
        (7, _) => Some(Instruction::NullConst),
        (8, Payload::BooleanConst(b)) => Some(Instruction::BooleanConst(b.value)),
        (9, Payload::IntegerConst(i)) => Some(Instruction::IntegerConst(i.value)),
        (10, Payload::StringConst(s)) => Some(Instruction::StringConst(s.value.clone())),
        (11, Payload::ListConst(l)) => Some(Instruction::ListCount { count: l.value }),
        (12, Payload::GetLocal(g)) => Some(Instruction::GetLocal { local_idx: g.idx }),
        (13, Payload::SetLocal(s)) => Some(Instruction::SetLocal { local_idx: s.idx }),
        (14, _) => Some(Instruction::Drop),
        (15, _) => Some(Instruction::If { then: Block::new(), else_: Block::new() }),
        (16, _) => Some(Instruction::Loop { block: Block::new() }),
        (17, _) => Some(Instruction::BreakIfNot),
        (18, _) => Some(Instruction::Global),
        (19, _) => Some(Instruction::GetFree),
        (20, _) => Some(Instruction::SetFree),
        _ => None,
    };
    x
}

/// Decodes records into instructions, skipping records that name none.
pub fn decode_instructions(raw: &Instructions) -> (r: Vec<Instruction>)
    ensures
        insns_view(r@) == decode_all(raw.insns@),
{
    let mut r: Vec<Instruction> = Vec::new();
    let mut i: usize = 0;
    proof {
        assert(raw.insns@.take(0) =~= Seq::<InstructionAndTag>::empty());
        assert(insns_view(r@) =~= Seq::<Insn>::empty());
    }
    while i < raw.insns.len()
        invariant
            i <= raw.insns@.len(),
            insns_view(r@) == decode_all(raw.insns@.take(i as int)),
        decreases raw.insns@.len() - i,
    {
        let ghost pre = r@;
        match decode_record_exec(&raw.insns[i]) {
            Some(x) => {
                r.push(x);
                proof {
                    assert(insns_view(r@) =~= insns_view(pre).push(x@));
                }
            },
            None => {},
        }
        proof {
            assert(raw.insns@.take(i + 1).drop_last() =~= raw.insns@.take(i as int));
        }
        i = i + 1;
    }
    proof {
        assert(raw.insns@.take(i as int) =~= raw.insns@);
    }
    r
}

} // verus!
