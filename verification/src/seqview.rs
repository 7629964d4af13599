//! Sequential expressions as values: the same forms with texts in place of
//! strings and without annotations.
use vstd::prelude::*;
use crate::syntax::{FunDecl, ImmExp, Prim, SeqExp, VarOrLabel};
use crate::names::texts;

verus! {

pub enum ImmV {
    Num(i64),
    Float(u32),
    Bool(bool),
    Var(Seq<char>),
}

pub enum TargetV {
    Var(Seq<char>),
    Label(Seq<char>),
}

pub enum SeqExpV {
    Imm(ImmV),
    Prim(Prim, Seq<ImmV>),
    MakeClosure { arity: usize, label: Seq<char>, env: ImmV },
    Let { var: Seq<char>, bound_exp: Box<SeqExpV>, body: Box<SeqExpV> },
    If { cond: ImmV, thn: Box<SeqExpV>, els: Box<SeqExpV> },
    FunDefs { decls: Seq<DeclV>, body: Box<SeqExpV> },
    InternalTailCall(Seq<char>, Seq<ImmV>),
    ExternalCall { fun: TargetV, args: Seq<ImmV>, is_tail: bool },
    Semicolon { e1: Box<SeqExpV>, e2: Box<SeqExpV> },
}

/// A local function definition: name, parameters, body.
pub struct DeclV {
    pub name: Seq<char>,
    pub parameters: Seq<Seq<char>>,
    pub body: SeqExpV,
}

pub open spec fn imm_view(i: ImmExp) -> ImmV {
    match i {
        ImmExp::Num(n) => ImmV::Num(n),
        ImmExp::Float(f) => ImmV::Float(f),
        ImmExp::Bool(b) => ImmV::Bool(b),
        ImmExp::Var(x) => ImmV::Var(x@),
    }
}

pub open spec fn imms_view(s: Seq<ImmExp>) -> Seq<ImmV> {
    s.map_values(|i: ImmExp| imm_view(i))
}

pub open spec fn target_view(t: VarOrLabel) -> TargetV {
    match t {
        VarOrLabel::Var(x) => TargetV::Var(x@),
        VarOrLabel::Label(x) => TargetV::Label(x@),
    }
}

/// The value of a sequential expression.
pub open spec fn seq_view<A>(e: SeqExp<A>) -> SeqExpV
    decreases e, 1nat, 0nat,
{
    match e {
        SeqExp::Imm(i, _) => SeqExpV::Imm(imm_view(i)),
        SeqExp::Prim(p, args, _) => SeqExpV::Prim(p, imms_view(args@)),
        SeqExp::MakeClosure { arity, label, env, .. } => SeqExpV::MakeClosure { arity, label: label@, env: imm_view(env) },
        SeqExp::Let { var, bound_exp, body, .. } => SeqExpV::Let {
            var: var@,
            bound_exp: Box::new(seq_view(*bound_exp)),
            body: Box::new(seq_view(*body)),
        },
        SeqExp::If { cond, thn, els, .. } => SeqExpV::If {
            cond: imm_view(cond),
            thn: Box::new(seq_view(*thn)),
            els: Box::new(seq_view(*els)),
        },
        SeqExp::FunDefs { decls, body, .. } => SeqExpV::FunDefs {
            decls: decls_view(decls@, decls@.len() as int),
            body: Box::new(seq_view(*body)),
        },
        SeqExp::InternalTailCall(name, args, _) => SeqExpV::InternalTailCall(name@, imms_view(args@)),
        SeqExp::ExternalCall { fun, args, is_tail, .. } => SeqExpV::ExternalCall {
            fun: target_view(fun),
            args: imms_view(args@),
            is_tail,
        },
        SeqExp::Semicolon { e1, e2, .. } => SeqExpV::Semicolon {
            e1: Box::new(seq_view(*e1)),
            e2: Box::new(seq_view(*e2)),
        },
    }
}

/// The values of the first `i` definitions of a list.
pub open spec fn decls_view<A>(ds: Seq<FunDecl<SeqExp<A>, A>>, i: int) -> Seq<DeclV>
    decreases ds, 0nat, i,
{
    if i <= 0 || i > ds.len() {
        Seq::empty()
    } else {
        decls_view(ds, i - 1).push(DeclV {
            name: ds[i - 1].name@,
            parameters: texts(ds[i - 1].parameters@),
            body: seq_view(ds[i - 1].body),
        })
    }
}

} // verus!
