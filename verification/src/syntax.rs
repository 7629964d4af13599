//! The surface language and its sequential (A-normal) form.
use vstd::prelude::*;

verus! {

pub type SurfProg<Ann> = Exp<Ann>;

pub type SurfFunDecl<Ann> = FunDecl<Exp<Ann>, Ann>;

#[derive(Debug, PartialEq, Eq)]
pub struct FunDecl<E, Ann> {
    pub name: String,
    pub parameters: Vec<String>,
    pub body: E,
    pub ann: Ann,
}

/// Expressions of the surface language, and the internal forms that
/// the passes of the compiler introduce.
#[derive(Debug, PartialEq, Eq)]
pub enum Exp<Ann> {
    Num(i64, Ann),
    Float(u32, Ann),
    Bool(bool, Ann),
    Var(String, Ann),
    Prim(Prim, Vec<Box<Exp<Ann>>>, Ann),
    /// Bindings are evaluated in order; each is in scope in the ones after it.
    Let { bindings: Vec<(String, Exp<Ann>)>, body: Box<Exp<Ann>>, ann: Ann },
    If { cond: Box<Exp<Ann>>, thn: Box<Exp<Ann>>, els: Box<Exp<Ann>>, ann: Ann },
    Semicolon { e1: Box<Exp<Ann>>, e2: Box<Exp<Ann>>, ann: Ann },
    FunDefs { decls: Vec<FunDecl<Exp<Ann>, Ann>>, body: Box<Exp<Ann>>, ann: Ann },
    Lambda { parameters: Vec<String>, body: Box<Exp<Ann>>, ann: Ann },
    MakeClosure { arity: usize, label: String, env: Box<Exp<Ann>>, ann: Ann },
    /// A call that may or may not require a closure.
    Call(Box<Exp<Ann>>, Vec<Exp<Ann>>, Ann),
    /// A call to a dynamically determined closure.
    ClosureCall(Box<Exp<Ann>>, Vec<Exp<Ann>>, Ann),
    /// A direct call to a known function definition.
    DirectCall(String, Vec<Exp<Ann>>, Ann),
    /// A local tail call to a static function.
    InternalTailCall(String, Vec<Exp<Ann>>, Ann),
    /// A global call to either a static function or the code pointer of a closure.
    ExternalCall { fun: VarOrLabel, args: Vec<Exp<Ann>>, is_tail: bool, ann: Ann },
}

#[derive(Copy, Clone, Debug, PartialEq, Eq, Structural)]
pub enum Prim {
    // unary
    Add1,
    Sub1,
    Not,
    Length,
    Print,
    IsBool,
    IsNum,
    IsFun,
    IsArray,
    // internal-only unary forms
    GetCode,
    GetEnv,
    CheckArityAndUntag(usize),
    // binary
    Add,
    Sub,
    Mul,
    And,
    Or,
    Lt,
    Gt,
    Le,
    Ge,
    Eq,
    Neq,
    /// First argument the array, second the index.
    ArrayGet,
    /// First argument the array, second the index, third the new value.
    ArraySet,
    /// Any number of arguments.
    MakeArray,
    // floating point
    FAdd,
    FSub,
    FMul,
    FLt,
    FGt,
    FLe,
    FGe,
    IsFloat,
}

#[derive(Debug, PartialEq, Eq)]
pub struct SeqProg<Ann> {
    pub funs: Vec<FunDecl<SeqExp<Ann>, Ann>>,
    pub main: SeqExp<Ann>,
    pub ann: Ann,
}

pub type SeqFunDecl<Ann> = FunDecl<SeqExp<Ann>, Ann>;

#[derive(Clone, Debug, PartialEq, Eq)]
pub enum ImmExp {
    Num(i64),
    Float(u32),
    Bool(bool),
    Var(String),
}

#[derive(Clone, Debug, PartialEq, Eq)]
pub enum VarOrLabel {
    Var(String),
    Label(String),
}

#[derive(Debug, PartialEq, Eq)]
pub enum SeqExp<Ann> {
    Imm(ImmExp, Ann),
    Prim(Prim, Vec<ImmExp>, Ann),
    MakeClosure { arity: usize, label: String, env: ImmExp, ann: Ann },
    Let { var: String, bound_exp: Box<SeqExp<Ann>>, body: Box<SeqExp<Ann>>, ann: Ann },
    If { cond: ImmExp, thn: Box<SeqExp<Ann>>, els: Box<SeqExp<Ann>>, ann: Ann },
    /// Local function definitions, called only by internal tail calls.
    FunDefs { decls: Vec<FunDecl<SeqExp<Ann>, Ann>>, body: Box<SeqExp<Ann>>, ann: Ann },
    /// A tail call to a locally defined function: set the arguments, then jump.
    InternalTailCall(String, Vec<ImmExp>, Ann),
    /// A call to a top-level function definition, marked when it is a tail call.
    ExternalCall { fun: VarOrLabel, args: Vec<ImmExp>, is_tail: bool, ann: Ann },
    Semicolon { e1: Box<SeqExp<Ann>>, e2: Box<SeqExp<Ann>>, ann: Ann },
}

} // verus!
