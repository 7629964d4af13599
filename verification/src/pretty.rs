//! A readable rendering of sequential expressions, for inspecting what
//! sequentialization made of a program.
use vstd::prelude::*;
use crate::syntax::{FunDecl, ImmExp, Prim, SeqExp, VarOrLabel};
use crate::text::{dec_int, dec_nat, push_dec_i64, push_dec_u64};

verus! {

// ---------------------------------------------------------------------------
// The text.

/// The name of an operator; `None` for the floating-point ones, which have
/// no rendering.
pub open spec fn op_text(p: Prim) -> Option<Seq<char>> {
    match p {
        Prim::Add1 => Some("+1"@),
        Prim::Sub1 => Some("-1"@),
        Prim::Add => Some("+"@),
        Prim::Sub => Some("-"@),
        Prim::Mul => Some("*"@),
        Prim::And => Some("and"@),
        Prim::Or => Some("or"@),
        Prim::Not => Some("not"@),
        Prim::Gt => Some(">"@),
        Prim::Lt => Some("<"@),
        Prim::Ge => Some(">="@),
        Prim::Le => Some("<="@),
        Prim::Eq => Some("=="@),
        Prim::Neq => Some("!="@),
        Prim::IsNum => Some("number?"@),
        Prim::IsBool => Some("boolean?"@),
        Prim::Print => Some("print"@),
        Prim::IsFun => Some("function?"@),
        Prim::IsArray => Some("array?"@),
        Prim::ArrayGet => Some("array-get"@),
        Prim::ArraySet => Some("array-set"@),
        Prim::Length => Some("length"@),
        Prim::GetCode => Some("get-code"@),
        Prim::GetEnv => Some("get-env"@),
        Prim::CheckArityAndUntag(_) => Some("check-arity-and-untag"@),
        Prim::MakeArray => Some("make-array"@),
        _ => None,
    }
}

/// An immediate other than a float has a rendering.
pub open spec fn imm_printable(i: ImmExp) -> bool {
    !(i is Float)
}

pub open spec fn imm_text(i: ImmExp) -> Seq<char> {
    match i {
        ImmExp::Num(n) => dec_int(n as int),
        ImmExp::Bool(b) => if b { "true"@ } else { "false"@ },
        ImmExp::Var(x) => x@,
        ImmExp::Float(_) => Seq::empty(),
    }
}

pub open spec fn imms_printable(s: Seq<ImmExp>) -> bool {
    forall|j: int| 0 <= j < s.len() ==> imm_printable(#[trigger] s[j])
}

/// The first `i` immediates, each after a space.
pub open spec fn spaced_before(s: Seq<ImmExp>, i: int) -> Seq<char>
    decreases i,
{
    if i <= 0 { Seq::empty() } else { spaced_before(s, i - 1) + " "@ + imm_text(s[i - 1]) }
}

/// The first `i` immediates, each before a space.
pub open spec fn spaced_after(s: Seq<ImmExp>, i: int) -> Seq<char>
    decreases i,
{
    if i <= 0 { Seq::empty() } else { spaced_after(s, i - 1) + imm_text(s[i - 1]) + " "@ }
}

/// The first `i` parameters, each before a space.
pub open spec fn params_text(ps: Seq<String>, i: int) -> Seq<char>
    decreases i,
{
    if i <= 0 { Seq::empty() } else { params_text(ps, i - 1) + ps[i - 1]@ + " "@ }
}

/// A name whose debug rendering is the name itself between double quotes:
/// printable ASCII, without a double quote or a backslash.
pub open spec fn plain_name(s: Seq<char>) -> bool {
    forall|j: int| 0 <= j < s.len() ==> ' ' <= #[trigger] s[j] <= '~' && s[j] != '"' && s[j] != '\\'
}

/// The debug rendering of a call target.
pub open spec fn target_text(t: VarOrLabel) -> Seq<char> {
    match t {
        VarOrLabel::Var(x) => "Var(\""@ + x@ + "\")"@,
        VarOrLabel::Label(x) => "Label(\""@ + x@ + "\")"@,
    }
}

pub open spec fn target_printable(t: VarOrLabel) -> bool {
    match t {
        VarOrLabel::Var(x) => plain_name(x@),
        VarOrLabel::Label(x) => plain_name(x@),
    }
}

/// Whether `e` has a rendering: no float, no floating-point operator, and
/// call targets with plain names.
pub open spec fn printable<A>(e: SeqExp<A>) -> bool
    decreases e, 1nat, 0nat,
{
    match e {
        SeqExp::Imm(i, _) => imm_printable(i),
        SeqExp::Prim(p, args, _) => op_text(p) is Some && imms_printable(args@),
        SeqExp::MakeClosure { env, .. } => imm_printable(env),
        SeqExp::Let { bound_exp, body, .. } => printable(*bound_exp) && printable(*body),
        SeqExp::If { cond, thn, els, .. } => imm_printable(cond) && printable(*thn) && printable(*els),
        SeqExp::FunDefs { decls, body, .. } => decls_printable(decls@, decls@.len() as int) && printable(*body),
        SeqExp::InternalTailCall(_, args, _) => imms_printable(args@),
        SeqExp::ExternalCall { fun, args, .. } => target_printable(fun) && imms_printable(args@),
        SeqExp::Semicolon { e1, e2, .. } => printable(*e1) && printable(*e2),
    }
}

pub open spec fn decls_printable<A>(ds: Seq<FunDecl<SeqExp<A>, A>>, i: int) -> bool
    decreases ds, 0nat, i,
{
    if i <= 0 || i > ds.len() {
        true
    } else {
        decls_printable(ds, i - 1) && printable(ds[i - 1].body)
    }
}

/// The rendering of `e`. A closure's environment comes first, and the
/// closure's form is left open.
pub open spec fn seq_text<A>(e: SeqExp<A>) -> Seq<char>
    decreases e, 1nat, 0nat,
{
    match e {
        SeqExp::Imm(i, _) => imm_text(i),
        SeqExp::Prim(p, args, _) => "("@ + op_text(p).unwrap() + spaced_before(args@, args@.len() as int) + ")"@,
        SeqExp::MakeClosure { arity, label, env, .. } =>
            imm_text(env) + "(make-closure "@ + dec_nat(arity as nat) + " "@ + label@ + " ()"@,
        SeqExp::Let { var, bound_exp, body, .. } =>
            "(let (["@ + var@ + " "@ + seq_text(*bound_exp) + "]) in \n"@ + seq_text(*body) + ")"@,
        SeqExp::If { cond, thn, els, .. } =>
            "(if "@ + imm_text(cond) + " "@ + seq_text(*thn) + " "@ + seq_text(*els) + ")"@,
        SeqExp::FunDefs { decls, body, .. } =>
            "(letrec ("@ + decls_text(decls@, decls@.len() as int) + ") in \n"@ + seq_text(*body) + ")"@,
        SeqExp::InternalTailCall(name, args, _) =>
            "(tail-call "@ + name@ + " "@ + spaced_after(args@, args@.len() as int) + ")"@,
        SeqExp::ExternalCall { fun, args, .. } =>
            "(external-call "@ + target_text(fun) + " "@ + spaced_after(args@, args@.len() as int) + ")"@,
        SeqExp::Semicolon { e1, e2, .. } => seq_text(*e1) + ";\n"@ + seq_text(*e2),
    }
}

/// The first `i` definitions of a group, each as `(name (params) -> body) `.
pub open spec fn decls_text<A>(ds: Seq<FunDecl<SeqExp<A>, A>>, i: int) -> Seq<char>
    decreases ds, 0nat, i,
{
    if i <= 0 || i > ds.len() {
        Seq::empty()
    } else {
        decls_text(ds, i - 1) + "("@ + ds[i - 1].name@ + " ("@
            + params_text(ds[i - 1].parameters@, ds[i - 1].parameters@.len() as int) + ") -> "@
            + seq_text(ds[i - 1].body) + ") "@
    }
}

// ---------------------------------------------------------------------------
// Rendering.

fn push_imm(s: &mut String, i: &ImmExp)
    requires
        imm_printable(*i),
    ensures
        final(s)@ == old(s)@ + imm_text(*i),
{
    match i {
        ImmExp::Num(n) => push_dec_i64(s, *n),
        ImmExp::Bool(b) => if *b { s.append("true") } else { s.append("false") },
        ImmExp::Var(x) => s.append(x.as_str()),
        ImmExp::Float(_) => {},
    }
}

fn imms_ready(v: &Vec<ImmExp>) -> (r: bool)
    ensures
        r == imms_printable(v@),
{
    let mut k: usize = 0;
    while k < v.len()
        invariant
            k <= v@.len(),
            forall|j: int| 0 <= j < k ==> imm_printable(#[trigger] v@[j]),
        decreases v@.len() - k,
    {
        if let ImmExp::Float(_) = &v[k] {
            return false;
        }
        k = k + 1;
    }
    true
}

fn push_spaced_before(s: &mut String, v: &Vec<ImmExp>)
    requires
        imms_printable(v@),
    ensures
        final(s)@ == old(s)@ + spaced_before(v@, v@.len() as int),
{
    let mut k: usize = 0;
    while k < v.len()
        invariant
            k <= v@.len(),
            imms_printable(v@),
            s@ == old(s)@ + spaced_before(v@, k as int),
        decreases v@.len() - k,
    {
        s.append(" ");
        push_imm(s, &v[k]);
        k = k + 1;
    }
}

fn push_spaced_after(s: &mut String, v: &Vec<ImmExp>)
    requires
        imms_printable(v@),
    ensures
        final(s)@ == old(s)@ + spaced_after(v@, v@.len() as int),
{
    let mut k: usize = 0;
    while k < v.len()
        invariant
            k <= v@.len(),
            imms_printable(v@),
            s@ == old(s)@ + spaced_after(v@, k as int),
        decreases v@.len() - k,
    {
        push_imm(s, &v[k]);
        s.append(" ");
        k = k + 1;
    }
}

fn push_params(s: &mut String, ps: &Vec<String>)
    ensures
        final(s)@ == old(s)@ + params_text(ps@, ps@.len() as int),
{
    let mut k: usize = 0;
    while k < ps.len()
        invariant
            k <= ps@.len(),
            s@ == old(s)@ + params_text(ps@, k as int),
        decreases ps@.len() - k,
    {
        s.append(ps[k].as_str());
        s.append(" ");
        k = k + 1;
    }
}

fn plain_name_ready(x: &String) -> (r: bool)
    ensures
        r == plain_name(x@),
{
    let n = x.as_str().unicode_len();
    let mut k: usize = 0;
    while k < n
        invariant
            n == x@.len(),
            k <= n,
            forall|j: int| 0 <= j < k ==> ' ' <= #[trigger] x@[j] <= '~' && x@[j] != '"' && x@[j] != '\\',
        decreases n - k,
    {
        let c = x.as_str().get_char(k);
        if c < ' ' || c > '~' || c == '"' || c == '\\' {
            return false;
        }
        k = k + 1;
    }
    true
}

fn push_target(s: &mut String, t: &VarOrLabel)
    ensures
        final(s)@ == old(s)@ + target_text(*t),
{
    match t {
        VarOrLabel::Var(x) => {
            s.append("Var(\"");
            s.append(x.as_str());
            s.append("\")");
        },
        VarOrLabel::Label(x) => {
            s.append("Label(\"");
            s.append(x.as_str());
            s.append("\")");
        },
    }
}

fn push_op(s: &mut String, p: Prim) -> (ok: bool)
    ensures
        ok == op_text(p) is Some,
        ok ==> final(s)@ == old(s)@ + op_text(p).unwrap(),
{
    let t: &str = match p {
        Prim::Add1 => "+1",
        Prim::Sub1 => "-1",
        Prim::Add => "+",
        Prim::Sub => "-",
        Prim::Mul => "*",
        Prim::And => "and",
        Prim::Or => "or",
        Prim::Not => "not",
        Prim::Gt => ">",
        Prim::Lt => "<",
        Prim::Ge => ">=",
        Prim::Le => "<=",
        Prim::Eq => "==",
        Prim::Neq => "!=",
        Prim::IsNum => "number?",
        Prim::IsBool => "boolean?",
        Prim::Print => "print",
        Prim::IsFun => "function?",
        Prim::IsArray => "array?",
        Prim::ArrayGet => "array-get",
        Prim::ArraySet => "array-set",
        Prim::Length => "length",
        Prim::GetCode => "get-code",
        Prim::GetEnv => "get-env",
        Prim::CheckArityAndUntag(_) => "check-arity-and-untag",
        Prim::MakeArray => "make-array",
        _ => return false,
    };
    s.append(t);
    true
}

/// Appends the rendering of `e`, where it has one; `false` where it has none.
pub fn push_seq_exp<A>(s: &mut String, e: &SeqExp<A>) -> (ok: bool)
    ensures
        ok == printable(*e),
        ok ==> final(s)@ == old(s)@ + seq_text(*e),
    decreases e, 1nat,
{
    match e {
        SeqExp::Imm(i, _) => {
            if let ImmExp::Float(_) = i {
                return false;
            }
            push_imm(s, i);
            true
        },
        SeqExp::Prim(p, args, _) => {
            if !imms_ready(args) {
                return false;
            }
            s.append("(");
            if !push_op(s, *p) {
                return false;
            }
            push_spaced_before(s, args);
            s.append(")");
            true
        },
        SeqExp::MakeClosure { arity, label, env, .. } => {
            if let ImmExp::Float(_) = env {
                return false;
            }
            push_imm(s, env);
            s.append("(make-closure ");
            push_dec_u64(s, *arity as u64);
            s.append(" ");
            s.append(label.as_str());
            s.append(" ()");
            true
        },
        SeqExp::Let { var, bound_exp, body, .. } => {
            s.append("(let ([");
            s.append(var.as_str());
            s.append(" ");
            if !push_seq_exp(s, bound_exp) {
                return false;
            }
            s.append("]) in \n");
            if !push_seq_exp(s, body) {
                return false;
            }
            s.append(")");
            true
        },
        SeqExp::If { cond, thn, els, .. } => {
            if let ImmExp::Float(_) = cond {
                return false;
            }
            s.append("(if ");
            push_imm(s, cond);
            s.append(" ");
            if !push_seq_exp(s, thn) {
                return false;
            }
            s.append(" ");
            if !push_seq_exp(s, els) {
                return false;
            }
            s.append(")");
            true
        },
        SeqExp::FunDefs { decls, body, .. } => {
            s.append("(letrec (");
            if !push_decls(s, decls) {
                return false;
            }
            s.append(") in \n");
            if !push_seq_exp(s, body) {
                return false;
            }
            s.append(")");
            true
        },
        SeqExp::InternalTailCall(name, args, _) => {
            if !imms_ready(args) {
                return false;
            }
            s.append("(tail-call ");
            s.append(name.as_str());
            s.append(" ");
            push_spaced_after(s, args);
            s.append(")");
            true
        },
        SeqExp::ExternalCall { fun, args, .. } => {
            let plain = match fun {
                VarOrLabel::Var(x) => plain_name_ready(x),
                VarOrLabel::Label(x) => plain_name_ready(x),
            };
            if !plain || !imms_ready(args) {
                return false;
            }
            s.append("(external-call ");
            push_target(s, fun);
            s.append(" ");
            push_spaced_after(s, args);
            s.append(")");
            true
        },
        SeqExp::Semicolon { e1, e2, .. } => {
            if !push_seq_exp(s, e1) {
                return false;
            }
            s.append(";\n");
            push_seq_exp(s, e2)
        },
    }
}

fn push_decls<A>(s: &mut String, ds: &Vec<FunDecl<SeqExp<A>, A>>) -> (ok: bool)
    ensures
        ok == decls_printable(ds@, ds@.len() as int),
        ok ==> final(s)@ == old(s)@ + decls_text(ds@, ds@.len() as int),
    decreases ds, 0nat,
{
    let mut k: usize = 0;
    while k < ds.len()
        invariant
            k <= ds@.len(),
            decls_printable(ds@, k as int),
            s@ == old(s)@ + decls_text(ds@, k as int),
        decreases ds@.len() - k,
    {
        s.append("(");
        s.append(ds[k].name.as_str());
        s.append(" (");
        push_params(s, &ds[k].parameters);
        s.append(") -> ");
        if !push_seq_exp(s, &ds[k].body) {
            proof {
                if decls_printable(ds@, ds@.len() as int) {
                    lemma_decls_printable_prefix(ds@, k + 1, ds@.len() as int);
                }
            }
            return false;
        }
        s.append(") ");
        k = k + 1;
    }
    true
}

proof fn lemma_decls_printable_prefix<A>(ds: Seq<FunDecl<SeqExp<A>, A>>, i: int, n: int)
    requires
        0 <= i <= n <= ds.len(),
        decls_printable(ds, n),
    ensures
        decls_printable(ds, i),
    decreases n - i,
{
    if i < n {
        lemma_decls_printable_prefix(ds, i, n - 1);
    }
}

/// The rendering of a sequential expression; `None` where it holds a float,
/// a floating-point operator, or a call target whose name is not plain.
pub fn seq_exp_to_string<A>(e: &SeqExp<A>) -> (r: Option<String>)
    ensures
        r is Some <==> printable(*e),
        r matches Some(s) ==> s@ == seq_text(*e),
{
    let mut s = String::new();
    if push_seq_exp(&mut s, e) {
        assert(Seq::<char>::empty() + seq_text(*e) =~= seq_text(*e));
        Some(s)
    } else {
        None
    }
}

} // verus!
