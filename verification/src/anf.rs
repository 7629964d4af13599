//! Sequentialization: every intermediate result is bound to a fresh name, so
//! that operators, conditionals and calls only take immediate arguments.
use vstd::prelude::*;
use crate::syntax::{Exp, FunDecl, ImmExp, Prim, SeqExp, SeqProg, VarOrLabel};
use crate::seqview::{ImmV, TargetV, SeqExpV, DeclV, seq_view, imms_view, decls_view};
use crate::names::{texts, copy_names};
use crate::text::{dec_nat, push_dec_u64};
use crate::shape::{same_shape, semicolon_free};
use crate::tag::{tag_end_decls, tagged_decls, lemma_tag_keeps_shape, lemma_decls_grow};

verus! {

// ---------------------------------------------------------------------------
// The model.

/// The known functions: for each, its name and its parameters, in the order
/// in which their definitions were met.
pub type FunsV = Seq<(Seq<char>, Seq<Seq<char>>)>;

pub open spec fn funs_view(v: Seq<(String, Vec<String>)>) -> FunsV {
    v.map_values(|p: (String, Vec<String>)| (p.0@, texts(p.1@)))
}

/// The parameters of the function named `name` that was met last, or none.
pub open spec fn params_of(f: FunsV, name: Seq<char>) -> Seq<Seq<char>>
    decreases f.len(),
{
    if f.len() == 0 {
        Seq::empty()
    } else if f.last().0 == name {
        f.last().1
    } else {
        params_of(f.drop_last(), name)
    }
}

/// The entries that a group of definitions adds to the known functions.
pub open spec fn decl_entries<A>(ds: Seq<FunDecl<Exp<A>, A>>) -> FunsV {
    ds.map_values(|d: FunDecl<Exp<A>, A>| (d.name@, texts(d.parameters@)))
}

/// The name `prefix` followed by the annotation.
pub open spec fn tmp_name(prefix: Seq<char>, a: u32) -> Seq<char> {
    prefix + dec_nat(a as nat)
}

/// The name `prefix` followed by the annotation, `_` and a position.
pub open spec fn arg_name(prefix: Seq<char>, a: u32, k: int) -> Seq<char> {
    prefix + dec_nat(a as nat) + "_"@ + dec_nat(k as nat)
}

/// The immediates that name the first `n` arguments.
pub open spec fn arg_imms(prefix: Seq<char>, a: u32, n: int) -> Seq<ImmV> {
    Seq::new(n as nat, |k: int| ImmV::Var(arg_name(prefix, a, k)))
}

/// `inner` under bindings of the first `i` arguments, the first outermost.
pub open spec fn wrap_lets(prefix: Seq<char>, a: u32, seqs: Seq<SeqExpV>, i: int, inner: SeqExpV) -> SeqExpV
    decreases i,
{
    if i <= 0 {
        inner
    } else {
        wrap_lets(prefix, a, seqs, i - 1, SeqExpV::Let {
            var: arg_name(prefix, a, i - 1),
            bound_exp: Box::new(seqs[i - 1]),
            body: Box::new(inner),
        })
    }
}

/// Operators that take one argument.
pub open spec fn is_unary(p: Prim) -> bool {
    match p {
        Prim::GetCode | Prim::GetEnv | Prim::CheckArityAndUntag(_) | Prim::Add1 | Prim::Sub1 | Prim::Not
        | Prim::Print | Prim::IsBool | Prim::IsNum | Prim::IsArray | Prim::IsFun | Prim::Length
        | Prim::IsFloat => true,
        _ => false,
    }
}

/// Operators that take two arguments.
pub open spec fn is_binary(p: Prim) -> bool {
    match p {
        Prim::ArrayGet | Prim::Add | Prim::And | Prim::Eq | Prim::Ge | Prim::Gt | Prim::Le | Prim::Lt
        | Prim::Mul | Prim::Neq | Prim::Or | Prim::Sub | Prim::FAdd | Prim::FSub | Prim::FMul
        | Prim::FLt | Prim::FGt | Prim::FLe | Prim::FGe => true,
        _ => false,
    }
}

/// An operator is given at least the arguments it reads.
pub open spec fn enough_args(p: Prim, n: int) -> bool {
    if is_unary(p) {
        n >= 1
    } else if is_binary(p) {
        n >= 2
    } else if p == Prim::ArraySet {
        n >= 3
    } else {
        true
    }
}

/// `e` holds none of the forms that earlier passes remove (`;`, lambdas and
/// the calls that are not yet resolved), and every operator has the
/// arguments it reads.
pub open spec fn sequentializable<A>(e: Exp<A>) -> bool
    decreases e,
{
    match e {
        Exp::Num(..) | Exp::Float(..) | Exp::Bool(..) | Exp::Var(..) => true,
        Exp::Prim(p, args, _) => enough_args(p, args@.len() as int)
            && forall|j: int| 0 <= j < args@.len() ==> sequentializable(*args@[j]),
        Exp::Let { bindings, body, .. } =>
            (forall|j: int| 0 <= j < bindings@.len() ==> sequentializable(bindings@[j].1)) && sequentializable(*body),
        Exp::If { cond, thn, els, .. } => sequentializable(*cond) && sequentializable(*thn) && sequentializable(*els),
        Exp::FunDefs { decls, body, .. } =>
            (forall|j: int| 0 <= j < decls@.len() ==> sequentializable(decls@[j].body)) && sequentializable(*body),
        Exp::MakeClosure { env, .. } => sequentializable(*env),
        Exp::InternalTailCall(_, args, _) => forall|j: int| 0 <= j < args@.len() ==> sequentializable(args@[j]),
        Exp::ExternalCall { args, .. } => forall|j: int| 0 <= j < args@.len() ==> sequentializable(args@[j]),
        Exp::Semicolon { .. } | Exp::Lambda { .. } | Exp::Call(..) | Exp::ClosureCall(..) | Exp::DirectCall(..) => false,
    }
}

/// Whether an expression can be sequentialized depends on its shape alone.
pub proof fn lemma_shape_sequentializable<A, B>(e: Exp<A>, r: Exp<B>)
    requires
        same_shape(e, r),
    ensures
        sequentializable(e) == sequentializable(r),
    decreases e,
{
    match e {
        Exp::Prim(_, args, _) => {
            let ra = r->Prim_1;
            assert forall|j: int| 0 <= j < args@.len() implies
                sequentializable(*args@[j]) == sequentializable(#[trigger] *ra@[j]) by {
                lemma_shape_sequentializable(*args@[j], *ra@[j]);
            }
            assert((forall|j: int| 0 <= j < args@.len() ==> sequentializable(*args@[j]))
                == (forall|j: int| 0 <= j < ra@.len() ==> sequentializable(*ra@[j])));
        },
        Exp::Let { bindings, body, .. } => {
            let rb = r->Let_bindings;
            lemma_shape_sequentializable(*body, *r->Let_body);
            assert forall|j: int| 0 <= j < bindings@.len() implies
                sequentializable(bindings@[j].1) == sequentializable(#[trigger] rb@[j].1) by {
                lemma_shape_sequentializable(bindings@[j].1, rb@[j].1);
            }
            assert((forall|j: int| 0 <= j < bindings@.len() ==> sequentializable(bindings@[j].1))
                == (forall|j: int| 0 <= j < rb@.len() ==> sequentializable(rb@[j].1)));
        },
        Exp::If { cond, thn, els, .. } => {
            lemma_shape_sequentializable(*cond, *r->If_cond);
            lemma_shape_sequentializable(*thn, *r->If_thn);
            lemma_shape_sequentializable(*els, *r->If_els);
        },
        Exp::FunDefs { decls, body, .. } => {
            let rd = r->FunDefs_decls;
            lemma_shape_sequentializable(*body, *r->FunDefs_body);
            assert forall|j: int| 0 <= j < decls@.len() implies
                sequentializable(decls@[j].body) == sequentializable(#[trigger] rd@[j].body) by {
                lemma_shape_sequentializable(decls@[j].body, rd@[j].body);
            }
            assert((forall|j: int| 0 <= j < decls@.len() ==> sequentializable(decls@[j].body))
                == (forall|j: int| 0 <= j < rd@.len() ==> sequentializable(rd@[j].body)));
        },
        Exp::MakeClosure { env, .. } => {
            lemma_shape_sequentializable(*env, *r->MakeClosure_env);
        },
        Exp::InternalTailCall(_, args, _) => {
            let ra = r->InternalTailCall_1;
            assert forall|j: int| 0 <= j < args@.len() implies
                sequentializable(args@[j]) == sequentializable(#[trigger] ra@[j]) by {
                lemma_shape_sequentializable(args@[j], ra@[j]);
            }
            assert((forall|j: int| 0 <= j < args@.len() ==> sequentializable(args@[j]))
                == (forall|j: int| 0 <= j < ra@.len() ==> sequentializable(ra@[j])));
        },
        Exp::ExternalCall { args, .. } => {
            let ra = r->ExternalCall_args;
            assert forall|j: int| 0 <= j < args@.len() implies
                sequentializable(args@[j]) == sequentializable(#[trigger] ra@[j]) by {
                lemma_shape_sequentializable(args@[j], ra@[j]);
            }
            assert((forall|j: int| 0 <= j < args@.len() ==> sequentializable(args@[j]))
                == (forall|j: int| 0 <= j < ra@.len() ==> sequentializable(ra@[j])));
        },
        _ => {},
    }
}

/// The sequential form of `e`, and the known functions afterwards, when `f`
/// are those known before. Parts are taken in evaluation order, except that a
/// `let` takes its body first and then its bindings from the last to the
/// first. A group of definitions makes its functions known before any of
/// their bodies. A call of a label or an internal tail call looks up the
/// parameters of the function with that name met last: where it has more
/// parameters than the call has arguments, the first parameters are passed
/// for the missing arguments; of all the arguments, as many are bound as the
/// function has parameters.
pub open spec fn seqz(e: Exp<u32>, f: FunsV) -> (SeqExpV, FunsV)
    decreases e, 1nat, 0nat,
{
    match e {
        Exp::Num(n, _) => (SeqExpV::Imm(ImmV::Num(n)), f),
        Exp::Float(x, _) => (SeqExpV::Imm(ImmV::Float(x)), f),
        Exp::Bool(b, _) => (SeqExpV::Imm(ImmV::Bool(b)), f),
        Exp::Var(x, _) => (SeqExpV::Imm(ImmV::Var(x@)), f),
        Exp::Prim(p, args, a) => {
            if is_unary(p) && args@.len() >= 1 {
                let (s1, f1) = seqz(*args@[0], f);
                let x1 = tmp_name("#prim1_"@, a);
                (SeqExpV::Let {
                    var: x1,
                    bound_exp: Box::new(s1),
                    body: Box::new(SeqExpV::Prim(p, seq![ImmV::Var(x1)])),
                }, f1)
            } else if is_binary(p) && args@.len() >= 2 {
                let (s1, f1) = seqz(*args@[0], f);
                let (s2, f2) = seqz(*args@[1], f1);
                let x1 = tmp_name("#prim2_1_"@, a);
                let x2 = tmp_name("#prim2_2_"@, a);
                (SeqExpV::Let {
                    var: x1,
                    bound_exp: Box::new(s1),
                    body: Box::new(SeqExpV::Let {
                        var: x2,
                        bound_exp: Box::new(s2),
                        body: Box::new(SeqExpV::Prim(p, seq![ImmV::Var(x1), ImmV::Var(x2)])),
                    }),
                }, f2)
            } else if p == Prim::ArraySet && args@.len() >= 3 {
                let (s1, f1) = seqz(*args@[0], f);
                let (s2, f2) = seqz(*args@[1], f1);
                let (s3, f3) = seqz(*args@[2], f2);
                let x1 = tmp_name("#prim2_1_"@, a);
                let x2 = tmp_name("#prim2_2_"@, a);
                let x3 = tmp_name("#prim2_3_"@, a);
                (SeqExpV::Let {
                    var: x1,
                    bound_exp: Box::new(s1),
                    body: Box::new(SeqExpV::Let {
                        var: x2,
                        bound_exp: Box::new(s2),
                        body: Box::new(SeqExpV::Let {
                            var: x3,
                            bound_exp: Box::new(s3),
                            body: Box::new(SeqExpV::Prim(p, seq![ImmV::Var(x1), ImmV::Var(x2), ImmV::Var(x3)])),
                        }),
                    }),
                }, f3)
            } else {
                let n = args@.len() as int;
                let (seqs, f1) = seqz_boxes(args@, n, f);
                (wrap_lets("#ArrayArg"@, a, seqs, n, SeqExpV::Prim(p, arg_imms("#ArrayArg"@, a, n))), f1)
            }
        },
        Exp::Let { bindings, body, .. } => {
            let (sb, f1) = seqz(*body, f);
            seqz_binds(bindings@, bindings@.len() as int, sb, f1)
        },
        Exp::If { cond, thn, els, ann } => {
            let (sc, f1) = seqz(*cond, f);
            let (st, f2) = seqz(*thn, f1);
            let (se, f3) = seqz(*els, f2);
            let x = tmp_name("#if_cond_"@, ann);
            (SeqExpV::Let {
                var: x,
                bound_exp: Box::new(sc),
                body: Box::new(SeqExpV::If { cond: ImmV::Var(x), thn: Box::new(st), els: Box::new(se) }),
            }, f3)
        },
        Exp::FunDefs { decls, body, .. } => {
            let (ds, f1) = seqz_decls(decls@, decls@.len() as int, f + decl_entries(decls@));
            let (sb, f2) = seqz(*body, f1);
            (SeqExpV::FunDefs { decls: ds, body: Box::new(sb) }, f2)
        },
        Exp::ExternalCall { fun, args, is_tail, ann } => {
            let na = args@.len() as int;
            let (seqs, f1) = seqz_exps(args@, na, f);
            match fun {
                VarOrLabel::Label(name) => {
                    let ps = params_of(f, name@);
                    let fill = if ps.len() > na { ps.len() - na } else { 0 };
                    let fills = Seq::new(fill as nat, |k: int| SeqExpV::Imm(ImmV::Var(ps[k])));
                    let call = SeqExpV::ExternalCall {
                        fun: TargetV::Label(name@),
                        args: arg_imms("#arg"@, ann, fill + na),
                        is_tail,
                    };
                    (wrap_lets("#arg"@, ann, fills + seqs, ps.len() as int, call), f1)
                },
                VarOrLabel::Var(name) => {
                    let call = SeqExpV::ExternalCall {
                        fun: TargetV::Var(name@),
                        args: arg_imms("#VarArg"@, ann, na),
                        is_tail,
                    };
                    (wrap_lets("#VarArg"@, ann, seqs, na, call), f1)
                },
            }
        },
        Exp::InternalTailCall(name, args, ann) => {
            let na = args@.len() as int;
            let (seqs, f1) = seqz_exps(args@, na, f);
            let ps = params_of(f, name@);
            let fill = if ps.len() > na { ps.len() - na } else { 0 };
            let fills = Seq::new(fill as nat, |k: int| SeqExpV::Imm(ImmV::Var(ps[k])));
            let call = SeqExpV::InternalTailCall(name@, arg_imms("#arg"@, ann, fill + na));
            (wrap_lets("#arg"@, ann, fills + seqs, ps.len() as int, call), f1)
        },
        Exp::MakeClosure { arity, label, env, ann } => {
            let (s, f1) = seqz(*env, f);
            let x = tmp_name("#env_"@, ann);
            (SeqExpV::Let {
                var: x,
                bound_exp: Box::new(s),
                body: Box::new(SeqExpV::MakeClosure { arity, label: label@, env: ImmV::Var(x) }),
            }, f1)
        },
        _ => (SeqExpV::Imm(ImmV::Num(0)), f),
    }
}

/// The sequential forms of the first `i` expressions, taken in order.
pub open spec fn seqz_exps(s: Seq<Exp<u32>>, i: int, f: FunsV) -> (Seq<SeqExpV>, FunsV)
    decreases s, 0nat, i,
{
    if i <= 0 || i > s.len() {
        (Seq::empty(), f)
    } else {
        let (p, f1) = seqz_exps(s, i - 1, f);
        let (x, f2) = seqz(s[i - 1], f1);
        (p.push(x), f2)
    }
}

pub open spec fn seqz_boxes(s: Seq<Box<Exp<u32>>>, i: int, f: FunsV) -> (Seq<SeqExpV>, FunsV)
    decreases s, 0nat, i,
{
    if i <= 0 || i > s.len() {
        (Seq::empty(), f)
    } else {
        let (p, f1) = seqz_boxes(s, i - 1, f);
        let (x, f2) = seqz(*s[i - 1], f1);
        (p.push(x), f2)
    }
}

/// `inner` under the first `i` bindings, taken from the last to the first.
pub open spec fn seqz_binds(s: Seq<(String, Exp<u32>)>, i: int, inner: SeqExpV, f: FunsV) -> (SeqExpV, FunsV)
    decreases s, 0nat, i,
{
    if i <= 0 || i > s.len() {
        (inner, f)
    } else {
        let (x, f1) = seqz(s[i - 1].1, f);
        seqz_binds(s, i - 1, SeqExpV::Let { var: s[i - 1].0@, bound_exp: Box::new(x), body: Box::new(inner) }, f1)
    }
}

/// The first `i` definitions with sequential bodies, taken in order.
pub open spec fn seqz_decls(s: Seq<FunDecl<Exp<u32>, u32>>, i: int, f: FunsV) -> (Seq<DeclV>, FunsV)
    decreases s, 0nat, i,
{
    if i <= 0 || i > s.len() {
        (Seq::empty(), f)
    } else {
        let (p, f1) = seqz_decls(s, i - 1, f);
        let (b, f2) = seqz(s[i - 1].body, f1);
        (p.push(DeclV { name: s[i - 1].name@, parameters: texts(s[i - 1].parameters@), body: b }), f2)
    }
}

pub open spec fn seqs_view(s: Seq<SeqExp<()>>) -> Seq<SeqExpV> {
    s.map_values(|x: SeqExp<()>| seq_view(x))
}

// ---------------------------------------------------------------------------
// Fresh names.

fn tmp_var(prefix: &str, a: u32) -> (r: String)
    ensures
        r@ == tmp_name(prefix@, a),
{
    let mut r = String::from_str(prefix);
    push_dec_u64(&mut r, a as u64);
    r
}

fn arg_var(prefix: &str, a: u32, k: usize) -> (r: String)
    ensures
        r@ == arg_name(prefix@, a, k as int),
{
    let mut r = String::from_str(prefix);
    push_dec_u64(&mut r, a as u64);
    r.append("_");
    push_dec_u64(&mut r, k as u64);
    r
}

fn arg_vars(prefix: &str, a: u32, n: usize) -> (r: Vec<ImmExp>)
    ensures
        imms_view(r@) == arg_imms(prefix@, a, n as int),
{
    let mut r: Vec<ImmExp> = Vec::new();
    let mut k: usize = 0;
    while k < n
        invariant
            k <= n,
            imms_view(r@) == arg_imms(prefix@, a, k as int),
        decreases n - k,
    {
        let x = arg_var(prefix, a, k);
        let ghost old_r = r@;
        r.push(ImmExp::Var(x));
        proof {
            assert(imms_view(r@) =~= imms_view(old_r).push(ImmV::Var(arg_name(prefix@, a, k as int))));
            assert(arg_imms(prefix@, a, k + 1) =~= arg_imms(prefix@, a, k as int).push(ImmV::Var(arg_name(prefix@, a, k as int))));
        }
        k = k + 1;
    }
    r
}

/// `inner` under bindings of the first `i` of `seqs` to the argument names.
fn wrap(prefix: &str, a: u32, seqs: Vec<SeqExp<()>>, i: usize, inner: SeqExp<()>) -> (r: SeqExp<()>)
    requires
        i <= seqs@.len(),
    ensures
        seq_view(r) == wrap_lets(prefix@, a, seqs_view(seqs@), i as int, seq_view(inner)),
{
    let ghost all = seqs_view(seqs@);
    let mut seqs = seqs;
    let mut res = inner;
    while seqs.len() > i
        invariant
            i <= seqs@.len() <= all.len(),
            seqs_view(seqs@) =~= all.take(seqs@.len() as int),
        decreases seqs@.len(),
    {
        let ghost before = seqs@;
        seqs.pop();
        assert(seqs_view(seqs@) =~= all.take(seqs@.len() as int)) by {
            assert(seqs@ =~= before.drop_last());
        }
    }
    while seqs.len() > 0
        invariant
            seqs@.len() <= i <= all.len(),
            seqs_view(seqs@) =~= all.take(seqs@.len() as int),
            wrap_lets(prefix@, a, all, i as int, seq_view(inner))
                == wrap_lets(prefix@, a, all, seqs@.len() as int, seq_view(res)),
        decreases seqs@.len(),
    {
        let k = seqs.len() - 1;
        let ghost before = seqs@;
        let s = seqs.pop().unwrap();
        proof {
            assert(seqs@ =~= before.drop_last());
            assert(seqs_view(before)[k as int] == seq_view(s));
            assert(seqs_view(seqs@) =~= all.take(seqs@.len() as int));
        }
        let x = arg_var(prefix, a, k);
        res = SeqExp::Let { var: x, bound_exp: Box::new(s), body: Box::new(res), ann: () };
    }
    res
}

// ---------------------------------------------------------------------------
// Looking up and extending the known functions.

/// The parameters of the function named `name` that was met last, or none.
fn params_lookup(funs: &Vec<(String, Vec<String>)>, name: &String) -> (r: Vec<String>)
    ensures
        texts(r@) == params_of(funs_view(funs@), name@),
{
    let mut k: usize = funs.len();
    assert(funs@.take(k as int) =~= funs@);
    while k > 0
        invariant
            k <= funs@.len(),
            params_of(funs_view(funs@), name@) == params_of(funs_view(funs@.take(k as int)), name@),
        decreases k,
    {
        proof {
            assert(funs_view(funs@.take(k as int)).drop_last() =~= funs_view(funs@.take(k - 1)));
        }
        if funs[k - 1].0 == *name {
            return copy_names(&funs[k - 1].1);
        }
        k = k - 1;
    }
    Vec::new()
}

/// The arguments passed for the missing ones: the first `fill` parameters.
fn fill_seqs(ps: &Vec<String>, fill: usize) -> (r: Vec<SeqExp<()>>)
    requires
        fill <= ps@.len(),
    ensures
        seqs_view(r@) == Seq::new(fill as nat, |k: int| SeqExpV::Imm(ImmV::Var(ps@[k]@))),
{
    let mut r: Vec<SeqExp<()>> = Vec::new();
    let mut k: usize = 0;
    while k < fill
        invariant
            k <= fill <= ps@.len(),
            seqs_view(r@) =~= Seq::new(k as nat, |j: int| SeqExpV::Imm(ImmV::Var(ps@[j]@))),
        decreases fill - k,
    {
        let x = ps[k].clone();
        let ghost old_r = r@;
        r.push(SeqExp::Imm(ImmExp::Var(x), ()));
        assert(seqs_view(r@) =~= seqs_view(old_r).push(SeqExpV::Imm(ImmV::Var(ps@[k as int]@))));
        k = k + 1;
    }
    r
}

// ---------------------------------------------------------------------------
// Sequentializing.

/// The sequential form of `e`; `funs` holds the known functions, with their
/// parameters, and gains those of each group of definitions met in `e`.
pub fn sequentialize(e: &Exp<u32>, funs: &mut Vec<(String, Vec<String>)>) -> (r: SeqExp<()>)
    requires
        sequentializable(*e),
    ensures
        seq_view(r) == seqz(*e, funs_view(old(funs)@)).0,
        funs_view(final(funs)@) == seqz(*e, funs_view(old(funs)@)).1,
    decreases e, 1nat,
{
    match e {
        Exp::Num(n, _) => SeqExp::Imm(ImmExp::Num(*n), ()),
        Exp::Float(x, _) => SeqExp::Imm(ImmExp::Float(*x), ()),
        Exp::Bool(b, _) => SeqExp::Imm(ImmExp::Bool(*b), ()),
        Exp::Var(x, _) => SeqExp::Imm(ImmExp::Var(x.clone()), ()),
        Exp::Prim(op, _, _) => match op {
            Prim::GetCode | Prim::GetEnv | Prim::CheckArityAndUntag(_) | Prim::Add1 | Prim::Sub1 | Prim::Not
            | Prim::Print | Prim::IsBool | Prim::IsNum | Prim::IsArray | Prim::IsFun | Prim::Length
            | Prim::IsFloat => seq_unary(e, funs),
            Prim::ArrayGet | Prim::Add | Prim::And | Prim::Eq | Prim::Ge | Prim::Gt | Prim::Le | Prim::Lt
            | Prim::Mul | Prim::Neq | Prim::Or | Prim::Sub | Prim::FAdd | Prim::FSub | Prim::FMul
            | Prim::FLt | Prim::FGt | Prim::FLe | Prim::FGe => seq_binary(e, funs),
            Prim::ArraySet => seq_array_set(e, funs),
            Prim::MakeArray => seq_make_array(e, funs),
        },
        Exp::Let { .. } => seq_let(e, funs),
        Exp::If { .. } => seq_if(e, funs),
        Exp::FunDefs { .. } => seq_fun_defs(e, funs),
        Exp::ExternalCall { .. } => seq_external_call(e, funs),
        Exp::InternalTailCall(..) => seq_tail_call(e, funs),
        Exp::MakeClosure { .. } => seq_make_closure(e, funs),
        Exp::Semicolon { .. } | Exp::Lambda { .. } | Exp::Call(..) | Exp::ClosureCall(..) | Exp::DirectCall(..) => {
            proof {
                assert(false);
            }
            SeqExp::Imm(ImmExp::Num(0), ())
        },
    }
}

fn seq_unary(e: &Exp<u32>, funs: &mut Vec<(String, Vec<String>)>) -> (r: SeqExp<()>)
    requires
        sequentializable(*e),
        *e matches Exp::Prim(p, _, _) && is_unary(p),
    ensures
        seq_view(r) == seqz(*e, funs_view(old(funs)@)).0,
        funs_view(final(funs)@) == seqz(*e, funs_view(old(funs)@)).1,
    decreases e, 0nat,
{
    match e {
        Exp::Prim(op, args, ann) => {
            let s1 = sequentialize(&args[0], funs);
            let x1 = tmp_var("#prim1_", *ann);
            let y1 = x1.clone();
            let imms = vec![ImmExp::Var(y1)];
            proof {
                reveal_with_fuel(seq_view, 2);
                assert(imms_view(imms@) =~= seq![ImmV::Var(x1@)]);
            }
            SeqExp::Let {
                var: x1,
                bound_exp: Box::new(s1),
                body: Box::new(SeqExp::Prim(*op, imms, ())),
                ann: (),
            }
        },
        _ => SeqExp::Imm(ImmExp::Num(0), ()),
    }
}

fn seq_binary(e: &Exp<u32>, funs: &mut Vec<(String, Vec<String>)>) -> (r: SeqExp<()>)
    requires
        sequentializable(*e),
        *e matches Exp::Prim(p, _, _) && is_binary(p),
    ensures
        seq_view(r) == seqz(*e, funs_view(old(funs)@)).0,
        funs_view(final(funs)@) == seqz(*e, funs_view(old(funs)@)).1,
    decreases e, 0nat,
{
    match e {
        Exp::Prim(op, args, ann) => {
            let s1 = sequentialize(&args[0], funs);
            let s2 = sequentialize(&args[1], funs);
            let x1 = tmp_var("#prim2_1_", *ann);
            let x2 = tmp_var("#prim2_2_", *ann);
            let y1 = x1.clone();
            let y2 = x2.clone();
            let imms = vec![ImmExp::Var(y1), ImmExp::Var(y2)];
            proof {
                reveal_with_fuel(seq_view, 3);
                assert(imms_view(imms@) =~= seq![ImmV::Var(x1@), ImmV::Var(x2@)]);
            }
            SeqExp::Let {
                var: x1,
                bound_exp: Box::new(s1),
                body: Box::new(SeqExp::Let {
                    var: x2,
                    bound_exp: Box::new(s2),
                    body: Box::new(SeqExp::Prim(*op, imms, ())),
                    ann: (),
                }),
                ann: (),
            }
        },
        _ => SeqExp::Imm(ImmExp::Num(0), ()),
    }
}

fn seq_array_set(e: &Exp<u32>, funs: &mut Vec<(String, Vec<String>)>) -> (r: SeqExp<()>)
    requires
        sequentializable(*e),
        *e matches Exp::Prim(p, _, _) && p == Prim::ArraySet,
    ensures
        seq_view(r) == seqz(*e, funs_view(old(funs)@)).0,
        funs_view(final(funs)@) == seqz(*e, funs_view(old(funs)@)).1,
    decreases e, 0nat,
{
    match e {
        Exp::Prim(op, args, ann) => {
            let s1 = sequentialize(&args[0], funs);
            let s2 = sequentialize(&args[1], funs);
            let s3 = sequentialize(&args[2], funs);
            let x1 = tmp_var("#prim2_1_", *ann);
            let x2 = tmp_var("#prim2_2_", *ann);
            let x3 = tmp_var("#prim2_3_", *ann);
            let y1 = x1.clone();
            let y2 = x2.clone();
            let y3 = x3.clone();
            let imms = vec![ImmExp::Var(y1), ImmExp::Var(y2), ImmExp::Var(y3)];
            proof {
                reveal_with_fuel(seq_view, 4);
                assert(imms_view(imms@) =~= seq![ImmV::Var(x1@), ImmV::Var(x2@), ImmV::Var(x3@)]);
            }
            SeqExp::Let {
                var: x1,
                bound_exp: Box::new(s1),
                body: Box::new(SeqExp::Let {
                    var: x2,
                    bound_exp: Box::new(s2),
                    body: Box::new(SeqExp::Let {
                        var: x3,
                        bound_exp: Box::new(s3),
                        body: Box::new(SeqExp::Prim(*op, imms, ())),
                        ann: (),
                    }),
                    ann: (),
                }),
                ann: (),
            }
        },
        _ => SeqExp::Imm(ImmExp::Num(0), ()),
    }
}

fn seq_make_array(e: &Exp<u32>, funs: &mut Vec<(String, Vec<String>)>) -> (r: SeqExp<()>)
    requires
        sequentializable(*e),
        *e matches Exp::Prim(p, _, _) && p == Prim::MakeArray,
    ensures
        seq_view(r) == seqz(*e, funs_view(old(funs)@)).0,
        funs_view(final(funs)@) == seqz(*e, funs_view(old(funs)@)).1,
    decreases e, 0nat,
{
    match e {
        Exp::Prim(op, args, ann) => {
            let seqs = seq_boxes(args, funs);
            let n = args.len();
            let imms = arg_vars("#ArrayArg", *ann, n);
            wrap("#ArrayArg", *ann, seqs, n, SeqExp::Prim(*op, imms, ()))
        },
        _ => SeqExp::Imm(ImmExp::Num(0), ()),
    }
}

#[verifier::loop_isolation(false)]
fn seq_let(e: &Exp<u32>, funs: &mut Vec<(String, Vec<String>)>) -> (r: SeqExp<()>)
    requires
        sequentializable(*e),
        e is Let,
    ensures
        seq_view(r) == seqz(*e, funs_view(old(funs)@)).0,
        funs_view(final(funs)@) == seqz(*e, funs_view(old(funs)@)).1,
    decreases e, 0nat,
{
    match e {
        Exp::Let { bindings, body, .. } => {
            let mut res = sequentialize(body, funs);
            let ghost inner = seq_view(res);
            let ghost f1 = funs_view(funs@);
            let mut k: usize = bindings.len();
            while k > 0
                invariant
                    k <= bindings@.len(),
                    seqz_binds(bindings@, bindings@.len() as int, inner, f1).0
                        == seqz_binds(bindings@, k as int, seq_view(res), funs_view(funs@)).0,
                    seqz_binds(bindings@, bindings@.len() as int, inner, f1).1
                        == seqz_binds(bindings@, k as int, seq_view(res), funs_view(funs@)).1,
                decreases k,
            {
                k = k - 1;
                let x = sequentialize(&bindings[k].1, funs);
                let name = bindings[k].0.clone();
                res = SeqExp::Let { var: name, bound_exp: Box::new(x), body: Box::new(res), ann: () };
            }
            res
        },
        _ => SeqExp::Imm(ImmExp::Num(0), ()),
    }
}

fn seq_if(e: &Exp<u32>, funs: &mut Vec<(String, Vec<String>)>) -> (r: SeqExp<()>)
    requires
        sequentializable(*e),
        e is If,
    ensures
        seq_view(r) == seqz(*e, funs_view(old(funs)@)).0,
        funs_view(final(funs)@) == seqz(*e, funs_view(old(funs)@)).1,
    decreases e, 0nat,
{
    match e {
        Exp::If { cond, thn, els, ann } => {
            let sc = sequentialize(cond, funs);
            let st = sequentialize(thn, funs);
            let se = sequentialize(els, funs);
            let x = tmp_var("#if_cond_", *ann);
            let y = x.clone();
            proof {
                reveal_with_fuel(seq_view, 2);
            }
            SeqExp::Let {
                var: x,
                bound_exp: Box::new(sc),
                body: Box::new(SeqExp::If { cond: ImmExp::Var(y), thn: Box::new(st), els: Box::new(se), ann: () }),
                ann: (),
            }
        },
        _ => SeqExp::Imm(ImmExp::Num(0), ()),
    }
}

#[verifier::loop_isolation(false)]
fn seq_fun_defs(e: &Exp<u32>, funs: &mut Vec<(String, Vec<String>)>) -> (r: SeqExp<()>)
    requires
        sequentializable(*e),
        e is FunDefs,
    ensures
        seq_view(r) == seqz(*e, funs_view(old(funs)@)).0,
        funs_view(final(funs)@) == seqz(*e, funs_view(old(funs)@)).1,
    decreases e, 0nat,
{
    match e {
        Exp::FunDefs { decls, body, .. } => {
            let ghost f0 = funs_view(funs@);
            let mut k: usize = 0;
            while k < decls.len()
                invariant
                    k <= decls@.len(),
                    funs_view(funs@) =~= f0 + decl_entries(decls@).take(k as int),
                decreases decls@.len() - k,
            {
                let name = decls[k].name.clone();
                let params = copy_names(&decls[k].parameters);
                let ghost before = funs@;
                funs.push((name, params));
                proof {
                    assert(funs_view(funs@) =~= funs_view(before).push((decls@[k as int].name@, texts(decls@[k as int].parameters@))));
                    assert(decl_entries(decls@).take(k + 1) =~= decl_entries(decls@).take(k as int).push((decls@[k as int].name@, texts(decls@[k as int].parameters@))));
                }
                k = k + 1;
            }
            assert(decl_entries(decls@).take(decls@.len() as int) =~= decl_entries(decls@));
            let ds = seq_decls(decls, funs);
            let b = sequentialize(body, funs);
            SeqExp::FunDefs { decls: ds, body: Box::new(b), ann: () }
        },
        _ => SeqExp::Imm(ImmExp::Num(0), ()),
    }
}

fn seq_make_closure(e: &Exp<u32>, funs: &mut Vec<(String, Vec<String>)>) -> (r: SeqExp<()>)
    requires
        sequentializable(*e),
        e is MakeClosure,
    ensures
        seq_view(r) == seqz(*e, funs_view(old(funs)@)).0,
        funs_view(final(funs)@) == seqz(*e, funs_view(old(funs)@)).1,
    decreases e, 0nat,
{
    match e {
        Exp::MakeClosure { arity, label, env, ann } => {
            let s = sequentialize(env, funs);
            let x = tmp_var("#env_", *ann);
            let y = x.clone();
            proof {
                reveal_with_fuel(seq_view, 2);
            }
            SeqExp::Let {
                var: x,
                bound_exp: Box::new(s),
                body: Box::new(SeqExp::MakeClosure { arity: *arity, label: label.clone(), env: ImmExp::Var(y), ann: () }),
                ann: (),
            }
        },
        _ => SeqExp::Imm(ImmExp::Num(0), ()),
    }
}

/// The arguments of a call of a known function: the missing ones first, as
/// the first parameters, then those given.
fn call_arg_seqs(ps: &Vec<String>, args: &Vec<Exp<u32>>, funs: &mut Vec<(String, Vec<String>)>) -> (r: Vec<SeqExp<()>>)
    requires
        forall|j: int| 0 <= j < args@.len() ==> sequentializable(#[trigger] args@[j]),
    ensures
        ({
            let na = args@.len() as int;
            let fill = if ps@.len() > na { ps@.len() - na } else { 0 };
            &&& seqs_view(r@) == Seq::new(fill as nat, |k: int| SeqExpV::Imm(ImmV::Var(texts(ps@)[k])))
                + seqz_exps(args@, na, funs_view(old(funs)@)).0
            &&& funs_view(final(funs)@) == seqz_exps(args@, na, funs_view(old(funs)@)).1
            &&& r@.len() == fill + na
        }),
    decreases args, 1nat,
{
    let fill: usize = if ps.len() > args.len() { ps.len() - args.len() } else { 0 };
    let mut seqs = fill_seqs(ps, fill);
    let mut rest = seq_exps(args, funs);
    let ghost a = seqs@;
    let ghost b = rest@;
    seqs.append(&mut rest);
    proof {
        assert(seqs_view(seqs@) =~= seqs_view(a) + seqs_view(b));
        assert(Seq::new(fill as nat, |k: int| SeqExpV::Imm(ImmV::Var(ps@[k]@)))
            =~= Seq::new(fill as nat, |k: int| SeqExpV::Imm(ImmV::Var(texts(ps@)[k]))));
    }
    seqs
}

fn seq_external_call(e: &Exp<u32>, funs: &mut Vec<(String, Vec<String>)>) -> (r: SeqExp<()>)
    requires
        sequentializable(*e),
        e is ExternalCall,
    ensures
        seq_view(r) == seqz(*e, funs_view(old(funs)@)).0,
        funs_view(final(funs)@) == seqz(*e, funs_view(old(funs)@)).1,
    decreases e, 0nat,
{
    match e {
        Exp::ExternalCall { fun, args, is_tail, ann } => match fun {
            VarOrLabel::Label(name) => {
                let ps = params_lookup(funs, name);
                let seqs = call_arg_seqs(&ps, args, funs);
                let imms = arg_vars("#arg", *ann, seqs.len());
                let call = SeqExp::ExternalCall {
                    fun: VarOrLabel::Label(name.clone()),
                    args: imms,
                    is_tail: *is_tail,
                    ann: (),
                };
                wrap("#arg", *ann, seqs, ps.len(), call)
            },
            VarOrLabel::Var(name) => {
                let seqs = seq_exps(args, funs);
                let imms = arg_vars("#VarArg", *ann, args.len());
                let call = SeqExp::ExternalCall {
                    fun: VarOrLabel::Var(name.clone()),
                    args: imms,
                    is_tail: *is_tail,
                    ann: (),
                };
                wrap("#VarArg", *ann, seqs, args.len(), call)
            },
        },
        _ => SeqExp::Imm(ImmExp::Num(0), ()),
    }
}

fn seq_tail_call(e: &Exp<u32>, funs: &mut Vec<(String, Vec<String>)>) -> (r: SeqExp<()>)
    requires
        sequentializable(*e),
        e is InternalTailCall,
    ensures
        seq_view(r) == seqz(*e, funs_view(old(funs)@)).0,
        funs_view(final(funs)@) == seqz(*e, funs_view(old(funs)@)).1,
    decreases e, 0nat,
{
    match e {
        Exp::InternalTailCall(name, args, ann) => {
            let ps = params_lookup(funs, name);
            let seqs = call_arg_seqs(&ps, args, funs);
            let imms = arg_vars("#arg", *ann, seqs.len());
            let call = SeqExp::InternalTailCall(name.clone(), imms, ());
            wrap("#arg", *ann, seqs, ps.len(), call)
        },
        _ => SeqExp::Imm(ImmExp::Num(0), ()),
    }
}

// ---------------------------------------------------------------------------
// Lists.

fn seq_exps(s: &Vec<Exp<u32>>, funs: &mut Vec<(String, Vec<String>)>) -> (r: Vec<SeqExp<()>>)
    requires
        forall|j: int| 0 <= j < s@.len() ==> sequentializable(#[trigger] s@[j]),
    ensures
        seqs_view(r@) == seqz_exps(s@, s@.len() as int, funs_view(old(funs)@)).0,
        funs_view(final(funs)@) == seqz_exps(s@, s@.len() as int, funs_view(old(funs)@)).1,
        r@.len() == s@.len(),
    decreases s, 0nat,
{
    let ghost f0 = funs_view(funs@);
    let mut out: Vec<SeqExp<()>> = Vec::new();
    let mut k: usize = 0;
    while k < s.len()
        invariant
            k <= s@.len(),
            forall|j: int| 0 <= j < s@.len() ==> sequentializable(#[trigger] s@[j]),
            out@.len() == k,
            seqs_view(out@) == seqz_exps(s@, k as int, f0).0,
            funs_view(funs@) == seqz_exps(s@, k as int, f0).1,
        decreases s@.len() - k,
    {
        let x = sequentialize(&s[k], funs);
        let ghost before = out@;
        out.push(x);
        assert(seqs_view(out@) =~= seqs_view(before).push(seq_view(x)));
        k = k + 1;
    }
    out
}

fn seq_boxes(s: &Vec<Box<Exp<u32>>>, funs: &mut Vec<(String, Vec<String>)>) -> (r: Vec<SeqExp<()>>)
    requires
        forall|j: int| 0 <= j < s@.len() ==> sequentializable(*#[trigger] s@[j]),
    ensures
        seqs_view(r@) == seqz_boxes(s@, s@.len() as int, funs_view(old(funs)@)).0,
        funs_view(final(funs)@) == seqz_boxes(s@, s@.len() as int, funs_view(old(funs)@)).1,
        r@.len() == s@.len(),
    decreases s, 0nat,
{
    let ghost f0 = funs_view(funs@);
    let mut out: Vec<SeqExp<()>> = Vec::new();
    let mut k: usize = 0;
    while k < s.len()
        invariant
            k <= s@.len(),
            forall|j: int| 0 <= j < s@.len() ==> sequentializable(*#[trigger] s@[j]),
            out@.len() == k,
            seqs_view(out@) == seqz_boxes(s@, k as int, f0).0,
            funs_view(funs@) == seqz_boxes(s@, k as int, f0).1,
        decreases s@.len() - k,
    {
        let x = sequentialize(&s[k], funs);
        let ghost before = out@;
        out.push(x);
        assert(seqs_view(out@) =~= seqs_view(before).push(seq_view(x)));
        k = k + 1;
    }
    out
}

/// The prefix of a list of definitions keeps its value when the list grows.
proof fn lemma_decls_view_push(ds: Seq<FunDecl<SeqExp<()>, ()>>, d: FunDecl<SeqExp<()>, ()>, i: int)
    requires
        0 <= i <= ds.len(),
    ensures
        decls_view(ds.push(d), i) == decls_view(ds, i),
    decreases i,
{
    if i > 0 {
        lemma_decls_view_push(ds, d, i - 1);
        assert(ds.push(d)[i - 1] == ds[i - 1]);
    }
}

fn seq_decls(s: &Vec<FunDecl<Exp<u32>, u32>>, funs: &mut Vec<(String, Vec<String>)>) -> (r: Vec<FunDecl<SeqExp<()>, ()>>)
    requires
        forall|j: int| 0 <= j < s@.len() ==> sequentializable(#[trigger] s@[j].body),
    ensures
        decls_view(r@, r@.len() as int) == seqz_decls(s@, s@.len() as int, funs_view(old(funs)@)).0,
        funs_view(final(funs)@) == seqz_decls(s@, s@.len() as int, funs_view(old(funs)@)).1,
    decreases s, 0nat,
{
    let ghost f0 = funs_view(funs@);
    let mut out: Vec<FunDecl<SeqExp<()>, ()>> = Vec::new();
    let mut k: usize = 0;
    while k < s.len()
        invariant
            k <= s@.len(),
            forall|j: int| 0 <= j < s@.len() ==> sequentializable(#[trigger] s@[j].body),
            out@.len() == k,
            decls_view(out@, k as int) == seqz_decls(s@, k as int, f0).0,
            funs_view(funs@) == seqz_decls(s@, k as int, f0).1,
        decreases s@.len() - k,
    {
        let b = sequentialize(&s[k].body, funs);
        let name = s[k].name.clone();
        let params = copy_names(&s[k].parameters);
        let d = FunDecl { name, parameters: params, body: b, ann: () };
        let ghost before = out@;
        out.push(d);
        proof {
            lemma_decls_view_push(before, d, k as int);
            assert(out@ == before.push(d));
            assert(out@[k as int] == d);
        }
        k = k + 1;
    }
    out
}

// ---------------------------------------------------------------------------
// Programs.

/// The functions of a group with their parameters, in code.
fn fun_entries<A>(ds: &Vec<FunDecl<Exp<A>, A>>) -> (r: Vec<(String, Vec<String>)>)
    ensures
        funs_view(r@) == decl_entries(ds@),
{
    let mut r: Vec<(String, Vec<String>)> = Vec::new();
    let mut k: usize = 0;
    while k < ds.len()
        invariant
            k <= ds@.len(),
            funs_view(r@) =~= decl_entries(ds@).take(k as int),
        decreases ds@.len() - k,
    {
        let ghost before = r@;
        r.push((ds[k].name.clone(), copy_names(&ds[k].parameters)));
        assert(funs_view(r@) =~= funs_view(before).push((ds@[k as int].name@, texts(ds@[k as int].parameters@))));
        assert(decl_entries(ds@).take(k + 1) =~= decl_entries(ds@).take(k as int).push(decl_entries(ds@)[k as int]));
        k = k + 1;
    }
    assert(decl_entries(ds@).take(ds@.len() as int) =~= decl_entries(ds@));
    r
}

/// The sequential forms of top-level functions: all of them are known from
/// the start, and what each body makes known stays known for the next.
pub fn sequentialize_funs(decls: &Vec<FunDecl<Exp<u32>, u32>>) -> (r: Vec<FunDecl<SeqExp<()>, ()>>)
    requires
        forall|j: int| 0 <= j < decls@.len() ==> sequentializable(#[trigger] decls@[j].body),
    ensures
        decls_view(r@, r@.len() as int) == seqz_decls(decls@, decls@.len() as int, decl_entries(decls@)).0,
{
    let mut funs = fun_entries(decls);
    seq_decls(decls, &mut funs)
}

/// The top-level functions `decls` and the main expression `p` can be
/// made a sequential program: the functions hold no `;`, their numbering
/// from one stays within `u32`, and all of them and `p` can be sequentialized.
pub open spec fn seq_prog_ok(decls: Seq<FunDecl<Exp<()>, ()>>, p: Exp<u32>) -> bool {
    &&& forall|j: int| 0 <= j < decls.len() ==> semicolon_free(#[trigger] decls[j].body)
    &&& tag_end_decls(decls, decls.len() as int, 1) <= u32::MAX
    &&& forall|j: int| 0 <= j < decls.len() ==> sequentializable(#[trigger] decls[j].body)
    &&& sequentializable(p)
}

/// A sequential program: the top-level functions `decls`, numbered as a
/// group, and the main expression `p`, in which the top-level functions are
/// known. `None` where the functions cannot be numbered or a part cannot be
/// sequentialized.
pub fn seq_prog(decls: &Vec<FunDecl<Exp<()>, ()>>, p: &Exp<u32>) -> (r: Option<SeqProg<()>>)
    ensures
        r is Some <==> seq_prog_ok(decls@, *p),
        r matches Some(sp) ==> sequentializable(*p) && exists|td: Seq<FunDecl<Exp<u32>, u32>>| {
            &&& crate::tag::tagged_decls(decls@, td, 1)
            &&& decls_view(sp.funs@, sp.funs@.len() as int) == seqz_decls(td, td.len() as int, decl_entries(td)).0
            &&& seq_view(sp.main) == seqz(*p, decl_entries(decls@)).0
        },
{
    let mut k: usize = 0;
    while k < decls.len()
        invariant
            k <= decls@.len(),
            forall|j: int| 0 <= j < k ==> crate::shape::semicolon_free(#[trigger] decls@[j].body),
        decreases decls@.len() - k,
    {
        if !crate::checks::semicolon_ready(&decls[k].body) {
            return None;
        }
        k = k + 1;
    }
    proof {
        lemma_decls_grow(decls@, decls@.len() as int, 1);
    }
    match crate::tag::decls_end_within(decls, 1) {
        Some(_) => {},
        None => return None,
    }
    let td = crate::tag::tag_fun_decls(decls);
    proof {
        assert forall|j: int| 0 <= j < decls@.len() implies
            sequentializable(decls@[j].body) == sequentializable(#[trigger] td@[j].body) by {
            lemma_tag_keeps_shape(decls@[j].body, td@[j].body, tag_end_decls(decls@, j, 1));
            lemma_shape_sequentializable(decls@[j].body, td@[j].body);
        }
    }
    k = 0;
    while k < td.len()
        invariant
            k <= td@.len(),
            td@.len() == decls@.len(),
            forall|j: int| 0 <= j < decls@.len() ==>
                sequentializable(decls@[j].body) == sequentializable(#[trigger] td@[j].body),
            forall|j: int| 0 <= j < k ==> sequentializable(#[trigger] td@[j].body),
        decreases td@.len() - k,
    {
        if !crate::checks::sequentialize_ready(&td[k].body) {
            return None;
        }
        k = k + 1;
    }
    if !crate::checks::sequentialize_ready(p) {
        return None;
    }
    assert forall|j: int| 0 <= j < decls@.len() implies sequentializable(#[trigger] decls@[j].body) by {
        assert(sequentializable(td@[j].body));
    }
    let funs = sequentialize_funs(&td);
    let mut global_funs = fun_entries(decls);
    let main = sequentialize(p, &mut global_funs);
    Some(SeqProg { funs, main, ann: () })
}

// ---------------------------------------------------------------------------
// Laws.

/// The first `n` nested `let`s of `s`: the names they bind and their bound
/// expressions, outermost first, and what the innermost encloses.
pub open spec fn peel_lets(s: SeqExpV, n: nat) -> Option<(Seq<Seq<char>>, Seq<SeqExpV>, SeqExpV)>
    decreases n,
{
    if n == 0 {
        Some((Seq::empty(), Seq::empty(), s))
    } else {
        match s {
            SeqExpV::Let { var, bound_exp, body } => match peel_lets(*body, (n - 1) as nat) {
                Some((vs, bs, inner)) => Some((seq![var] + vs, seq![*bound_exp] + bs, inner)),
                None => None,
            },
            _ => None,
        }
    }
}

/// The names of `vs` as immediates, in order.
pub open spec fn var_imms(vs: Seq<Seq<char>>) -> Seq<ImmV> {
    Seq::new(vs.len(), |i: int| ImmV::Var(vs[i]))
}

/// How many operands of an application of `p` to `n` arguments are read.
pub open spec fn operands_read(p: Prim, n: int) -> int {
    if is_unary(p) { 1 } else if is_binary(p) { 2 } else if p == Prim::ArraySet { 3 } else { n }
}

proof fn lemma_peel_wrap(prefix: Seq<char>, a: u32, seqs: Seq<SeqExpV>, i: int, inner: SeqExpV)
    requires
        0 <= i <= seqs.len(),
    ensures
        peel_lets(wrap_lets(prefix, a, seqs, i, inner), i as nat) == Some((
            Seq::new(i as nat, |k: int| arg_name(prefix, a, k)),
            seqs.take(i),
            inner,
        )),
    decreases i,
{
    reveal_with_fuel(peel_lets, 2);
    if i == 0 {
        assert(seqs.take(0) =~= Seq::<SeqExpV>::empty());
        assert(Seq::new(0, |k: int| arg_name(prefix, a, k)) =~= Seq::<Seq<char>>::empty());
    } else {
        let l = SeqExpV::Let { var: arg_name(prefix, a, i - 1), bound_exp: Box::new(seqs[i - 1]), body: Box::new(inner) };
        lemma_peel_wrap(prefix, a, seqs, i - 1, l);
        lemma_peel_more(wrap_lets(prefix, a, seqs, i - 1, l), (i - 1) as nat);
        assert(seq![arg_name(prefix, a, i - 1)] + Seq::<Seq<char>>::empty() =~= seq![arg_name(prefix, a, i - 1)]);
        assert(Seq::new((i - 1) as nat, |k: int| arg_name(prefix, a, k)) + seq![arg_name(prefix, a, i - 1)]
            =~= Seq::new(i as nat, |k: int| arg_name(prefix, a, k)));
        assert(seqs.take(i - 1) + seq![seqs[i - 1]] =~= seqs.take(i));
        assert(seq![seqs[i - 1]] + Seq::<SeqExpV>::empty() =~= seq![seqs[i - 1]]);
    }
}

/// Peeling one more `let` peels it off what the first `n` enclose.
proof fn lemma_peel_more(s: SeqExpV, n: nat)
    requires
        peel_lets(s, n) is Some,
    ensures
        peel_lets(s, n + 1) == (match peel_lets(peel_lets(s, n).unwrap().2, 1) {
            Some((v1, b1, inner)) => Some((peel_lets(s, n).unwrap().0 + v1, peel_lets(s, n).unwrap().1 + b1, inner)),
            None => None::<(Seq<Seq<char>>, Seq<SeqExpV>, SeqExpV)>,
        }),
    decreases n,
{
    if n > 0 {
        match s {
            SeqExpV::Let { var, bound_exp, body } => {
                lemma_peel_more(*body, (n - 1) as nat);
                let (vs, bs, inner) = peel_lets(*body, (n - 1) as nat).unwrap();
                match peel_lets(inner, 1) {
                    Some((v1, b1, i2)) => {
                        assert(seq![var] + vs + v1 =~= seq![var] + (vs + v1));
                        assert(seq![*bound_exp] + bs + b1 =~= seq![*bound_exp] + (bs + b1));
                    },
                    None => {},
                }
            },
            _ => {},
        }
    } else {
        match peel_lets(s, 1) {
            Some((v1, b1, i2)) => {
                assert(Seq::<Seq<char>>::empty() + v1 =~= v1);
                assert(Seq::<SeqExpV>::empty() + b1 =~= b1);
            },
            None => {},
        }
    }
}

/// Sequentializing an operator application keeps its operands and their
/// order: the result binds, one after another, the sequential form of each
/// operand read (each with the functions the operands before it made
/// known), and applies the operator to the names so bound, in that order.
pub proof fn lemma_seqz_prim_operands(e: Exp<u32>, f: FunsV)
    requires
        e matches Exp::Prim(p, args, _) && (operands_read(p, args@.len() as int) == args@.len()),
    ensures
        e matches Exp::Prim(p, args, _) && peel_lets(seqz(e, f).0, args@.len() as nat) matches Some((vs, bs, inner)) && {
            &&& vs.len() == args@.len()
            &&& inner == SeqExpV::Prim(p, var_imms(vs))
            &&& forall|i: int| 0 <= i < args@.len() ==>
                #[trigger] bs[i] == seqz(*args@[i], seqz_boxes(args@, i, f).1).0
        },
{
    reveal_with_fuel(peel_lets, 4);
    reveal_with_fuel(seqz_boxes, 4);
    let (p, args, a) = match e { Exp::Prim(p, args, a) => (p, args, a), _ => arbitrary() };
    let n = args@.len() as int;
    if is_unary(p) || is_binary(p) || p == Prim::ArraySet {
        let (vs, bs, inner) = peel_lets(seqz(e, f).0, n as nat).unwrap();
        assert(var_imms(vs) =~= inner->Prim_1);
    } else {
        let (seqs, f1) = seqz_boxes(args@, n, f);
        lemma_seqz_boxes_each(args@, n, f);
        let inner = SeqExpV::Prim(p, arg_imms("#ArrayArg"@, a, n));
        lemma_peel_wrap("#ArrayArg"@, a, seqs, n, inner);
        assert(seqs.take(n) =~= seqs);
        assert(var_imms(Seq::new(n as nat, |k: int| arg_name("#ArrayArg"@, a, k))) =~= arg_imms("#ArrayArg"@, a, n));
    }
}

/// Sequentializing a list sequentializes each element in turn.
proof fn lemma_seqz_boxes_each(s: Seq<Box<Exp<u32>>>, i: int, f: FunsV)
    requires
        0 <= i <= s.len(),
    ensures
        seqz_boxes(s, i, f).0.len() == i,
        forall|j: int| 0 <= j < i ==> #[trigger] seqz_boxes(s, i, f).0[j] == seqz(*s[j], seqz_boxes(s, j, f).1).0,
    decreases i,
{
    if i > 0 {
        lemma_seqz_boxes_each(s, i - 1, f);
        assert forall|j: int| 0 <= j < i implies #[trigger] seqz_boxes(s, i, f).0[j] == seqz(*s[j], seqz_boxes(s, j, f).1).0 by {
            if j < i - 1 {
                assert(seqz_boxes(s, i, f).0[j] == seqz_boxes(s, i - 1, f).0[j]);
            }
        }
    }
}


/// Sequentializing a list of expressions sequentializes each in turn.
proof fn lemma_seqz_exps_each(s: Seq<Exp<u32>>, i: int, f: FunsV)
    requires
        0 <= i <= s.len(),
    ensures
        seqz_exps(s, i, f).0.len() == i,
        forall|j: int| 0 <= j < i ==> #[trigger] seqz_exps(s, i, f).0[j] == seqz(s[j], seqz_exps(s, j, f).1).0,
    decreases i,
{
    if i > 0 {
        lemma_seqz_exps_each(s, i - 1, f);
        assert forall|j: int| 0 <= j < i implies #[trigger] seqz_exps(s, i, f).0[j] == seqz(s[j], seqz_exps(s, j, f).1).0 by {
            if j < i - 1 {
                assert(seqz_exps(s, i, f).0[j] == seqz_exps(s, i - 1, f).0[j]);
            }
        }
    }
}

/// Sequentializing a call through a variable keeps its arguments and their
/// order: the result binds the sequential form of each argument in turn and
/// calls with the names so bound, in that order.
pub proof fn lemma_seqz_var_call_args(e: Exp<u32>, f: FunsV)
    requires
        e matches Exp::ExternalCall { fun: VarOrLabel::Var(_), .. },
    ensures
        e matches Exp::ExternalCall { fun: VarOrLabel::Var(name), args, is_tail, .. }
            && peel_lets(seqz(e, f).0, args@.len() as nat) matches Some((vs, bs, inner)) && {
            &&& vs.len() == args@.len()
            &&& inner == (SeqExpV::ExternalCall { fun: TargetV::Var(name@), args: var_imms(vs), is_tail })
            &&& forall|i: int| 0 <= i < args@.len() ==>
                #[trigger] bs[i] == seqz(args@[i], seqz_exps(args@, i, f).1).0
        },
{
    let (name, args, is_tail, ann) = match e {
        Exp::ExternalCall { fun: VarOrLabel::Var(name), args, is_tail, ann } => (name, args, is_tail, ann),
        _ => arbitrary(),
    };
    let n = args@.len() as int;
    let (seqs, f1) = seqz_exps(args@, n, f);
    lemma_seqz_exps_each(args@, n, f);
    let inner = SeqExpV::ExternalCall { fun: TargetV::Var(name@), args: arg_imms("#VarArg"@, ann, n), is_tail };
    lemma_peel_wrap("#VarArg"@, ann, seqs, n, inner);
    assert(seqs.take(n) =~= seqs);
    assert(var_imms(Seq::new(n as nat, |k: int| arg_name("#VarArg"@, ann, k))) =~= arg_imms("#VarArg"@, ann, n));
}

/// Sequentializing a call of a known function, given no more arguments than
/// it has parameters, binds first the parameters that the call leaves out,
/// each to itself, then the sequential form of each argument in turn, and
/// calls with the names so bound, in that order.
pub proof fn lemma_seqz_label_call_args(e: Exp<u32>, f: FunsV)
    requires
        e matches Exp::ExternalCall { fun: VarOrLabel::Label(name), args, .. }
            && args@.len() <= params_of(f, name@).len(),
    ensures
        e matches Exp::ExternalCall { fun: VarOrLabel::Label(name), args, is_tail, .. } && ({
            let ps = params_of(f, name@);
            let fill = ps.len() - args@.len();
            peel_lets(seqz(e, f).0, ps.len()) matches Some((vs, bs, inner)) && {
                &&& vs.len() == ps.len()
                &&& inner == (SeqExpV::ExternalCall { fun: TargetV::Label(name@), args: var_imms(vs), is_tail })
                &&& forall|i: int| 0 <= i < fill ==> #[trigger] bs[i] == SeqExpV::Imm(ImmV::Var(ps[i]))
                &&& forall|i: int| 0 <= i < args@.len() ==>
                    #[trigger] bs[fill + i] == seqz(args@[i], seqz_exps(args@, i, f).1).0
            }
        }),
{
    let (name, args, is_tail, ann) = match e {
        Exp::ExternalCall { fun: VarOrLabel::Label(name), args, is_tail, ann } => (name, args, is_tail, ann),
        _ => arbitrary(),
    };
    let n = args@.len() as int;
    let ps = params_of(f, name@);
    let fill = ps.len() - n;
    let fills = Seq::new(fill as nat, |k: int| SeqExpV::Imm(ImmV::Var(ps[k])));
    let (seqs, f1) = seqz_exps(args@, n, f);
    lemma_seqz_exps_each(args@, n, f);
    let m = ps.len() as int;
    let inner = SeqExpV::ExternalCall { fun: TargetV::Label(name@), args: arg_imms("#arg"@, ann, fill + n), is_tail };
    lemma_peel_wrap("#arg"@, ann, fills + seqs, m, inner);
    assert((fills + seqs).take(m) =~= fills + seqs);
    assert(var_imms(Seq::new(m as nat, |k: int| arg_name("#arg"@, ann, k))) =~= arg_imms("#arg"@, ann, m));
    assert forall|i: int| 0 <= i < n implies #[trigger] (fills + seqs)[fill + i] == seqz(args@[i], seqz_exps(args@, i, f).1).0 by {
        assert((fills + seqs)[fill + i] == seqs[i]);
    }
}

/// Sequentializing a tail call inside a function body, given no more
/// arguments than the callee has parameters, binds first the parameters that
/// the call leaves out, each to itself, then the sequential form of each
/// argument in turn, and jumps with the names so bound, in that order.
pub proof fn lemma_seqz_tail_call_args(e: Exp<u32>, f: FunsV)
    requires
        e matches Exp::InternalTailCall(name, args, _) && args@.len() <= params_of(f, name@).len(),
    ensures
        e matches Exp::InternalTailCall(name, args, _) && ({
            let ps = params_of(f, name@);
            let fill = ps.len() - args@.len();
            peel_lets(seqz(e, f).0, ps.len()) matches Some((vs, bs, inner)) && {
                &&& vs.len() == ps.len()
                &&& inner == SeqExpV::InternalTailCall(name@, var_imms(vs))
                &&& forall|i: int| 0 <= i < fill ==> #[trigger] bs[i] == SeqExpV::Imm(ImmV::Var(ps[i]))
                &&& forall|i: int| 0 <= i < args@.len() ==>
                    #[trigger] bs[fill + i] == seqz(args@[i], seqz_exps(args@, i, f).1).0
            }
        }),
{
    let (name, args, ann) = match e {
        Exp::InternalTailCall(name, args, ann) => (name, args, ann),
        _ => arbitrary(),
    };
    let n = args@.len() as int;
    let ps = params_of(f, name@);
    let fill = ps.len() - n;
    let fills = Seq::new(fill as nat, |k: int| SeqExpV::Imm(ImmV::Var(ps[k])));
    let (seqs, f1) = seqz_exps(args@, n, f);
    lemma_seqz_exps_each(args@, n, f);
    let m = ps.len() as int;
    let inner = SeqExpV::InternalTailCall(name@, arg_imms("#arg"@, ann, fill + n));
    lemma_peel_wrap("#arg"@, ann, fills + seqs, m, inner);
    assert((fills + seqs).take(m) =~= fills + seqs);
    assert(var_imms(Seq::new(m as nat, |k: int| arg_name("#arg"@, ann, k))) =~= arg_imms("#arg"@, ann, m));
    assert forall|i: int| 0 <= i < n implies #[trigger] (fills + seqs)[fill + i] == seqz(args@[i], seqz_exps(args@, i, f).1).0 by {
        assert((fills + seqs)[fill + i] == seqs[i]);
    }
}

} // verus!
