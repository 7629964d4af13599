//! The driver: errors of the check, and the whole compilation.
use vstd::prelude::*;
use crate::syntax::{Exp, FunDecl, SeqProg, SurfProg};
use crate::check::{check_outcome, check_prog_helper, reports, checkable, lemma_checkable_outcome};
use crate::desugar::{desugar_ok, desugared, desugar_semicolon};
use crate::tag::{tagged, seq_tagged, seq_tagged_decls, seq_tag_end_decls, prog_tag_end, tagged_decls};
use crate::uniquify::{uniquified, uniquify};
use crate::expv::{exp_view, decls_x};
use crate::closures::{elim_ok, elim, eliminate_closures};
use crate::lambda::{lambda_lifted, lambda_lift};
use crate::anf::{sequentializable, seqz, seqz_decls, decl_entries, seq_prog};
use crate::seqview::{seq_view, decls_view};
use crate::codegen::{program_code, try_compile_to_instrs};
use crate::x86::{Instr, instrs_text, instrs_view, instrs_to_string};
use crate::shape::{semicolon_free, seq_semicolon_free};
use crate::alike::{lemma_desugar_alike, same_scope};
use crate::tag::{tag_end, lemma_tag_end_grows, lemma_seq_tag_end_grows, lemma_seq_decls_grow};
use crate::uniquify::uniq_ok;
use crate::expv::ExpV;
use crate::anf::seq_prog_ok;

verus! {

#[derive(Debug, PartialEq, Eq)]
pub enum CompileErr<Span> {
    UnboundVariable { unbound: String, location: Span },
    UndefinedFunction { undefined: String, location: Span },
    /// The location is that of the `let` that holds the repeated binding.
    DuplicateBinding { duplicated_name: String, location: Span },
    Overflow { num: i64, location: Span },
    /// The location is that of the second definition.
    DuplicateFunName { duplicated_name: String, location: Span },
    DuplicateArgName { duplicated_name: String, location: Span },
}

/// Checks a whole program in the empty scope.
pub fn check_prog<Span: Copy>(p: &SurfProg<Span>) -> (r: Result<(), CompileErr<Span>>)
    requires
        check_outcome(*p, Seq::empty()) is Some,
    ensures
        reports(check_outcome(*p, Seq::empty()), r),
{
    check_prog_helper(p, Vec::new())
}

// ---------------------------------------------------------------------------
// The whole compilation.

/// The text before the program's instructions: the heap, the entry point
/// `start_here`, which sets up the heap register and calls `main`.
pub open spec fn prelude_text() -> Seq<char> {
    "section .data\n        HEAP:    times 1024 dq 0\nsection .text\n        global start_here\n        extern snake_error\n        extern print_snake_val\nstart_here:\n        push R15\n        sub RSP, 8\n        lea r15, [rel HEAP]\n        call main\n        add rsp, 8\n        pop r15\n        ret\n"@
}

/// The text after the program's instructions: one handler per run-time
/// error, each of which hands its error code and the offending value to
/// `snake_error`.
pub open spec fn epilogue_text() -> Seq<char> {
    "\nerror_ari_not_number:\n        mov rsi, rax\n        mov rdi, 1\n        call snake_error\nerror_com_not_number:\n        mov RSI, RAX\n        mov RDI, 2\n        call snake_error\nerror_overflow:\n        mov rsi, rax\n        mov rdi, 3\n        call snake_error\nerror_if_not_boolean:\n        mov RSI, RAX\n        mov RDI, 4\n        call snake_error\nerror_logic_not_boolean:\n        mov RSI, RAX\n        mov RDI, 5\n        call snake_error\nerror_index_not_number:\n        mov RSI, RAX\n        mov RDI, 6\n        call snake_error\nerror_index_out_of_bound:\n        mov RSI, RAX\n        mov RDI, 7\n        call snake_error\nerror_index_into_nonarray:\n        mov RSI, RAX\n        mov RDI, 8\n        call snake_error\nerror_length_into_nonarray:\n        mov RSI, RAX\n        mov RDI, 9\n        call snake_error\nerror_not_closure:\n        mov RSI, RAX\n        mov RDI, 10\n        call snake_error\nerror_wrong_arity:\n        mov RSI, R10\n        mov RDI, 11\n        call snake_error\nerror_fari_not_float:\n        mov RSI, R10\n        mov RDI, 12\n        call snake_error\nerror_fcom_not_float:\n        mov RSI, R10\n        mov RDI, 13\n        call snake_error\n"@
}

fn prelude() -> (s: &'static str)
    ensures
        s@ == prelude_text(),
{
    "section .data\n        HEAP:    times 1024 dq 0\nsection .text\n        global start_here\n        extern snake_error\n        extern print_snake_val\nstart_here:\n        push R15\n        sub RSP, 8\n        lea r15, [rel HEAP]\n        call main\n        add rsp, 8\n        pop r15\n        ret\n"
}

fn epilogue() -> (s: &'static str)
    ensures
        s@ == epilogue_text(),
{
    "\nerror_ari_not_number:\n        mov rsi, rax\n        mov rdi, 1\n        call snake_error\nerror_com_not_number:\n        mov RSI, RAX\n        mov RDI, 2\n        call snake_error\nerror_overflow:\n        mov rsi, rax\n        mov rdi, 3\n        call snake_error\nerror_if_not_boolean:\n        mov RSI, RAX\n        mov RDI, 4\n        call snake_error\nerror_logic_not_boolean:\n        mov RSI, RAX\n        mov RDI, 5\n        call snake_error\nerror_index_not_number:\n        mov RSI, RAX\n        mov RDI, 6\n        call snake_error\nerror_index_out_of_bound:\n        mov RSI, RAX\n        mov RDI, 7\n        call snake_error\nerror_index_into_nonarray:\n        mov RSI, RAX\n        mov RDI, 8\n        call snake_error\nerror_length_into_nonarray:\n        mov RSI, RAX\n        mov RDI, 9\n        call snake_error\nerror_not_closure:\n        mov RSI, RAX\n        mov RDI, 10\n        call snake_error\nerror_wrong_arity:\n        mov RSI, R10\n        mov RDI, 11\n        call snake_error\nerror_fari_not_float:\n        mov RSI, R10\n        mov RDI, 12\n        call snake_error\nerror_fcom_not_float:\n        mov RSI, R10\n        mov RDI, 13\n        call snake_error\n"
}

/// Lambda lifting took `el` to the top-level functions `lifted` and the
/// main expression `ast`, which `ta` numbers.
pub open spec fn lifted_to(el: Exp<()>, lifted: Seq<FunDecl<Exp<()>, ()>>, ast: Exp<()>, ta: Exp<u32>) -> bool {
    &&& lambda_lifted(exp_view(el)) matches Some(l)
    &&& decls_x(lifted) == l.lifted
    &&& exp_view(ast) == l.exp
    &&& tagged(ast, ta, 0)
}

/// The back of the compiler took the functions `lifted` and the numbered
/// main expression `ta` to the instructions `is`: `td` numbers the
/// functions, `sp` is the sequential program, `tp` numbers it.
pub open spec fn back_end(lifted: Seq<FunDecl<Exp<()>, ()>>, ta: Exp<u32>, td: Seq<FunDecl<Exp<u32>, u32>>,
    sp: SeqProg<()>, tp: SeqProg<u32>, is: Seq<Instr>) -> bool
{
    &&& sequentializable(ta)
    &&& tagged_decls(lifted, td, 1)
    &&& decls_view(sp.funs@, sp.funs@.len() as int) == seqz_decls(td, td.len() as int, decl_entries(td)).0
    &&& seq_view(sp.main) == seqz(ta, decl_entries(lifted)).0
    &&& seq_tagged_decls(sp.funs@, tp.funs@, 0)
    &&& seq_tagged(sp.main, tp.main, seq_tag_end_decls(sp.funs@, sp.funs@.len() as int, 0))
    &&& tp.ann == prog_tag_end(sp)
    &&& program_code(tp) == Some(instrs_view(is))
}

/// The assembly text of a program whose instructions are `is`.
pub open spec fn assembly_text(is: Seq<Instr>) -> Seq<char> {
    prelude_text() + instrs_text(is) + epilogue_text()
}

/// The passes after the check, from the desugared program `d` to the
/// instructions `is`.
pub open spec fn lowered<Span>(d: Exp<Span>, t: Exp<u32>, u: Exp<()>, el: Exp<()>,
    lifted: Seq<FunDecl<Exp<()>, ()>>, ast: Exp<()>, ta: Exp<u32>, td: Seq<FunDecl<Exp<u32>, u32>>,
    sp: SeqProg<()>, tp: SeqProg<u32>, is: Seq<Instr>) -> bool
{
    &&& tagged(d, t, 0)
    &&& uniquified(t, u, Map::empty())
    &&& elim_ok(exp_view(u))
    &&& exp_view(el) == elim(exp_view(u), Seq::empty()).0
    &&& lifted_to(el, lifted, ast, ta)
    &&& back_end(lifted, ta, td, sp, tp, is)
}

/// The passes, from the surface program `p` to the instructions `is`: `d` is
/// `p` desugared, and it passes the check.
pub open spec fn compiled<Span>(p: Exp<Span>, d: Exp<Span>, t: Exp<u32>, u: Exp<()>, el: Exp<()>,
    lifted: Seq<FunDecl<Exp<()>, ()>>, ast: Exp<()>, ta: Exp<u32>, td: Seq<FunDecl<Exp<u32>, u32>>,
    sp: SeqProg<()>, tp: SeqProg<u32>, is: Seq<Instr>) -> bool
{
    &&& desugared(p, d)
    &&& check_outcome(d, Seq::empty()) matches Some(Ok(_))
    &&& lowered(d, t, u, el, lifted, ast, ta, td, sp, tp, is)
}

/// `s` is the assembly text that the passes make of `p`.
pub open spec fn compiles_to<Span>(p: Exp<Span>, s: Seq<char>) -> bool {
    exists|d: Exp<Span>, t: Exp<u32>, u: Exp<()>, el: Exp<()>, lifted: Seq<FunDecl<Exp<()>, ()>>, ast: Exp<()>,
        ta: Exp<u32>, td: Seq<FunDecl<Exp<u32>, u32>>, sp: SeqProg<()>, tp: SeqProg<u32>, is: Seq<Instr>|
        #[trigger] compiled(p, d, t, u, el, lifted, ast, ta, td, sp, tp, is) && s == assembly_text(is)
}

/// Every text that compilation produces opens with the prelude, ends with the
/// error handlers, and holds the program's instructions in between.
pub proof fn lemma_assembly_frame<Span>(p: Exp<Span>, s: Seq<char>)
    requires
        compiles_to(p, s),
    ensures
        s.len() >= prelude_text().len() + epilogue_text().len(),
        s.take(prelude_text().len() as int) == prelude_text(),
        s.skip(s.len() - epilogue_text().len()) == epilogue_text(),
        exists|is: Seq<Instr>| s.subrange(prelude_text().len() as int, s.len() - epilogue_text().len())
            == #[trigger] instrs_text(is),
{
    let (d, t, u, el, lifted, ast, ta, td, sp, tp, is) = choose|d: Exp<Span>, t: Exp<u32>, u: Exp<()>, el: Exp<()>,
        lifted: Seq<FunDecl<Exp<()>, ()>>, ast: Exp<()>, ta: Exp<u32>, td: Seq<FunDecl<Exp<u32>, u32>>,
        sp: SeqProg<()>, tp: SeqProg<u32>, is: Seq<Instr>|
        #[trigger] compiled(p, d, t, u, el, lifted, ast, ta, td, sp, tp, is) && s == assembly_text(is);
    let a = prelude_text();
    let m = instrs_text(is);
    let z = epilogue_text();
    assert(s == a + m + z);
    assert(s.take(a.len() as int) =~= a);
    assert(s.skip(s.len() - z.len()) =~= z);
    assert(s.subrange(a.len() as int, s.len() - z.len()) =~= m);
}

/// The check finds `err` first in `p`: `p` desugars, and its desugaring is
/// a program the check takes and stops at `err`.
pub open spec fn check_error<Span>(p: Exp<Span>, err: CompileErr<Span>) -> bool {
    &&& desugar_ok(p)
    &&& exists|d: Exp<Span>| desugared(p, d) && checkable(d)
        && #[trigger] check_outcome(d, Seq::empty()) == Some(Err::<(), CompileErr<Span>>(err))
}

/// The check takes `p` (desugared) and finds no error.
pub open spec fn check_passes<Span>(p: Exp<Span>) -> bool {
    &&& desugar_ok(p)
    &&& exists|d: Exp<Span>| desugared(p, d) && checkable(d) && #[trigger] check_outcome(d, Seq::empty()) matches Some(Ok(_))
}

/// The check refuses the form of `p` (desugared): a float, or a form that
/// only later passes introduce.
pub open spec fn check_refuses<Span>(p: Exp<Span>) -> bool {
    &&& desugar_ok(p)
    &&& exists|d: Exp<Span>| #[trigger] desugared(p, d) && !checkable(d)
}

/// What the check makes of one desugaring of `p` it makes of every one.
proof fn lemma_check_determined<Span>(p: Exp<Span>, d: Exp<Span>)
    requires
        desugared(p, d),
    ensures
        forall|err: CompileErr<Span>| #[trigger] check_error(p, err) ==> checkable(d)
            && check_outcome(d, Seq::empty()) == Some(Err::<(), CompileErr<Span>>(err)),
        check_passes(p) ==> checkable(d) && check_outcome(d, Seq::empty()) matches Some(Ok(_)),
        check_refuses(p) ==> !checkable(d),
{
    assert forall|err: CompileErr<Span>| #[trigger] check_error(p, err) implies checkable(d)
        && check_outcome(d, Seq::empty()) == Some(Err::<(), CompileErr<Span>>(err)) by {
        let d2 = choose|d2: Exp<Span>| desugared(p, d2) && checkable(d2)
            && #[trigger] check_outcome(d2, Seq::empty()) == Some(Err::<(), CompileErr<Span>>(err));
        lemma_desugar_alike(p, d, d2);
        assert(same_scope(Seq::<(String, i32)>::empty(), Seq::<(String, i32)>::empty()));
        assert(check_outcome(d, Seq::empty()) == check_outcome(d2, Seq::empty()));
    }
    if check_passes(p) {
        let d2 = choose|d2: Exp<Span>| desugared(p, d2) && checkable(d2)
            && #[trigger] check_outcome(d2, Seq::empty()) matches Some(Ok(_));
        lemma_desugar_alike(p, d, d2);
        assert(same_scope(Seq::<(String, i32)>::empty(), Seq::<(String, i32)>::empty()));
        assert(check_outcome(d, Seq::empty()) == check_outcome(d2, Seq::empty()));
    }
    if check_refuses(p) {
        let d2 = choose|d2: Exp<Span>| #[trigger] desugared(p, d2) && !checkable(d2);
        lemma_desugar_alike(p, d, d2);
    }
}

/// Desugars `p` and checks it: `Some(Ok(d))` with the desugared program
/// where the check passes, `Some(Err(..))` with the check's first error.
fn desugar_and_check<Span: Copy>(p: &SurfProg<Span>) -> (r: Option<Result<Exp<Span>, CompileErr<Span>>>)
    ensures
        r is None <==> !desugar_ok(*p) || check_refuses(*p),
        r matches Some(Ok(d)) ==> desugared(*p, d) && checkable(d) && check_outcome(d, Seq::empty()) matches Some(Ok(_)),
        r matches Some(Ok(_)) <==> check_passes(*p),
        r matches Some(Err(err)) ==> check_error(*p, err),
        forall|err: CompileErr<Span>| #[trigger] check_error(*p, err) ==> r == Some(Err::<Exp<Span>, CompileErr<Span>>(err)),
{
    if !crate::checks::desugar_ready(p) {
        return None;
    }
    let d = desugar_semicolon(p);
    proof {
        lemma_check_determined(*p, d);
    }
    if !crate::checks::checkable_ready(&d) {
        return None;
    }
    proof {
        lemma_checkable_outcome(d, Seq::empty());
    }
    match check_prog(&d) {
        Ok(()) => Some(Ok(d)),
        Err(err) => Some(Err(err)),
    }
}

/// The passes after the check take the desugared program `d` to
/// instructions, whichever numbering, renaming, lifting and sequential form
/// each pass is related to: `d` has no `;` and its numbering stays within
/// `u32`, and every numbering of it goes on.
pub open spec fn lowerable<Span>(d: Exp<Span>) -> bool {
    &&& semicolon_free(d)
    &&& tag_end(d, 0) <= u32::MAX
    &&& forall|t: Exp<u32>| #[trigger] tagged(d, t, 0) ==> from_numbered(t)
}

/// Renaming takes the numbered program `t`, and every renaming of it goes on.
pub open spec fn from_numbered(t: Exp<u32>) -> bool {
    &&& uniq_ok(t, Map::empty())
    &&& forall|u: Exp<()>| #[trigger] uniquified(t, u, Map::empty()) ==> from_renamed(u)
}

/// The renamed program `u` loses its directly called closures and lifts,
/// and every program with the lifted functions and main expression goes on.
pub open spec fn from_renamed(u: Exp<()>) -> bool {
    &&& elim_ok(exp_view(u))
    &&& lambda_lifted(elim(exp_view(u), Seq::empty()).0) is Some
    &&& forall|lifted: Seq<FunDecl<Exp<()>, ()>>, ast: Exp<()>|
        #[trigger] lift_result(elim(exp_view(u), Seq::empty()).0, lifted, ast) ==> from_lifted(lifted, ast)
}

/// `lifted` and `ast` hold what lifting makes of the expression `v`.
pub open spec fn lift_result(v: ExpV<()>, lifted: Seq<FunDecl<Exp<()>, ()>>, ast: Exp<()>) -> bool {
    &&& lambda_lifted(v) matches Some(l)
    &&& decls_x(lifted) == l.lifted
    &&& exp_view(ast) == l.exp
}

/// The main expression `ast` has no `;` and can be numbered within `u32`,
/// and with every numbering of it the program goes on.
pub open spec fn from_lifted(lifted: Seq<FunDecl<Exp<()>, ()>>, ast: Exp<()>) -> bool {
    &&& semicolon_free(ast)
    &&& tag_end(ast, 0) <= u32::MAX
    &&& forall|ta: Exp<u32>| #[trigger] tagged(ast, ta, 0) ==> from_numbered_main(lifted, ta)
}

/// The functions `lifted` and the numbered main expression `ta` make a
/// sequential program, and every such program goes on.
pub open spec fn from_numbered_main(lifted: Seq<FunDecl<Exp<()>, ()>>, ta: Exp<u32>) -> bool {
    &&& seq_prog_ok(lifted, ta)
    &&& forall|td: Seq<FunDecl<Exp<u32>, u32>>, sp: SeqProg<()>|
        #[trigger] seq_made(lifted, ta, td, sp) ==> from_sequential(sp)
}

/// `sp` is the sequential program of `lifted` and `ta`, `td` numbering the
/// functions.
pub open spec fn seq_made(lifted: Seq<FunDecl<Exp<()>, ()>>, ta: Exp<u32>, td: Seq<FunDecl<Exp<u32>, u32>>,
    sp: SeqProg<()>) -> bool
{
    &&& tagged_decls(lifted, td, 1)
    &&& decls_view(sp.funs@, sp.funs@.len() as int) == seqz_decls(td, td.len() as int, decl_entries(td)).0
    &&& seq_view(sp.main) == seqz(ta, decl_entries(lifted)).0
}

/// The sequential program `sp` has no `;`, can be numbered within `u32`,
/// and every numbering of it has code.
pub open spec fn from_sequential(sp: SeqProg<()>) -> bool {
    &&& forall|j: int| 0 <= j < sp.funs@.len() ==> seq_semicolon_free(#[trigger] sp.funs@[j].body)
    &&& seq_semicolon_free(sp.main)
    &&& prog_tag_end(sp) <= u32::MAX
    &&& forall|tp: SeqProg<u32>| #[trigger] prog_numbered(sp, tp) ==> program_code(tp) is Some
}

/// `tp` is the sequential program `sp` numbered.
pub open spec fn prog_numbered(sp: SeqProg<()>, tp: SeqProg<u32>) -> bool {
    &&& seq_tagged_decls(sp.funs@, tp.funs@, 0)
    &&& seq_tagged(sp.main, tp.main, seq_tag_end_decls(sp.funs@, sp.funs@.len() as int, 0))
    &&& tp.ann == prog_tag_end(sp)
}

/// The passes after the check, on a desugared program `d` that passed it:
/// the instructions, or `None` where a pass gives up.
fn lower<Span>(d: &Exp<Span>) -> (r: Option<Vec<Instr>>)
    ensures
        r matches Some(is) ==> exists|t: Exp<u32>, u: Exp<()>, el: Exp<()>, lifted: Seq<FunDecl<Exp<()>, ()>>,
            ast: Exp<()>, ta: Exp<u32>, td: Seq<FunDecl<Exp<u32>, u32>>, sp: SeqProg<()>, tp: SeqProg<u32>|
            #[trigger] lowered(*d, t, u, el, lifted, ast, ta, td, sp, tp, is@),
        r is Some <== lowerable(*d),
{
    if !crate::checks::semicolon_ready(d) {
        return None;
    }
    proof {
        lemma_tag_end_grows(*d, 0);
    }
    match crate::tag::tag_end_within(d, 0) {
        Some(_) => {},
        None => return None,
    }
    let t = crate::tag::tag_exp(d);
    assert(lowerable(*d) ==> from_numbered(t));
    let u = match uniquify(&t) {
        Some(u) => u,
        None => return None,
    };
    assert(from_numbered(t) ==> from_renamed(u));
    if !crate::checks::elim_ready(&u) {
        return None;
    }
    let el = eliminate_closures(&u);
    let (lifted, ast) = match lambda_lift(&el) {
        Some(x) => x,
        None => return None,
    };
    assert(lift_result(elim(exp_view(u), Seq::empty()).0, lifted@, ast));
    assert(from_renamed(u) ==> from_lifted(lifted@, ast));
    if !crate::checks::semicolon_ready(&ast) {
        return None;
    }
    proof {
        lemma_tag_end_grows(ast, 0);
    }
    match crate::tag::tag_end_within(&ast, 0) {
        Some(_) => {},
        None => return None,
    }
    let ta = crate::tag::tag_exp(&ast);
    assert(from_lifted(lifted@, ast) ==> from_numbered_main(lifted@, ta));
    let sp = match seq_prog(&lifted, &ta) {
        Some(sp) => sp,
        None => return None,
    };
    let ghost td = choose|td: Seq<FunDecl<Exp<u32>, u32>>| {
        &&& tagged_decls(lifted@, td, 1)
        &&& decls_view(sp.funs@, sp.funs@.len() as int) == seqz_decls(td, td.len() as int, decl_entries(td)).0
        &&& seq_view(sp.main) == seqz(ta, decl_entries(lifted@)).0
    };
    assert(seq_made(lifted@, ta, td, sp));
    assert(from_numbered_main(lifted@, ta) ==> from_sequential(sp));
    assert(lowerable(*d) ==> from_sequential(sp));
    let mut k: usize = 0;
    while k < sp.funs.len()
        invariant
            k <= sp.funs@.len(),
            lowerable(*d) ==> from_sequential(sp),
            forall|j: int| 0 <= j < k ==> seq_semicolon_free(#[trigger] sp.funs@[j].body),
        decreases sp.funs@.len() - k,
    {
        if !crate::checks::seq_semicolon_ready(&sp.funs[k].body) {
            return None;
        }
        k = k + 1;
    }
    if !crate::checks::seq_semicolon_ready(&sp.main) {
        return None;
    }
    proof {
        lemma_seq_decls_grow(sp.funs@, sp.funs@.len() as int, 0);
    }
    let n = match crate::tag::seq_decls_end_within(&sp.funs, 0) {
        Some(n) => n,
        None => {
            proof {
                lemma_seq_tag_end_grows(sp.main, seq_tag_end_decls(sp.funs@, sp.funs@.len() as int, 0));
            }
            return None;
        },
    };
    proof {
        lemma_seq_tag_end_grows(sp.main, n as int);
    }
    match crate::tag::seq_tag_end_within(&sp.main, n) {
        Some(_) => {},
        None => return None,
    }
    let ghost spg = sp;
    let tp = crate::tag::tag_prog(sp);
    assert(prog_numbered(spg, tp));
    let is = match try_compile_to_instrs(&tp) {
        Some(is) => is,
        None => return None,
    };
    proof {
        assert(lowered(*d, t, u, el, lifted@, ast, ta, td, spg, tp, is@));
    }
    Some(is)
}

/// Compiles a program to assembly text: `Some(Err(..))` with the first error
/// that the check finds, `Some(Ok(..))` with the text, and `None` where a
/// pass meets a program that it cannot take (a form it does not know, a
/// float, numbering beyond `u32`, a name that no scope holds): after the
/// check, where the desugared program is not `lowerable`.
pub fn compile_to_string<Span: Copy>(p: &SurfProg<Span>) -> (r: Option<Result<String, CompileErr<Span>>>)
    ensures
        !desugar_ok(*p) || check_refuses(*p) ==> r is None,
        r matches Some(Err(err)) ==> check_error(*p, err),
        forall|err: CompileErr<Span>| #[trigger] check_error(*p, err) ==> r == Some(Err::<String, CompileErr<Span>>(err)),
        r matches Some(Ok(s)) ==> check_passes(*p) && compiles_to(*p, s@),
        r is None ==> !desugar_ok(*p) || check_refuses(*p)
            || (check_passes(*p) && exists|d: Exp<Span>| desugared(*p, d) && !#[trigger] lowerable(d)),
        (check_passes(*p) && forall|d: Exp<Span>| desugared(*p, d) ==> #[trigger] lowerable(d))
            ==> r matches Some(Ok(_)),
{
    let d = match desugar_and_check(p) {
        None => return None,
        Some(Err(err)) => return Some(Err(err)),
        Some(Ok(d)) => d,
    };
    let is = match lower(&d) {
        Some(is) => is,
        None => return None,
    };
    let mut out = String::new();
    out.append(prelude());
    let body = instrs_to_string(is.as_slice());
    out.append(body.as_str());
    out.append(epilogue());
    proof {
        let (t, u, el, lifted, ast, ta, td, sp, tp) = choose|t: Exp<u32>, u: Exp<()>, el: Exp<()>,
            lifted: Seq<FunDecl<Exp<()>, ()>>, ast: Exp<()>, ta: Exp<u32>, td: Seq<FunDecl<Exp<u32>, u32>>,
            sp: SeqProg<()>, tp: SeqProg<u32>| #[trigger] lowered(d, t, u, el, lifted, ast, ta, td, sp, tp, is@);
        assert(compiled(*p, d, t, u, el, lifted, ast, ta, td, sp, tp, is@));
        assert(out@ == assembly_text(is@));
    }
    Some(Ok(out))
}

} // verus!
