//! x86-64 instructions and their rendering as NASM text.
use vstd::prelude::*;
use crate::text::{dec_int, hex_digits, i64_to_dec, push_hex};

verus! {

#[derive(Copy, Clone, Debug, PartialEq, Eq, Structural)]
pub enum Reg {
    Rax,
    Rbx,
    Rdx,
    Rcx,
    Rsp,
    Rbp,
    Rsi,
    Rdi,
    R8,
    R9,
    R10,
    R11,
    R12,
    R13,
    R14,
    R15,
}

#[derive(Copy, Clone, Debug, PartialEq, Eq, Structural)]
pub enum FpuReg {
    ST0,
    ST1,
    ST2,
    ST3,
    ST4,
    ST5,
    ST6,
    ST7,
}

#[derive(Clone, Copy, Debug, PartialEq, Eq, Structural)]
pub struct MemRef {
    pub reg: Reg,
    pub offset: Offset,
}

#[derive(Clone, Copy, Debug, PartialEq, Eq, Structural)]
pub enum Offset {
    Constant(i32),
    Computed { reg: Reg, factor: i32, constant: i32 },
}

#[derive(Clone, Debug, PartialEq, Eq)]
pub enum Arg64 {
    Reg(Reg),
    Signed(i64),
    Unsigned(u64),
    Mem(MemRef),
    Label(String),
    FpuReg(FpuReg),
}

#[derive(Clone, Copy, Debug, PartialEq, Eq, Structural)]
pub enum Arg32 {
    Reg(Reg),
    Signed(i32),
    Unsigned(u32),
    Mem(MemRef),
    FpuReg(FpuReg),
}

#[derive(Clone, Copy, Debug, PartialEq, Eq, Structural)]
pub enum Reg32 {
    Reg(Reg),
    Signed(i32),
    Unsigned(u32),
}

#[derive(Clone, Debug, PartialEq, Eq)]
pub enum MovArgs {
    ToReg(Reg, Arg64),
    ToMem(MemRef, Reg32),
}

#[derive(Clone, Copy, Debug, PartialEq, Eq, Structural)]
pub enum BinArgs {
    ToReg(Reg, Arg32),
    ToMem(MemRef, Reg32),
}

#[derive(Clone, Debug, PartialEq, Eq)]
pub enum JmpArg {
    Label(String),
    Reg(Reg),
}

/// x87 floating-point instructions; each names the operand besides `st(0)`.
#[derive(Clone, Debug, PartialEq, Eq)]
pub enum FpuInstr {
    /// `st(0) := st(0) + arg`, then pop.
    Faddp(Arg32),
    /// `st(0) := st(0) - arg`, then pop.
    Fsubp(Arg32),
    /// `st(0) := st(0) * arg`, then pop.
    Fmulp(Arg32),
    /// Push `arg` onto the FPU stack.
    Fld(Arg32),
    /// Store `st(0)` into `arg`, then pop.
    Fstp(Arg32),
    /// Compare `st(0)` with `arg`, set the flags, then pop.
    Fcomip(Arg32),
}

#[derive(Clone, Debug, PartialEq, Eq)]
pub enum Instr {
    Mov(MovArgs),
    RelativeLoadAddress(Reg, String),
    Add(BinArgs),
    Sub(BinArgs),
    IMul(BinArgs),
    And(BinArgs),
    Or(BinArgs),
    Xor(BinArgs),
    Shr(BinArgs),
    Sar(BinArgs),
    Shl(BinArgs),
    Cmp(BinArgs),
    Test(BinArgs),
    Push(Arg32),
    Pop(Arg32),
    Comment(String),
    Label(String),
    Call(JmpArg),
    Ret,
    Jmp(JmpArg),
    Je(JmpArg),
    Jne(JmpArg),
    Jl(JmpArg),
    Jle(JmpArg),
    Jg(JmpArg),
    Jge(JmpArg),
    Jz(JmpArg),
    Jnz(JmpArg),
    Jo(JmpArg),
    Jno(JmpArg),
    Fpu(FpuInstr),
}

/// The NASM name of a general-purpose register.
pub open spec fn reg_text(r: Reg) -> Seq<char> {
    match r {
        Reg::Rax => "rax"@,
        Reg::Rbx => "rbx"@,
        Reg::Rcx => "rcx"@,
        Reg::Rdx => "rdx"@,
        Reg::Rsi => "rsi"@,
        Reg::Rdi => "rdi"@,
        Reg::Rsp => "rsp"@,
        Reg::Rbp => "rbp"@,
        Reg::R8 => "r8"@,
        Reg::R9 => "r9"@,
        Reg::R10 => "r10"@,
        Reg::R11 => "r11"@,
        Reg::R12 => "r12"@,
        Reg::R13 => "r13"@,
        Reg::R14 => "r14"@,
        Reg::R15 => "r15"@,
    }
}

/// The NASM name of an x87 stack register.
pub open spec fn fpu_reg_text(r: FpuReg) -> Seq<char> {
    match r {
        FpuReg::ST0 => "st(0)"@,
        FpuReg::ST1 => "st(1)"@,
        FpuReg::ST2 => "st(2)"@,
        FpuReg::ST3 => "st(3)"@,
        FpuReg::ST4 => "st(4)"@,
        FpuReg::ST5 => "st(5)"@,
        FpuReg::ST6 => "st(6)"@,
        FpuReg::ST7 => "st(7)"@,
    }
}

/// `0x` followed by exactly eight lower-case hex digits.
pub open spec fn hex32_text(u: u32) -> Seq<char> {
    "0x"@ + hex_digits(u as nat, 8)
}

/// `0x` followed by exactly sixteen lower-case hex digits.
pub open spec fn hex64_text(u: u64) -> Seq<char> {
    "0x"@ + hex_digits(u as nat, 16)
}

pub open spec fn offset_text(o: Offset) -> Seq<char> {
    match o {
        Offset::Constant(n) => dec_int(n as int),
        Offset::Computed { reg, factor, constant } =>
            reg_text(reg) + " * "@ + dec_int(factor as int) + " + "@ + dec_int(constant as int),
    }
}

pub open spec fn mem_ref_text(m: MemRef) -> Seq<char> {
    "QWORD ["@ + reg_text(m.reg) + " + "@ + offset_text(m.offset) + "]"@
}

pub open spec fn reg32_text(r: Reg32) -> Seq<char> {
    match r {
        Reg32::Reg(r) => reg_text(r),
        Reg32::Signed(i) => dec_int(i as int),
        Reg32::Unsigned(u) => hex32_text(u),
    }
}

pub open spec fn arg32_text(a: Arg32) -> Seq<char> {
    match a {
        Arg32::Reg(r) => reg_text(r),
        Arg32::Signed(i) => dec_int(i as int),
        Arg32::Unsigned(u) => hex32_text(u),
        Arg32::Mem(m) => mem_ref_text(m),
        Arg32::FpuReg(f) => fpu_reg_text(f),
    }
}

pub open spec fn arg64_text(a: Arg64) -> Seq<char> {
    match a {
        Arg64::Reg(r) => reg_text(r),
        Arg64::Signed(i) => dec_int(i as int),
        Arg64::Unsigned(u) => hex64_text(u),
        Arg64::Mem(m) => mem_ref_text(m),
        Arg64::Label(l) => l@,
        Arg64::FpuReg(f) => fpu_reg_text(f),
    }
}

pub open spec fn mov_args_text(a: MovArgs) -> Seq<char> {
    match a {
        MovArgs::ToReg(r, arg) => reg_text(r) + ", "@ + arg64_text(arg),
        MovArgs::ToMem(m, arg) => mem_ref_text(m) + ", "@ + reg32_text(arg),
    }
}

pub open spec fn bin_args_text(a: BinArgs) -> Seq<char> {
    match a {
        BinArgs::ToReg(r, arg) => reg_text(r) + ", "@ + arg32_text(arg),
        BinArgs::ToMem(m, arg) => mem_ref_text(m) + ", "@ + reg32_text(arg),
    }
}

pub open spec fn jmp_arg_text(a: JmpArg) -> Seq<char> {
    match a {
        JmpArg::Label(s) => s@,
        JmpArg::Reg(r) => reg_text(r),
    }
}

/// An indented instruction line: the mnemonic, a space, the operands.
pub open spec fn op_line(mnemonic: Seq<char>, operands: Seq<char>) -> Seq<char> {
    "        "@ + mnemonic + " "@ + operands
}

/// The text of one instruction, without the line break.
pub open spec fn instr_text(i: Instr) -> Seq<char> {
    match i {
        Instr::RelativeLoadAddress(r, l) => op_line("lea"@, reg_text(r) + ", [rel "@ + l@ + "]"@),
        Instr::Mov(a) => op_line("mov"@, mov_args_text(a)),
        Instr::Add(a) => op_line("add"@, bin_args_text(a)),
        Instr::Sub(a) => op_line("sub"@, bin_args_text(a)),
        Instr::Ret => "        ret"@,
        Instr::IMul(a) => op_line("imul"@, bin_args_text(a)),
        Instr::And(a) => op_line("and"@, bin_args_text(a)),
        Instr::Or(a) => op_line("or"@, bin_args_text(a)),
        Instr::Xor(a) => op_line("xor"@, bin_args_text(a)),
        Instr::Shr(a) => op_line("shr"@, bin_args_text(a)),
        Instr::Sar(a) => op_line("sar"@, bin_args_text(a)),
        Instr::Shl(a) => op_line("shl"@, bin_args_text(a)),
        Instr::Cmp(a) => op_line("cmp"@, bin_args_text(a)),
        Instr::Test(a) => op_line("test"@, bin_args_text(a)),
        Instr::Push(a) => op_line("push"@, arg32_text(a)),
        Instr::Pop(a) => op_line("pop"@, arg32_text(a)),
        Instr::Label(s) => s@ + ":"@,
        Instr::Comment(s) => ";;; "@ + s@,
        Instr::Jmp(a) => op_line("jmp"@, jmp_arg_text(a)),
        Instr::Call(a) => op_line("call"@, jmp_arg_text(a)),
        Instr::Je(a) => op_line("je"@, jmp_arg_text(a)),
        Instr::Jne(a) => op_line("jne"@, jmp_arg_text(a)),
        Instr::Jle(a) => op_line("jle"@, jmp_arg_text(a)),
        Instr::Jl(a) => op_line("jl"@, jmp_arg_text(a)),
        Instr::Jg(a) => op_line("jg"@, jmp_arg_text(a)),
        Instr::Jge(a) => op_line("jge"@, jmp_arg_text(a)),
        Instr::Jz(a) => op_line("jz"@, jmp_arg_text(a)),
        Instr::Jnz(a) => op_line("jnz"@, jmp_arg_text(a)),
        Instr::Jo(a) => op_line("jo"@, jmp_arg_text(a)),
        Instr::Jno(a) => op_line("jno"@, jmp_arg_text(a)),
        Instr::Fpu(f) => match f {
            FpuInstr::Faddp(a) => op_line("faddp"@, arg32_text(a)),
            FpuInstr::Fsubp(a) => op_line("fsubp"@, arg32_text(a)),
            FpuInstr::Fmulp(a) => op_line("fmulp"@, arg32_text(a)),
            FpuInstr::Fld(a) => op_line("fld"@, arg32_text(a)),
            FpuInstr::Fstp(a) => op_line("fstp"@, arg32_text(a)),
            FpuInstr::Fcomip(a) => op_line("fcomip"@, arg32_text(a)),
        },
    }
}

/// A program listing: each instruction's text followed by a line break.
pub open spec fn instrs_text(is: Seq<Instr>) -> Seq<char>
    decreases is.len(),
{
    if is.len() == 0 {
        Seq::empty()
    } else {
        instrs_text(is.drop_last()) + instr_text(is.last()) + "\n"@
    }
}

/// A fresh string holding `s`.
fn text_of(s: &str) -> (r: String)
    ensures
        r@ == s@,
{
    String::from_str(s)
}

pub fn reg_to_string(r: Reg) -> (s: String)
    ensures
        s@ == reg_text(r),
{
    match r {
        Reg::Rax => text_of("rax"),
        Reg::Rbx => text_of("rbx"),
        Reg::Rcx => text_of("rcx"),
        Reg::Rdx => text_of("rdx"),
        Reg::Rsi => text_of("rsi"),
        Reg::Rdi => text_of("rdi"),
        Reg::Rsp => text_of("rsp"),
        Reg::Rbp => text_of("rbp"),
        Reg::R8 => text_of("r8"),
        Reg::R9 => text_of("r9"),
        Reg::R10 => text_of("r10"),
        Reg::R11 => text_of("r11"),
        Reg::R12 => text_of("r12"),
        Reg::R13 => text_of("r13"),
        Reg::R14 => text_of("r14"),
        Reg::R15 => text_of("r15"),
    }
}

fn imm32_to_string(i: i32) -> (s: String)
    ensures
        s@ == dec_int(i as int),
{
    i64_to_dec(i as i64)
}

fn hex32_to_string(u: u32) -> (s: String)
    ensures
        s@ == hex32_text(u),
{
    let mut s = text_of("0x");
    push_hex(&mut s, u as u64, 8);
    s
}

fn hex64_to_string(u: u64) -> (s: String)
    ensures
        s@ == hex64_text(u),
{
    let mut s = text_of("0x");
    push_hex(&mut s, u, 16);
    s
}

fn offset_to_string(off: Offset) -> (s: String)
    ensures
        s@ == offset_text(off),
{
    match off {
        Offset::Constant(n) => imm32_to_string(n),
        Offset::Computed { reg, factor, constant } => {
            let mut s = reg_to_string(reg);
            s.append(" * ");
            s.append(imm32_to_string(factor).as_str());
            s.append(" + ");
            s.append(imm32_to_string(constant).as_str());
            s
        },
    }
}

pub fn mem_ref_to_string(m: MemRef) -> (s: String)
    ensures
        s@ == mem_ref_text(m),
{
    let mut s = text_of("QWORD [");
    s.append(reg_to_string(m.reg).as_str());
    s.append(" + ");
    s.append(offset_to_string(m.offset).as_str());
    s.append("]");
    s
}

fn reg32_to_string(r_or_i: Reg32) -> (s: String)
    ensures
        s@ == reg32_text(r_or_i),
{
    match r_or_i {
        Reg32::Reg(r) => reg_to_string(r),
        Reg32::Signed(i) => imm32_to_string(i),
        Reg32::Unsigned(u) => hex32_to_string(u),
    }
}

fn fpu_reg_to_string(fpu_reg: FpuReg) -> (s: String)
    ensures
        s@ == fpu_reg_text(fpu_reg),
{
    match fpu_reg {
        FpuReg::ST0 => text_of("st(0)"),
        FpuReg::ST1 => text_of("st(1)"),
        FpuReg::ST2 => text_of("st(2)"),
        FpuReg::ST3 => text_of("st(3)"),
        FpuReg::ST4 => text_of("st(4)"),
        FpuReg::ST5 => text_of("st(5)"),
        FpuReg::ST6 => text_of("st(6)"),
        FpuReg::ST7 => text_of("st(7)"),
    }
}

fn arg32_to_string(arg: Arg32) -> (s: String)
    ensures
        s@ == arg32_text(arg),
{
    match arg {
        Arg32::Reg(r) => reg_to_string(r),
        Arg32::Signed(i) => imm32_to_string(i),
        Arg32::Unsigned(u) => hex32_to_string(u),
        Arg32::Mem(m) => mem_ref_to_string(m),
        Arg32::FpuReg(f) => fpu_reg_to_string(f),
    }
}

fn arg64_to_string(arg: &Arg64) -> (s: String)
    ensures
        s@ == arg64_text(*arg),
{
    match arg {
        Arg64::Reg(r) => reg_to_string(*r),
        Arg64::Signed(i) => i64_to_dec(*i),
        Arg64::Unsigned(u) => hex64_to_string(*u),
        Arg64::Mem(m) => mem_ref_to_string(*m),
        Arg64::Label(l) => l.clone(),
        Arg64::FpuReg(f) => fpu_reg_to_string(*f),
    }
}

/// `left, right` as a fresh string.
fn comma_pair(left: String, right: String) -> (s: String)
    ensures
        s@ == left@ + ", "@ + right@,
{
    let mut s = left;
    s.append(", ");
    s.append(right.as_str());
    s
}

fn mov_args_to_string(args: &MovArgs) -> (s: String)
    ensures
        s@ == mov_args_text(*args),
{
    match args {
        MovArgs::ToReg(r, arg) => comma_pair(reg_to_string(*r), arg64_to_string(arg)),
        MovArgs::ToMem(mem, arg) => comma_pair(mem_ref_to_string(*mem), reg32_to_string(*arg)),
    }
}

fn bin_args_to_string(args: BinArgs) -> (s: String)
    ensures
        s@ == bin_args_text(args),
{
    match args {
        BinArgs::ToReg(r, arg) => comma_pair(reg_to_string(r), arg32_to_string(arg)),
        BinArgs::ToMem(mem, arg) => comma_pair(mem_ref_to_string(mem), reg32_to_string(arg)),
    }
}

fn jmp_arg_to_string(arg: &JmpArg) -> (s: String)
    ensures
        s@ == jmp_arg_text(*arg),
{
    match arg {
        JmpArg::Label(s) => s.clone(),
        JmpArg::Reg(r) => reg_to_string(*r),
    }
}

/// An indented instruction line built from a mnemonic and its operand text.
fn line(mnemonic: &str, operands: String) -> (s: String)
    ensures
        s@ == op_line(mnemonic@, operands@),
{
    let mut s = text_of("        ");
    s.append(mnemonic);
    s.append(" ");
    s.append(operands.as_str());
    s
}

fn instr_to_string(i: &Instr) -> (s: String)
    ensures
        s@ == instr_text(*i),
{
    match i {
        Instr::RelativeLoadAddress(reg, label) => {
            let mut ops = reg_to_string(*reg);
            ops.append(", [rel ");
            ops.append(label.as_str());
            ops.append("]");
            line("lea", ops)
        },
        Instr::Mov(args) => line("mov", mov_args_to_string(args)),
        Instr::Add(args) => line("add", bin_args_to_string(*args)),
        Instr::Sub(args) => line("sub", bin_args_to_string(*args)),
        Instr::Ret => text_of("        ret"),
        Instr::IMul(args) => line("imul", bin_args_to_string(*args)),
        Instr::And(args) => line("and", bin_args_to_string(*args)),
        Instr::Or(args) => line("or", bin_args_to_string(*args)),
        Instr::Xor(args) => line("xor", bin_args_to_string(*args)),
        Instr::Shr(args) => line("shr", bin_args_to_string(*args)),
        Instr::Sar(args) => line("sar", bin_args_to_string(*args)),
        Instr::Shl(args) => line("shl", bin_args_to_string(*args)),
        Instr::Cmp(args) => line("cmp", bin_args_to_string(*args)),
        Instr::Test(args) => line("test", bin_args_to_string(*args)),
        Instr::Push(arg) => line("push", arg32_to_string(*arg)),
        Instr::Pop(arg) => line("pop", arg32_to_string(*arg)),
        Instr::Label(s) => {
            let mut r = s.clone();
            r.append(":");
            r
        },
        Instr::Comment(s) => {
            let mut r = text_of(";;; ");
            r.append(s.as_str());
            r
        },
        Instr::Jmp(a) => line("jmp", jmp_arg_to_string(a)),
        Instr::Call(a) => line("call", jmp_arg_to_string(a)),
        Instr::Je(a) => line("je", jmp_arg_to_string(a)),
        Instr::Jne(a) => line("jne", jmp_arg_to_string(a)),
        Instr::Jle(a) => line("jle", jmp_arg_to_string(a)),
        Instr::Jl(a) => line("jl", jmp_arg_to_string(a)),
        Instr::Jg(a) => line("jg", jmp_arg_to_string(a)),
        Instr::Jge(a) => line("jge", jmp_arg_to_string(a)),
        Instr::Jz(a) => line("jz", jmp_arg_to_string(a)),
        Instr::Jnz(a) => line("jnz", jmp_arg_to_string(a)),
        Instr::Jo(a) => line("jo", jmp_arg_to_string(a)),
        Instr::Jno(a) => line("jno", jmp_arg_to_string(a)),
        Instr::Fpu(f) => match f {
            FpuInstr::Faddp(a) => line("faddp", arg32_to_string(*a)),
            FpuInstr::Fsubp(a) => line("fsubp", arg32_to_string(*a)),
            FpuInstr::Fmulp(a) => line("fmulp", arg32_to_string(*a)),
            FpuInstr::Fld(a) => line("fld", arg32_to_string(*a)),
            FpuInstr::Fstp(a) => line("fstp", arg32_to_string(*a)),
            FpuInstr::Fcomip(a) => line("fcomip", arg32_to_string(*a)),
        },
    }
}

/// The listing of `is`: every instruction's text, each followed by a line break.
pub fn instrs_to_string(is: &[Instr]) -> (buf: String)
    ensures
        buf@ == instrs_text(is@),
{
    let mut buf = String::new();
    let mut k: usize = 0;
    while k < is.len()
        invariant
            k <= is@.len(),
            buf@ == instrs_text(is@.take(k as int)),
        decreases is@.len() - k,
    {
        let line_text = instr_to_string(&is[k]);
        buf.append(line_text.as_str());
        buf.append("\n");
        proof {
            assert(is@.take(k + 1).drop_last() =~= is@.take(k as int));
            assert(is@.take(k + 1).last() == is@[k as int]);
        }
        k = k + 1;
    }
    assert(is@.take(is@.len() as int) =~= is@);
    buf
}


// ---------------------------------------------------------------------------
// Instructions as values: the same forms, with texts in place of strings.

pub enum Arg64V {
    Reg(Reg),
    Signed(i64),
    Unsigned(u64),
    Mem(MemRef),
    Label(Seq<char>),
    FpuReg(FpuReg),
}

pub enum MovArgsV {
    ToReg(Reg, Arg64V),
    ToMem(MemRef, Reg32),
}

pub enum JmpArgV {
    Label(Seq<char>),
    Reg(Reg),
}

pub enum InstrV {
    Mov(MovArgsV),
    RelativeLoadAddress(Reg, Seq<char>),
    Add(BinArgs),
    Sub(BinArgs),
    IMul(BinArgs),
    And(BinArgs),
    Or(BinArgs),
    Xor(BinArgs),
    Shr(BinArgs),
    Sar(BinArgs),
    Shl(BinArgs),
    Cmp(BinArgs),
    Test(BinArgs),
    Push(Arg32),
    Pop(Arg32),
    Comment(Seq<char>),
    Label(Seq<char>),
    Call(JmpArgV),
    Ret,
    Jmp(JmpArgV),
    Je(JmpArgV),
    Jne(JmpArgV),
    Jl(JmpArgV),
    Jle(JmpArgV),
    Jg(JmpArgV),
    Jge(JmpArgV),
    Jz(JmpArgV),
    Jnz(JmpArgV),
    Jo(JmpArgV),
    Jno(JmpArgV),
    Fpu(FpuInstr),
}

impl View for Arg64 {
    type V = Arg64V;

    open spec fn view(&self) -> Arg64V {
        match *self {
            Arg64::Reg(r) => Arg64V::Reg(r),
            Arg64::Signed(i) => Arg64V::Signed(i),
            Arg64::Unsigned(u) => Arg64V::Unsigned(u),
            Arg64::Mem(m) => Arg64V::Mem(m),
            Arg64::Label(l) => Arg64V::Label(l@),
            Arg64::FpuReg(f) => Arg64V::FpuReg(f),
        }
    }
}

impl View for MovArgs {
    type V = MovArgsV;

    open spec fn view(&self) -> MovArgsV {
        match *self {
            MovArgs::ToReg(r, a) => MovArgsV::ToReg(r, a@),
            MovArgs::ToMem(m, a) => MovArgsV::ToMem(m, a),
        }
    }
}

impl View for JmpArg {
    type V = JmpArgV;

    open spec fn view(&self) -> JmpArgV {
        match *self {
            JmpArg::Label(l) => JmpArgV::Label(l@),
            JmpArg::Reg(r) => JmpArgV::Reg(r),
        }
    }
}

impl View for Instr {
    type V = InstrV;

    open spec fn view(&self) -> InstrV {
        match *self {
            Instr::Mov(a) => InstrV::Mov(a@),
            Instr::RelativeLoadAddress(r, l) => InstrV::RelativeLoadAddress(r, l@),
            Instr::Add(a) => InstrV::Add(a),
            Instr::Sub(a) => InstrV::Sub(a),
            Instr::IMul(a) => InstrV::IMul(a),
            Instr::And(a) => InstrV::And(a),
            Instr::Or(a) => InstrV::Or(a),
            Instr::Xor(a) => InstrV::Xor(a),
            Instr::Shr(a) => InstrV::Shr(a),
            Instr::Sar(a) => InstrV::Sar(a),
            Instr::Shl(a) => InstrV::Shl(a),
            Instr::Cmp(a) => InstrV::Cmp(a),
            Instr::Test(a) => InstrV::Test(a),
            Instr::Push(a) => InstrV::Push(a),
            Instr::Pop(a) => InstrV::Pop(a),
            Instr::Comment(s) => InstrV::Comment(s@),
            Instr::Label(s) => InstrV::Label(s@),
            Instr::Call(a) => InstrV::Call(a@),
            Instr::Ret => InstrV::Ret,
            Instr::Jmp(a) => InstrV::Jmp(a@),
            Instr::Je(a) => InstrV::Je(a@),
            Instr::Jne(a) => InstrV::Jne(a@),
            Instr::Jl(a) => InstrV::Jl(a@),
            Instr::Jle(a) => InstrV::Jle(a@),
            Instr::Jg(a) => InstrV::Jg(a@),
            Instr::Jge(a) => InstrV::Jge(a@),
            Instr::Jz(a) => InstrV::Jz(a@),
            Instr::Jnz(a) => InstrV::Jnz(a@),
            Instr::Jo(a) => InstrV::Jo(a@),
            Instr::Jno(a) => InstrV::Jno(a@),
            Instr::Fpu(f) => InstrV::Fpu(f),
        }
    }
}

/// The values of a list of instructions.
pub open spec fn instrs_view(s: Seq<Instr>) -> Seq<InstrV> {
    s.map_values(|i: Instr| i@)
}

/// Appends one instruction.
pub fn emit(is: &mut Vec<Instr>, i: Instr)
    ensures
        instrs_view(final(is)@) == instrs_view(old(is)@).push(i@),
{
    is.push(i);
    assert(instrs_view(is@) =~= instrs_view(old(is)@).push(i@));
}

/// Appends a list of instructions.
pub fn emit_all(is: &mut Vec<Instr>, more: Vec<Instr>)
    ensures
        instrs_view(final(is)@) == instrs_view(old(is)@) + instrs_view(more@),
{
    let mut more = more;
    let ghost m = more@;
    is.append(&mut more);
    assert(instrs_view(is@) =~= instrs_view(old(is)@) + instrs_view(m));
}

} // verus!
