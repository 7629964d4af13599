use lib::x86::{
    instrs_to_string, mem_ref_to_string, reg_to_string, Arg32, Arg64, BinArgs, FpuInstr, FpuReg, Instr, JmpArg,
    MemRef, MovArgs, Offset, Reg, Reg32,
};

#[test]
fn reg_names() {
    assert_eq!(reg_to_string(Reg::Rax), "rax");
    assert_eq!(reg_to_string(Reg::Rbx), "rbx");
    assert_eq!(reg_to_string(Reg::Rcx), "rcx");
    assert_eq!(reg_to_string(Reg::Rdx), "rdx");
    assert_eq!(reg_to_string(Reg::Rsi), "rsi");
    assert_eq!(reg_to_string(Reg::Rdi), "rdi");
    assert_eq!(reg_to_string(Reg::Rsp), "rsp");
    assert_eq!(reg_to_string(Reg::Rbp), "rbp");
    assert_eq!(reg_to_string(Reg::R8), "r8");
    assert_eq!(reg_to_string(Reg::R9), "r9");
    assert_eq!(reg_to_string(Reg::R10), "r10");
    assert_eq!(reg_to_string(Reg::R11), "r11");
    assert_eq!(reg_to_string(Reg::R12), "r12");
    assert_eq!(reg_to_string(Reg::R13), "r13");
    assert_eq!(reg_to_string(Reg::R14), "r14");
    assert_eq!(reg_to_string(Reg::R15), "r15");
}

#[test]
fn mem_ref_with_constant_offset() {
    let m = MemRef { reg: Reg::Rsp, offset: Offset::Constant(-16) };
    assert_eq!(mem_ref_to_string(m), "QWORD [rsp + -16]");
}

#[test]
fn mem_ref_with_computed_offset() {
    let m = MemRef { reg: Reg::Rax, offset: Offset::Computed { reg: Reg::R14, factor: 8, constant: 8 } };
    assert_eq!(mem_ref_to_string(m), "QWORD [rax + r14 * 8 + 8]");
}

#[test]
fn empty_listing() {
    assert_eq!(instrs_to_string(&[]), "");
}

#[test]
fn listing_of_moves_and_arithmetic() {
    let rsp8 = MemRef { reg: Reg::Rsp, offset: Offset::Constant(-8) };
    let is = vec![
        Instr::Label("main".to_string()),
        Instr::Mov(MovArgs::ToReg(Reg::Rax, Arg64::Signed(14))),
        Instr::Mov(MovArgs::ToReg(Reg::R10, Arg64::Unsigned(0x8000_0000_0000_0000))),
        Instr::Mov(MovArgs::ToReg(Reg::Rax, Arg64::Mem(rsp8))),
        Instr::Mov(MovArgs::ToReg(Reg::Rax, Arg64::Label("f".to_string()))),
        Instr::Mov(MovArgs::ToMem(rsp8, Reg32::Reg(Reg::Rax))),
        Instr::Mov(MovArgs::ToMem(rsp8, Reg32::Signed(-3))),
        Instr::Mov(MovArgs::ToMem(rsp8, Reg32::Unsigned(255))),
        Instr::Add(BinArgs::ToReg(Reg::Rax, Arg32::Signed(2))),
        Instr::Sub(BinArgs::ToReg(Reg::Rax, Arg32::Reg(Reg::R10))),
        Instr::IMul(BinArgs::ToReg(Reg::Rax, Arg32::Reg(Reg::R10))),
        Instr::Test(BinArgs::ToReg(Reg::Rax, Arg32::Unsigned(1))),
        Instr::Cmp(BinArgs::ToMem(rsp8, Reg32::Signed(0))),
        Instr::Ret,
    ];
    let expected = "main:\n\
        \x20       mov rax, 14\n\
        \x20       mov r10, 0x8000000000000000\n\
        \x20       mov rax, QWORD [rsp + -8]\n\
        \x20       mov rax, f\n\
        \x20       mov QWORD [rsp + -8], rax\n\
        \x20       mov QWORD [rsp + -8], -3\n\
        \x20       mov QWORD [rsp + -8], 0x000000ff\n\
        \x20       add rax, 2\n\
        \x20       sub rax, r10\n\
        \x20       imul rax, r10\n\
        \x20       test rax, 0x00000001\n\
        \x20       cmp QWORD [rsp + -8], 0\n\
        \x20       ret\n";
    assert_eq!(instrs_to_string(&is), expected);
}

#[test]
fn listing_of_jumps_and_other_forms() {
    let l = |s: &str| JmpArg::Label(s.to_string());
    let is = vec![
        Instr::RelativeLoadAddress(Reg::R15, "HEAP".to_string()),
        Instr::And(BinArgs::ToReg(Reg::Rax, Arg32::Reg(Reg::R10))),
        Instr::Or(BinArgs::ToReg(Reg::Rax, Arg32::Reg(Reg::R10))),
        Instr::Xor(BinArgs::ToReg(Reg::R9, Arg32::Unsigned(7))),
        Instr::Shr(BinArgs::ToReg(Reg::Rax, Arg32::Signed(1))),
        Instr::Sar(BinArgs::ToReg(Reg::R14, Arg32::Unsigned(1))),
        Instr::Shl(BinArgs::ToReg(Reg::Rax, Arg32::Signed(3))),
        Instr::Push(Arg32::Reg(Reg::Rbp)),
        Instr::Pop(Arg32::Mem(MemRef { reg: Reg::Rsp, offset: Offset::Constant(0) })),
        Instr::Comment("flip".to_string()),
        Instr::Call(l("snake_error")),
        Instr::Call(JmpArg::Reg(Reg::Rax)),
        Instr::Jmp(l("done")),
        Instr::Je(l("a")),
        Instr::Jne(l("b")),
        Instr::Jl(l("c")),
        Instr::Jle(l("d")),
        Instr::Jg(l("e")),
        Instr::Jge(l("f")),
        Instr::Jz(l("g")),
        Instr::Jnz(l("h")),
        Instr::Jo(l("error_overflow")),
        Instr::Jno(l("i")),
    ];
    let expected = "        lea r15, [rel HEAP]\n\
        \x20       and rax, r10\n\
        \x20       or rax, r10\n\
        \x20       xor r9, 0x00000007\n\
        \x20       shr rax, 1\n\
        \x20       sar r14, 0x00000001\n\
        \x20       shl rax, 3\n\
        \x20       push rbp\n\
        \x20       pop QWORD [rsp + 0]\n\
        ;;; flip\n\
        \x20       call snake_error\n\
        \x20       call rax\n\
        \x20       jmp done\n\
        \x20       je a\n\
        \x20       jne b\n\
        \x20       jl c\n\
        \x20       jle d\n\
        \x20       jg e\n\
        \x20       jge f\n\
        \x20       jz g\n\
        \x20       jnz h\n\
        \x20       jo error_overflow\n\
        \x20       jno i\n";
    assert_eq!(instrs_to_string(&is), expected);
}

#[test]
fn listing_of_floating_point_forms() {
    let is = vec![
        Instr::Fpu(FpuInstr::Fld(Arg32::Mem(MemRef { reg: Reg::Rsp, offset: Offset::Constant(-8) }))),
        Instr::Fpu(FpuInstr::Faddp(Arg32::FpuReg(FpuReg::ST1))),
        Instr::Fpu(FpuInstr::Fsubp(Arg32::FpuReg(FpuReg::ST2))),
        Instr::Fpu(FpuInstr::Fmulp(Arg32::FpuReg(FpuReg::ST3))),
        Instr::Fpu(FpuInstr::Fcomip(Arg32::FpuReg(FpuReg::ST0))),
        Instr::Fpu(FpuInstr::Fstp(Arg32::FpuReg(FpuReg::ST7))),
        Instr::Mov(MovArgs::ToReg(Reg::Rax, Arg64::FpuReg(FpuReg::ST4))),
        Instr::Push(Arg32::FpuReg(FpuReg::ST5)),
        Instr::Pop(Arg32::FpuReg(FpuReg::ST6)),
    ];
    let expected = "        fld QWORD [rsp + -8]\n\
        \x20       faddp st(1)\n\
        \x20       fsubp st(2)\n\
        \x20       fmulp st(3)\n\
        \x20       fcomip st(0)\n\
        \x20       fstp st(7)\n\
        \x20       mov rax, st(4)\n\
        \x20       push st(5)\n\
        \x20       pop st(6)\n";
    assert_eq!(instrs_to_string(&is), expected);
}
