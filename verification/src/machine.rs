//! A small model of the processor, enough to run the straight-line code that
//! the compiler makes for a primitive on constant operands, and the laws that
//! this code leaves the right value in `rax`, or jumps to the overflow error
//! exactly where the result does not fit.
use vstd::prelude::*;
use crate::syntax::{ImmExp, Prim};
use crate::x86::{Arg32, Arg64V, BinArgs, InstrV, JmpArgV, MovArgsV, Reg};
use crate::codegen::{prim_code, SNAKE_TRU, SNAKE_FLS};
use crate::check::{MIN_SNAKE_INT, MAX_SNAKE_INT};

verus! {

/// Registers, the zero and overflow flags (`None` where the last instruction
/// that touched a flag leaves it undefined), and the label that a taken
/// forward jump is heading for (the instructions up to that label are passed
/// over).
pub struct Machine {
    pub regs: Map<Reg, u64>,
    pub zf: Option<bool>,
    pub of: Option<bool>,
    pub skip: Option<Seq<char>>,
}

/// The value of a register; an unset register reads as zero.
pub open spec fn reg(m: Machine, r: Reg) -> u64 {
    if m.regs.contains_key(r) { m.regs[r] } else { 0 }
}

pub open spec fn set_reg(m: Machine, r: Reg, v: u64) -> Machine {
    Machine { regs: m.regs.insert(r, v), ..m }
}

/// A register read as a signed number.
pub open spec fn signed(m: Machine, r: Reg) -> int {
    (reg(m, r) as i64) as int
}

pub open spec fn fits_i64(v: int) -> bool {
    i64::MIN <= v <= i64::MAX
}

/// Writing `v` to `d` with the flags that it sets.
pub open spec fn write(m: Machine, d: Reg, v: u64, zf: Option<bool>, of: Option<bool>) -> Machine {
    Machine { regs: m.regs.insert(d, v), zf, of, ..m }
}

/// Writing the result of a logical operation, which clears the overflow flag.
pub open spec fn logic(m: Machine, d: Reg, v: u64) -> Machine {
    write(m, d, v, Some(v == 0), Some(false))
}

/// A 32-bit immediate, sign-extended to 64 bits.
pub open spec fn imm32(i: i32) -> u64 {
    (i as i64) as u64
}

/// One instruction: the machine after it, or `None` where it jumps away (a
/// taken `jnz` or `jo`, which in this code lead to a run-time error), reads an
/// undefined flag, or is not modelled. A taken `jz` passes over what follows
/// up to its label.
pub open spec fn step(i: InstrV, m: Machine) -> Option<Machine> {
    if m.skip is Some {
        if i == InstrV::Label(m.skip->0) { Some(Machine { skip: None, ..m }) } else { Some(m) }
    } else {
        exec_step(i, m)
    }
}

/// One instruction on a machine that passes over nothing.
pub open spec fn exec_step(i: InstrV, m: Machine) -> Option<Machine> {
    match i {
        InstrV::Label(_) => Some(m),
        InstrV::Comment(_) => Some(m),
        InstrV::Mov(MovArgsV::ToReg(d, Arg64V::Reg(s))) => Some(set_reg(m, d, reg(m, s))),
        InstrV::Mov(MovArgsV::ToReg(d, Arg64V::Signed(v))) => Some(set_reg(m, d, v as u64)),
        InstrV::Mov(MovArgsV::ToReg(d, Arg64V::Unsigned(v))) => Some(set_reg(m, d, v)),
        InstrV::Add(BinArgs::ToReg(d, Arg32::Reg(s))) => {
            let v = (reg(m, d) + reg(m, s)) as u64;
            Some(write(m, d, v, Some(v == 0), Some(!fits_i64(signed(m, d) + signed(m, s)))))
        },
        InstrV::Add(BinArgs::ToReg(d, Arg32::Signed(k))) => {
            let v = (reg(m, d) + imm32(k)) as u64;
            Some(write(m, d, v, Some(v == 0), Some(!fits_i64(signed(m, d) + k))))
        },
        InstrV::Sub(BinArgs::ToReg(d, Arg32::Reg(s))) => {
            let v = (reg(m, d) - reg(m, s)) as u64;
            Some(write(m, d, v, Some(v == 0), Some(!fits_i64(signed(m, d) - signed(m, s)))))
        },
        InstrV::Sub(BinArgs::ToReg(d, Arg32::Signed(k))) => {
            let v = (reg(m, d) - imm32(k)) as u64;
            Some(write(m, d, v, Some(v == 0), Some(!fits_i64(signed(m, d) - k))))
        },
        InstrV::IMul(BinArgs::ToReg(d, Arg32::Reg(s))) => {
            let p = signed(m, d) * signed(m, s);
            Some(write(m, d, p as u64, None, Some(!fits_i64(p))))
        },
        InstrV::And(BinArgs::ToReg(d, Arg32::Reg(s))) => Some(logic(m, d, reg(m, d) & reg(m, s))),
        InstrV::Or(BinArgs::ToReg(d, Arg32::Reg(s))) => Some(logic(m, d, reg(m, d) | reg(m, s))),
        InstrV::Xor(BinArgs::ToReg(d, Arg32::Reg(s))) => Some(logic(m, d, reg(m, d) ^ reg(m, s))),
        InstrV::Xor(BinArgs::ToReg(d, Arg32::Unsigned(u))) => if u < 0x8000_0000 {
            Some(logic(m, d, reg(m, d) ^ (u as u64)))
        } else {
            None
        },
        InstrV::Sar(BinArgs::ToReg(d, Arg32::Unsigned(c))) => if c == 1 {
            let v = ((reg(m, d) as i64) >> 1u64) as u64;
            Some(write(m, d, v, Some(v == 0), Some(false)))
        } else {
            None
        },
        InstrV::Shl(BinArgs::ToReg(d, Arg32::Unsigned(c))) => if 0 < c < 64 {
            let v = reg(m, d) << (c as u64);
            Some(write(m, d, v, Some(v == 0), if c == 1 { Some(!fits_i64(2 * signed(m, d))) } else { None }))
        } else {
            None
        },
        InstrV::Shr(BinArgs::ToReg(d, Arg32::Unsigned(c))) => if 0 < c < 64 {
            let v = reg(m, d) >> (c as u64);
            Some(write(m, d, v, Some(v == 0), if c == 1 { Some(signed(m, d) < 0) } else { None }))
        } else {
            None
        },
        InstrV::Test(BinArgs::ToReg(r, Arg32::Unsigned(u))) => if u < 0x8000_0000 {
            Some(Machine { zf: Some(reg(m, r) & (u as u64) == 0), of: Some(false), ..m })
        } else {
            None
        },
        InstrV::Cmp(BinArgs::ToReg(r, Arg32::Reg(s))) =>
            Some(Machine { zf: Some(reg(m, r) == reg(m, s)), of: Some(!fits_i64(signed(m, r) - signed(m, s))), ..m }),
        InstrV::Jnz(_) => if m.zf == Some(true) { Some(m) } else { None },
        InstrV::Jz(JmpArgV::Label(l)) => match m.zf {
            Some(true) => Some(Machine { skip: Some(l), ..m }),
            Some(false) => Some(m),
            None => None,
        },
        InstrV::Jo(_) => if m.of == Some(false) { Some(m) } else { None },
        _ => None,
    }
}

/// Running a sequence of instructions from its first to its last.
pub open spec fn run(is: Seq<InstrV>, m: Machine) -> Option<Machine>
    decreases is.len(),
{
    if is.len() == 0 {
        Some(m)
    } else {
        match run(is.drop_last(), m) {
            Some(m1) => step(is.last(), m1),
            None => None,
        }
    }
}

proof fn lemma_run_add(a: Seq<InstrV>, b: Seq<InstrV>, m: Machine)
    ensures
        run(a + b, m) == (match run(a, m) { Some(m1) => run(b, m1), None => None }),
    decreases b.len(),
{
    if b.len() == 0 {
        assert(a + b =~= a);
    } else {
        assert((a + b).drop_last() =~= a + b.drop_last());
        assert((a + b).last() == b.last());
        lemma_run_add(a, b.drop_last(), m);
    }
}

/// Whether the comparison `op` holds of `a` and `b`.
pub open spec fn compares(op: Prim, a: int, b: int) -> bool {
    match op {
        Prim::Lt => a < b,
        Prim::Gt => a > b,
        Prim::Le => a <= b,
        _ => a >= b,
    }
}

proof fn lemma_number_bits(a: i64)
    requires
        MIN_SNAKE_INT <= a <= MAX_SNAKE_INT,
    ensures
        ((a << 1) as u64) & 1u64 == 0,
        (((((a << 1) as u64) as i64) >> 1u64) as u64) == a as u64,
{
    assert(((a << 1) as u64) & 1u64 == 0 && (((((a << 1) as u64) as i64) >> 1u64) as u64) == a as u64) by (bit_vector)
        requires
            -0x4000_0000_0000_0000i64 <= a <= 0x3FFF_FFFF_FFFF_FFFFi64;
}

proof fn lemma_sign_bits(x: i64, y: i64)
    requires
        MIN_SNAKE_INT <= x <= MAX_SNAKE_INT,
        MIN_SNAKE_INT <= y <= MAX_SNAKE_INT,
    ensures
        ((((x as u64) - (y as u64)) as u64 & 0x8000_0000_0000_0000u64) | 0x7FFF_FFFF_FFFF_FFFFu64)
            == (if x < y { 0xFFFF_FFFF_FFFF_FFFFu64 } else { 0x7FFF_FFFF_FFFF_FFFFu64 }),
        0xFFFF_FFFF_FFFF_FFFFu64 ^ 0x8000_0000_0000_0000u64 == 0x7FFF_FFFF_FFFF_FFFFu64,
        0x7FFF_FFFF_FFFF_FFFFu64 ^ 0x8000_0000_0000_0000u64 == 0xFFFF_FFFF_FFFF_FFFFu64,
{
    assert(((((x as u64) - (y as u64)) as u64 & 0x8000_0000_0000_0000u64) | 0x7FFF_FFFF_FFFF_FFFFu64)
        == (if x < y { 0xFFFF_FFFF_FFFF_FFFFu64 } else { 0x7FFF_FFFF_FFFF_FFFFu64 })) by (bit_vector)
        requires
            -0x4000_0000_0000_0000i64 <= x <= 0x3FFF_FFFF_FFFF_FFFFi64,
            -0x4000_0000_0000_0000i64 <= y <= 0x3FFF_FFFF_FFFF_FFFFi64;
    assert(0xFFFF_FFFF_FFFF_FFFFu64 ^ 0x8000_0000_0000_0000u64 == 0x7FFF_FFFF_FFFF_FFFFu64) by (bit_vector);
    assert(0x7FFF_FFFF_FFFF_FFFFu64 ^ 0x8000_0000_0000_0000u64 == 0xFFFF_FFFF_FFFF_FFFFu64) by (bit_vector);
}

proof fn lemma_run_push(s: Seq<InstrV>, i: InstrV, m: Machine)
    ensures
        run(s.push(i), m) == after(run(s, m), i),
{
    assert(s.push(i).drop_last() =~= s);
    assert(s.push(i).last() == i);
}

/// The machine after one more instruction, where the run got that far.
pub open spec fn after(o: Option<Machine>, i: InstrV) -> Option<Machine> {
    match o {
        Some(m) => step(i, m),
        None => None,
    }
}

proof fn lemma_run_lits(i1: InstrV, i2: InstrV, i3: InstrV, i4: InstrV, m: Machine)
    ensures
        run(seq![i1], m) == step(i1, m),
        run(seq![i1, i2], m) == after(step(i1, m), i2),
        run(seq![i1, i2, i3], m) == after(after(step(i1, m), i2), i3),
        run(seq![i1, i2, i3, i4], m) == after(after(after(step(i1, m), i2), i3), i4),
{
    let e = Seq::<InstrV>::empty();
    assert(run(e, m) == Some(m));
    lemma_run_push(e, i1, m);
    assert(run(e.push(i1), m) == step(i1, m));
    lemma_run_push(e.push(i1), i2, m);
    assert(run(e.push(i1).push(i2), m) == after(step(i1, m), i2));
    lemma_run_push(e.push(i1).push(i2), i3, m);
    assert(run(e.push(i1).push(i2).push(i3), m) == after(after(step(i1, m), i2), i3));
    lemma_run_push(e.push(i1).push(i2).push(i3), i4, m);
    assert(seq![i1] =~= e.push(i1));
    assert(seq![i1, i2] =~= e.push(i1).push(i2));
    assert(seq![i1, i2, i3] =~= e.push(i1).push(i2).push(i3));
    assert(seq![i1, i2, i3, i4] =~= e.push(i1).push(i2).push(i3).push(i4));
}

proof fn lemma_run1(i1: InstrV, m: Machine)
    ensures
        run(seq![i1], m) == step(i1, m),
{
    lemma_run_lits(i1, i1, i1, i1, m);
}

proof fn lemma_run2(i1: InstrV, i2: InstrV, m: Machine)
    ensures
        run(seq![i1, i2], m) == after(step(i1, m), i2),
{
    lemma_run_lits(i1, i2, i2, i2, m);
}

proof fn lemma_run3(i1: InstrV, i2: InstrV, i3: InstrV, m: Machine)
    ensures
        run(seq![i1, i2, i3], m) == after(after(step(i1, m), i2), i3),
{
    lemma_run_lits(i1, i2, i3, i3, m);
}

proof fn lemma_run4(i1: InstrV, i2: InstrV, i3: InstrV, i4: InstrV, m: Machine)
    ensures
        run(seq![i1, i2, i3, i4], m) == after(after(after(step(i1, m), i2), i3), i4),
{
    lemma_run_lits(i1, i2, i3, i4, m);
}

/// The front of the comparison code: both operands loaded, checked to be
/// numbers and untagged, the first in `r10` and the second in `rax`.
proof fn lemma_compare_front(a: i64, b: i64, env: Seq<(String, i32)>, m: Machine)
    requires
        m.skip is None,
        MIN_SNAKE_INT <= a <= MAX_SNAKE_INT,
        MIN_SNAKE_INT <= b <= MAX_SNAKE_INT,
    ensures
        ({
            let args = seq![ImmExp::Num(a), ImmExp::Num(b)];
            let front = crate::codegen::load_code(args[0], env) + seq![InstrV::Comment("gt_lt_ge_le"@)]
                + crate::codegen::check_com_num_code()
                + seq![
                    InstrV::Sar(crate::codegen::ru(Reg::Rax, 1)),
                    crate::codegen::mov_rr(Reg::R10, Reg::Rax),
                    InstrV::Mov(MovArgsV::ToReg(Reg::Rax, crate::codegen::imm_arg(args[1], env))),
                ] + crate::codegen::check_com_num_code() + seq![InstrV::Sar(crate::codegen::ru(Reg::Rax, 1))];
            run(front, m) matches Some(m5) && m5.skip is None && reg(m5, Reg::Rax) == b as u64 && reg(m5, Reg::R10) == a as u64
        }),
{
    lemma_number_bits(a);
    lemma_number_bits(b);
    let args = seq![ImmExp::Num(a), ImmExp::Num(b)];
    let p0 = crate::codegen::load_code(args[0], env);
    let p1 = seq![InstrV::Comment("gt_lt_ge_le"@)];
    let p2 = crate::codegen::check_com_num_code();
    let p3 = seq![
        InstrV::Sar(crate::codegen::ru(Reg::Rax, 1)),
        crate::codegen::mov_rr(Reg::R10, Reg::Rax),
        InstrV::Mov(MovArgsV::ToReg(Reg::Rax, crate::codegen::imm_arg(args[1], env))),
    ];
    let p4 = seq![InstrV::Sar(crate::codegen::ru(Reg::Rax, 1))];
    lemma_run_add(p0 + p1 + p2 + p3 + p2, p4, m);
    lemma_run_add(p0 + p1 + p2 + p3, p2, m);
    lemma_run_add(p0 + p1 + p2, p3, m);
    lemma_run_add(p0 + p1, p2, m);
    lemma_run_add(p0, p1, m);
    let au = (a << 1) as u64;
    let bu = (b << 1) as u64;
    lemma_run1(p0[0], m);
    let m0 = set_reg(m, Reg::Rax, au);
    assert(run(p0, m) == Some(m0));
    lemma_run1(p1[0], m0);
    assert(run(p0 + p1, m) == Some(m0));
    lemma_run2(p2[0], p2[1], m0);
    let m2 = run(p0 + p1 + p2, m).unwrap();
    assert(reg(m2, Reg::Rax) == au && m2.skip is None);
    lemma_run3(p3[0], p3[1], p3[2], m2);
    let m3 = run(p0 + p1 + p2 + p3, m).unwrap();
    assert(reg(m3, Reg::Rax) == bu && reg(m3, Reg::R10) == a as u64 && m3.skip is None);
    lemma_run2(p2[0], p2[1], m3);
    let m4 = run(p0 + p1 + p2 + p3 + p2, m).unwrap();
    assert(reg(m4, Reg::Rax) == bu && reg(m4, Reg::R10) == a as u64 && m4.skip is None);
    lemma_run1(p4[0], m4);
}

/// The code for a comparison of two numbers within the range the check
/// admits runs to its end without an error and leaves in `rax` the true
/// value exactly when the comparison holds, and the false value otherwise.
pub proof fn lemma_compare_code_result(op: Prim, a: i64, b: i64, env: Seq<(String, i32)>, ann: u32, m: Machine)
    requires
        m.skip is None,
        op is Lt || op is Gt || op is Le || op is Ge,
        MIN_SNAKE_INT <= a <= MAX_SNAKE_INT,
        MIN_SNAKE_INT <= b <= MAX_SNAKE_INT,
    ensures
        run(prim_code(op, seq![ImmExp::Num(a), ImmExp::Num(b)], env, ann), m) matches Some(m1)
            && reg(m1, Reg::Rax) == (if compares(op, a as int, b as int) { SNAKE_TRU } else { SNAKE_FLS }),
{
    let args = seq![ImmExp::Num(a), ImmExp::Num(b)];
    let code = prim_code(op, args, env, ann);
    let front = crate::codegen::load_code(args[0], env) + seq![InstrV::Comment("gt_lt_ge_le"@)]
        + crate::codegen::check_com_num_code()
        + seq![
            InstrV::Sar(crate::codegen::ru(Reg::Rax, 1)),
            crate::codegen::mov_rr(Reg::R10, Reg::Rax),
            InstrV::Mov(MovArgsV::ToReg(Reg::Rax, crate::codegen::imm_arg(args[1], env))),
        ] + crate::codegen::check_com_num_code() + seq![InstrV::Sar(crate::codegen::ru(Reg::Rax, 1))];
    let p5 = crate::codegen::prim_core_code(op);
    let p6 = seq![
        crate::codegen::mov_ru(Reg::R11, crate::codegen::BOOL_MASK),
        InstrV::And(crate::codegen::rr(Reg::Rax, Reg::R11)),
        crate::codegen::mov_ru(Reg::R11, crate::codegen::TAG_MASK),
        InstrV::Or(crate::codegen::rr(Reg::Rax, Reg::R11)),
    ];
    let p7 = crate::codegen::need_flip_code(op);
    assert(code == front + p5 + p6 + p7);
    lemma_compare_front(a, b, env, m);
    lemma_run_add(front + p5 + p6, p7, m);
    lemma_run_add(front + p5, p6, m);
    lemma_run_add(front, p5, m);
    let m5 = run(front, m).unwrap();
    if p5.len() == 1 {
        lemma_run1(p5[0], m5);
    } else {
        lemma_run2(p5[0], p5[1], m5);
    }
    let d = if op is Gt || op is Le { ((b as u64) - (a as u64)) as u64 } else { ((a as u64) - (b as u64)) as u64 };
    let m6 = run(front + p5, m).unwrap();
    assert(reg(m6, Reg::Rax) == d);
    if op is Gt || op is Le {
        lemma_sign_bits(b, a);
    } else {
        lemma_sign_bits(a, b);
    }
    lemma_run4(p6[0], p6[1], p6[2], p6[3], m6);
    let m7 = run(front + p5 + p6, m).unwrap();
    assert(reg(m7, Reg::Rax) == (d & 0x8000_0000_0000_0000u64) | 0x7FFF_FFFF_FFFF_FFFFu64);
    if op is Ge || op is Le {
        lemma_run3(p7[0], p7[1], p7[2], m7);
    } else {
        assert(p7.len() == 0);
        assert(run(p7, m7) == Some(m7));
    }
}


/// An immediate that is a constant: a number within the range the check
/// admits, or a boolean.
pub open spec fn constant_imm(i: ImmExp) -> bool {
    match i {
        ImmExp::Num(n) => MIN_SNAKE_INT <= n <= MAX_SNAKE_INT,
        ImmExp::Bool(_) => true,
        _ => false,
    }
}

/// The machine word that a constant is loaded as.
pub open spec fn constant_word(i: ImmExp) -> u64 {
    match i {
        ImmExp::Num(n) => (n << 1) as u64,
        ImmExp::Bool(b) => if b { SNAKE_TRU } else { SNAKE_FLS },
        _ => 0,
    }
}

proof fn lemma_constant_word(x: ImmExp, y: ImmExp, env: Seq<(String, i32)>)
    requires
        constant_imm(x),
        constant_imm(y),
    ensures
        crate::codegen::imm_arg(x, env) == (match x {
            ImmExp::Num(n) => Arg64V::Signed(n << 1),
            _ => Arg64V::Unsigned(constant_word(x)),
        }),
        (constant_word(x) == constant_word(y)) == (x == y),
{
    assert(SNAKE_TRU & 1u64 == 1u64) by (bit_vector);
    assert(SNAKE_FLS & 1u64 == 1u64) by (bit_vector);
    if let ImmExp::Num(a) = x {
        lemma_number_bits(a);
    }
    if let ImmExp::Num(b) = y {
        lemma_number_bits(b);
    }
    if let (ImmExp::Num(a), ImmExp::Num(b)) = (x, y) {
        assert(((a << 1) as u64 == (b << 1) as u64) == (a == b)) by (bit_vector)
            requires
                -0x4000_0000_0000_0000i64 <= a <= 0x3FFF_FFFF_FFFF_FFFFi64,
                -0x4000_0000_0000_0000i64 <= b <= 0x3FFF_FFFF_FFFF_FFFFi64;
    }
}

/// The code for `==` or `!=` on two constants runs to its end and leaves in
/// `rax` the true value exactly when the answer is yes: for `==` when the two
/// constants are the same, for `!=` when they differ.
pub proof fn lemma_equality_code_result(op: Prim, x: ImmExp, y: ImmExp, env: Seq<(String, i32)>, ann: u32, m: Machine)
    requires
        m.skip is None,
        op is Eq || op is Neq,
        constant_imm(x),
        constant_imm(y),
    ensures
        run(prim_code(op, seq![x, y], env, ann), m) matches Some(m1)
            && reg(m1, Reg::Rax) == (if (x == y) == (op is Eq) { SNAKE_TRU } else { SNAKE_FLS }),
{
    lemma_constant_word(x, y, env);
    lemma_constant_word(y, x, env);
    let args = seq![x, y];
    let code = prim_code(op, args, env, ann);
    let l = "eq_done"@ + crate::text::dec_nat(ann as nat);
    let p0 = crate::codegen::load_code(args[0], env);
    let q1 = seq![
        InstrV::Comment("eq or neq"@),
        crate::codegen::mov_rr(Reg::R10, Reg::Rax),
        InstrV::Mov(MovArgsV::ToReg(Reg::Rax, crate::codegen::imm_arg(args[1], env))),
        InstrV::Cmp(crate::codegen::rr(Reg::R10, Reg::Rax)),
    ];
    let q2 = seq![
        crate::codegen::mov_ru(Reg::Rax, SNAKE_TRU),
        InstrV::Jz(crate::codegen::to_label(l)),
        crate::codegen::mov_ru(Reg::Rax, SNAKE_FLS),
        InstrV::Label(l),
    ];
    let p7 = crate::codegen::need_flip_code(op);
    assert(code =~= p0 + q1 + q2 + p7);
    lemma_run_add(p0 + q1 + q2, p7, m);
    lemma_run_add(p0 + q1, q2, m);
    lemma_run_add(p0, q1, m);
    let wx = constant_word(x);
    let wy = constant_word(y);
    lemma_run1(p0[0], m);
    let m0 = set_reg(m, Reg::Rax, wx);
    assert(run(p0, m) == Some(m0));
    lemma_run4(q1[0], q1[1], q1[2], q1[3], m0);
    let m1 = run(p0 + q1, m).unwrap();
    assert(reg(m1, Reg::Rax) == wy && m1.zf == Some(wx == wy) && m1.skip is None);
    lemma_run4(q2[0], q2[1], q2[2], q2[3], m1);
    let m2 = run(p0 + q1 + q2, m).unwrap();
    assert(m2.skip is None);
    assert(reg(m2, Reg::Rax) == (if wx == wy { SNAKE_TRU } else { SNAKE_FLS }));
    lemma_bool_words();
    if op is Neq {
        lemma_run3(p7[0], p7[1], p7[2], m2);
    } else {
        assert(p7.len() == 0);
        assert(run(p7, m2) == Some(m2));
    }
}


/// The machine word of a boolean.
pub open spec fn bool_word(b: bool) -> u64 {
    if b { SNAKE_TRU } else { SNAKE_FLS }
}

proof fn lemma_bool_words()
    ensures
        (SNAKE_TRU ^ 7u64) & 7u64 == 0,
        (SNAKE_FLS ^ 7u64) & 7u64 == 0,
        SNAKE_TRU ^ 0x8000_0000_0000_0000u64 == SNAKE_FLS,
        SNAKE_FLS ^ 0x8000_0000_0000_0000u64 == SNAKE_TRU,
        SNAKE_TRU & SNAKE_TRU == SNAKE_TRU,
        SNAKE_TRU & SNAKE_FLS == SNAKE_FLS,
        SNAKE_FLS & SNAKE_TRU == SNAKE_FLS,
        SNAKE_FLS & SNAKE_FLS == SNAKE_FLS,
        SNAKE_TRU | SNAKE_TRU == SNAKE_TRU,
        SNAKE_TRU | SNAKE_FLS == SNAKE_TRU,
        SNAKE_FLS | SNAKE_TRU == SNAKE_TRU,
        SNAKE_FLS | SNAKE_FLS == SNAKE_FLS,
{
    assert(
        (0xFFFF_FFFF_FFFF_FFFFu64 ^ 7u64) & 7u64 == 0 &&
        (0x7FFF_FFFF_FFFF_FFFFu64 ^ 7u64) & 7u64 == 0 &&
        0xFFFF_FFFF_FFFF_FFFFu64 ^ 0x8000_0000_0000_0000u64 == 0x7FFF_FFFF_FFFF_FFFFu64 &&
        0x7FFF_FFFF_FFFF_FFFFu64 ^ 0x8000_0000_0000_0000u64 == 0xFFFF_FFFF_FFFF_FFFFu64 &&
        0xFFFF_FFFF_FFFF_FFFFu64 & 0xFFFF_FFFF_FFFF_FFFFu64 == 0xFFFF_FFFF_FFFF_FFFFu64 &&
        0x7FFF_FFFF_FFFF_FFFFu64 & 0x7FFF_FFFF_FFFF_FFFFu64 == 0x7FFF_FFFF_FFFF_FFFFu64 &&
        0xFFFF_FFFF_FFFF_FFFFu64 | 0xFFFF_FFFF_FFFF_FFFFu64 == 0xFFFF_FFFF_FFFF_FFFFu64 &&
        0x7FFF_FFFF_FFFF_FFFFu64 | 0x7FFF_FFFF_FFFF_FFFFu64 == 0x7FFF_FFFF_FFFF_FFFFu64 &&
        0xFFFF_FFFF_FFFF_FFFFu64 & 0x7FFF_FFFF_FFFF_FFFFu64 == 0x7FFF_FFFF_FFFF_FFFFu64 &&
        0x7FFF_FFFF_FFFF_FFFFu64 & 0xFFFF_FFFF_FFFF_FFFFu64 == 0x7FFF_FFFF_FFFF_FFFFu64 &&
        0xFFFF_FFFF_FFFF_FFFFu64 | 0x7FFF_FFFF_FFFF_FFFFu64 == 0xFFFF_FFFF_FFFF_FFFFu64 &&
        0x7FFF_FFFF_FFFF_FFFFu64 | 0xFFFF_FFFF_FFFF_FFFFu64 == 0xFFFF_FFFF_FFFF_FFFFu64
    ) by (bit_vector);
}

/// The code for `!` on a boolean leaves its negation in `rax`.
pub proof fn lemma_not_code_result(b: bool, env: Seq<(String, i32)>, ann: u32, m: Machine)
    requires
        m.skip is None,
    ensures
        run(prim_code(Prim::Not, seq![ImmExp::Bool(b)], env, ann), m) matches Some(m1)
            && reg(m1, Reg::Rax) == bool_word(!b),
{
    lemma_bool_words();
    let args = seq![ImmExp::Bool(b)];
    let code = prim_code(Prim::Not, args, env, ann);
    let p0 = crate::codegen::load_code(args[0], env);
    let q1 = seq![InstrV::Comment("not"@)];
    let q2 = crate::codegen::check_logic_bool_code();
    let q3 = seq![crate::codegen::mov_ru(Reg::R10, crate::codegen::BOOL_MASK), InstrV::Xor(crate::codegen::rr(Reg::Rax, Reg::R10))];
    assert(code =~= p0 + q1 + q2 + q3);
    lemma_run_add(p0 + q1 + q2, q3, m);
    lemma_run_add(p0 + q1, q2, m);
    lemma_run_add(p0, q1, m);
    lemma_run1(p0[0], m);
    let m0 = set_reg(m, Reg::Rax, bool_word(b));
    assert(run(p0, m) == Some(m0));
    lemma_run1(q1[0], m0);
    lemma_run4(q2[0], q2[1], q2[2], q2[3], m0);
    let m2 = run(p0 + q1 + q2, m).unwrap();
    assert(reg(m2, Reg::Rax) == bool_word(b) && m2.skip is None);
    lemma_run2(q3[0], q3[1], m2);
}

/// The code for `&&` or `||` on two booleans leaves the conjunction or the
/// disjunction in `rax`.
pub proof fn lemma_logic_code_result(op: Prim, x: bool, y: bool, env: Seq<(String, i32)>, ann: u32, m: Machine)
    requires
        m.skip is None,
        op is And || op is Or,
    ensures
        run(prim_code(op, seq![ImmExp::Bool(x), ImmExp::Bool(y)], env, ann), m) matches Some(m1)
            && reg(m1, Reg::Rax) == bool_word(if op is And { x && y } else { x || y }),
{
    lemma_bool_words();
    let args = seq![ImmExp::Bool(x), ImmExp::Bool(y)];
    let code = prim_code(op, args, env, ann);
    let p0 = crate::codegen::load_code(args[0], env);
    let q1 = seq![InstrV::Comment("and_or"@)];
    let q2 = crate::codegen::check_logic_bool_code();
    let q3 = seq![crate::codegen::mov_rr(Reg::R10, Reg::Rax), InstrV::Mov(MovArgsV::ToReg(Reg::Rax, crate::codegen::imm_arg(args[1], env)))];
    let q4 = crate::codegen::prim_core_code(op);
    assert(code =~= p0 + q1 + q2 + q3 + q2 + q4);
    lemma_run_add(p0 + q1 + q2 + q3 + q2, q4, m);
    lemma_run_add(p0 + q1 + q2 + q3, q2, m);
    lemma_run_add(p0 + q1 + q2, q3, m);
    lemma_run_add(p0 + q1, q2, m);
    lemma_run_add(p0, q1, m);
    lemma_run1(p0[0], m);
    let m0 = set_reg(m, Reg::Rax, bool_word(x));
    assert(run(p0, m) == Some(m0));
    lemma_run1(q1[0], m0);
    lemma_run4(q2[0], q2[1], q2[2], q2[3], m0);
    let m2 = run(p0 + q1 + q2, m).unwrap();
    assert(reg(m2, Reg::Rax) == bool_word(x) && m2.skip is None);
    lemma_run2(q3[0], q3[1], m2);
    let m3 = run(p0 + q1 + q2 + q3, m).unwrap();
    assert(reg(m3, Reg::Rax) == bool_word(y) && reg(m3, Reg::R10) == bool_word(x) && m3.skip is None);
    lemma_run4(q2[0], q2[1], q2[2], q2[3], m3);
    let m4 = run(p0 + q1 + q2 + q3 + q2, m).unwrap();
    assert(reg(m4, Reg::Rax) == bool_word(y) && reg(m4, Reg::R10) == bool_word(x) && m4.skip is None);
    lemma_run1(q4[0], m4);
}

/// The code for `isnum` on a constant leaves in `rax` whether it is a number.
pub proof fn lemma_isnum_code_result(x: ImmExp, env: Seq<(String, i32)>, ann: u32, m: Machine)
    requires
        m.skip is None,
        constant_imm(x),
    ensures
        run(prim_code(Prim::IsNum, seq![x], env, ann), m) matches Some(m1)
            && reg(m1, Reg::Rax) == bool_word(x is Num),
{
    lemma_constant_word(x, x, env);
    let w = constant_word(x);
    assert(w & 1u64 == 0 <==> x is Num) by {
        assert(SNAKE_TRU & 1u64 == 1u64) by (bit_vector);
        assert(SNAKE_FLS & 1u64 == 1u64) by (bit_vector);
        if let ImmExp::Num(n) = x {
            lemma_number_bits(n);
        }
    }
    assert(((((w << 1u64) >> 1u64) | ((w << 63u64) ^ 0x8000_0000_0000_0000u64)) | 0x7FFF_FFFF_FFFF_FFFFu64)
        == (if w & 1u64 == 0 { 0xFFFF_FFFF_FFFF_FFFFu64 } else { 0x7FFF_FFFF_FFFF_FFFFu64 })) by (bit_vector);
    let args = seq![x];
    let code = prim_code(Prim::IsNum, args, env, ann);
    let p0 = crate::codegen::load_code(args[0], env);
    let q1 = seq![
        InstrV::Comment("isnum"@),
        crate::codegen::mov_rr(Reg::R10, Reg::Rax),
        InstrV::Shl(crate::codegen::ru(Reg::R10, 63)),
        crate::codegen::mov_ru(Reg::R8, crate::codegen::BOOL_MASK),
    ];
    let q2 = seq![
        InstrV::Xor(crate::codegen::rr(Reg::R10, Reg::R8)),
        InstrV::Shl(crate::codegen::ru(Reg::Rax, 1)),
        InstrV::Shr(crate::codegen::ru(Reg::Rax, 1)),
        InstrV::Or(crate::codegen::rr(Reg::Rax, Reg::R10)),
    ];
    let q3 = seq![
        crate::codegen::mov_ru(Reg::R10, crate::codegen::TAG_MASK),
        InstrV::Or(crate::codegen::rr(Reg::Rax, Reg::R10)),
    ];
    assert(code =~= p0 + q1 + q2 + q3);
    lemma_run_add(p0 + q1 + q2, q3, m);
    lemma_run_add(p0 + q1, q2, m);
    lemma_run_add(p0, q1, m);
    lemma_run1(p0[0], m);
    let m0 = set_reg(m, Reg::Rax, w);
    assert(run(p0, m) == Some(m0));
    lemma_run4(q1[0], q1[1], q1[2], q1[3], m0);
    let m1 = run(p0 + q1, m).unwrap();
    assert(reg(m1, Reg::Rax) == w && reg(m1, Reg::R10) == w << 63u64 && reg(m1, Reg::R8) == 0x8000_0000_0000_0000u64);
    lemma_run4(q2[0], q2[1], q2[2], q2[3], m1);
    let m2 = run(p0 + q1 + q2, m).unwrap();
    assert(reg(m2, Reg::Rax) == ((w << 1u64) >> 1u64) | ((w << 63u64) ^ 0x8000_0000_0000_0000u64));
    lemma_run2(q3[0], q3[1], m2);
}


/// What `+`, `-` or `*` gives on two numbers.
pub open spec fn arith(op: Prim, a: int, b: int) -> int {
    match op {
        Prim::Add => a + b,
        Prim::Sub => a - b,
        _ => a * b,
    }
}

proof fn lemma_words(x: i64)
    ensures
        ((x as u64) as i64) == x,
        ((x as u64) << 1u64) == ((x << 1) as u64),
{
    assert(((x as u64) as i64) == x && ((x as u64) << 1u64) == ((x << 1) as u64)) by (bit_vector);
}

proof fn lemma_sum_word(a: i64, b: i64, s: i64, t: i64)
    requires
        s == (a + b) as i64,
        t == (a - b) as i64,
    ensures
        (((a as u64) + (b as u64)) as u64) == (s as u64),
        (((a as u64) - (b as u64)) as u64) == (t as u64),
{
    assert((((a as u64) + (b as u64)) as u64) == (s as u64) && (((a as u64) - (b as u64)) as u64) == (t as u64)) by (bit_vector)
        requires
            s == (a + b) as i64,
            t == (a - b) as i64;
}

/// The operands of the arithmetic code loaded, checked to be numbers and
/// untagged: the first in `rax`, the second in `r10`.
pub open spec fn arith_front(a: i64, b: i64, env: Seq<(String, i32)>) -> Seq<InstrV> {
    let args = seq![ImmExp::Num(a), ImmExp::Num(b)];
    crate::codegen::load_code(args[0], env) + seq![InstrV::Comment("add_sub_mul"@)] + crate::codegen::check_ari_num_code()
        + seq![
            crate::codegen::mov_rr(Reg::R10, Reg::Rax),
            InstrV::Sar(crate::codegen::ru(Reg::R10, 1)),
            InstrV::Mov(MovArgsV::ToReg(Reg::Rax, crate::codegen::imm_arg(args[1], env))),
        ] + crate::codegen::check_ari_num_code()
        + seq![
            InstrV::Sar(crate::codegen::ru(Reg::Rax, 1)),
            crate::codegen::mov_rr(Reg::R11, Reg::Rax),
            crate::codegen::mov_rr(Reg::Rax, Reg::R10),
            crate::codegen::mov_rr(Reg::R10, Reg::R11),
        ]
}

proof fn lemma_arith_front(a: i64, b: i64, env: Seq<(String, i32)>, m: Machine)
    requires
        m.skip is None,
        MIN_SNAKE_INT <= a <= MAX_SNAKE_INT,
        MIN_SNAKE_INT <= b <= MAX_SNAKE_INT,
    ensures
        run(arith_front(a, b, env), m) matches Some(m5) && m5.skip is None
            && reg(m5, Reg::Rax) == a as u64 && reg(m5, Reg::R10) == b as u64,
{
    lemma_number_bits(a);
    lemma_number_bits(b);
    let args = seq![ImmExp::Num(a), ImmExp::Num(b)];
    let p0 = crate::codegen::load_code(args[0], env);
    let q1 = seq![InstrV::Comment("add_sub_mul"@)];
    let c = crate::codegen::check_ari_num_code();
    let q3 = seq![
        crate::codegen::mov_rr(Reg::R10, Reg::Rax),
        InstrV::Sar(crate::codegen::ru(Reg::R10, 1)),
        InstrV::Mov(MovArgsV::ToReg(Reg::Rax, crate::codegen::imm_arg(args[1], env))),
    ];
    let q5 = seq![
        InstrV::Sar(crate::codegen::ru(Reg::Rax, 1)),
        crate::codegen::mov_rr(Reg::R11, Reg::Rax),
        crate::codegen::mov_rr(Reg::Rax, Reg::R10),
        crate::codegen::mov_rr(Reg::R10, Reg::R11),
    ];
    assert(arith_front(a, b, env) == p0 + q1 + c + q3 + c + q5);
    lemma_run_add(p0 + q1 + c + q3 + c, q5, m);
    lemma_run_add(p0 + q1 + c + q3, c, m);
    lemma_run_add(p0 + q1 + c, q3, m);
    lemma_run_add(p0 + q1, c, m);
    lemma_run_add(p0, q1, m);
    lemma_run1(p0[0], m);
    let m0 = run(p0, m).unwrap();
    assert(reg(m0, Reg::Rax) == (a << 1) as u64 && m0.skip is None);
    lemma_run1(q1[0], m0);
    lemma_run2(c[0], c[1], m0);
    let m2 = run(p0 + q1 + c, m).unwrap();
    assert(reg(m2, Reg::Rax) == (a << 1) as u64 && m2.skip is None);
    lemma_run3(q3[0], q3[1], q3[2], m2);
    let m3 = run(p0 + q1 + c + q3, m).unwrap();
    assert(reg(m3, Reg::Rax) == (b << 1) as u64 && reg(m3, Reg::R10) == a as u64 && m3.skip is None);
    lemma_run2(c[0], c[1], m3);
    let m4 = run(p0 + q1 + c + q3 + c, m).unwrap();
    assert(reg(m4, Reg::Rax) == (b << 1) as u64 && reg(m4, Reg::R10) == a as u64 && m4.skip is None);
    lemma_run4(q5[0], q5[1], q5[2], q5[3], m4);
}

/// The arithmetic core and the overflow checks, from untagged operands.
proof fn lemma_arith_back(op: Prim, a: i64, b: i64, m5: Machine)
    requires
        m5.skip is None,
        op is Add || op is Sub || op is Mul,
        MIN_SNAKE_INT <= a <= MAX_SNAKE_INT,
        MIN_SNAKE_INT <= b <= MAX_SNAKE_INT,
        reg(m5, Reg::Rax) == a as u64,
        reg(m5, Reg::R10) == b as u64,
    ensures
        ({
            let r = arith(op, a as int, b as int);
            let o = crate::codegen::check_overflow_code();
            let back = crate::codegen::prim_core_code(op) + o + seq![InstrV::Shl(crate::codegen::ru(Reg::Rax, 1))] + o;
            if MIN_SNAKE_INT <= r <= MAX_SNAKE_INT {
                run(back, m5) matches Some(m1) && reg(m1, Reg::Rax) == constant_word(ImmExp::Num(r as i64))
            } else {
                run(back, m5) is None
            }
        }),
{
    lemma_words(a);
    lemma_words(b);
    let core = crate::codegen::prim_core_code(op);
    let o = crate::codegen::check_overflow_code();
    let q8 = seq![InstrV::Shl(crate::codegen::ru(Reg::Rax, 1))];
    lemma_run_add(core + o + q8, o, m5);
    lemma_run_add(core + o, q8, m5);
    lemma_run_add(core, o, m5);
    assert(signed(m5, Reg::Rax) == a && signed(m5, Reg::R10) == b);
    lemma_run1(core[0], m5);
    let r = arith(op, a as int, b as int);
    if op is Mul && !fits_i64(r) {
        assert(run(core, m5).unwrap().of == Some(true));
        lemma_run1(o[0], run(core, m5).unwrap());
        assert(run(core + o, m5) is None);
        assert(run(core + o + q8, m5) is None);
    } else {
        let ri = r as i64;
        assert(ri as int == r);
        let s = (a + b) as i64;
        let t = (a - b) as i64;
        lemma_sum_word(a, b, s, t);
        lemma_words(ri);
        let m6 = run(core, m5).unwrap();
        assert(reg(m6, Reg::Rax) == ri as u64);
        assert(m6.of == Some(false));
        lemma_run1(o[0], m6);
        let m7 = run(core + o, m5).unwrap();
        lemma_run1(q8[0], m7);
        let m8 = run(core + o + q8, m5).unwrap();
        assert(signed(m7, Reg::Rax) == r);
        assert(reg(m8, Reg::Rax) == (ri << 1) as u64);
        assert(m8.of == Some(!fits_i64(2 * r)));
        lemma_run1(o[0], m8);
    }
}

/// The code for `+`, `-` or `*` on two numbers within the range the check
/// admits leaves the tagged result in `rax` where the result is within that
/// range too, and jumps to the overflow error where it is not.
pub proof fn lemma_arith_code_result(op: Prim, a: i64, b: i64, env: Seq<(String, i32)>, ann: u32, m: Machine)
    requires
        m.skip is None,
        op is Add || op is Sub || op is Mul,
        MIN_SNAKE_INT <= a <= MAX_SNAKE_INT,
        MIN_SNAKE_INT <= b <= MAX_SNAKE_INT,
    ensures
        ({
            let r = arith(op, a as int, b as int);
            let out = run(prim_code(op, seq![ImmExp::Num(a), ImmExp::Num(b)], env, ann), m);
            if MIN_SNAKE_INT <= r <= MAX_SNAKE_INT {
                out matches Some(m1) && reg(m1, Reg::Rax) == constant_word(ImmExp::Num(r as i64))
            } else {
                out is None
            }
        }),
{
    let o = crate::codegen::check_overflow_code();
    let back = crate::codegen::prim_core_code(op) + o + seq![InstrV::Shl(crate::codegen::ru(Reg::Rax, 1))] + o;
    assert(prim_code(op, seq![ImmExp::Num(a), ImmExp::Num(b)], env, ann) =~= arith_front(a, b, env) + back);
    lemma_run_add(arith_front(a, b, env), back, m);
    lemma_arith_front(a, b, env, m);
    lemma_arith_back(op, a, b, run(arith_front(a, b, env), m).unwrap());
}


proof fn lemma_step_words(a: i64, u: i64, d: i64)
    requires
        MIN_SNAKE_INT <= a <= MAX_SNAKE_INT,
        u == (a + 1) as i64,
        d == (a - 1) as i64,
    ensures
        (a << 1) as int == 2 * a,
        ((((a << 1) as u64) + 2u64) as u64) == ((u << 1) as u64),
        ((((a << 1) as u64) - 2u64) as u64) == ((d << 1) as u64),
{
    assert((a << 1) == a * 2 && ((((a << 1) as u64) + 2u64) as u64) == ((u << 1) as u64)
        && ((((a << 1) as u64) - 2u64) as u64) == ((d << 1) as u64)) by (bit_vector)
        requires
            -0x4000_0000_0000_0000i64 <= a <= 0x3FFF_FFFF_FFFF_FFFFi64,
            u == (a + 1) as i64,
            d == (a - 1) as i64;
}

/// The code for `add1` or `sub1` on a number within the range the check
/// admits leaves the tagged result in `rax` where the result is within that
/// range too, and jumps to the overflow error where it is not.
pub proof fn lemma_step_code_result(op: Prim, a: i64, env: Seq<(String, i32)>, ann: u32, m: Machine)
    requires
        m.skip is None,
        op is Add1 || op is Sub1,
        MIN_SNAKE_INT <= a <= MAX_SNAKE_INT,
    ensures
        ({
            let r = if op is Add1 { a + 1 } else { a - 1 };
            let out = run(prim_code(op, seq![ImmExp::Num(a)], env, ann), m);
            if MIN_SNAKE_INT <= r <= MAX_SNAKE_INT {
                out matches Some(m1) && reg(m1, Reg::Rax) == constant_word(ImmExp::Num(r as i64))
            } else {
                out is None
            }
        }),
{
    lemma_number_bits(a);
    lemma_words(a << 1);
    let u = (a + 1) as i64;
    let d = (a - 1) as i64;
    lemma_step_words(a, u, d);
    let args = seq![ImmExp::Num(a)];
    let p0 = crate::codegen::load_code(args[0], env);
    let q1 = seq![InstrV::Comment("add1_sub1"@)];
    let c = crate::codegen::check_ari_num_code();
    let core = crate::codegen::prim_core_code(op);
    let o = crate::codegen::check_overflow_code();
    assert(prim_code(op, args, env, ann) =~= p0 + q1 + c + core + o);
    lemma_run_add(p0 + q1 + c + core, o, m);
    lemma_run_add(p0 + q1 + c, core, m);
    lemma_run_add(p0 + q1, c, m);
    lemma_run_add(p0, q1, m);
    lemma_run1(p0[0], m);
    let m0 = run(p0, m).unwrap();
    assert(reg(m0, Reg::Rax) == (a << 1) as u64 && m0.skip is None);
    lemma_run1(q1[0], m0);
    lemma_run2(c[0], c[1], m0);
    let m2 = run(p0 + q1 + c, m).unwrap();
    assert(reg(m2, Reg::Rax) == (a << 1) as u64 && m2.skip is None);
    assert(signed(m2, Reg::Rax) == 2 * a);
    lemma_run1(core[0], m2);
    let m3 = run(p0 + q1 + c + core, m).unwrap();
    let r = if op is Add1 { a + 1 } else { a - 1 };
    assert(m3.of == Some(!fits_i64(2 * r)));
    lemma_run1(o[0], m3);
}

} // verus!
