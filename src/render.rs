use vstd::prelude::*;

use crate::generator::{Asm, Cond, Instr, LabelKind, Reg};

verus! {

/// The decimal digit `d` as text.
pub open spec fn digit_text(d: nat) -> Seq<char> {
    if d == 0 {
        "0"@
    } else if d == 1 {
        "1"@
    } else if d == 2 {
        "2"@
    } else if d == 3 {
        "3"@
    } else if d == 4 {
        "4"@
    } else if d == 5 {
        "5"@
    } else if d == 6 {
        "6"@
    } else if d == 7 {
        "7"@
    } else if d == 8 {
        "8"@
    } else {
        "9"@
    }
}

/// The decimal representation of `n`, without leading zeros.
pub open spec fn decimal(n: nat) -> Seq<char>
    decreases n,
{
    if n < 10 {
        digit_text(n)
    } else {
        decimal(n / 10) + digit_text(n % 10)
    }
}

/// The decimal representation of a signed `n`.
pub open spec fn int_text(n: int) -> Seq<char> {
    if n < 0 {
        "-"@ + decimal((-n) as nat)
    } else {
        decimal(n as nat)
    }
}

pub open spec fn reg_name(r: Reg) -> Seq<char> {
    match r {
        Reg::Rax => "rax"@,
        Reg::Rdi => "rdi"@,
        Reg::Rsi => "rsi"@,
        Reg::Rdx => "rdx"@,
        Reg::Rcx => "rcx"@,
        Reg::R8 => "r8"@,
        Reg::R9 => "r9"@,
        Reg::Rbp => "rbp"@,
        Reg::Rsp => "rsp"@,
    }
}

pub open spec fn cond_name(c: Cond) -> Seq<char> {
    match c {
        Cond::E => "  sete al"@,
        Cond::Ne => "  setne al"@,
        Cond::L => "  setl al"@,
        Cond::Le => "  setle al"@,
    }
}

pub open spec fn label_text(k: LabelKind, n: usize) -> Seq<char> {
    let stem = match k {
        LabelKind::Else => ".Lelse"@,
        LabelKind::End => ".Lend"@,
        LabelKind::Begin => ".Lbegin"@,
    };
    stem + decimal(n as nat)
}

/// One line of Intel-syntax assembly: instructions indented by two spaces,
/// labels and function names at column 0 with a trailing colon.
pub open spec fn inst_text(i: Asm) -> Seq<char> {
    match i {
        Instr::Symbol(s) => s + ":"@,
        Instr::PushImm(n) => "  push "@ + int_text(n as int),
        Instr::Push(r) => "  push "@ + reg_name(r),
        Instr::Pop(r) => "  pop "@ + reg_name(r),
        Instr::Mov(a, b) => "  mov "@ + reg_name(a) + ", "@ + reg_name(b),
        Instr::SubImm(r, n) => "  sub "@ + reg_name(r) + ", "@ + decimal(n as nat),
        Instr::Load(a, b) => "  mov "@ + reg_name(a) + ", ["@ + reg_name(b) + "]"@,
        Instr::Store(a, b) => "  mov ["@ + reg_name(a) + "], "@ + reg_name(b),
        Instr::Shl(r, n) => "  shl "@ + reg_name(r) + ", "@ + decimal(n as nat),
        Instr::Add(a, b) => "  add "@ + reg_name(a) + ", "@ + reg_name(b),
        Instr::Sub(a, b) => "  sub "@ + reg_name(a) + ", "@ + reg_name(b),
        Instr::Mul(r) => "  mul "@ + reg_name(r),
        Instr::Cqo => "  cqo"@,
        Instr::Idiv(r) => "  idiv "@ + reg_name(r),
        Instr::Cmp(a, b) => "  cmp "@ + reg_name(a) + ", "@ + reg_name(b),
        Instr::CmpZero(r) => "  cmp "@ + reg_name(r) + ", 0"@,
        Instr::SetCc(c) => cond_name(c),
        Instr::MovzbAl => "  movzb rax, al"@,
        Instr::Je(k, n) => "  je "@ + label_text(k, n),
        Instr::Jmp(k, n) => "  jmp "@ + label_text(k, n),
        Instr::Label(k, n) => label_text(k, n) + ":"@,
        Instr::Call(s) => "  call "@ + s,
        Instr::Ret => "  ret"@,
    }
}

fn digit_str(d: u64) -> (r: &'static str)
    requires
        d < 10,
    ensures
        r@ == digit_text(d as nat),
{
    if d == 0 {
        "0"
    } else if d == 1 {
        "1"
    } else if d == 2 {
        "2"
    } else if d == 3 {
        "3"
    } else if d == 4 {
        "4"
    } else if d == 5 {
        "5"
    } else if d == 6 {
        "6"
    } else if d == 7 {
        "7"
    } else if d == 8 {
        "8"
    } else {
        "9"
    }
}

/// `n` in decimal.
pub fn decimal_text(n: u64) -> (r: String)
    ensures
        r@ == decimal(n as nat),
    decreases n,
{
    if n < 10 {
        String::from_str(digit_str(n))
    } else {
        let mut s = decimal_text(n / 10);
        s.append(digit_str(n % 10));
        s
    }
}

/// Signed `n` in decimal.
pub fn int_decimal_text(n: i64) -> (r: String)
    ensures
        r@ == int_text(n as int),
{
    if n < 0 {
        let m = (0 - (n as i128)) as u64;
        let mut s = String::from_str("-");
        let d = decimal_text(m);
        s.append(d.as_str());
        s
    } else {
        decimal_text(n as u64)
    }
}

fn reg_str(r: Reg) -> (s: &'static str)
    ensures
        s@ == reg_name(r),
{
    match r {
        Reg::Rax => "rax",
        Reg::Rdi => "rdi",
        Reg::Rsi => "rsi",
        Reg::Rdx => "rdx",
        Reg::Rcx => "rcx",
        Reg::R8 => "r8",
        Reg::R9 => "r9",
        Reg::Rbp => "rbp",
        Reg::Rsp => "rsp",
    }
}

fn label_string(k: LabelKind, n: usize) -> (r: String)
    ensures
        r@ == label_text(k, n),
{
    let mut s = String::from_str(
        match k {
            LabelKind::Else => ".Lelse",
            LabelKind::End => ".Lend",
            LabelKind::Begin => ".Lbegin",
        },
    );
    let d = decimal_text(n as u64);
    s.append(d.as_str());
    s
}

/// `head` followed by the names of two registers, separated by a comma.
fn two_regs(head: &str, a: Reg, b: Reg) -> (r: String)
    ensures
        r@ == head@ + reg_name(a) + ", "@ + reg_name(b),
{
    let mut s = String::from_str(head);
    s.append(reg_str(a));
    s.append(", ");
    s.append(reg_str(b));
    s
}

fn one_reg(head: &str, a: Reg) -> (r: String)
    ensures
        r@ == head@ + reg_name(a),
{
    let mut s = String::from_str(head);
    s.append(reg_str(a));
    s
}

impl Instr<String> {
    /// The line of assembly text for this instruction.
    pub fn text(&self) -> (r: String)
        ensures
            r@ == inst_text(self@),
    {
        match self {
            Instr::Symbol(name) => {
                let mut s = name.clone();
                s.append(":");
                s
            },
            Instr::PushImm(n) => {
                let mut s = String::from_str("  push ");
                let d = int_decimal_text(*n);
                s.append(d.as_str());
                s
            },
            Instr::Push(r) => one_reg("  push ", *r),
            Instr::Pop(r) => one_reg("  pop ", *r),
            Instr::Mov(a, b) => two_regs("  mov ", *a, *b),
            Instr::SubImm(r, n) => {
                let mut s = one_reg("  sub ", *r);
                s.append(", ");
                let d = decimal_text(*n as u64);
                s.append(d.as_str());
                s
            },
            Instr::Load(a, b) => {
                let mut s = one_reg("  mov ", *a);
                s.append(", [");
                s.append(reg_str(*b));
                s.append("]");
                s
            },
            Instr::Store(a, b) => {
                let mut s = one_reg("  mov [", *a);
                s.append("], ");
                s.append(reg_str(*b));
                s
            },
            Instr::Shl(r, n) => {
                let mut s = one_reg("  shl ", *r);
                s.append(", ");
                let d = decimal_text(*n as u64);
                s.append(d.as_str());
                s
            },
            Instr::Add(a, b) => two_regs("  add ", *a, *b),
            Instr::Sub(a, b) => two_regs("  sub ", *a, *b),
            Instr::Mul(r) => one_reg("  mul ", *r),
            Instr::Cqo => String::from_str("  cqo"),
            Instr::Idiv(r) => one_reg("  idiv ", *r),
            Instr::Cmp(a, b) => two_regs("  cmp ", *a, *b),
            Instr::CmpZero(r) => {
                let mut s = one_reg("  cmp ", *r);
                s.append(", 0");
                s
            },
            Instr::SetCc(c) => String::from_str(
                match c {
                    Cond::E => "  sete al",
                    Cond::Ne => "  setne al",
                    Cond::L => "  setl al",
                    Cond::Le => "  setle al",
                },
            ),
            Instr::MovzbAl => String::from_str("  movzb rax, al"),
            Instr::Je(k, n) => {
                let mut s = String::from_str("  je ");
                let l = label_string(*k, *n);
                s.append(l.as_str());
                s
            },
            Instr::Jmp(k, n) => {
                let mut s = String::from_str("  jmp ");
                let l = label_string(*k, *n);
                s.append(l.as_str());
                s
            },
            Instr::Label(k, n) => {
                let mut s = label_string(*k, *n);
                s.append(":");
                s
            },
            Instr::Call(name) => {
                let mut s = String::from_str("  call ");
                s.append(name.as_str());
                s
            },
            Instr::Ret => String::from_str("  ret"),
        }
    }
}

} // verus!
