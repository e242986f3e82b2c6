use vstd::prelude::*;

use crate::ast::{
    lemma_nodes_view, lemma_nodes_view_push, node_type, node_view, nodes_view, opt_view, type_size, Node,
    NodeView, Operator2, Type,
};

verus! {

broadcast use vstd::std_specs::vec::group_vec_axioms, vstd::seq::group_seq_axioms;

/// The registers that the emitted code names.
#[derive(Debug, Clone, Copy, PartialEq, Eq)]
pub enum Reg {
    Rax,
    Rdi,
    Rsi,
    Rdx,
    Rcx,
    R8,
    R9,
    Rbp,
    Rsp,
}

/// The condition of a `set` instruction.
#[derive(Debug, Clone, Copy, PartialEq, Eq)]
pub enum Cond {
    E,
    Ne,
    L,
    Le,
}

/// The three families of branch labels: `.Lelse<k>`, `.Lend<k>` and `.Lbegin<k>`.
#[derive(Debug, Clone, Copy, PartialEq, Eq)]
pub enum LabelKind {
    Else,
    End,
    Begin,
}

/// One line of x86-64 assembly. `S` is the type of symbol names: `String` in
/// emitted code, `Seq<char>` in its model.
#[derive(Debug)]
pub enum Instr<S> {
    /// `name:`
    Symbol(S),
    /// `push <imm>`
    PushImm(i64),
    /// `push <reg>`
    Push(Reg),
    /// `pop <reg>`
    Pop(Reg),
    /// `mov <dst>, <src>`
    Mov(Reg, Reg),
    /// `sub <reg>, <imm>`
    SubImm(Reg, usize),
    /// `mov <dst>, [<src>]`
    Load(Reg, Reg),
    /// `mov [<dst>], <src>`
    Store(Reg, Reg),
    /// `shl <reg>, <imm>`
    Shl(Reg, u32),
    /// `add <dst>, <src>`
    Add(Reg, Reg),
    /// `sub <dst>, <src>`
    Sub(Reg, Reg),
    /// `mul <reg>`
    Mul(Reg),
    /// `cqo`
    Cqo,
    /// `idiv <reg>`
    Idiv(Reg),
    /// `cmp <a>, <b>`
    Cmp(Reg, Reg),
    /// `cmp <reg>, 0`
    CmpZero(Reg),
    /// `set<cond> al`
    SetCc(Cond),
    /// `movzb rax, al`
    MovzbAl,
    /// `je <label>`
    Je(LabelKind, usize),
    /// `jmp <label>`
    Jmp(LabelKind, usize),
    /// `<label>:`
    Label(LabelKind, usize),
    /// `call <name>`
    Call(S),
    /// `ret`
    Ret,
}

/// The model of an emitted instruction.
pub type Asm = Instr<Seq<char>>;

impl View for Instr<String> {
    type V = Asm;

    open spec fn view(&self) -> Asm {
        match *self {
            Instr::Symbol(s) => Instr::Symbol(s@),
            Instr::PushImm(n) => Instr::PushImm(n),
            Instr::Push(r) => Instr::Push(r),
            Instr::Pop(r) => Instr::Pop(r),
            Instr::Mov(a, b) => Instr::Mov(a, b),
            Instr::SubImm(r, n) => Instr::SubImm(r, n),
            Instr::Load(a, b) => Instr::Load(a, b),
            Instr::Store(a, b) => Instr::Store(a, b),
            Instr::Shl(r, n) => Instr::Shl(r, n),
            Instr::Add(a, b) => Instr::Add(a, b),
            Instr::Sub(a, b) => Instr::Sub(a, b),
            Instr::Mul(r) => Instr::Mul(r),
            Instr::Cqo => Instr::Cqo,
            Instr::Idiv(r) => Instr::Idiv(r),
            Instr::Cmp(a, b) => Instr::Cmp(a, b),
            Instr::CmpZero(r) => Instr::CmpZero(r),
            Instr::SetCc(c) => Instr::SetCc(c),
            Instr::MovzbAl => Instr::MovzbAl,
            Instr::Je(k, n) => Instr::Je(k, n),
            Instr::Jmp(k, n) => Instr::Jmp(k, n),
            Instr::Label(k, n) => Instr::Label(k, n),
            Instr::Call(s) => Instr::Call(s@),
            Instr::Ret => Instr::Ret,
        }
    }
}

pub open spec fn asm_of(v: Seq<Instr<String>>) -> Seq<Asm> {
    v.map_values(|i: Instr<String>| i@)
}

/// Errors of code generation.
#[derive(Debug)]
pub enum GenerateError {
    NotLeftValue,
    CallArgsOverFlow,
    DuplicatedVariable,
    UndefinedVariable(String),
    InvalidTypeSize(usize),
    /// Every label number has been taken.
    TooManyLabels,
}

/// The integer argument registers of the System V AMD64 calling convention, in order.
pub open spec fn arg_reg(i: int) -> Reg {
    if i == 0 {
        Reg::Rdi
    } else if i == 1 {
        Reg::Rsi
    } else if i == 2 {
        Reg::Rdx
    } else if i == 3 {
        Reg::Rcx
    } else if i == 4 {
        Reg::R8
    } else {
        Reg::R9
    }
}

/// Result of emitting a piece of code: the instructions and the next free label.
pub type Emitted = Result<(Seq<Asm>, nat), GenerateError>;

pub open spec fn epilogue() -> Seq<Asm> {
    seq![Instr::Mov(Reg::Rsp, Reg::Rbp), Instr::Pop(Reg::Rbp), Instr::Ret]
}

/// `pop` into the first `n` argument registers, in order.
pub open spec fn arg_pops(n: nat) -> Seq<Asm> {
    Seq::new(n, |i: int| Instr::Pop(arg_reg(i)))
}

/// `push` of the first `n` argument registers, in order.
pub open spec fn arg_pushes(n: nat) -> Seq<Asm> {
    Seq::new(n, |i: int| Instr::Push(arg_reg(i)))
}

pub open spec fn compare(c: Cond) -> Seq<Asm> {
    seq![Instr::Cmp(Reg::Rax, Reg::Rdi), Instr::SetCc(c), Instr::MovzbAl]
}

/// What a binary operator emits once its left operand is in `rax` and its
/// right operand in `rdi`; `left_type` is the declared type of the left operand.
pub open spec fn op_code(op: Operator2, left_type: Option<Type>) -> Result<Seq<Asm>, GenerateError> {
    match op {
        Operator2::Add => match left_type {
            Some(Type::Ptr(t)) => if type_size(*t) == 4 {
                Ok(seq![Instr::Shl(Reg::Rdi, 2), Instr::Add(Reg::Rax, Reg::Rdi)])
            } else if type_size(*t) == 8 {
                Ok(seq![Instr::Shl(Reg::Rdi, 3), Instr::Add(Reg::Rax, Reg::Rdi)])
            } else {
                Err(GenerateError::InvalidTypeSize(type_size(*t) as usize))
            },
            _ => Ok(seq![Instr::Add(Reg::Rax, Reg::Rdi)]),
        },
        Operator2::Sub => Ok(seq![Instr::Sub(Reg::Rax, Reg::Rdi)]),
        Operator2::Mul => Ok(seq![Instr::Mul(Reg::Rdi)]),
        Operator2::Div => Ok(seq![Instr::Cqo, Instr::Idiv(Reg::Rdi)]),
        Operator2::Eq => Ok(compare(Cond::E)),
        Operator2::Ne => Ok(compare(Cond::Ne)),
        Operator2::Lt => Ok(compare(Cond::L)),
        Operator2::Lte => Ok(compare(Cond::Le)),
    }
}

/// Code that leaves the address of the lvalue `n` on the stack.
pub open spec fn emit_lval(n: NodeView, k: nat) -> Emitted
    decreases n, 0nat,
{
    match n {
        NodeView::Deref(v) => emit(*v, k),
        NodeView::LocalVar { offset, .. } => Ok(
            (seq![Instr::Mov(Reg::Rax, Reg::Rbp), Instr::SubImm(Reg::Rax, offset), Instr::Push(Reg::Rax)], k),
        ),
        _ => Err(GenerateError::NotLeftValue),
    }
}

/// Code for an optional child; nothing when it is absent.
pub open spec fn emit_opt(o: Option<Box<NodeView>>, k: nat) -> Emitted
    decreases o, 0nat,
{
    match o {
        Some(b) => emit(*b, k),
        None => Ok((Seq::empty(), k)),
    }
}

/// The code of an optional child followed by `pop rax`, which discards its
/// value; nothing when the child is absent.
pub open spec fn discarded(o: Option<Box<NodeView>>, c: Seq<Asm>) -> Seq<Asm> {
    if o is Some {
        c + seq![Instr::Pop(Reg::Rax)]
    } else {
        Seq::empty()
    }
}

/// A node that is refused before any of its code is emitted: a call with more
/// than six arguments, or an `if` or loop when no label number is left.
pub open spec fn refused_outright(n: NodeView, k: nat) -> bool {
    ||| (n matches NodeView::Call { args, .. } && args.len() > 6)
    ||| ((n is IfElse || n is For) && k >= usize::MAX)
}

/// Code for a statement list: each statement, followed by `pop rax`.
pub open spec fn emit_stmts(s: Seq<NodeView>, k: nat) -> Emitted
    decreases s, 0nat,
{
    if s.len() == 0 {
        Ok((Seq::empty(), k))
    } else {
        match emit_stmts(s.drop_last(), k) {
            Err(e) => Err(e),
            Ok((a, k1)) => match emit(s.last(), k1) {
                Err(e) => Err(e),
                Ok((b, k2)) => Ok((a + b + seq![Instr::Pop(Reg::Rax)], k2)),
            },
        }
    }
}

/// Code for call arguments, the last argument first.
pub open spec fn emit_args(s: Seq<NodeView>, k: nat) -> Emitted
    decreases s, 0nat,
{
    if s.len() == 0 {
        Ok((Seq::empty(), k))
    } else {
        match emit_args(s.drop_first(), k) {
            Err(e) => Err(e),
            Ok((a, k1)) => match emit(s[0], k1) {
                Err(e) => Err(e),
                Ok((b, k2)) => Ok((a + b, k2)),
            },
        }
    }
}

/// The code emitted for node `n` when `k` is the next free label number, and
/// the next free label number after it.
pub open spec fn emit(n: NodeView, k: nat) -> Emitted
    decreases n, 1nat,
{
    match n {
        NodeView::Num(v) => Ok((seq![Instr::PushImm(v)], k)),
        NodeView::LocalVar { offset, .. } => Ok(
            (
                seq![
                    Instr::Mov(Reg::Rax, Reg::Rbp),
                    Instr::SubImm(Reg::Rax, offset),
                    Instr::Push(Reg::Rax),
                    Instr::Pop(Reg::Rsi),
                    Instr::Load(Reg::Rax, Reg::Rsi),
                    Instr::Push(Reg::Rax),
                ],
                k,
            ),
        ),
        NodeView::DefineVar { .. } => Ok(
            (seq![Instr::SubImm(Reg::Rsp, 8), Instr::Push(Reg::Rsp)], k),
        ),
        NodeView::Assign { left, right } => match emit_lval(*left, k) {
            Err(e) => Err(e),
            Ok((a, k1)) => match emit(*right, k1) {
                Err(e) => Err(e),
                Ok((b, k2)) => Ok(
                    (
                        a + b + seq![
                            Instr::Pop(Reg::Rdi),
                            Instr::Pop(Reg::Rax),
                            Instr::Store(Reg::Rax, Reg::Rdi),
                            Instr::Push(Reg::Rdi),
                        ],
                        k2,
                    ),
                ),
            },
        },
        NodeView::Op2 { op, left, right } => match emit(*left, k) {
            Err(e) => Err(e),
            Ok((a, k1)) => match emit(*right, k1) {
                Err(e) => Err(e),
                Ok((b, k2)) => match op_code(op, node_type(*left)) {
                    Err(e) => Err(e),
                    Ok(o) => Ok(
                        (
                            a + b + seq![Instr::Pop(Reg::Rdi), Instr::Pop(Reg::Rax)] + o
                                + seq![Instr::Push(Reg::Rax)],
                            k2,
                        ),
                    ),
                },
            },
        },
        NodeView::Return(v) => match emit(*v, k) {
            Err(e) => Err(e),
            Ok((a, k1)) => Ok((a + seq![Instr::Pop(Reg::Rax)] + epilogue(), k1)),
        },
        NodeView::IfElse { cond, then_, else_ } => if k >= usize::MAX {
            Err(GenerateError::TooManyLabels)
        } else {
            match emit(*cond, k + 1) {
            Err(e) => Err(e),
            Ok((c, k1)) => match emit(*then_, k1) {
                Err(e) => Err(e),
                Ok((t, k2)) => match else_ {
                    Some(eb) => match emit(*eb, k2) {
                        Err(e) => Err(e),
                        Ok((x, k3)) => Ok(
                            (
                                c + seq![
                                    Instr::Pop(Reg::Rax),
                                    Instr::CmpZero(Reg::Rax),
                                    Instr::Je(LabelKind::Else, k as usize),
                                ] + t + seq![
                                    Instr::Jmp(LabelKind::End, k as usize),
                                    Instr::Label(LabelKind::Else, k as usize),
                                ] + x + seq![Instr::Label(LabelKind::End, k as usize)],
                                k3,
                            ),
                        ),
                    },
                    None => Ok(
                        (
                            c + seq![
                                Instr::Pop(Reg::Rax),
                                Instr::CmpZero(Reg::Rax),
                                Instr::Je(LabelKind::Else, k as usize),
                            ] + t + seq![
                                Instr::Jmp(LabelKind::End, k as usize),
                                Instr::Label(LabelKind::Else, k as usize),
                                Instr::PushImm(0),
                                Instr::Label(LabelKind::End, k as usize),
                            ],
                            k2,
                        ),
                    ),
                },
            },
        }
        },
        NodeView::For { init, cond, next, body } => if k >= usize::MAX {
            Err(GenerateError::TooManyLabels)
        } else {
            match emit_opt(init, k + 1) {
                Err(e) => Err(e),
                Ok((i, k1)) => match emit_opt(cond, k1) {
                    Err(e) => Err(e),
                    Ok((c, k2)) => match emit(*body, k2) {
                        Err(e) => Err(e),
                        Ok((b, k3)) => match emit_opt(next, k3) {
                            Err(e) => Err(e),
                            Ok((s, k4)) => Ok(
                                (
                                    discarded(init, i) + seq![Instr::Label(LabelKind::Begin, k as usize)]
                                        + (if cond is Some {
                                        c + seq![
                                            Instr::Pop(Reg::Rax),
                                            Instr::CmpZero(Reg::Rax),
                                            Instr::Je(LabelKind::End, k as usize),
                                        ]
                                    } else {
                                        Seq::empty()
                                    }) + b + seq![Instr::Pop(Reg::Rax)] + discarded(next, s) + seq![
                                        Instr::Jmp(LabelKind::Begin, k as usize),
                                        Instr::Label(LabelKind::End, k as usize),
                                        Instr::PushImm(0),
                                    ],
                                    k4,
                                ),
                            ),
                        },
                    },
                },
            }
        },
        NodeView::Block(s) => match emit_stmts(s, k) {
            Err(e) => Err(e),
            Ok((c, k1)) => Ok((c + seq![Instr::PushImm(0)], k1)),
        },
        NodeView::Call { name, args, .. } => if args.len() > 6 {
            Err(GenerateError::CallArgsOverFlow)
        } else {
            match emit_args(args, k) {
                Err(e) => Err(e),
                Ok((a, k1)) => Ok(
                    (a + arg_pops(args.len()) + seq![Instr::Call(name), Instr::Push(Reg::Rax)], k1),
                ),
            }
        },
        NodeView::Function { name, params, body } => match emit_stmts(body, k) {
            Err(e) => Err(e),
            Ok((b, k1)) => Ok(
                (
                    seq![Instr::Symbol(name), Instr::Push(Reg::Rbp), Instr::Mov(Reg::Rbp, Reg::Rsp)]
                        + arg_pushes(if params.len() < 6 { params.len() } else { 6 }) + b
                        + epilogue(),
                    k1,
                ),
            ),
        },
        NodeView::Addr(v) => emit_lval(*v, k),
        NodeView::Deref(v) => match emit(*v, k) {
            Err(e) => Err(e),
            Ok((a, k1)) => Ok(
                (a + seq![Instr::Pop(Reg::Rsi), Instr::Load(Reg::Rax, Reg::Rsi), Instr::Push(Reg::Rax)], k1),
            ),
        },
    }
}


/// Pointer arithmetic: in `l + r` where `l` is a `Ptr(t)`, the right operand is
/// shifted left by 2 when `size(t)` is 4 and by 3 when it is 8 (that is,
/// multiplied by `size(t)`) before it is added; those are the only sizes, so the
/// addition never fails with an invalid type size. Its code is the left operand,
/// the right operand, two pops, the scaled addition and a push.
pub proof fn lemma_pointer_add_scales(l: NodeView, r: NodeView, t: Type, k: nat)
    requires
        node_type(l) == Some(Type::Ptr(Box::new(t))),
    ensures
        type_size(t) == 4 || type_size(t) == 8,
        op_code(Operator2::Add, node_type(l)) == Ok::<Seq<Asm>, GenerateError>(
            seq![
                Instr::Shl(Reg::Rdi, if type_size(t) == 4 { 2u32 } else { 3u32 }),
                Instr::Add(Reg::Rax, Reg::Rdi),
            ],
        ),
        emit(NodeView::Op2 { op: Operator2::Add, left: Box::new(l), right: Box::new(r) }, k) matches Ok((c, _))
            ==> c == code_of(emit(l, k)) + code_of(emit(r, emit(l, k)->Ok_0.1)) + seq![
                Instr::Pop(Reg::Rdi),
                Instr::Pop(Reg::Rax),
                Instr::Shl(Reg::Rdi, if type_size(t) == 4 { 2u32 } else { 3u32 }),
                Instr::Add(Reg::Rax, Reg::Rdi),
                Instr::Push(Reg::Rax),
            ],
{
    let c = emit(NodeView::Op2 { op: Operator2::Add, left: Box::new(l), right: Box::new(r) }, k);
    if let Ok((code, _)) = c {
        let a = code_of(emit(l, k));
        let b = code_of(emit(r, emit(l, k)->Ok_0.1));
        let o = op_code(Operator2::Add, node_type(l))->Ok_0;
        assert(code == a + b + seq![Instr::Pop(Reg::Rdi), Instr::Pop(Reg::Rax)] + o + seq![Instr::Push(Reg::Rax)]);
        assert(code =~= a + b + seq![
            Instr::Pop(Reg::Rdi),
            Instr::Pop(Reg::Rax),
            Instr::Shl(Reg::Rdi, if type_size(t) == 4 { 2u32 } else { 3u32 }),
            Instr::Add(Reg::Rax, Reg::Rdi),
            Instr::Push(Reg::Rax),
        ]);
    }
}

/// Addition whose left operand is not a pointer is a plain `add`, and
/// subtraction never scales, whatever its operands.
pub proof fn lemma_only_pointer_add_scales(left_type: Option<Type>)
    ensures
        !(left_type matches Some(Type::Ptr(_))) ==> op_code(Operator2::Add, left_type) == Ok::<
            Seq<Asm>,
            GenerateError,
        >(seq![Instr::Add(Reg::Rax, Reg::Rdi)]),
        op_code(Operator2::Sub, left_type) == Ok::<Seq<Asm>, GenerateError>(seq![Instr::Sub(Reg::Rax, Reg::Rdi)]),
{
}

/// Call arguments: for a call with at most six arguments the code evaluates
/// every argument before the `call`, the last argument first and the first
/// argument last, then pops into `rdi, rsi, rdx, rcx, r8, r9` in that order,
/// so that the value of the i-th argument, pushed i-th from the top, lands in
/// the i-th argument register. More than six arguments is an error.
pub proof fn lemma_call_arguments(name: Seq<char>, args: Seq<NodeView>, ret: Option<Type>, k: nat)
    ensures
        args.len() > 6 ==> emit(NodeView::Call { name, args, return_type: ret }, k) == Err::<
            (Seq<Asm>, nat),
            GenerateError,
        >(GenerateError::CallArgsOverFlow),
        args.len() <= 6 && emit(NodeView::Call { name, args, return_type: ret }, k) is Ok ==> {
            &&& emit(NodeView::Call { name, args, return_type: ret }, k)->Ok_0.0 == code_of(emit_args(args, k))
                + arg_pops(args.len()) + seq![Instr::Call(name), Instr::Push(Reg::Rax)]
            &&& forall|i: int| 0 <= i < args.len() ==> #[trigger] arg_pops(args.len())[i] == Instr::<Seq<char>>::Pop(arg_reg(i))
        },
        args.len() > 0 && emit_args(args, k) is Ok ==> code_of(emit_args(args, k)) == code_of(
            emit_args(args.drop_first(), k),
        ) + code_of(emit(args[0], emit_args(args.drop_first(), k)->Ok_0.1)),
        arg_reg(0) == Reg::Rdi && arg_reg(1) == Reg::Rsi && arg_reg(2) == Reg::Rdx && arg_reg(3)
            == Reg::Rcx && arg_reg(4) == Reg::R8 && arg_reg(5) == Reg::R9,
{
}

/// How many values `x` adds to the operand stack when it runs: one for a
/// `push`, minus one for a `pop`, none otherwise.
pub open spec fn stack_change(x: Asm) -> int {
    match x {
        Instr::PushImm(_) => 1,
        Instr::Push(_) => 1,
        Instr::Pop(_) => -1,
        _ => 0,
    }
}

/// How many values the first `i` instructions of `c` add to the operand stack.
pub open spec fn stack_effect_upto(c: Seq<Asm>, i: int) -> int
    decreases i,
{
    if i <= 0 {
        0
    } else {
        stack_effect_upto(c, i - 1) + stack_change(c[i - 1])
    }
}

/// How many values `c` adds to the operand stack when its instructions run one
/// after the other, a conditional jump not taken and a loop's jump back left out.
pub open spec fn stack_effect(c: Seq<Asm>) -> int {
    stack_effect_upto(c, c.len() as int)
}

proof fn lemma_upto_prefix(a: Seq<Asm>, b: Seq<Asm>, i: int)
    requires
        0 <= i <= a.len(),
    ensures
        stack_effect_upto(a + b, i) == stack_effect_upto(a, i),
    decreases i,
{
    if i > 0 {
        lemma_upto_prefix(a, b, i - 1);
    }
}

proof fn lemma_upto_suffix(a: Seq<Asm>, b: Seq<Asm>, j: int)
    requires
        0 <= j <= b.len(),
    ensures
        stack_effect_upto(a + b, a.len() + j) == stack_effect(a) + stack_effect_upto(b, j),
    decreases j,
{
    if j > 0 {
        lemma_upto_suffix(a, b, j - 1);
    } else {
        lemma_upto_prefix(a, b, a.len() as int);
    }
}

pub broadcast proof fn lemma_stack_effect_concat(a: Seq<Asm>, b: Seq<Asm>)
    ensures
        #[trigger] stack_effect(a + b) == stack_effect(a) + stack_effect(b),
{
    lemma_upto_suffix(a, b, b.len() as int);
}

proof fn lemma_stack_effect_pops(n: nat)
    ensures
        stack_effect(arg_pops(n)) == -(n as int),
{
    assert forall|i: int| 0 <= i <= n implies #[trigger] stack_effect_upto(arg_pops(n), i) == -i by {
        lemma_pops_upto(n, i);
    }
}

proof fn lemma_pops_upto(n: nat, i: int)
    requires
        0 <= i <= n,
    ensures
        stack_effect_upto(arg_pops(n), i) == -i,
    decreases i,
{
    if i > 0 {
        lemma_pops_upto(n, i - 1);
    }
}

/// Whether `n` holds no `if`, no `return` and no function definition: code
/// whose instructions run straight through, loops once round.
pub open spec fn straight(n: NodeView) -> bool
    decreases n, 1nat,
{
    match n {
        NodeView::IfElse { .. } => false,
        NodeView::Return(_) => false,
        NodeView::Function { .. } => false,
        NodeView::Assign { left, right } => straight(*left) && straight(*right),
        NodeView::Op2 { left, right, .. } => straight(*left) && straight(*right),
        NodeView::Addr(v) => straight(*v),
        NodeView::Deref(v) => straight(*v),
        NodeView::For { init, cond, next, body } => straight_opt(init) && straight_opt(cond)
            && straight_opt(next) && straight(*body),
        NodeView::Block(s) => all_straight(s),
        NodeView::Call { args, .. } => all_straight(args),
        _ => true,
    }
}

pub open spec fn straight_opt(o: Option<Box<NodeView>>) -> bool
    decreases o, 0nat,
{
    match o {
        Some(b) => straight(*b),
        None => true,
    }
}

pub open spec fn all_straight(s: Seq<NodeView>) -> bool
    decreases s, 0nat,
{
    s.len() == 0 || (all_straight(s.drop_last()) && straight(s.last()))
}

proof fn lemma_all_straight_drop_first(s: Seq<NodeView>)
    requires
        all_straight(s),
        s.len() > 0,
    ensures
        all_straight(s.drop_first()),
        straight(s[0]),
    decreases s.len(),
{
    if s.len() > 1 {
        lemma_all_straight_drop_first(s.drop_last());
        assert(s.drop_first().drop_last() =~= s.drop_last().drop_first());
        assert(s.drop_first().last() == s.last());
    } else {
        assert(s.drop_first() =~= Seq::<NodeView>::empty());
    }
}

/// Stack discipline: the code of an expression, or of a statement without `if`
/// or `return` (blocks and loops included), adds exactly one value to the
/// operand stack when it runs straight through; so after the `pop rax` that
/// follows each statement the stack is back where the statement found it.
#[verifier::spinoff_prover]
#[verifier::rlimit(60)]
pub proof fn lemma_stack_discipline(n: NodeView, k: nat)
    requires
        straight(n),
    ensures
        emit(n, k) matches Ok((c, _)) ==> stack_effect(c) == 1,
    decreases n, 2nat,
{
    broadcast use lemma_stack_effect_concat;
    reveal_with_fuel(stack_effect_upto, 8);
    match n {
        NodeView::Assign { left, right } => {
            lemma_lval_discipline(*left, k);
            if let Ok((_, k1)) = emit_lval(*left, k) {
                lemma_stack_discipline(*right, k1);
            }
        },
        NodeView::Op2 { op, left, right } => {
            lemma_stack_discipline(*left, k);
            if let Ok((_, k1)) = emit(*left, k) {
                lemma_stack_discipline(*right, k1);
            }
            if let Ok(o) = op_code(op, node_type(*left)) {
                assert(stack_effect(o) == 0);
            }
        },
        NodeView::Addr(v) => {
            lemma_lval_discipline(*v, k);
        },
        NodeView::Deref(v) => {
            lemma_stack_discipline(*v, k);
        },
        NodeView::For { init, cond, next, body } => {
            lemma_opt_discipline(init, k + 1);
            if let Ok((_, k1)) = emit_opt(init, k + 1) {
                lemma_opt_discipline(cond, k1);
                if let Ok((_, k2)) = emit_opt(cond, k1) {
                    lemma_stack_discipline(*body, k2);
                    if let Ok((_, k3)) = emit(*body, k2) {
                        lemma_opt_discipline(next, k3);
                    }
                }
            }
        },
        NodeView::Block(s) => {
            lemma_stmts_discipline(s, k);
        },
        NodeView::Call { args, .. } => {
            lemma_args_discipline(args, k);
            lemma_stack_effect_pops(args.len());
        },
        _ => {},
    }
}

/// Stack discipline through an `if` whose condition and branches are straight:
/// the path that takes the `then` branch (condition, test, `then`, then the
/// jump over the rest) and the path that takes the `else` branch (condition,
/// test, `else` or the `push 0` that stands for it) each add exactly one value.
pub proof fn lemma_if_discipline(
    cond: NodeView,
    then_: NodeView,
    else_: Option<Box<NodeView>>,
    k: nat,
)
    requires
        straight(cond),
        straight(then_),
        straight_opt(else_),
    ensures
        emit(NodeView::IfElse { cond: Box::new(cond), then_: Box::new(then_), else_ }, k) matches Ok((code, _))
            ==> {
            let c = code_of(emit(cond, k + 1));
            let t = code_of(emit(then_, emit(cond, k + 1)->Ok_0.1));
            let x = match else_ {
                Some(_) => code_of(emit_opt(else_, emit(then_, emit(cond, k + 1)->Ok_0.1)->Ok_0.1)),
                None => seq![Instr::PushImm(0)],
            };
            let test = seq![
                Instr::Pop(Reg::Rax),
                Instr::CmpZero(Reg::Rax),
                Instr::Je(LabelKind::Else, k as usize),
            ];
            &&& code == c + test + t + seq![
                Instr::Jmp(LabelKind::End, k as usize),
                Instr::Label(LabelKind::Else, k as usize),
            ] + x + seq![Instr::Label(LabelKind::End, k as usize)]
            &&& stack_effect(c + test + t) == 1
            &&& stack_effect(c + test + x) == 1
        },
{
    broadcast use lemma_stack_effect_concat;
    reveal_with_fuel(stack_effect_upto, 8);
    lemma_stack_discipline(cond, k + 1);
    if let Ok((_, k1)) = emit(cond, k + 1) {
        lemma_stack_discipline(then_, k1);
        if let Ok((_, k2)) = emit(then_, k1) {
            lemma_opt_discipline(else_, k2);
        }
    }
}

proof fn lemma_lval_discipline(n: NodeView, k: nat)
    requires
        straight(n),
    ensures
        emit_lval(n, k) matches Ok((c, _)) ==> stack_effect(c) == 1,
    decreases n, 1nat,
{
    broadcast use lemma_stack_effect_concat;
    reveal_with_fuel(stack_effect_upto, 8);
    if let NodeView::Deref(v) = n {
        lemma_stack_discipline(*v, k);
    }
}

/// An optional child followed by `pop rax` leaves the stack as it found it.
proof fn lemma_opt_discipline(o: Option<Box<NodeView>>, k: nat)
    requires
        straight_opt(o),
    ensures
        emit_opt(o, k) matches Ok((c, _)) ==> stack_effect(discarded(o, c)) == 0 && (o is Some
            ==> stack_effect(c) == 1),
    decreases o, 1nat,
{
    broadcast use lemma_stack_effect_concat;
    reveal_with_fuel(stack_effect_upto, 8);
    if let Some(b) = o {
        lemma_stack_discipline(*b, k);
    }
}

/// A statement list, each statement followed by `pop rax`, leaves the stack
/// as it found it.
pub proof fn lemma_stmts_discipline(s: Seq<NodeView>, k: nat)
    requires
        all_straight(s),
    ensures
        emit_stmts(s, k) matches Ok((c, _)) ==> stack_effect(c) == 0,
    decreases s, 1nat,
{
    broadcast use lemma_stack_effect_concat;
    reveal_with_fuel(stack_effect_upto, 8);
    if s.len() > 0 {
        lemma_stmts_discipline(s.drop_last(), k);
        if let Ok((_, k1)) = emit_stmts(s.drop_last(), k) {
            lemma_stack_discipline(s.last(), k1);
        }
    }
}

proof fn lemma_args_discipline(s: Seq<NodeView>, k: nat)
    requires
        all_straight(s),
    ensures
        emit_args(s, k) matches Ok((c, _)) ==> stack_effect(c) == s.len(),
    decreases s, 1nat,
{
    broadcast use lemma_stack_effect_concat;
    reveal_with_fuel(stack_effect_upto, 8);
    if s.len() > 0 {
        lemma_all_straight_drop_first(s);
        lemma_args_discipline(s.drop_first(), k);
        if let Ok((_, k1)) = emit_args(s.drop_first(), k) {
            lemma_stack_discipline(s[0], k1);
        }
    }
}

/// How many times the first `i` instructions of `c` define label `m` of family `f`.
pub open spec fn label_defs_upto(c: Seq<Asm>, f: LabelKind, m: usize, i: int) -> nat
    decreases i,
{
    if i <= 0 {
        0
    } else {
        label_defs_upto(c, f, m, i - 1) + if c[i - 1] == Instr::<Seq<char>>::Label(f, m) {
            1nat
        } else {
            0nat
        }
    }
}

/// How many times `c` defines label `m` of family `f` (`.Lelse<m>:`, `.Lend<m>:`
/// or `.Lbegin<m>:`).
pub open spec fn label_defs(c: Seq<Asm>, f: LabelKind, m: usize) -> nat {
    label_defs_upto(c, f, m, c.len() as int)
}

proof fn lemma_defs_prefix(a: Seq<Asm>, b: Seq<Asm>, f: LabelKind, m: usize, i: int)
    requires
        0 <= i <= a.len(),
    ensures
        label_defs_upto(a + b, f, m, i) == label_defs_upto(a, f, m, i),
    decreases i,
{
    if i > 0 {
        lemma_defs_prefix(a, b, f, m, i - 1);
    }
}

proof fn lemma_defs_suffix(a: Seq<Asm>, b: Seq<Asm>, f: LabelKind, m: usize, j: int)
    requires
        0 <= j <= b.len(),
    ensures
        label_defs_upto(a + b, f, m, a.len() + j) == label_defs(a, f, m) + label_defs_upto(b, f, m, j),
    decreases j,
{
    if j > 0 {
        lemma_defs_suffix(a, b, f, m, j - 1);
    } else {
        lemma_defs_prefix(a, b, f, m, a.len() as int);
    }
}

pub broadcast proof fn lemma_label_defs_concat(a: Seq<Asm>, b: Seq<Asm>, f: LabelKind, m: usize)
    ensures
        #[trigger] label_defs(a + b, f, m) == label_defs(a, f, m) + label_defs(b, f, m),
{
    lemma_defs_suffix(a, b, f, m, b.len() as int);
}

proof fn lemma_label_defs_pops(n: nat, f: LabelKind, m: usize, i: int)
    requires
        0 <= i <= n,
    ensures
        label_defs_upto(arg_pops(n), f, m, i) == 0,
    decreases i,
{
    if i > 0 {
        lemma_label_defs_pops(n, f, m, i - 1);
    }
}

proof fn lemma_label_defs_pushes(n: nat, f: LabelKind, m: usize, i: int)
    requires
        0 <= i <= n,
    ensures
        label_defs_upto(arg_pushes(n), f, m, i) == 0,
    decreases i,
{
    if i > 0 {
        lemma_label_defs_pushes(n, f, m, i - 1);
    }
}

/// Emission from `k` that ended at `k2` defines label `m` of family `f` at most
/// once, and not at all unless `m` is one of the numbers `k .. k2` it took.
pub open spec fn defines_own_labels_once(e: Emitted, k: nat, f: LabelKind, m: usize) -> bool {
    e matches Ok((c, k2)) ==> k <= k2 && label_defs(c, f, m) <= 1 && (!(k <= m < k2) ==> label_defs(c, f, m) == 0)
}

/// Labels are defined once: the code for a node, emitted when `k` is the next
/// free label number, defines each of `.Lelse<m>:`, `.Lend<m>:`, `.Lbegin<m>:`
/// at most once, and only for the numbers `m` it took from the counter; code
/// emitted before or after it took other numbers, so no label is defined twice.
pub proof fn lemma_labels_defined_once(n: NodeView, k: nat, f: LabelKind, m: usize)
    ensures
        defines_own_labels_once(emit(n, k), k, f, m),
    decreases n, 2nat,
{
    match n {
        NodeView::IfElse { .. } => lemma_if_labels_once(n, k, f, m),
        NodeView::For { .. } => lemma_for_labels_once(n, k, f, m),
        NodeView::Assign { .. } => lemma_binary_labels_once(n, k, f, m),
        NodeView::Op2 { .. } => lemma_binary_labels_once(n, k, f, m),
        NodeView::Call { .. } => lemma_list_labels_once(n, k, f, m),
        NodeView::Function { .. } => lemma_list_labels_once(n, k, f, m),
        _ => lemma_other_labels_once(n, k, f, m),
    }
}

/// Two nodes emitted one after the other by the same generator (the second
/// starting from the label number the first left) together define each label
/// at most once: a whole program, function after function, never repeats a label.
pub proof fn lemma_consecutive_labels_once(n1: NodeView, n2: NodeView, k: nat, f: LabelKind, m: usize)
    ensures
        emit(n1, k) matches Ok((c1, k1)) ==> (emit(n2, k1) matches Ok((c2, k2)) ==> label_defs(
            c1 + c2,
            f,
            m,
        ) <= 1 && k <= k1 <= k2),
{
    broadcast use lemma_label_defs_concat;
    lemma_labels_defined_once(n1, k, f, m);
    if let Ok((_, k1)) = emit(n1, k) {
        lemma_labels_defined_once(n2, k1, f, m);
    }
}

#[verifier::spinoff_prover]
proof fn lemma_binary_labels_once(n: NodeView, k: nat, f: LabelKind, m: usize)
    requires
        n is Assign || n is Op2,
    ensures
        defines_own_labels_once(emit(n, k), k, f, m),
    decreases n, 1nat,
{
    broadcast use lemma_label_defs_concat;
    reveal_with_fuel(label_defs_upto, 8);
    match n {
        NodeView::Assign { left, right } => {
            lemma_lval_labels_once(*left, k, f, m);
            if let Ok((_, k1)) = emit_lval(*left, k) {
                lemma_labels_defined_once(*right, k1, f, m);
            }
        },
        NodeView::Op2 { left, right, op } => {
            lemma_labels_defined_once(*left, k, f, m);
            if let Ok((_, k1)) = emit(*left, k) {
                lemma_labels_defined_once(*right, k1, f, m);
            }
            if let Ok(o) = op_code(op, node_type(*left)) {
                assert(label_defs(o, f, m) == 0);
            }
        },
        _ => {},
    }
}

#[verifier::spinoff_prover]
proof fn lemma_list_labels_once(n: NodeView, k: nat, f: LabelKind, m: usize)
    requires
        n is Call || n is Function,
    ensures
        defines_own_labels_once(emit(n, k), k, f, m),
    decreases n, 1nat,
{
    broadcast use lemma_label_defs_concat;
    reveal_with_fuel(label_defs_upto, 8);
    match n {
        NodeView::Call { args, .. } => {
            lemma_args_labels_once(args, k, f, m);
            lemma_label_defs_pops(args.len(), f, m, args.len() as int);
        },
        NodeView::Function { body, params, .. } => {
            lemma_stmts_labels_once(body, k, f, m);
            let p = if params.len() < 6 { params.len() } else { 6 };
            lemma_label_defs_pushes(p, f, m, p as int);
        },
        _ => {},
    }
}

#[verifier::spinoff_prover]
proof fn lemma_other_labels_once(n: NodeView, k: nat, f: LabelKind, m: usize)
    requires
        !(n is IfElse || n is For || n is Assign || n is Op2 || n is Call || n is Function),
    ensures
        defines_own_labels_once(emit(n, k), k, f, m),
    decreases n, 1nat,
{
    broadcast use lemma_label_defs_concat;
    reveal_with_fuel(label_defs_upto, 8);
    match n {
        NodeView::Return(v) => {
            lemma_labels_defined_once(*v, k, f, m);
        },
        NodeView::Deref(v) => {
            lemma_labels_defined_once(*v, k, f, m);
        },
        NodeView::Addr(v) => {
            lemma_lval_labels_once(*v, k, f, m);
        },
        NodeView::Block(s) => {
            lemma_stmts_labels_once(s, k, f, m);
        },
        _ => {},
    }
}

#[verifier::spinoff_prover]
proof fn lemma_if_labels_once(n: NodeView, k: nat, f: LabelKind, m: usize)
    requires
        n is IfElse,
    ensures
        defines_own_labels_once(emit(n, k), k, f, m),
    decreases n, 1nat,
{
    broadcast use lemma_label_defs_concat;
    reveal_with_fuel(label_defs_upto, 8);
    if let NodeView::IfElse { cond, then_, else_ } = n {
        lemma_labels_defined_once(*cond, k + 1, f, m);
        if let Ok((_, k1)) = emit(*cond, k + 1) {
            lemma_labels_defined_once(*then_, k1, f, m);
            if let Ok((_, k2)) = emit(*then_, k1) {
                lemma_opt_labels_once(else_, k2, f, m);
            }
        }
    }
}

#[verifier::spinoff_prover]
proof fn lemma_for_labels_once(n: NodeView, k: nat, f: LabelKind, m: usize)
    requires
        n is For,
    ensures
        defines_own_labels_once(emit(n, k), k, f, m),
    decreases n, 1nat,
{
    broadcast use lemma_label_defs_concat;
    reveal_with_fuel(label_defs_upto, 8);
    if let NodeView::For { init, cond, next, body } = n {
        lemma_opt_labels_once(init, k + 1, f, m);
        if let Ok((i, k1)) = emit_opt(init, k + 1) {
            lemma_opt_labels_once(cond, k1, f, m);
            if let Ok((_, k2)) = emit_opt(cond, k1) {
                lemma_labels_defined_once(*body, k2, f, m);
                if let Ok((_, k3)) = emit(*body, k2) {
                    lemma_opt_labels_once(next, k3, f, m);
                }
            }
        }
    }
}

proof fn lemma_lval_labels_once(n: NodeView, k: nat, f: LabelKind, m: usize)
    ensures
        defines_own_labels_once(emit_lval(n, k), k, f, m),
    decreases n, 1nat,
{
    reveal_with_fuel(label_defs_upto, 8);
    if let NodeView::Deref(v) = n {
        lemma_labels_defined_once(*v, k, f, m);
    }
}

proof fn lemma_opt_labels_once(o: Option<Box<NodeView>>, k: nat, f: LabelKind, m: usize)
    ensures
        defines_own_labels_once(emit_opt(o, k), k, f, m),
        emit_opt(o, k) matches Ok((c, _)) ==> label_defs(discarded(o, c), f, m) == label_defs(c, f, m),
    decreases o, 1nat,
{
    broadcast use lemma_label_defs_concat;
    reveal_with_fuel(label_defs_upto, 8);
    if let Some(b) = o {
        lemma_labels_defined_once(*b, k, f, m);
    }
}

proof fn lemma_stmts_labels_once(s: Seq<NodeView>, k: nat, f: LabelKind, m: usize)
    ensures
        defines_own_labels_once(emit_stmts(s, k), k, f, m),
    decreases s, 1nat,
{
    broadcast use lemma_label_defs_concat;
    reveal_with_fuel(label_defs_upto, 8);
    if s.len() > 0 {
        lemma_stmts_labels_once(s.drop_last(), k, f, m);
        if let Ok((_, k1)) = emit_stmts(s.drop_last(), k) {
            lemma_labels_defined_once(s.last(), k1, f, m);
        }
    }
}

proof fn lemma_args_labels_once(s: Seq<NodeView>, k: nat, f: LabelKind, m: usize)
    ensures
        defines_own_labels_once(emit_args(s, k), k, f, m),
    decreases s, 1nat,
{
    broadcast use lemma_label_defs_concat;
    reveal_with_fuel(label_defs_upto, 8);
    if s.len() > 0 {
        lemma_args_labels_once(s.drop_first(), k, f, m);
        if let Ok((_, k1)) = emit_args(s.drop_first(), k) {
            lemma_labels_defined_once(s[0], k1, f, m);
        }
    }
}

/// How many branch labels the code for `n` takes: one for each `if` and each loop.
pub open spec fn label_demand(n: NodeView) -> nat
    decreases n, 1nat,
{
    match n {
        NodeView::Assign { left, right } => label_demand(*left) + label_demand(*right),
        NodeView::Op2 { left, right, .. } => label_demand(*left) + label_demand(*right),
        NodeView::Return(v) => label_demand(*v),
        NodeView::Addr(v) => label_demand(*v),
        NodeView::Deref(v) => label_demand(*v),
        NodeView::IfElse { cond, then_, else_ } => 1 + label_demand(*cond) + label_demand(*then_)
            + label_demand_opt(else_),
        NodeView::For { init, cond, next, body } => 1 + label_demand_opt(init) + label_demand_opt(
            cond,
        ) + label_demand(*body) + label_demand_opt(next),
        NodeView::Block(s) => label_demand_stmts(s),
        NodeView::Call { args, .. } => label_demand_args(args),
        NodeView::Function { body, .. } => label_demand_stmts(body),
        _ => 0,
    }
}

pub open spec fn label_demand_opt(o: Option<Box<NodeView>>) -> nat
    decreases o, 0nat,
{
    match o {
        Some(b) => label_demand(*b),
        None => 0,
    }
}

pub open spec fn label_demand_stmts(s: Seq<NodeView>) -> nat
    decreases s, 0nat,
{
    if s.len() == 0 {
        0
    } else {
        label_demand_stmts(s.drop_last()) + label_demand(s.last())
    }
}

pub open spec fn label_demand_args(s: Seq<NodeView>) -> nat
    decreases s, 0nat,
{
    if s.len() == 0 {
        0
    } else {
        label_demand_args(s.drop_first()) + label_demand(s[0])
    }
}

/// The result of a successful emission from label `k`: the counter moved on by
/// exactly the node's label demand.
pub open spec fn takes_labels(e: Emitted, k: nat, demand: nat) -> bool {
    e matches Ok((_, k2)) ==> k2 == k + demand
}

/// Label numbering: emitting a node when `k` is the next free label number
/// takes exactly one number for each `if` and each loop in it, so that the
/// counter moves from `k` to `k + label_demand(n)` and never goes back.
pub proof fn lemma_emit_labels(n: NodeView, k: nat)
    ensures
        takes_labels(emit(n, k), k, label_demand(n)),
    decreases n, 2nat,
{
    match n {
        NodeView::Assign { left, right } => {
            lemma_emit_lval_labels(*left, k);
            if let Ok((_, k1)) = emit_lval(*left, k) {
                lemma_emit_labels(*right, k1);
            }
        },
        NodeView::Op2 { left, right, .. } => {
            lemma_emit_labels(*left, k);
            if let Ok((_, k1)) = emit(*left, k) {
                lemma_emit_labels(*right, k1);
            }
        },
        NodeView::Return(v) => {
            lemma_emit_labels(*v, k);
        },
        NodeView::Deref(v) => {
            lemma_emit_labels(*v, k);
        },
        NodeView::Addr(v) => {
            lemma_emit_lval_labels(*v, k);
        },
        NodeView::IfElse { cond, then_, else_ } => {
            lemma_emit_labels(*cond, k + 1);
            if let Ok((_, k1)) = emit(*cond, k + 1) {
                lemma_emit_labels(*then_, k1);
                if let Ok((_, k2)) = emit(*then_, k1) {
                    lemma_emit_opt_labels(else_, k2);
                }
            }
        },
        NodeView::For { init, cond, next, body } => {
            lemma_emit_opt_labels(init, k + 1);
            if let Ok((_, k1)) = emit_opt(init, k + 1) {
                lemma_emit_opt_labels(cond, k1);
                if let Ok((_, k2)) = emit_opt(cond, k1) {
                    lemma_emit_labels(*body, k2);
                    if let Ok((_, k3)) = emit(*body, k2) {
                        lemma_emit_opt_labels(next, k3);
                    }
                }
            }
        },
        NodeView::Block(s) => {
            lemma_emit_stmts_labels(s, k);
        },
        NodeView::Call { args, .. } => {
            lemma_emit_args_labels(args, k);
        },
        NodeView::Function { body, params, .. } => {
            lemma_emit_stmts_labels(body, k);
        },
        _ => {},
    }
}

proof fn lemma_emit_lval_labels(n: NodeView, k: nat)
    ensures
        takes_labels(emit_lval(n, k), k, label_demand(n)),
    decreases n, 1nat,
{
    if let NodeView::Deref(v) = n {
        lemma_emit_labels(*v, k);
    }
}

proof fn lemma_emit_opt_labels(o: Option<Box<NodeView>>, k: nat)
    ensures
        takes_labels(emit_opt(o, k), k, label_demand_opt(o)),
    decreases o, 1nat,
{
    if let Some(b) = o {
        lemma_emit_labels(*b, k);
    }
}

proof fn lemma_emit_stmts_labels(s: Seq<NodeView>, k: nat)
    ensures
        takes_labels(emit_stmts(s, k), k, label_demand_stmts(s)),
    decreases s, 1nat,
{
    if s.len() > 0 {
        lemma_emit_stmts_labels(s.drop_last(), k);
        if let Ok((_, k1)) = emit_stmts(s.drop_last(), k) {
            lemma_emit_labels(s.last(), k1);
        }
    }
}

proof fn lemma_emit_args_labels(s: Seq<NodeView>, k: nat)
    ensures
        takes_labels(emit_args(s, k), k, label_demand_args(s)),
    decreases s, 1nat,
{
    if s.len() > 0 {
        lemma_emit_args_labels(s.drop_first(), k);
        if let Ok((_, k1)) = emit_args(s.drop_first(), k) {
            lemma_emit_labels(s[0], k1);
        }
    }
}

/// The instructions of an emission that succeeded.
pub open spec fn code_of(e: Emitted) -> Seq<Asm> {
    match e {
        Ok((c, _)) => c,
        Err(_) => Seq::empty(),
    }
}

/// The code generator: the instructions emitted so far and the next label number.
pub struct Generator {
    pub next_label: usize,
    pub code: Vec<Instr<String>>,
}

/// A generator call that produced the emission `e`: on success the code grew by
/// exactly its instructions and the label counter moved to its next free label;
/// on failure the error is the one the emission names.
pub open spec fn emitted(before: Generator, after: Generator, e: Emitted, r: Result<(), GenerateError>) -> bool {
    match e {
        Ok((c, k)) => {
            &&& r is Ok
            &&& asm_of(after.code@) == asm_of(before.code@) + c
            &&& after.next_label == k
        },
        Err(err) => r == Err::<(), GenerateError>(err),
    }
}

fn arg_register(i: usize) -> (r: Reg)
    requires
        i < 6,
    ensures
        r == arg_reg(i as int),
{
    if i == 0 {
        Reg::Rdi
    } else if i == 1 {
        Reg::Rsi
    } else if i == 2 {
        Reg::Rdx
    } else if i == 3 {
        Reg::Rcx
    } else if i == 4 {
        Reg::R8
    } else {
        Reg::R9
    }
}

proof fn lemma_nodes_view_take(v: Seq<Node>, i: int)
    requires
        0 <= i < v.len(),
    ensures
        nodes_view(v.take(i + 1)).drop_last() == nodes_view(v.take(i)),
        nodes_view(v.take(i + 1)).last() == node_view(v[i]),
        nodes_view(v.take(i + 1)).len() == i + 1,
{
    assert(v.take(i + 1) =~= v.take(i).push(v[i]));
    lemma_nodes_view_push(v.take(i), v[i]);
    lemma_nodes_view(v.take(i));
}

proof fn lemma_nodes_view_suffix(v: Seq<Node>, j: int)
    requires
        0 <= j < v.len(),
    ensures
        nodes_view(v.subrange(j, v.len() as int)).drop_first() == nodes_view(
            v.subrange(j + 1, v.len() as int),
        ),
        nodes_view(v.subrange(j, v.len() as int))[0] == node_view(v[j]),
        nodes_view(v.subrange(j, v.len() as int)).len() == v.len() - j,
{
    lemma_nodes_view(v.subrange(j, v.len() as int));
    lemma_nodes_view(v.subrange(j + 1, v.len() as int));
    assert(nodes_view(v.subrange(j, v.len() as int)).drop_first() =~= nodes_view(
        v.subrange(j + 1, v.len() as int),
    ));
}

proof fn lemma_stmts_err_prefix(s: Seq<NodeView>, i: int, k: nat)
    requires
        0 <= i <= s.len(),
        emit_stmts(s.take(i), k) is Err,
    ensures
        emit_stmts(s, k) == emit_stmts(s.take(i), k),
    decreases s.len(),
{
    if i < s.len() {
        assert(s.drop_last().take(i) =~= s.take(i));
        lemma_stmts_err_prefix(s.drop_last(), i, k);
    } else {
        assert(s.take(i) =~= s);
    }
}

proof fn lemma_args_err_suffix(s: Seq<NodeView>, j: int, k: nat)
    requires
        0 <= j <= s.len(),
        emit_args(s.subrange(j, s.len() as int), k) is Err,
    ensures
        emit_args(s, k) == emit_args(s.subrange(j, s.len() as int), k),
    decreases j,
{
    if j > 0 {
        assert(s.subrange(j - 1, s.len() as int).drop_first() =~= s.subrange(j, s.len() as int));
        lemma_args_err_suffix(s, j - 1, k);
    } else {
        assert(s.subrange(0, s.len() as int) =~= s);
    }
}

impl Generator {
    pub fn new() -> (r: Self)
        ensures
            r.next_label == 0,
            r.code@.len() == 0,
    {
        Self { next_label: 0, code: Vec::new() }
    }

    fn assign_next_label(&mut self) -> (r: usize)
        requires
            old(self).next_label < usize::MAX,
        ensures
            r == old(self).next_label,
            final(self).next_label == r + 1,
            final(self).code == old(self).code,
    {
        let r = self.next_label;
        self.next_label = self.next_label + 1;
        r
    }

    /// Emits the code that leaves the address of the lvalue `node` on the stack.
    pub fn gen_lval(&mut self, node: &Node) -> (r: Result<(), GenerateError>)
        ensures
            emitted(*old(self), *final(self), emit_lval(node@, old(self).next_label as nat), r),
            r is Ok ==> final(self).next_label == old(self).next_label + label_demand(node@),
            !(node@ is Deref || node@ is LocalVar) ==> *final(self) == *old(self),
        decreases node, 0nat,
    {
        let ghost start = asm_of(self.code@);
        match node {
            Node::Deref(val) => self.gen(val),
            Node::LocalVariable(var) => {
                self.put(Instr::Mov(Reg::Rax, Reg::Rbp));
                self.put(Instr::SubImm(Reg::Rax, var.offset));
                self.put(Instr::Push(Reg::Rax));
                assert(asm_of(self.code@) =~= start + code_of(emit_lval(node@, self.next_label as nat)));
                Ok(())
            },
            _ => Err(GenerateError::NotLeftValue),
        }
    }

    /// Emits the code for `node`, which leaves its value on the stack.
    pub fn gen(&mut self, node: &Node) -> (r: Result<(), GenerateError>)
        ensures
            emitted(*old(self), *final(self), emit(node@, old(self).next_label as nat), r),
            r is Ok ==> final(self).next_label == old(self).next_label + label_demand(node@),
            refused_outright(node@, old(self).next_label as nat) ==> *final(self) == *old(self),
        decreases node, 2nat,
    {
        let ghost start = asm_of(self.code@);
        let ghost k0 = self.next_label as nat;
        match node {
            Node::Num(n) => {
                self.put(Instr::PushImm(*n));
                assert(asm_of(self.code@) =~= start + code_of(emit(node@, k0)));
            },
            Node::LocalVariable(var) => {
                self.put(Instr::Mov(Reg::Rax, Reg::Rbp));
                self.put(Instr::SubImm(Reg::Rax, var.offset));
                self.put(Instr::Push(Reg::Rax));
                self.put(Instr::Pop(Reg::Rsi));
                self.put(Instr::Load(Reg::Rax, Reg::Rsi));
                self.put(Instr::Push(Reg::Rax));
                assert(asm_of(self.code@) =~= start + code_of(emit(node@, k0)));
            },
            Node::DefineVariable(_) => {
                self.put(Instr::SubImm(Reg::Rsp, 8));
                self.put(Instr::Push(Reg::Rsp));
                assert(asm_of(self.code@) =~= start + code_of(emit(node@, k0)));
            },
            Node::Assign { left, right } => {
                let ghost a = code_of(emit_lval(left@, k0));
                match self.gen_lval(left) {
                    Err(e) => {
                        return Err(e);
                    },
                    Ok(()) => {},
                }
                let ghost b = code_of(emit(right@, self.next_label as nat));
                match self.gen(right) {
                    Err(e) => {
                        return Err(e);
                    },
                    Ok(()) => {},
                }
                self.put(Instr::Pop(Reg::Rdi));
                self.put(Instr::Pop(Reg::Rax));
                self.put(Instr::Store(Reg::Rax, Reg::Rdi));
                self.put(Instr::Push(Reg::Rdi));
                assert(asm_of(self.code@) =~= start + (a + b + seq![
                    Instr::Pop(Reg::Rdi),
                    Instr::Pop(Reg::Rax),
                    Instr::Store(Reg::Rax, Reg::Rdi),
                    Instr::Push(Reg::Rdi),
                ]));
            },
            Node::Return(val) => {
                let ghost a = code_of(emit(val@, k0));
                match self.gen(val) {
                    Err(e) => {
                        return Err(e);
                    },
                    Ok(()) => {},
                }
                self.put(Instr::Pop(Reg::Rax));
                self.put(Instr::Mov(Reg::Rsp, Reg::Rbp));
                self.put(Instr::Pop(Reg::Rbp));
                self.put(Instr::Ret);
                assert(asm_of(self.code@) =~= start + (a + seq![Instr::Pop(Reg::Rax)] + epilogue()));
            },
            Node::Block(statements) => {
                let ghost b = code_of(emit_stmts(nodes_view(statements@), k0));
                match self.gen_stmts(statements) {
                    Err(e) => {
                        return Err(e);
                    },
                    Ok(()) => {},
                }
                self.put(Instr::PushImm(0));
                assert(asm_of(self.code@) =~= start + (b + seq![Instr::PushImm(0)]));
            },
            Node::Operator2 { .. } => {
                return self.gen_binary(node);
            },
            Node::IfElse(_) => {
                return self.gen_if(node);
            },
            Node::For(_) => {
                return self.gen_for(node);
            },
            Node::CallFunction(_) => {
                return self.gen_call(node);
            },
            Node::DefineFunction(_) => {
                return self.gen_function(node);
            },
            Node::Addr(val) => {
                return self.gen_lval(val);
            },
            Node::Deref(val) => {
                let ghost a = code_of(emit(val@, k0));
                match self.gen(val) {
                    Err(e) => {
                        return Err(e);
                    },
                    Ok(()) => {},
                }
                self.put(Instr::Pop(Reg::Rsi));
                self.put(Instr::Load(Reg::Rax, Reg::Rsi));
                self.put(Instr::Push(Reg::Rax));
                assert(asm_of(self.code@) =~= start + (a + seq![
                    Instr::Pop(Reg::Rsi),
                    Instr::Load(Reg::Rax, Reg::Rsi),
                    Instr::Push(Reg::Rax),
                ]));
            },
        }
        Ok(())
    }

    /// Emits the code for a binary operation.
    fn gen_binary(&mut self, node: &Node) -> (r: Result<(), GenerateError>)
        requires
            *node is Operator2,
        ensures
            emitted(*old(self), *final(self), emit(node@, old(self).next_label as nat), r),
            r is Ok ==> final(self).next_label == old(self).next_label + label_demand(node@),
        decreases node, 1nat,
    {
        let ghost start = asm_of(self.code@);
        let ghost k0 = self.next_label as nat;
        match node {
            Node::Operator2 { op, left, right } => {
                let ghost a = code_of(emit(left@, k0));
                match self.gen(left) {
                    Err(e) => {
                        return Err(e);
                    },
                    Ok(()) => {},
                }
                let ghost b = code_of(emit(right@, self.next_label as nat));
                match self.gen(right) {
                    Err(e) => {
                        return Err(e);
                    },
                    Ok(()) => {},
                }
                self.put(Instr::Pop(Reg::Rdi));
                self.put(Instr::Pop(Reg::Rax));
                let ghost mid = asm_of(self.code@);
                match op {
                    Operator2::Add => {
                        match left.declare_type() {
                            Some(Type::Ptr(inner)) => {
                                let sz = inner.size();
                                if sz == 4 {
                                    self.put(Instr::Shl(Reg::Rdi, 2));
                                } else if sz == 8 {
                                    self.put(Instr::Shl(Reg::Rdi, 3));
                                } else {
                                    return Err(GenerateError::InvalidTypeSize(sz));
                                }
                            },
                            _ => {},
                        }
                        self.put(Instr::Add(Reg::Rax, Reg::Rdi));
                    },
                    Operator2::Sub => {
                        self.put(Instr::Sub(Reg::Rax, Reg::Rdi));
                    },
                    Operator2::Mul => {
                        self.put(Instr::Mul(Reg::Rdi));
                    },
                    Operator2::Div => {
                        self.put(Instr::Cqo);
                        self.put(Instr::Idiv(Reg::Rdi));
                    },
                    Operator2::Eq => {
                        self.put(Instr::Cmp(Reg::Rax, Reg::Rdi));
                        self.put(Instr::SetCc(Cond::E));
                        self.put(Instr::MovzbAl);
                    },
                    Operator2::Ne => {
                        self.put(Instr::Cmp(Reg::Rax, Reg::Rdi));
                        self.put(Instr::SetCc(Cond::Ne));
                        self.put(Instr::MovzbAl);
                    },
                    Operator2::Lt => {
                        self.put(Instr::Cmp(Reg::Rax, Reg::Rdi));
                        self.put(Instr::SetCc(Cond::L));
                        self.put(Instr::MovzbAl);
                    },
                    Operator2::Lte => {
                        self.put(Instr::Cmp(Reg::Rax, Reg::Rdi));
                        self.put(Instr::SetCc(Cond::Le));
                        self.put(Instr::MovzbAl);
                    },
                }
                let ghost o = op_code(*op, node_type(left@))->Ok_0;
                assert(asm_of(self.code@) =~= mid + o);
                self.put(Instr::Push(Reg::Rax));
                assert(asm_of(self.code@) =~= start + (a + b + seq![Instr::Pop(Reg::Rdi), Instr::Pop(Reg::Rax)] + o + seq![Instr::Push(Reg::Rax)]));
            },
            _ => {},
        }
        Ok(())
    }

    /// Emits the code for an `if` statement.
    fn gen_if(&mut self, node: &Node) -> (r: Result<(), GenerateError>)
        requires
            *node is IfElse,
        ensures
            emitted(*old(self), *final(self), emit(node@, old(self).next_label as nat), r),
            r is Ok ==> final(self).next_label == old(self).next_label + label_demand(node@),
            refused_outright(node@, old(self).next_label as nat) ==> *final(self) == *old(self),
        decreases node, 1nat,
    {
        let ghost start = asm_of(self.code@);
        let ghost k0 = self.next_label as nat;
        match node {
            Node::IfElse(if_else) => {
                assert(label_demand(node@) == 1 + label_demand(if_else.condition@) + label_demand(
                    if_else.then_statement@,
                ) + label_demand_opt(opt_view(if_else.else_statement)));
                if self.next_label == usize::MAX {
                    return Err(GenerateError::TooManyLabels);
                }
                let label = self.assign_next_label();
                let ghost c = code_of(emit(if_else.condition@, self.next_label as nat));
                match self.gen(&if_else.condition) {
                    Err(e) => {
                        return Err(e);
                    },
                    Ok(()) => {},
                }
                self.put(Instr::Pop(Reg::Rax));
                self.put(Instr::CmpZero(Reg::Rax));
                self.put(Instr::Je(LabelKind::Else, label));
                let ghost t = code_of(emit(if_else.then_statement@, self.next_label as nat));
                match self.gen(&if_else.then_statement) {
                    Err(e) => {
                        return Err(e);
                    },
                    Ok(()) => {},
                }
                self.put(Instr::Jmp(LabelKind::End, label));
                self.put(Instr::Label(LabelKind::Else, label));
                let ghost mid = asm_of(self.code@);
                match &if_else.else_statement {
                    Some(else_statement) => {
                        assert(opt_view(if_else.else_statement) == Some(Box::new(else_statement@)));
                        let ghost x = code_of(emit(else_statement@, self.next_label as nat));
                        match self.gen(else_statement) {
                            Err(e) => {
                                return Err(e);
                            },
                            Ok(()) => {},
                        }
                        self.put(Instr::Label(LabelKind::End, label));
                        assert(asm_of(self.code@) =~= start + (c + seq![
                            Instr::Pop(Reg::Rax),
                            Instr::CmpZero(Reg::Rax),
                            Instr::Je(LabelKind::Else, label),
                        ] + t + seq![
                            Instr::Jmp(LabelKind::End, label),
                            Instr::Label(LabelKind::Else, label),
                        ] + x + seq![Instr::Label(LabelKind::End, label)]));
                    },
                    None => {
                        self.put(Instr::PushImm(0));
                        self.put(Instr::Label(LabelKind::End, label));
                        assert(asm_of(self.code@) =~= start + (c + seq![
                            Instr::Pop(Reg::Rax),
                            Instr::CmpZero(Reg::Rax),
                            Instr::Je(LabelKind::Else, label),
                        ] + t + seq![
                            Instr::Jmp(LabelKind::End, label),
                            Instr::Label(LabelKind::Else, label),
                            Instr::PushImm(0),
                            Instr::Label(LabelKind::End, label),
                        ]));
                    },
                }
            },
            _ => {},
        }
        Ok(())
    }

    /// Emits the code for a loop.
    #[verifier::spinoff_prover]
    #[verifier::rlimit(40)]
    fn gen_for(&mut self, node: &Node) -> (r: Result<(), GenerateError>)
        requires
            *node is For,
        ensures
            emitted(*old(self), *final(self), emit(node@, old(self).next_label as nat), r),
            r is Ok ==> final(self).next_label == old(self).next_label + label_demand(node@),
            refused_outright(node@, old(self).next_label as nat) ==> *final(self) == *old(self),
        decreases node, 1nat,
    {
        let ghost start = asm_of(self.code@);
        let ghost k0 = self.next_label as nat;
        match node {
            Node::For(for_) => {
                assert(label_demand(node@) == 1 + label_demand_opt(opt_view(for_.init))
                    + label_demand_opt(opt_view(for_.cond)) + label_demand(for_.body@)
                    + label_demand_opt(opt_view(for_.next)));
                if self.next_label == usize::MAX {
                    return Err(GenerateError::TooManyLabels);
                }
                let label = self.assign_next_label();
                let ghost i = code_of(emit_opt(opt_view(for_.init), self.next_label as nat));
                if let Some(init) = &for_.init {
                    assert(opt_view(for_.init) == Some(Box::new(init@)));
                    match self.gen(init) {
                        Err(e) => {
                            return Err(e);
                        },
                        Ok(()) => {},
                    }
                    self.put(Instr::Pop(Reg::Rax));
                }
                assert(asm_of(self.code@) =~= start + discarded(opt_view(for_.init), i));
                self.put(Instr::Label(LabelKind::Begin, label));
                let ghost head = discarded(opt_view(for_.init), i) + seq![Instr::Label(LabelKind::Begin, label)];
                assert(asm_of(self.code@) =~= start + head);
                let ghost c = code_of(emit_opt(opt_view(for_.cond), self.next_label as nat));
                let ghost before_cond = asm_of(self.code@);
                assert(before_cond == start + head);
                if let Some(cond) = &for_.cond {
                    assert(opt_view(for_.cond) == Some(Box::new(cond@)));
                    match self.gen(cond) {
                        Err(e) => {
                            return Err(e);
                        },
                        Ok(()) => {},
                    }
                    self.put(Instr::Pop(Reg::Rax));
                    self.put(Instr::CmpZero(Reg::Rax));
                    self.put(Instr::Je(LabelKind::End, label));
                }
                let ghost cc = if for_.cond is Some {
                    c + seq![
                        Instr::Pop(Reg::Rax),
                        Instr::CmpZero(Reg::Rax),
                        Instr::Je(LabelKind::End, label),
                    ]
                } else {
                    Seq::empty()
                };
                assert(asm_of(self.code@) =~= start + (discarded(opt_view(for_.init), i) + seq![
                    Instr::Label(LabelKind::Begin, label),
                ] + cc));
                let ghost b = code_of(emit(for_.body@, self.next_label as nat));
                match self.gen(&for_.body) {
                    Err(e) => {
                        return Err(e);
                    },
                    Ok(()) => {},
                }
                self.put(Instr::Pop(Reg::Rax));
                let ghost before_next = asm_of(self.code@);
                let ghost st = code_of(emit_opt(opt_view(for_.next), self.next_label as nat));
                if let Some(next) = &for_.next {
                    assert(opt_view(for_.next) == Some(Box::new(next@)));
                    match self.gen(next) {
                        Err(e) => {
                            return Err(e);
                        },
                        Ok(()) => {},
                    }
                    self.put(Instr::Pop(Reg::Rax));
                }
                assert(asm_of(self.code@) =~= before_next + discarded(opt_view(for_.next), st));
                self.put(Instr::Jmp(LabelKind::Begin, label));
                self.put(Instr::Label(LabelKind::End, label));
                self.put(Instr::PushImm(0));
                assert(asm_of(self.code@) =~= start + (discarded(opt_view(for_.init), i) + seq![
                    Instr::Label(LabelKind::Begin, label),
                ] + cc + b + seq![Instr::Pop(Reg::Rax)] + discarded(opt_view(for_.next), st) + seq![
                    Instr::Jmp(LabelKind::Begin, label),
                    Instr::Label(LabelKind::End, label),
                    Instr::PushImm(0),
                ]));
            },
            _ => {},
        }
        Ok(())
    }

    /// Emits the code for a call.
    fn gen_call(&mut self, node: &Node) -> (r: Result<(), GenerateError>)
        requires
            *node is CallFunction,
        ensures
            emitted(*old(self), *final(self), emit(node@, old(self).next_label as nat), r),
            r is Ok ==> final(self).next_label == old(self).next_label + label_demand(node@),
            refused_outright(node@, old(self).next_label as nat) ==> *final(self) == *old(self),
        decreases node, 1nat,
    {
        let ghost start = asm_of(self.code@);
        let ghost k0 = self.next_label as nat;
        match node {
            Node::CallFunction(call_function) => {
                proof {
                    lemma_nodes_view(call_function.args@);
                }
                if call_function.args.len() > 6 {
                    return Err(GenerateError::CallArgsOverFlow);
                }
                let ghost a = code_of(emit_args(nodes_view(call_function.args@), k0));
                match self.gen_args(&call_function.args) {
                    Err(e) => {
                        return Err(e);
                    },
                    Ok(()) => {},
                }
                let ghost mid = asm_of(self.code@);
                let n = call_function.args.len();
                proof {
                    lemma_nodes_view(call_function.args@);
                }
                let mut i: usize = 0;
                while i < n
                    invariant
                        0 <= i <= n,
                        n <= 6,
                        asm_of(self.code@) == mid + arg_pops(i as nat),
                        self.next_label == old(self).next_label + label_demand(node@),
                    decreases n - i,
                {
                    let reg = arg_register(i);
                    self.put(Instr::Pop(reg));
                    assert(arg_pops(i as nat + 1) =~= arg_pops(i as nat).push(Instr::Pop(reg)));
                    i = i + 1;
                }
                self.put(Instr::Call(call_function.name.clone()));
                self.put(Instr::Push(Reg::Rax));
                assert(asm_of(self.code@) =~= start + (a + arg_pops(n as nat) + seq![
                    Instr::Call(call_function.name@),
                    Instr::Push(Reg::Rax),
                ]));
            },
            _ => {},
        }
        Ok(())
    }

    /// Emits the code for a function definition.
    fn gen_function(&mut self, node: &Node) -> (r: Result<(), GenerateError>)
        requires
            *node is DefineFunction,
        ensures
            emitted(*old(self), *final(self), emit(node@, old(self).next_label as nat), r),
            r is Ok ==> final(self).next_label == old(self).next_label + label_demand(node@),
        decreases node, 1nat,
    {
        let ghost start = asm_of(self.code@);
        let ghost k0 = self.next_label as nat;
        match node {
            Node::DefineFunction(define_function) => {
                self.put(Instr::Symbol(define_function.name.clone()));
                self.put(Instr::Push(Reg::Rbp));
                self.put(Instr::Mov(Reg::Rbp, Reg::Rsp));
                let ghost mid = asm_of(self.code@);
                let n = if define_function.params.len() < 6 {
                    define_function.params.len()
                } else {
                    6
                };
                let mut i: usize = 0;
                while i < n
                    invariant
                        0 <= i <= n,
                        n <= 6,
                        asm_of(self.code@) == mid + arg_pushes(i as nat),
                        self.next_label == old(self).next_label,
                    decreases n - i,
                {
                    let reg = arg_register(i);
                    self.put(Instr::Push(reg));
                    assert(arg_pushes(i as nat + 1) =~= arg_pushes(i as nat).push(Instr::Push(reg)));
                    i = i + 1;
                }
                let ghost b = code_of(emit_stmts(nodes_view(define_function.statements@), k0));
                match self.gen_stmts(&define_function.statements) {
                    Err(e) => {
                        return Err(e);
                    },
                    Ok(()) => {},
                }
                self.put(Instr::Mov(Reg::Rsp, Reg::Rbp));
                self.put(Instr::Pop(Reg::Rbp));
                self.put(Instr::Ret);
                assert(asm_of(self.code@) =~= start + (seq![
                    Instr::Symbol(define_function.name@),
                    Instr::Push(Reg::Rbp),
                    Instr::Mov(Reg::Rbp, Reg::Rsp),
                ] + arg_pushes(n as nat) + b + epilogue()));
            },
            _ => {},
        }
        Ok(())
    }

    /// Emits the statements of a block or function body, each followed by `pop rax`.
    fn gen_stmts(&mut self, stmts: &Vec<Node>) -> (r: Result<(), GenerateError>)
        ensures
            emitted(*old(self), *final(self), emit_stmts(nodes_view(stmts@), old(self).next_label as nat), r),
            r is Ok ==> final(self).next_label == old(self).next_label + label_demand_stmts(
                nodes_view(stmts@),
            ),
        decreases stmts, 0nat,
    {
        let ghost start = asm_of(self.code@);
        let ghost k0 = self.next_label as nat;
        let ghost all = nodes_view(stmts@);
        proof {
            lemma_nodes_view(stmts@);
            assert(stmts@.take(0) =~= Seq::<Node>::empty());
            assert(nodes_view(stmts@.take(0)) =~= Seq::<NodeView>::empty());
            assert(asm_of(self.code@).subrange(start.len() as int, start.len() as int) =~= Seq::<Asm>::empty());
            assert(asm_of(self.code@).subrange(0, start.len() as int) =~= start);
            assert(nodes_view(stmts@.take(stmts@.len() as int)) == all) by {
                assert(stmts@.take(stmts@.len() as int) =~= stmts@);
            }
        }
        let mut i: usize = 0;
        while i < stmts.len()
            invariant
                0 <= i <= stmts@.len(),
                all == nodes_view(stmts@),
                all.len() == stmts@.len(),
                k0 == old(self).next_label,
                emit_stmts(nodes_view(stmts@.take(i as int)), k0) == Ok::<(Seq<Asm>, nat), GenerateError>(
                    (asm_of(self.code@).subrange(start.len() as int, asm_of(self.code@).len() as int), self.next_label as nat),
                ),
                asm_of(self.code@).len() >= start.len(),
                asm_of(self.code@).subrange(0, start.len() as int) == start,
                self.next_label == k0 + label_demand_stmts(nodes_view(stmts@.take(i as int))),
            decreases stmts@.len() - i,
        {
            proof {
                lemma_nodes_view(stmts@);
                lemma_nodes_view_take(stmts@, i as int);
                assert(nodes_view(stmts@.take(i as int + 1)) =~= all.take(i as int + 1)) by {
                    lemma_nodes_view(stmts@.take(i as int + 1));
                }
                assert(nodes_view(stmts@.take(i as int)) =~= all.take(i as int)) by {
                    lemma_nodes_view(stmts@.take(i as int));
                }
            }
            let ghost mid = asm_of(self.code@);
            let ghost ki = self.next_label as nat;
            match self.gen(&stmts[i]) {
                Err(e) => {
                    proof {
                        assert(all.take(i as int + 1).drop_last() =~= all.take(i as int));
                        assert(all.take(i as int + 1).last() == all[i as int]);
                        assert(emit_stmts(all.take(i as int), k0) is Ok);
                        assert(emit(all[i as int], ki) == Err::<(Seq<Asm>, nat), GenerateError>(e));
                        assert(emit_stmts(all.take(i as int + 1), k0) == Err::<(Seq<Asm>, nat), GenerateError>(e));
                        lemma_stmts_err_prefix(all, i as int + 1, k0);
                    }
                    return Err(e);
                },
                Ok(()) => {},
            }
            self.put(Instr::Pop(Reg::Rax));
            proof {
                let c = asm_of(self.code@);
                let b = code_of(emit(node_view(stmts@[i as int]), (k0 + label_demand_stmts(nodes_view(stmts@.take(i as int)))) as nat));
                assert(c.subrange(start.len() as int, c.len() as int) =~= mid.subrange(start.len() as int, mid.len() as int) + b + seq![Instr::Pop(Reg::Rax)]);
                assert(c.subrange(0, start.len() as int) =~= mid.subrange(0, start.len() as int));
            }
            i = i + 1;
        }
        proof {
            assert(stmts@.take(i as int) =~= stmts@);
            let c = asm_of(self.code@);
            assert(c =~= start + c.subrange(start.len() as int, c.len() as int));
        }
        Ok(())
    }

    /// Emits the arguments of a call, the last one first.
    fn gen_args(&mut self, args: &Vec<Node>) -> (r: Result<(), GenerateError>)
        ensures
            emitted(*old(self), *final(self), emit_args(nodes_view(args@), old(self).next_label as nat), r),
            r is Ok ==> final(self).next_label == old(self).next_label + label_demand_args(
                nodes_view(args@),
            ),
        decreases args, 0nat,
    {
        let ghost start = asm_of(self.code@);
        let ghost k0 = self.next_label as nat;
        let ghost all = nodes_view(args@);
        let ghost n = args@.len() as int;
        proof {
            lemma_nodes_view(args@);
            assert(args@.subrange(n, n) =~= Seq::<Node>::empty());
            assert(nodes_view(args@.subrange(n, n)) =~= Seq::<NodeView>::empty());
            assert(asm_of(self.code@).subrange(start.len() as int, start.len() as int) =~= Seq::<Asm>::empty());
            assert(asm_of(self.code@).subrange(0, start.len() as int) =~= start);
            assert(args@.subrange(0, n) =~= args@);
        }
        let mut j: usize = args.len();
        while j > 0
            invariant
                0 <= j <= n,
                n == args@.len(),
                all == nodes_view(args@),
                all.len() == n,
                k0 == old(self).next_label,
                emit_args(nodes_view(args@.subrange(j as int, n)), k0) == Ok::<(Seq<Asm>, nat), GenerateError>(
                    (asm_of(self.code@).subrange(start.len() as int, asm_of(self.code@).len() as int), self.next_label as nat),
                ),
                asm_of(self.code@).len() >= start.len(),
                asm_of(self.code@).subrange(0, start.len() as int) == start,
                self.next_label == k0 + label_demand_args(nodes_view(args@.subrange(j as int, n))),
            decreases j,
        {
            proof {
                lemma_nodes_view(args@);
                lemma_nodes_view_suffix(args@, j as int - 1);
                assert(nodes_view(args@.subrange(j as int - 1, n)) =~= all.subrange(j as int - 1, n)) by {
                    lemma_nodes_view(args@.subrange(j as int - 1, n));
                    lemma_nodes_view(args@);
                }
                assert(nodes_view(args@.subrange(j as int, n)) =~= all.subrange(j as int, n)) by {
                    lemma_nodes_view(args@.subrange(j as int, n));
                    lemma_nodes_view(args@);
                }
            }
            let ghost mid = asm_of(self.code@);
            match self.gen(&args[j - 1]) {
                Err(e) => {
                    proof {
                        assert(all.subrange(j as int - 1, n).drop_first() =~= all.subrange(j as int, n));
                        assert(all.subrange(j as int - 1, n)[0] == all[j as int - 1]);
                        lemma_args_err_suffix(all, j as int - 1, k0);
                    }
                    return Err(e);
                },
                Ok(()) => {},
            }
            proof {
                let c = asm_of(self.code@);
                let b = code_of(emit(node_view(args@[j as int - 1]), (k0 + label_demand_args(nodes_view(args@.subrange(j as int, n)))) as nat));
                assert(c.subrange(start.len() as int, c.len() as int) =~= mid.subrange(start.len() as int, mid.len() as int) + b);
                assert(c.subrange(0, start.len() as int) =~= mid.subrange(0, start.len() as int));
            }
            j = j - 1;
        }
        proof {
            let c = asm_of(self.code@);
            assert(c =~= start + c.subrange(start.len() as int, c.len() as int));
        }
        Ok(())
    }

    fn put(&mut self, i: Instr<String>)
        ensures
            asm_of(final(self).code@) == asm_of(old(self).code@).push(i@),
            final(self).next_label == old(self).next_label,
    {
        let ghost before = self.code@;
        self.code.push(i);
        assert(asm_of(self.code@) =~= asm_of(before).push(i@));
    }
}

} // verus!
