use vstd::prelude::*;

use crate::ast::{NodeView, Operator2, Type};
use crate::locals::{env_add, lookup, slot_offset, Env};
use crate::tokenizer::TokenView;

verus! {

/// The model of a parse error.
pub enum ParseErrorView {
    ExpectReserved(Seq<char>),
    ExpectNumber,
    ExpectFunctionDefine,
    ExpectInt(TokenView),
    ExpectIdent,
    NotDefinedVariable(Seq<char>),
    NotDefinedFunction(Seq<char>),
}

/// An expression and the position after it.
pub type ExprParse = Result<(NodeView, int), ParseErrorView>;

/// A statement, the position after it and the symbol table after it.
pub type StmtParse = Result<(NodeView, int, Env), ParseErrorView>;

/// The token at `p`; past the end, the end marker.
pub open spec fn tok(t: Seq<TokenView>, p: int) -> TokenView {
    if 0 <= p < t.len() {
        t[p]
    } else {
        TokenView::Eof
    }
}

pub open spec fn is_punct(t: Seq<TokenView>, p: int, w: Seq<char>) -> bool {
    tok(t, p) == TokenView::Reserved(w)
}

/// Where parsing goes on after a sub-parse that started after `p` and ended
/// at `q`. Every sub-parse ends past its start and within the tokens, so this
/// is `q` itself; the bound only makes the grammar well founded.
pub open spec fn resume(t: Seq<TokenView>, p: int, q: int) -> int {
    if p < q && q <= t.len() {
        q
    } else {
        p + 1
    }
}

pub open spec fn binary(op: Operator2, left: NodeView, right: NodeView) -> NodeView {
    NodeView::Op2 { op, left: Box::new(left), right: Box::new(right) }
}

/// `expr = assign`
pub open spec fn p_expr(t: Seq<TokenView>, p: int, env: Env) -> ExprParse
    decreases t.len() - p, 11nat,
{
    p_assign(t, p, env)
}

/// `assign = equality [ "=" assign ]`
pub open spec fn p_assign(t: Seq<TokenView>, p: int, env: Env) -> ExprParse
    decreases t.len() - p, 10nat,
{
    match p_equality(t, p, env) {
        Err(e) => Err(e),
        Ok((lhs, q)) => if is_punct(t, q, "="@) && p < t.len() {
            match p_assign(t, resume(t, p, q + 1), env) {
                Err(e) => Err(e),
                Ok((rhs, q2)) => Ok(
                    (NodeView::Assign { left: Box::new(lhs), right: Box::new(rhs) }, q2),
                ),
            }
        } else {
            Ok((lhs, q))
        },
    }
}

/// `equality = relational { ("==" | "!=") relational }`
pub open spec fn p_equality(t: Seq<TokenView>, p: int, env: Env) -> ExprParse
    decreases t.len() - p, 9nat,
{
    match p_relational(t, p, env) {
        Err(e) => Err(e),
        Ok((lhs, q)) => if p < t.len() {
            p_equality_rest(t, resume(t, p, q), env, lhs)
        } else {
            Ok((lhs, q))
        },
    }
}

pub open spec fn p_equality_rest(t: Seq<TokenView>, p: int, env: Env, lhs: NodeView) -> ExprParse
    decreases t.len() - p, 8nat,
{
    let op = if is_punct(t, p, "=="@) {
        Some(Operator2::Eq)
    } else if is_punct(t, p, "!="@) {
        Some(Operator2::Ne)
    } else {
        None
    };
    match op {
        Some(op) => match p_relational(t, p + 1, env) {
            Err(e) => Err(e),
            Ok((rhs, q)) => p_equality_rest(t, resume(t, p, q), env, binary(op, lhs, rhs)),
        },
        None => Ok((lhs, p)),
    }
}

/// `relational = add { ("<" | "<=" | ">" | ">=") add }`; `>` and `>=` swap
/// their operands into `<` and `<=`.
pub open spec fn p_relational(t: Seq<TokenView>, p: int, env: Env) -> ExprParse
    decreases t.len() - p, 7nat,
{
    match p_add(t, p, env) {
        Err(e) => Err(e),
        Ok((lhs, q)) => if p < t.len() {
            p_relational_rest(t, resume(t, p, q), env, lhs)
        } else {
            Ok((lhs, q))
        },
    }
}

pub open spec fn p_relational_rest(t: Seq<TokenView>, p: int, env: Env, lhs: NodeView) -> ExprParse
    decreases t.len() - p, 6nat,
{
    if is_punct(t, p, "<"@) || is_punct(t, p, "<="@) || is_punct(t, p, ">"@) || is_punct(t, p, ">="@) {
        match p_add(t, p + 1, env) {
            Err(e) => Err(e),
            Ok((rhs, q)) => {
                let node = if is_punct(t, p, "<"@) {
                    binary(Operator2::Lt, lhs, rhs)
                } else if is_punct(t, p, "<="@) {
                    binary(Operator2::Lte, lhs, rhs)
                } else if is_punct(t, p, ">"@) {
                    binary(Operator2::Lt, rhs, lhs)
                } else {
                    binary(Operator2::Lte, rhs, lhs)
                };
                p_relational_rest(t, resume(t, p, q), env, node)
            },
        }
    } else {
        Ok((lhs, p))
    }
}

/// `add = mul { ("+" | "-") mul }`
pub open spec fn p_add(t: Seq<TokenView>, p: int, env: Env) -> ExprParse
    decreases t.len() - p, 5nat,
{
    match p_mul(t, p, env) {
        Err(e) => Err(e),
        Ok((lhs, q)) => if p < t.len() {
            p_add_rest(t, resume(t, p, q), env, lhs)
        } else {
            Ok((lhs, q))
        },
    }
}

pub open spec fn p_add_rest(t: Seq<TokenView>, p: int, env: Env, lhs: NodeView) -> ExprParse
    decreases t.len() - p, 4nat,
{
    let op = if is_punct(t, p, "+"@) {
        Some(Operator2::Add)
    } else if is_punct(t, p, "-"@) {
        Some(Operator2::Sub)
    } else {
        None
    };
    match op {
        Some(op) => match p_mul(t, p + 1, env) {
            Err(e) => Err(e),
            Ok((rhs, q)) => p_add_rest(t, resume(t, p, q), env, binary(op, lhs, rhs)),
        },
        None => Ok((lhs, p)),
    }
}

/// `mul = unary { ("*" | "/") unary }`
pub open spec fn p_mul(t: Seq<TokenView>, p: int, env: Env) -> ExprParse
    decreases t.len() - p, 3nat,
{
    match p_unary(t, p, env) {
        Err(e) => Err(e),
        Ok((lhs, q)) => if p < t.len() {
            p_mul_rest(t, resume(t, p, q), env, lhs)
        } else {
            Ok((lhs, q))
        },
    }
}

pub open spec fn p_mul_rest(t: Seq<TokenView>, p: int, env: Env, lhs: NodeView) -> ExprParse
    decreases t.len() - p, 2nat,
{
    let op = if is_punct(t, p, "*"@) {
        Some(Operator2::Mul)
    } else if is_punct(t, p, "/"@) {
        Some(Operator2::Div)
    } else {
        None
    };
    match op {
        Some(op) => match p_unary(t, p + 1, env) {
            Err(e) => Err(e),
            Ok((rhs, q)) => p_mul_rest(t, resume(t, p, q), env, binary(op, lhs, rhs)),
        },
        None => Ok((lhs, p)),
    }
}

/// `unary = "+" primary | "-" primary | "*" unary | "&" unary | primary`;
/// `-x` is `0 - x`.
pub open spec fn p_unary(t: Seq<TokenView>, p: int, env: Env) -> ExprParse
    decreases t.len() - p, 1nat,
{
    if is_punct(t, p, "+"@) {
        p_primary(t, p + 1, env)
    } else if is_punct(t, p, "-"@) {
        match p_primary(t, p + 1, env) {
            Err(e) => Err(e),
            Ok((v, q)) => Ok((binary(Operator2::Sub, NodeView::Num(0), v), q)),
        }
    } else if is_punct(t, p, "*"@) {
        match p_unary(t, p + 1, env) {
            Err(e) => Err(e),
            Ok((v, q)) => Ok((NodeView::Deref(Box::new(v)), q)),
        }
    } else if is_punct(t, p, "&"@) {
        match p_unary(t, p + 1, env) {
            Err(e) => Err(e),
            Ok((v, q)) => Ok((NodeView::Addr(Box::new(v)), q)),
        }
    } else {
        p_primary(t, p, env)
    }
}

/// `primary = "(" expr ")" | ident "(" [ expr { "," expr } ] ")" | ident | number`
pub open spec fn p_primary(t: Seq<TokenView>, p: int, env: Env) -> ExprParse
    decreases t.len() - p, 0nat,
{
    if is_punct(t, p, "("@) {
        match p_expr(t, p + 1, env) {
            Err(e) => Err(e),
            Ok((v, q)) => if is_punct(t, q, ")"@) {
                Ok((v, q + 1))
            } else {
                Err(ParseErrorView::ExpectReserved(")"@))
            },
        }
    } else {
        match tok(t, p) {
            TokenView::Ident(name) => if is_punct(t, p + 1, "("@) {
                if is_punct(t, p + 2, ")"@) {
                    Ok((NodeView::Call { name, args: Seq::empty(), return_type: Some(Type::Int) }, p + 3))
                } else {
                    match p_expr(t, p + 2, env) {
                        Err(e) => Err(e),
                        Ok((a, q)) => match p_args_rest(t, resume(t, p + 1, q), env, seq![a]) {
                            Err(e) => Err(e),
                            Ok((args, q2)) => Ok(
                                (NodeView::Call { name, args, return_type: Some(Type::Int) }, q2),
                            ),
                        },
                    }
                }
            } else {
                match lookup(env, name) {
                    Some(i) => Ok(
                        (
                            NodeView::LocalVar {
                                name,
                                offset: slot_offset(i) as usize,
                                ty: env[i].1,
                            },
                            p + 1,
                        ),
                    ),
                    None => Err(ParseErrorView::NotDefinedVariable(name)),
                }
            },
            TokenView::Num(v) => Ok((NodeView::Num(v), p + 1)),
            _ => Err(ParseErrorView::ExpectNumber),
        }
    }
}

/// The arguments after the first: `{ "," expr } ")"`.
pub open spec fn p_args_rest(t: Seq<TokenView>, p: int, env: Env, acc: Seq<NodeView>) -> Result<
    (Seq<NodeView>, int),
    ParseErrorView,
>
    decreases t.len() - p, 12nat,
{
    if is_punct(t, p, ")"@) {
        Ok((acc, p + 1))
    } else if is_punct(t, p, ","@) {
        match p_expr(t, p + 1, env) {
            Err(e) => Err(e),
            Ok((a, q)) => p_args_rest(t, resume(t, p, q), env, acc.push(a)),
        }
    } else {
        Err(ParseErrorView::ExpectReserved(","@))
    }
}

/// `{ "*" }` after `int`, each star one level of pointer.
pub open spec fn type_stars(t: Seq<TokenView>, p: int, ty: Type) -> (Type, int)
    decreases t.len() - p,
{
    if is_punct(t, p, "*"@) {
        type_stars(t, p + 1, Type::Ptr(Box::new(ty)))
    } else {
        (ty, p)
    }
}

/// `type = "int" { "*" }`
pub open spec fn p_type(t: Seq<TokenView>, p: int) -> Result<(Type, int), ParseErrorView> {
    if tok(t, p) is Int {
        Ok(type_stars(t, p + 1, Type::Int))
    } else {
        Err(ParseErrorView::ExpectInt(tok(t, p)))
    }
}

/// `param = type ident`
pub open spec fn p_param(t: Seq<TokenView>, p: int) -> Result<((Seq<char>, Type), int), ParseErrorView> {
    match p_type(t, p) {
        Err(e) => Err(e),
        Ok((ty, q)) => match tok(t, q) {
            TokenView::Ident(name) => Ok(((name, ty), q + 1)),
            _ => Err(ParseErrorView::ExpectIdent),
        },
    }
}

/// An optional expression followed by `close`: `[ expr ] close`.
pub open spec fn p_opt_expr(t: Seq<TokenView>, p: int, env: Env, close: Seq<char>) -> Result<
    (Option<Box<NodeView>>, int),
    ParseErrorView,
> {
    if is_punct(t, p, close) {
        Ok((None, p + 1))
    } else {
        match p_expr(t, p, env) {
            Err(e) => Err(e),
            Ok((v, q)) => if is_punct(t, q, close) {
                Ok((Some(Box::new(v)), q + 1))
            } else {
                Err(ParseErrorView::ExpectReserved(close))
            },
        }
    }
}

/// ```text
/// statement = block | declare
///           | "if" "(" expr ")" statement [ "else" statement ]
///           | "for" "(" [expr] ";" [expr] ";" [expr] ")" statement
///           | "while" "(" expr ")" statement
///           | [ "return" ] expr ";"
/// ```
/// `while (c) s` is `for (; c;) s`. A declaration adds its variable to the table.
pub open spec fn p_stmt(t: Seq<TokenView>, p: int, env: Env) -> StmtParse
    decreases t.len() - p, 1nat,
{
    if is_punct(t, p, "{"@) {
        match p_block_rest(t, p + 1, env, Seq::empty()) {
            Err(e) => Err(e),
            Ok((ss, q, env2)) => Ok((NodeView::Block(ss), q, env2)),
        }
    } else if tok(t, p) is Int {
        let (ty, q) = type_stars(t, p + 1, Type::Int);
        match tok(t, q) {
            TokenView::Ident(name) => if is_punct(t, q + 1, ";"@) {
                Ok((NodeView::DefineVar { name, ty }, q + 2, env_add(env, name, ty)))
            } else {
                Err(ParseErrorView::ExpectReserved(";"@))
            },
            _ => Err(ParseErrorView::ExpectIdent),
        }
    } else if tok(t, p) is If {
        p_if(t, p, env)
    } else if tok(t, p) is For {
        p_for(t, p, env)
    } else if tok(t, p) is While {
        p_while(t, p, env)
    } else {
        let is_return = tok(t, p) is Return;
        match p_expr(t, if is_return { p + 1 } else { p }, env) {
            Err(e) => Err(e),
            Ok((v, q)) => if is_punct(t, q, ";"@) {
                Ok((if is_return { NodeView::Return(Box::new(v)) } else { v }, q + 1, env))
            } else {
                Err(ParseErrorView::ExpectReserved(";"@))
            },
        }
    }
}

/// `"if" "(" expr ")" statement [ "else" statement ]`, with `if` at `p`.
pub open spec fn p_if(t: Seq<TokenView>, p: int, env: Env) -> StmtParse
    decreases t.len() - p, 0nat,
{
    if !(tok(t, p) is If) {
        Err(ParseErrorView::ExpectFunctionDefine)
    } else {
        if !is_punct(t, p + 1, "("@) {
            Err(ParseErrorView::ExpectReserved("("@))
        } else {
            match p_expr(t, p + 2, env) {
                Err(e) => Err(e),
                Ok((c, q)) => if !is_punct(t, q, ")"@) {
                    Err(ParseErrorView::ExpectReserved(")"@))
                } else {
                    match p_stmt(t, resume(t, p, q + 1), env) {
                        Err(e) => Err(e),
                        Ok((th, q2, env2)) => if tok(t, q2) is Else {
                            match p_stmt(t, resume(t, p, q2 + 1), env2) {
                                Err(e) => Err(e),
                                Ok((el, q3, env3)) => Ok(
                                    (
                                        NodeView::IfElse {
                                            cond: Box::new(c),
                                            then_: Box::new(th),
                                            else_: Some(Box::new(el)),
                                        },
                                        q3,
                                        env3,
                                    ),
                                ),
                            }
                        } else {
                            Ok(
                                (
                                    NodeView::IfElse { cond: Box::new(c), then_: Box::new(th), else_: None },
                                    q2,
                                    env2,
                                ),
                            )
                        },
                    }
                },
            }
        }
    }
}

/// `"for" "(" [expr] ";" [expr] ";" [expr] ")" statement`, with `for` at `p`.
pub open spec fn p_for(t: Seq<TokenView>, p: int, env: Env) -> StmtParse
    decreases t.len() - p, 0nat,
{
    if !(tok(t, p) is For) {
        Err(ParseErrorView::ExpectFunctionDefine)
    } else {
        if !is_punct(t, p + 1, "("@) {
            Err(ParseErrorView::ExpectReserved("("@))
        } else {
            match p_opt_expr(t, p + 2, env, ";"@) {
                Err(e) => Err(e),
                Ok((init, q1)) => match p_opt_expr(t, q1, env, ";"@) {
                    Err(e) => Err(e),
                    Ok((cond, q2)) => match p_opt_expr(t, q2, env, ")"@) {
                        Err(e) => Err(e),
                        Ok((next, q3)) => match p_stmt(t, resume(t, p, q3), env) {
                            Err(e) => Err(e),
                            Ok((body, q4, env2)) => Ok(
                                (NodeView::For { init, cond, next, body: Box::new(body) }, q4, env2),
                            ),
                        },
                    },
                },
            }
        }
    }
}

/// `"while" "(" expr ")" statement`, with `while` at `p`, as `for (; expr;) statement`.
pub open spec fn p_while(t: Seq<TokenView>, p: int, env: Env) -> StmtParse
    decreases t.len() - p, 0nat,
{
    if !(tok(t, p) is While) {
        Err(ParseErrorView::ExpectFunctionDefine)
    } else {
        if !is_punct(t, p + 1, "("@) {
            Err(ParseErrorView::ExpectReserved("("@))
        } else {
            match p_expr(t, p + 2, env) {
                Err(e) => Err(e),
                Ok((c, q)) => if !is_punct(t, q, ")"@) {
                    Err(ParseErrorView::ExpectReserved(")"@))
                } else {
                    match p_stmt(t, resume(t, p, q + 1), env) {
                        Err(e) => Err(e),
                        Ok((body, q2, env2)) => Ok(
                            (
                                NodeView::For {
                                    init: None,
                                    cond: Some(Box::new(c)),
                                    next: None,
                                    body: Box::new(body),
                                },
                                q2,
                                env2,
                            ),
                        ),
                    }
                },
            }
        }
    }
}

/// The statements of a block up to its closing brace: `{ statement } "}"`.
pub open spec fn p_block_rest(t: Seq<TokenView>, p: int, env: Env, acc: Seq<NodeView>) -> Result<
    (Seq<NodeView>, int, Env),
    ParseErrorView,
>
    decreases t.len() - p, 2nat,
{
    if is_punct(t, p, "}"@) {
        Ok((acc, p + 1, env))
    } else {
        match p_stmt(t, p, env) {
            Err(e) => Err(e),
            Ok((st, q, env2)) => if p < t.len() {
                p_block_rest(t, resume(t, p, q), env2, acc.push(st))
            } else {
                Err(ParseErrorView::ExpectReserved("}"@))
            },
        }
    }
}

/// The parameters after `(` up to the closing `)`.
pub open spec fn p_params(t: Seq<TokenView>, p: int) -> Result<(Seq<(Seq<char>, Type)>, int), ParseErrorView> {
    if is_punct(t, p, ")"@) {
        Ok((Seq::empty(), p + 1))
    } else {
        match p_param(t, p) {
            Err(e) => Err(e),
            Ok((x, q)) => p_params_rest(t, q, seq![x]),
        }
    }
}

pub open spec fn p_params_rest(t: Seq<TokenView>, p: int, acc: Seq<(Seq<char>, Type)>) -> Result<
    (Seq<(Seq<char>, Type)>, int),
    ParseErrorView,
>
    decreases t.len() - p,
{
    if is_punct(t, p, ")"@) {
        Ok((acc, p + 1))
    } else if is_punct(t, p, ","@) {
        match p_param(t, p + 1) {
            Err(e) => Err(e),
            Ok((x, q)) => p_params_rest(t, resume(t, p, q), acc.push(x)),
        }
    } else {
        Err(ParseErrorView::ExpectReserved(","@))
    }
}

/// The symbol table that holds the parameters of a function.
pub open spec fn params_env(ps: Seq<(Seq<char>, Type)>) -> Env
    decreases ps.len(),
{
    if ps.len() == 0 {
        Seq::empty()
    } else {
        env_add(params_env(ps.drop_last()), ps.last().0, ps.last().1)
    }
}

/// `function = "int" ident "(" [ param { "," param } ] ")" block`; the symbol
/// table starts from the parameters.
pub open spec fn p_function(t: Seq<TokenView>, p: int) -> ExprParse {
    if !(tok(t, p) is Int) {
        Err(ParseErrorView::ExpectInt(tok(t, p)))
    } else {
        match tok(t, p + 1) {
            TokenView::Ident(name) => if !is_punct(t, p + 2, "("@) {
                Err(ParseErrorView::ExpectReserved("("@))
            } else {
                match p_params(t, p + 3) {
                    Err(e) => Err(e),
                    Ok((ps, q)) => if !is_punct(t, q, "{"@) {
                        Err(ParseErrorView::ExpectReserved("{"@))
                    } else {
                        match p_block_rest(t, q + 1, params_env(ps), Seq::empty()) {
                            Err(e) => Err(e),
                            Ok((body, q2, _)) => Ok((NodeView::Function { name, params: ps, body }, q2)),
                        }
                    }
                }
            },
            _ => Err(ParseErrorView::ExpectIdent),
        }
    }
}

/// The functions from position `p` to the end marker.
pub open spec fn p_program_rest(t: Seq<TokenView>, p: int, acc: Seq<NodeView>) -> Result<
    Seq<NodeView>,
    ParseErrorView,
>
    decreases t.len() - p,
{
    if tok(t, p) is Eof {
        Ok(acc)
    } else {
        match p_function(t, p) {
            Err(e) => Err(e),
            Ok((f, q)) => p_program_rest(t, resume(t, p, q), acc.push(f)),
        }
    }
}

/// `program = { function }`
pub open spec fn p_program(t: Seq<TokenView>) -> Result<Seq<NodeView>, ParseErrorView> {
    p_program_rest(t, 0, Seq::empty())
}

} // verus!
