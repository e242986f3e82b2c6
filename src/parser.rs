use vstd::prelude::*;

use crate::ast::{
    nodes_view, opt_view, params_view, DefineFunction, DefineVariable, For, IfElse, LocalVariable, Node,
    Operator2, Parameter, Type, CallFunction, lemma_nodes_view_push,
};
use crate::grammar::{
    binary, is_punct, p_add, p_add_rest, p_assign, p_block_rest, p_equality, p_equality_rest,
    p_expr, p_function, p_mul, p_mul_rest, p_opt_expr, p_param, p_params, p_params_rest,
    p_primary, p_program_rest, p_if, p_for, p_while, p_relational, p_relational_rest, p_args_rest, p_stmt, p_type,
    p_unary, params_env, resume, tok, type_stars, ExprParse, ParseErrorView, StmtParse,
};
use crate::locals::{env_add, lookup, Env, LocalVariableAssigner, MAX_LOCALS};
use crate::tokenizer::{tokens_view, Token, TokenView};

verus! {


/// Errors of parsing.
#[derive(Debug)]
pub enum ParseError {
    ExpectReserved(String),
    ExpectNumber,
    ExpectFunctionDefine,
    ExpectInt(Token),
    ExpectIdent,
    NotDefinedVariable(String),
    NotDefinedFunction(String),
}

impl View for ParseError {
    type V = ParseErrorView;

    open spec fn view(&self) -> ParseErrorView {
        match self {
            ParseError::ExpectReserved(s) => ParseErrorView::ExpectReserved(s@),
            ParseError::ExpectNumber => ParseErrorView::ExpectNumber,
            ParseError::ExpectFunctionDefine => ParseErrorView::ExpectFunctionDefine,
            ParseError::ExpectInt(t) => ParseErrorView::ExpectInt(t@),
            ParseError::ExpectIdent => ParseErrorView::ExpectIdent,
            ParseError::NotDefinedVariable(s) => ParseErrorView::NotDefinedVariable(s@),
            ParseError::NotDefinedFunction(s) => ParseErrorView::NotDefinedFunction(s@),
        }
    }
}

pub type ParseResult<T> = Result<T, ParseError>;

/// A cursor over a token sequence, with the symbol table of the function
/// being parsed and the names of the functions defined so far.
pub struct TokenStream {
    pub tokens: Vec<Token>,
    pub pos: usize,
    pub local_variables: LocalVariableAssigner,
    pub global_symbols: Vec<String>,
}

/// Whether two strings hold the same characters.
fn str_eq(a: &str, b: &str) -> (r: bool)
    ensures
        r == (a@ == b@),
{
    let n = a.unicode_len();
    if n != b.unicode_len() {
        return false;
    }
    let mut i: usize = 0;
    while i < n
        invariant
            n == a@.len(),
            n == b@.len(),
            0 <= i <= n,
            forall|k: int| 0 <= k < i ==> a@[k] == b@[k],
        decreases n - i,
    {
        if a.get_char(i) != b.get_char(i) {
            return false;
        }
        i = i + 1;
    }
    assert(a@ =~= b@);
    true
}

impl TokenStream {
    /// The token sequence ends in `Eof`, the cursor stands on a token, and
    /// the symbol table holds at most one variable per token consumed.
    pub open spec fn wf(&self) -> bool {
        &&& self.tokens@.len() > 0
        &&& self.tokens@.len() <= MAX_LOCALS
        &&& self.tokens@.last()@ is Eof
        &&& self.pos < self.tokens@.len()
        &&& self.local_variables.wf()
        &&& self.local_variables@.len() <= self.pos
    }

    pub open spec fn toks(&self) -> Seq<TokenView> {
        tokens_view(self.tokens@)
    }

    pub open spec fn env(&self) -> Env {
        self.local_variables@
    }

    /// `after` is `before` with only the cursor moved forward.
    pub open spec fn moved(before: TokenStream, after: TokenStream) -> bool {
        &&& after.wf()
        &&& after.tokens == before.tokens
        &&& after.global_symbols == before.global_symbols
        &&& after.local_variables == before.local_variables
        &&& before.pos <= after.pos
    }

    /// An expression parse from `before` to `after` that gave `r`, as the grammar says.
    pub open spec fn parsed(before: TokenStream, after: TokenStream, g: ExprParse, r: ParseResult<Node>) -> bool {
        &&& Self::moved(before, after)
        &&& match g {
            Ok((n, q)) => r matches Ok(node) && node@ == n && after.pos == q && before.pos < q,
            Err(e) => r matches Err(err) && err@ == e,
        }
    }

    /// A statement parse from `before` to `after` that gave `r`, as the grammar says.
    pub open spec fn parsed_stmt(before: TokenStream, after: TokenStream, g: StmtParse, r: ParseResult<Node>) -> bool {
        &&& after.wf()
        &&& after.tokens == before.tokens
        &&& after.global_symbols == before.global_symbols
        &&& match g {
            Ok((n, q, env)) => r matches Ok(node) && node@ == n && after.pos == q && before.pos < q
                && after.env() == env,
            Err(e) => r matches Err(err) && err@ == e,
        }
    }

    pub fn new(tokens: Vec<Token>) -> (r: Self)
        requires
            tokens@.len() > 0,
            tokens@.len() <= MAX_LOCALS,
            tokens@.last()@ is Eof,
        ensures
            r.wf(),
            r.tokens == tokens,
            r.pos == 0,
            r.env() == Seq::<(Seq<char>, Type)>::empty(),
            r.global_symbols@.len() == 0,
    {
        Self {
            tokens,
            pos: 0,
            local_variables: LocalVariableAssigner::new(),
            global_symbols: Vec::new(),
        }
    }

    fn peek(&self) -> (r: &Token)
        requires
            self.wf(),
        ensures
            r@ == tok(self.toks(), self.pos as int),
    {
        &self.tokens[self.pos]
    }

    fn advance(&mut self)
        requires
            old(self).wf(),
            !(tok(old(self).toks(), old(self).pos as int) is Eof),
        ensures
            Self::moved(*old(self), *final(self)),
            final(self).pos == old(self).pos + 1,
    {
        assert(self.pos + 1 < self.tokens@.len());
        self.pos = self.pos + 1;
    }

    /// Consumes the punctuator `op` if it is the next token.
    pub fn consume_reserve(&mut self, op: &str) -> (r: bool)
        requires
            old(self).wf(),
        ensures
            Self::moved(*old(self), *final(self)),
            r == is_punct(old(self).toks(), old(self).pos as int, op@),
            final(self).pos == if r {
                old(self).pos + 1
            } else {
                old(self).pos as int
            },
    {
        let hit = match self.peek() {
            Token::Reserved(s) => str_eq(s.as_str(), op),
            _ => false,
        };
        if hit {
            self.advance();
        }
        hit
    }

    /// Consumes the punctuator `op`, which must be the next token.
    pub fn expect(&mut self, op: &str) -> (r: ParseResult<()>)
        requires
            old(self).wf(),
        ensures
            Self::moved(*old(self), *final(self)),
            r is Ok == is_punct(old(self).toks(), old(self).pos as int, op@),
            r is Ok ==> final(self).pos == old(self).pos + 1,
            r matches Err(e) ==> e@ == ParseErrorView::ExpectReserved(op@),
    {
        if self.consume_reserve(op) {
            Ok(())
        } else {
            Err(ParseError::ExpectReserved(String::from_str(op)))
        }
    }

    /// Consumes a number, which must be the next token.
    pub fn expect_number(&mut self) -> (r: ParseResult<i64>)
        requires
            old(self).wf(),
        ensures
            Self::moved(*old(self), *final(self)),
            match tok(old(self).toks(), old(self).pos as int) {
                TokenView::Num(n) => r == Ok::<i64, ParseError>(n) && final(self).pos == old(self).pos + 1,
                _ => r matches Err(e) && e@ == ParseErrorView::ExpectNumber,
            },
    {
        match self.peek() {
            Token::Num(n) => {
                let n = *n;
                self.advance();
                Ok(n)
            },
            _ => Err(ParseError::ExpectNumber),
        }
    }

    /// Whether the next token is the end marker.
    pub fn at_eof(&mut self) -> (r: bool)
        requires
            old(self).wf(),
        ensures
            *final(self) == *old(self),
            r == tok(old(self).toks(), old(self).pos as int) is Eof,
    {
        match self.peek() {
            Token::Eof => true,
            _ => false,
        }
    }

    fn consume_ident(&mut self) -> (r: Option<String>)
        requires
            old(self).wf(),
        ensures
            Self::moved(*old(self), *final(self)),
            match tok(old(self).toks(), old(self).pos as int) {
                TokenView::Ident(name) => r matches Some(s) && s@ == name && final(self).pos == old(self).pos + 1,
                _ => r is None && final(self).pos == old(self).pos,
            },
    {
        match self.peek() {
            Token::Ident(n) => {
                let n = n.clone();
                self.advance();
                Some(n)
            },
            _ => None,
        }
    }

    fn expect_ident(&mut self) -> (r: ParseResult<String>)
        requires
            old(self).wf(),
        ensures
            Self::moved(*old(self), *final(self)),
            match tok(old(self).toks(), old(self).pos as int) {
                TokenView::Ident(name) => r matches Ok(s) && s@ == name && final(self).pos == old(self).pos + 1,
                _ => r matches Err(e) && e@ == ParseErrorView::ExpectIdent,
            },
    {
        match self.consume_ident() {
            Some(n) => Ok(n),
            None => Err(ParseError::ExpectIdent),
        }
    }

    fn consume_if(&mut self) -> (r: bool)
        requires
            old(self).wf(),
        ensures
            Self::moved(*old(self), *final(self)),
            r == tok(old(self).toks(), old(self).pos as int) is If,
            final(self).pos == if r {
                old(self).pos + 1
            } else {
                old(self).pos as int
            },
    {
        match self.peek() {
            Token::If => {
                self.advance();
                true
            },
            _ => false,
        }
    }

    fn consume_else(&mut self) -> (r: bool)
        requires
            old(self).wf(),
        ensures
            Self::moved(*old(self), *final(self)),
            r == tok(old(self).toks(), old(self).pos as int) is Else,
            final(self).pos == if r {
                old(self).pos + 1
            } else {
                old(self).pos as int
            },
    {
        match self.peek() {
            Token::Else => {
                self.advance();
                true
            },
            _ => false,
        }
    }

    fn consume_for(&mut self) -> (r: bool)
        requires
            old(self).wf(),
        ensures
            Self::moved(*old(self), *final(self)),
            r == tok(old(self).toks(), old(self).pos as int) is For,
            final(self).pos == if r {
                old(self).pos + 1
            } else {
                old(self).pos as int
            },
    {
        match self.peek() {
            Token::For => {
                self.advance();
                true
            },
            _ => false,
        }
    }

    fn consume_while(&mut self) -> (r: bool)
        requires
            old(self).wf(),
        ensures
            Self::moved(*old(self), *final(self)),
            r == tok(old(self).toks(), old(self).pos as int) is While,
            final(self).pos == if r {
                old(self).pos + 1
            } else {
                old(self).pos as int
            },
    {
        match self.peek() {
            Token::While => {
                self.advance();
                true
            },
            _ => false,
        }
    }

    fn consume_return(&mut self) -> (r: bool)
        requires
            old(self).wf(),
        ensures
            Self::moved(*old(self), *final(self)),
            r == tok(old(self).toks(), old(self).pos as int) is Return,
            final(self).pos == if r {
                old(self).pos + 1
            } else {
                old(self).pos as int
            },
    {
        match self.peek() {
            Token::Return => {
                self.advance();
                true
            },
            _ => false,
        }
    }

    fn consume_int(&mut self) -> (r: bool)
        requires
            old(self).wf(),
        ensures
            Self::moved(*old(self), *final(self)),
            r == tok(old(self).toks(), old(self).pos as int) is Int,
            final(self).pos == if r {
                old(self).pos + 1
            } else {
                old(self).pos as int
            },
    {
        match self.peek() {
            Token::Int => {
                self.advance();
                true
            },
            _ => false,
        }
    }

    /// `primary = "(" expr ")" | ident "(" [ expr { "," expr } ] ")" | ident | number`
    pub fn primary(&mut self) -> (r: ParseResult<Node>)
        requires
            old(self).wf(),
        ensures
            Self::parsed(*old(self), *final(self), p_primary(old(self).toks(), old(self).pos as int, old(self).env()), r),
        decreases old(self).tokens@.len() - old(self).pos, 0nat,
    {
        let ghost t = self.toks();
        let ghost p0 = self.pos as int;
        let ghost env = self.env();
        if self.consume_reserve("(") {
            let node = match self.expr() {
                Ok(n) => n,
                Err(e) => {
                    return Err(e);
                },
            };
            match self.expect(")") {
                Ok(()) => Ok(node),
                Err(e) => Err(e),
            }
        } else if let Some(ident_name) = self.consume_ident() {
            if self.consume_reserve("(") {
                let mut args: Vec<Node> = Vec::new();
                if !self.consume_reserve(")") {
                    let first = match self.expr() {
                        Ok(n) => n,
                        Err(e) => {
                            return Err(e);
                        },
                    };
                    args = match self.args_rest(first) {
                        Ok(a) => a,
                        Err(e) => {
                            return Err(e);
                        },
                    };
                } else {
                    assert(nodes_view(args@) =~= Seq::empty());
                }
                Ok(Node::CallFunction(CallFunction::new(ident_name, args, Some(Type::Int))))
            } else {
                match self.local_variables.get_local_variable(ident_name.as_str()) {
                    Some((offset, ty)) => Ok(Node::LocalVariable(LocalVariable::new(ident_name, offset, ty))),
                    None => Err(ParseError::NotDefinedVariable(ident_name)),
                }
            }
        } else {
            match self.expect_number() {
                Ok(n) => Ok(Node::Num(n)),
                Err(e) => Err(e),
            }
        }
    }

    /// The arguments of a call after the first, `first`, up to the closing `)`.
    fn args_rest(&mut self, first: Node) -> (r: ParseResult<Vec<Node>>)
        requires
            old(self).wf(),
        ensures
            Self::moved(*old(self), *final(self)),
            match p_args_rest(old(self).toks(), old(self).pos as int, old(self).env(), seq![first@]) {
                Ok((args, q)) => r matches Ok(v) && nodes_view(v@) == args && final(self).pos == q
                    && old(self).pos < q,
                Err(e) => r matches Err(err) && err@ == e,
            },
        decreases old(self).tokens@.len() - old(self).pos, 12nat,
    {
        let ghost t = self.toks();
        let ghost p0 = self.pos as int;
        let ghost env = self.env();
        let mut args: Vec<Node> = Vec::new();
        proof {
            lemma_nodes_view_push(args@, first);
        }
        args.push(first);
        proof {
            assert(args@ =~= Seq::<Node>::empty().push(first));
            assert(nodes_view(Seq::<Node>::empty()) =~= Seq::<crate::ast::NodeView>::empty());
            assert(nodes_view(args@) =~= seq![first@]);
        }
        loop
            invariant
                Self::moved(*old(self), *self),
                t == self.toks(),
                t == old(self).toks(),
                env == self.env(),
                env == old(self).env(),
                p0 == old(self).pos,
                p0 <= self.pos,
                p_args_rest(t, p0, env, seq![first@]) == p_args_rest(t, self.pos as int, env, nodes_view(args@)),
            decreases self.tokens@.len() - self.pos,
        {
            if self.consume_reserve(")") {
                return Ok(args);
            }
            match self.expect(",") {
                Ok(()) => {},
                Err(e) => {
                    return Err(e);
                },
            }
            let a = match self.expr() {
                Ok(n) => n,
                Err(e) => {
                    return Err(e);
                },
            };
            proof {
                lemma_nodes_view_push(args@, a);
            }
            args.push(a);
        }
    }

    /// `unary = "+" primary | "-" primary | "*" unary | "&" unary | primary`; `-x` is `0 - x`.
    pub fn unary(&mut self) -> (r: ParseResult<Node>)
        requires
            old(self).wf(),
        ensures
            Self::parsed(*old(self), *final(self), p_unary(old(self).toks(), old(self).pos as int, old(self).env()), r),
        decreases old(self).tokens@.len() - old(self).pos, 1nat,
    {
        let ghost t = self.toks();
        let ghost p0 = self.pos as int;
        let ghost env = self.env();
        if self.consume_reserve("+") {
            self.primary()
        } else if self.consume_reserve("-") {
            assert(Node::Num(0)@ == crate::ast::NodeView::Num(0));
            match self.primary() {
                Ok(v) => Ok(Node::new_op2(Operator2::Sub, Box::new(Node::Num(0)), Box::new(v))),
                Err(e) => Err(e),
            }
        } else if self.consume_reserve("*") {
            match self.unary() {
                Ok(v) => Ok(Node::Deref(Box::new(v))),
                Err(e) => Err(e),
            }
        } else if self.consume_reserve("&") {
            match self.unary() {
                Ok(v) => Ok(Node::Addr(Box::new(v))),
                Err(e) => Err(e),
            }
        } else {
            self.primary()
        }
    }

    /// `mul = unary { ("*" | "/") unary }`
    pub fn mul(&mut self) -> (r: ParseResult<Node>)
        requires
            old(self).wf(),
        ensures
            Self::parsed(*old(self), *final(self), p_mul(old(self).toks(), old(self).pos as int, old(self).env()), r),
        decreases old(self).tokens@.len() - old(self).pos, 3nat,
    {
        let ghost t = self.toks();
        let ghost p0 = self.pos as int;
        let ghost env = self.env();
        let mut node = match self.unary() {
            Ok(n) => n,
            Err(e) => {
                return Err(e);
            },
        };
        loop
            invariant
                Self::moved(*old(self), *self),
                t == self.toks(),
                t == old(self).toks(),
                env == self.env(),
                env == old(self).env(),
                p0 == old(self).pos,
                p0 < self.pos,
                p_mul(t, p0, env) == p_mul_rest(t, self.pos as int, env, node@),
            decreases self.tokens@.len() - self.pos,
        {
            if self.consume_reserve("*") {
                let rhs = match self.unary() {
                    Ok(n) => n,
                    Err(e) => {
                        return Err(e);
                    },
                };
                node = Node::new_op2(Operator2::Mul, Box::new(node), Box::new(rhs));
            } else if self.consume_reserve("/") {
                let rhs = match self.unary() {
                    Ok(n) => n,
                    Err(e) => {
                        return Err(e);
                    },
                };
                node = Node::new_op2(Operator2::Div, Box::new(node), Box::new(rhs));
            } else {
                return Ok(node);
            }
        }
    }

    /// `add = mul { ("+" | "-") mul }`
    pub fn add(&mut self) -> (r: ParseResult<Node>)
        requires
            old(self).wf(),
        ensures
            Self::parsed(*old(self), *final(self), p_add(old(self).toks(), old(self).pos as int, old(self).env()), r),
        decreases old(self).tokens@.len() - old(self).pos, 5nat,
    {
        let ghost t = self.toks();
        let ghost p0 = self.pos as int;
        let ghost env = self.env();
        let mut node = match self.mul() {
            Ok(n) => n,
            Err(e) => {
                return Err(e);
            },
        };
        loop
            invariant
                Self::moved(*old(self), *self),
                t == self.toks(),
                t == old(self).toks(),
                env == self.env(),
                env == old(self).env(),
                p0 == old(self).pos,
                p0 < self.pos,
                p_add(t, p0, env) == p_add_rest(t, self.pos as int, env, node@),
            decreases self.tokens@.len() - self.pos,
        {
            if self.consume_reserve("+") {
                let rhs = match self.mul() {
                    Ok(n) => n,
                    Err(e) => {
                        return Err(e);
                    },
                };
                node = Node::new_op2(Operator2::Add, Box::new(node), Box::new(rhs));
            } else if self.consume_reserve("-") {
                let rhs = match self.mul() {
                    Ok(n) => n,
                    Err(e) => {
                        return Err(e);
                    },
                };
                node = Node::new_op2(Operator2::Sub, Box::new(node), Box::new(rhs));
            } else {
                return Ok(node);
            }
        }
    }

    /// `relational = add { ("<" | "<=" | ">" | ">=") add }`, with `>` and `>=` turned into `<` and `<=`.
    pub fn relational(&mut self) -> (r: ParseResult<Node>)
        requires
            old(self).wf(),
        ensures
            Self::parsed(*old(self), *final(self), p_relational(old(self).toks(), old(self).pos as int, old(self).env()), r),
        decreases old(self).tokens@.len() - old(self).pos, 7nat,
    {
        let ghost t = self.toks();
        let ghost p0 = self.pos as int;
        let ghost env = self.env();
        let mut node = match self.add() {
            Ok(n) => n,
            Err(e) => {
                return Err(e);
            },
        };
        loop
            invariant
                Self::moved(*old(self), *self),
                t == self.toks(),
                t == old(self).toks(),
                env == self.env(),
                env == old(self).env(),
                p0 == old(self).pos,
                p0 < self.pos,
                p_relational(t, p0, env) == p_relational_rest(t, self.pos as int, env, node@),
            decreases self.tokens@.len() - self.pos,
        {
            if self.consume_reserve("<") {
                let rhs = match self.add() {
                    Ok(n) => n,
                    Err(e) => {
                        return Err(e);
                    },
                };
                node = Node::new_op2(Operator2::Lt, Box::new(node), Box::new(rhs));
            } else if self.consume_reserve("<=") {
                let rhs = match self.add() {
                    Ok(n) => n,
                    Err(e) => {
                        return Err(e);
                    },
                };
                node = Node::new_op2(Operator2::Lte, Box::new(node), Box::new(rhs));
            } else if self.consume_reserve(">") {
                let rhs = match self.add() {
                    Ok(n) => n,
                    Err(e) => {
                        return Err(e);
                    },
                };
                node = Node::new_op2(Operator2::Lt, Box::new(rhs), Box::new(node));
            } else if self.consume_reserve(">=") {
                let rhs = match self.add() {
                    Ok(n) => n,
                    Err(e) => {
                        return Err(e);
                    },
                };
                node = Node::new_op2(Operator2::Lte, Box::new(rhs), Box::new(node));
            } else {
                return Ok(node);
            }
        }
    }

    /// `equality = relational { ("==" | "!=") relational }`
    pub fn equality(&mut self) -> (r: ParseResult<Node>)
        requires
            old(self).wf(),
        ensures
            Self::parsed(*old(self), *final(self), p_equality(old(self).toks(), old(self).pos as int, old(self).env()), r),
        decreases old(self).tokens@.len() - old(self).pos, 9nat,
    {
        let ghost t = self.toks();
        let ghost p0 = self.pos as int;
        let ghost env = self.env();
        let mut node = match self.relational() {
            Ok(n) => n,
            Err(e) => {
                return Err(e);
            },
        };
        loop
            invariant
                Self::moved(*old(self), *self),
                t == self.toks(),
                t == old(self).toks(),
                env == self.env(),
                env == old(self).env(),
                p0 == old(self).pos,
                p0 < self.pos,
                p_equality(t, p0, env) == p_equality_rest(t, self.pos as int, env, node@),
            decreases self.tokens@.len() - self.pos,
        {
            if self.consume_reserve("==") {
                let rhs = match self.relational() {
                    Ok(n) => n,
                    Err(e) => {
                        return Err(e);
                    },
                };
                node = Node::new_op2(Operator2::Eq, Box::new(node), Box::new(rhs));
            } else if self.consume_reserve("!=") {
                let rhs = match self.relational() {
                    Ok(n) => n,
                    Err(e) => {
                        return Err(e);
                    },
                };
                node = Node::new_op2(Operator2::Ne, Box::new(node), Box::new(rhs));
            } else {
                return Ok(node);
            }
        }
    }

    /// `assign = equality [ "=" assign ]`
    pub fn assign(&mut self) -> (r: ParseResult<Node>)
        requires
            old(self).wf(),
        ensures
            Self::parsed(*old(self), *final(self), p_assign(old(self).toks(), old(self).pos as int, old(self).env()), r),
        decreases old(self).tokens@.len() - old(self).pos, 10nat,
    {
        let ghost t = self.toks();
        let ghost p0 = self.pos as int;
        let ghost env = self.env();
        let node = match self.equality() {
            Ok(n) => n,
            Err(e) => {
                return Err(e);
            },
        };
        if self.consume_reserve("=") {
            match self.assign() {
                Ok(rhs) => Ok(Node::new_assign(Box::new(node), Box::new(rhs))),
                Err(e) => Err(e),
            }
        } else {
            Ok(node)
        }
    }

    /// `expr = assign`
    pub fn expr(&mut self) -> (r: ParseResult<Node>)
        requires
            old(self).wf(),
        ensures
            Self::parsed(*old(self), *final(self), p_expr(old(self).toks(), old(self).pos as int, old(self).env()), r),
        decreases old(self).tokens@.len() - old(self).pos, 11nat,
    {
        let ghost t = self.toks();
        let ghost p0 = self.pos as int;
        let ghost env = self.env();
        self.assign()
    }

    /// `function = "int" ident "(" [ param { "," param } ] ")" block`. The
    /// symbol table is cleared and filled with the parameters first.
    pub fn expect_define_function(&mut self) -> (r: ParseResult<Node>)
        requires
            old(self).wf(),
        ensures
            final(self).wf(),
            final(self).tokens == old(self).tokens,
            match p_function(old(self).toks(), old(self).pos as int) {
                Ok((n, q)) => r matches Ok(node) && node@ == n && final(self).pos == q && old(self).pos < q,
                Err(e) => r matches Err(err) && err@ == e,
            },
    {
        let ghost t = self.toks();
        let ghost p0 = self.pos as int;
        match self.expect_int() {
            Ok(()) => {},
            Err(e) => {
                return Err(e);
            },
        }
        let name = match self.expect_ident() {
            Ok(n) => n,
            Err(e) => {
                return Err(e);
            },
        };
        self.global_symbols.push(name.clone());
        self.local_variables.clear();
        let ghost p1 = self.pos as int;
        let params = match self.param_list() {
            Ok(ps) => ps,
            Err(e) => {
                return Err(e);
            },
        };
        let ghost ps = params_view(params@);
        let ghost p_after = self.pos;
        let mut i: usize = 0;
        assert(ps.take(0) =~= Seq::empty());
        while i < params.len()
            invariant
                self.wf(),
                self.tokens == old(self).tokens,
                t == self.toks(),
                ps == params_view(params@),
                0 <= i <= params@.len(),
                params@.len() <= self.pos - p1,
                p1 > p0,
                self.env() == params_env(ps.take(i as int)),
                self.env().len() <= i,
                p0 == old(self).pos,
                t == old(self).toks(),
                tok(t, p0) is Int,
                tok(t, p0 + 1) == TokenView::Ident(name@),
                p1 == p0 + 2,
                is_punct(t, p1, "("@),
                p_params(t, p1 + 1) == Ok::<(Seq<(Seq<char>, Type)>, int), ParseErrorView>((ps, self.pos as int)),
                self.pos == p_after,
            decreases params@.len() - i,
        {
            assert(self.env().len() < MAX_LOCALS);
            let dv = DefineVariable::new(params[i].name.clone(), params[i].ty.clone());
            self.local_variables.assign_local_variable(&dv);
            assert(ps.take(i + 1).drop_last() =~= ps.take(i as int));
            assert(self.env().len() <= i + 1);
            i = i + 1;
        }
        assert(ps.take(params@.len() as int) =~= ps);
        match self.expect("{") {
            Ok(()) => {},
            Err(e) => {
                return Err(e);
            },
        }
        let statements = match self.block_rest() {
            Ok(ss) => ss,
            Err(e) => {
                return Err(e);
            },
        };
        Ok(Node::DefineFunction(DefineFunction::new(name, params, statements)))
    }

    /// `program = { function }`: the functions up to the end marker.
    pub fn program(&mut self) -> (r: ParseResult<Vec<Node>>)
        requires
            old(self).wf(),
        ensures
            final(self).wf(),
            final(self).tokens == old(self).tokens,
            match p_program_rest(old(self).toks(), old(self).pos as int, Seq::empty()) {
                Ok(fs) => r matches Ok(v) && nodes_view(v@) == fs && tok(final(self).toks(), final(self).pos as int) is Eof,
                Err(e) => r matches Err(err) && err@ == e,
            },
    {
        let ghost t = self.toks();
        let ghost p0 = self.pos as int;
        let mut functions: Vec<Node> = Vec::new();
        assert(nodes_view(functions@) =~= Seq::empty());
        loop
            invariant
                self.wf(),
                self.tokens == old(self).tokens,
                t == old(self).toks(),
                p0 == old(self).pos,
                p_program_rest(t, p0, Seq::empty()) == p_program_rest(
                    t,
                    self.pos as int,
                    nodes_view(functions@),
                ),
            decreases self.tokens@.len() - self.pos,
        {
            if self.at_eof() {
                return Ok(functions);
            }
            let f = match self.expect_define_function() {
                Ok(f) => f,
                Err(e) => {
                    return Err(e);
                },
            };
            proof {
                lemma_nodes_view_push(functions@, f);
            }
            functions.push(f);
        }
    }

    /// The pointer stars after a base type `ty`.
    fn stars(&mut self, ty: Type) -> (r: Type)
        requires
            old(self).wf(),
        ensures
            Self::moved(*old(self), *final(self)),
            type_stars(old(self).toks(), old(self).pos as int, ty) == (r, final(self).pos as int),
    {
        let ghost t = self.toks();
        let ghost p0 = self.pos as int;
        let mut cur = ty;
        loop
            invariant
                Self::moved(*old(self), *self),
                t == old(self).toks(),
                p0 == old(self).pos,
                type_stars(t, p0, ty) == type_stars(t, self.pos as int, cur),
            decreases self.tokens@.len() - self.pos,
        {
            if self.consume_reserve("*") {
                cur = Type::Ptr(Box::new(cur));
            } else {
                return cur;
            }
        }
    }

    /// `type = "int" { "*" }`, if a type starts here.
    fn consume_type(&mut self) -> (r: Option<Type>)
        requires
            old(self).wf(),
        ensures
            Self::moved(*old(self), *final(self)),
            tok(old(self).toks(), old(self).pos as int) is Int ==> (r matches Some(ty) && (ty, final(self).pos as int)
                == type_stars(old(self).toks(), old(self).pos + 1, Type::Int)),
            !(tok(old(self).toks(), old(self).pos as int) is Int) ==> r is None && final(self).pos == old(self).pos,
    {
        if self.consume_int() {
            Some(self.stars(Type::Int))
        } else {
            None
        }
    }

    /// `type = "int" { "*" }`
    fn expect_type(&mut self) -> (r: ParseResult<Type>)
        requires
            old(self).wf(),
        ensures
            Self::moved(*old(self), *final(self)),
            match p_type(old(self).toks(), old(self).pos as int) {
                Ok((ty, q)) => r matches Ok(x) && x == ty && final(self).pos == q,
                Err(e) => r matches Err(err) && err@ == e,
            },
    {
        match self.expect_int() {
            Ok(()) => Ok(self.stars(Type::Int)),
            Err(e) => Err(e),
        }
    }

    /// `param = type ident`
    fn param(&mut self) -> (r: ParseResult<Parameter>)
        requires
            old(self).wf(),
        ensures
            Self::moved(*old(self), *final(self)),
            match p_param(old(self).toks(), old(self).pos as int) {
                Ok((x, q)) => r matches Ok(v) && (v.name@, v.ty) == x && final(self).pos == q && old(self).pos + 2 <= q,
                Err(e) => r matches Err(err) && err@ == e,
            },
    {
        let ty = match self.expect_type() {
            Ok(ty) => ty,
            Err(e) => {
                return Err(e);
            },
        };
        match self.expect_ident() {
            Ok(name) => Ok(Parameter::new(name, ty)),
            Err(e) => Err(e),
        }
    }

    /// `"(" [ param { "," param } ] ")"`
    fn param_list(&mut self) -> (r: ParseResult<Vec<Parameter>>)
        requires
            old(self).wf(),
        ensures
            Self::moved(*old(self), *final(self)),
            match (if is_punct(old(self).toks(), old(self).pos as int, "("@) {
                p_params(old(self).toks(), old(self).pos + 1)
            } else {
                Err(ParseErrorView::ExpectReserved("("@))
            }) {
                Ok((ps, q)) => r matches Ok(v) && params_view(v@) == ps && final(self).pos == q
                    && v@.len() <= q - old(self).pos,
                Err(e) => r matches Err(err) && err@ == e,
            },
    {
        let ghost t = self.toks();
        let ghost p0 = self.pos as int;
        match self.expect("(") {
            Ok(()) => {},
            Err(e) => {
                return Err(e);
            },
        }
        let mut params: Vec<Parameter> = Vec::new();
        assert(params_view(params@) =~= Seq::empty());
        if self.consume_reserve(")") {
            return Ok(params);
        }
        let first = match self.param() {
            Ok(x) => x,
            Err(e) => {
                return Err(e);
            },
        };
        params.push(first);
        assert(params_view(params@) =~= seq![(first.name@, first.ty)]);
        loop
            invariant
                Self::moved(*old(self), *self),
                t == old(self).toks(),
                p0 == old(self).pos,
                p0 + 1 < self.pos,
                is_punct(t, p0, "("@),
                params@.len() <= self.pos - p0 - 1,
                p_params(t, p0 + 1) == p_params_rest(t, self.pos as int, params_view(params@)),
            decreases self.tokens@.len() - self.pos,
        {
            if self.consume_reserve(")") {
                return Ok(params);
            }
            match self.expect(",") {
                Ok(()) => {},
                Err(e) => {
                    return Err(e);
                },
            }
            let x = match self.param() {
                Ok(x) => x,
                Err(e) => {
                    return Err(e);
                },
            };
            let ghost before = params@;
            params.push(x);
            assert(params_view(params@) =~= params_view(before).push((x.name@, x.ty)));
        }
    }

    /// An optional expression followed by the punctuator `close`.
    fn opt_expr(&mut self, close: &str) -> (r: ParseResult<Option<Box<Node>>>)
        requires
            old(self).wf(),
        ensures
            Self::moved(*old(self), *final(self)),
            match p_opt_expr(old(self).toks(), old(self).pos as int, old(self).env(), close@) {
                Ok((o, q)) => r matches Ok(x) && opt_view(x) == o && final(self).pos == q && old(self).pos < q,
                Err(e) => r matches Err(err) && err@ == e,
            },
    {
        if self.consume_reserve(close) {
            return Ok(None);
        }
        let v = match self.expr() {
            Ok(v) => v,
            Err(e) => {
                return Err(e);
            },
        };
        if self.consume_reserve(close) {
            Ok(Some(Box::new(v)))
        } else {
            Err(ParseError::ExpectReserved(String::from_str(close)))
        }
    }

    /// The statements of a block up to and including its closing brace.
    fn block_rest(&mut self) -> (r: ParseResult<Vec<Node>>)
        requires
            old(self).wf(),
        ensures
            final(self).wf(),
            final(self).tokens == old(self).tokens,
            final(self).global_symbols == old(self).global_symbols,
            match p_block_rest(old(self).toks(), old(self).pos as int, old(self).env(), Seq::empty()) {
                Ok((ss, q, env)) => r matches Ok(v) && nodes_view(v@) == ss && final(self).pos == q
                    && final(self).env() == env && old(self).pos < q,
                Err(e) => r matches Err(err) && err@ == e,
            },
        decreases old(self).tokens@.len() - old(self).pos, 2nat,
    {
        let ghost t = self.toks();
        let ghost p0 = self.pos as int;
        let ghost env0 = self.env();
        let mut stmts: Vec<Node> = Vec::new();
        assert(nodes_view(stmts@) =~= Seq::empty());
        loop
            invariant
                self.wf(),
                self.tokens == old(self).tokens,
                self.global_symbols == old(self).global_symbols,
                t == old(self).toks(),
                p0 == old(self).pos,
                env0 == old(self).env(),
                p0 <= self.pos,
                p_block_rest(t, p0, env0, Seq::empty()) == p_block_rest(
                    t,
                    self.pos as int,
                    self.env(),
                    nodes_view(stmts@),
                ),
            decreases self.tokens@.len() - self.pos,
        {
            if self.consume_reserve("}") {
                return Ok(stmts);
            }
            let st = match self.statement() {
                Ok(st) => st,
                Err(e) => {
                    return Err(e);
                },
            };
            proof {
                lemma_nodes_view_push(stmts@, st);
            }
            stmts.push(st);
        }
    }

    /// The rest of an `if` statement whose keyword stood at `start`.
    #[verifier::spinoff_prover]
    #[verifier::rlimit(100)]
    fn if_rest(&mut self, start: usize) -> (r: ParseResult<Node>)
        requires
            old(self).wf(),
            old(self).pos == start + 1,
            tok(old(self).toks(), start as int) is If,
        ensures
            Self::parsed_stmt(
                *old(self),
                *final(self),
                p_if(old(self).toks(), start as int, old(self).env()),
                r,
            ),
        decreases old(self).tokens@.len() - old(self).pos, 0nat,
    {
        match self.expect("(") {
            Ok(()) => {},
            Err(e) => {
                return Err(e);
            },
        }
        let cond = match self.expr() {
            Ok(n) => n,
            Err(e) => {
                return Err(e);
            },
        };
        match self.expect(")") {
            Ok(()) => {},
            Err(e) => {
                return Err(e);
            },
        }
        let then_statement = match self.statement() {
            Ok(n) => n,
            Err(e) => {
                return Err(e);
            },
        };
        let else_statement = if self.consume_else() {
            match self.statement() {
                Ok(n) => {
                    assert(opt_view(Some(Box::new(n))) == Some(Box::new(n@)));
                    Some(Box::new(n))
                },
                Err(e) => {
                    return Err(e);
                },
            }
        } else {
            assert(opt_view(None) == None::<Box<crate::ast::NodeView>>);
            None
        };
        Ok(Node::IfElse(IfElse::new(Box::new(cond), Box::new(then_statement), else_statement)))
    }

    /// The rest of a `for` statement whose keyword stood at `start`.
    #[verifier::rlimit(100)]
    fn for_rest(&mut self, start: usize) -> (r: ParseResult<Node>)
        requires
            old(self).wf(),
            old(self).pos == start + 1,
            tok(old(self).toks(), start as int) is For,
        ensures
            Self::parsed_stmt(
                *old(self),
                *final(self),
                p_for(old(self).toks(), start as int, old(self).env()),
                r,
            ),
        decreases old(self).tokens@.len() - old(self).pos, 0nat,
    {
        match self.expect("(") {
            Ok(()) => {},
            Err(e) => {
                return Err(e);
            },
        }
        let init = match self.opt_expr(";") {
            Ok(x) => x,
            Err(e) => {
                return Err(e);
            },
        };
        let cond = match self.opt_expr(";") {
            Ok(x) => x,
            Err(e) => {
                return Err(e);
            },
        };
        let next = match self.opt_expr(")") {
            Ok(x) => x,
            Err(e) => {
                return Err(e);
            },
        };
        let body = match self.statement() {
            Ok(n) => n,
            Err(e) => {
                return Err(e);
            },
        };
        Ok(Node::For(For::new(init, cond, next, Box::new(body))))
    }

    /// The rest of a `while` statement whose keyword stood at `start`.
    #[verifier::spinoff_prover]
    #[verifier::rlimit(100)]
    fn while_rest(&mut self, start: usize) -> (r: ParseResult<Node>)
        requires
            old(self).wf(),
            old(self).pos == start + 1,
            tok(old(self).toks(), start as int) is While,
        ensures
            Self::parsed_stmt(
                *old(self),
                *final(self),
                p_while(old(self).toks(), start as int, old(self).env()),
                r,
            ),
        decreases old(self).tokens@.len() - old(self).pos, 0nat,
    {
        match self.expect("(") {
            Ok(()) => {},
            Err(e) => {
                return Err(e);
            },
        }
        let cond = match self.expr() {
            Ok(n) => n,
            Err(e) => {
                return Err(e);
            },
        };
        match self.expect(")") {
            Ok(()) => {},
            Err(e) => {
                return Err(e);
            },
        }
        let body = match self.statement() {
            Ok(n) => n,
            Err(e) => {
                return Err(e);
            },
        };
        assert(opt_view(Some(Box::new(cond))) == Some(Box::new(cond@)));
        assert(opt_view(None) == None::<Box<crate::ast::NodeView>>);
        Ok(Node::For(For::new(None, Some(Box::new(cond)), None, Box::new(body))))
    }

    /// `statement`, as the grammar gives it; a declaration also enters its
    /// variable in the symbol table.
    pub fn statement(&mut self) -> (r: ParseResult<Node>)
        requires
            old(self).wf(),
        ensures
            Self::parsed_stmt(*old(self), *final(self), p_stmt(old(self).toks(), old(self).pos as int, old(self).env()), r),
        decreases old(self).tokens@.len() - old(self).pos, 1nat,
    {
        let start = self.pos;
        if self.consume_reserve("{") {
            match self.block_rest() {
                Ok(ss) => Ok(Node::Block(ss)),
                Err(e) => Err(e),
            }
        } else if let Some(ty) = self.consume_type() {
            let name = match self.expect_ident() {
                Ok(n) => n,
                Err(e) => {
                    return Err(e);
                },
            };
            match self.expect(";") {
                Ok(()) => {},
                Err(e) => {
                    return Err(e);
                },
            }
            let dv = DefineVariable::new(name, ty);
            self.local_variables.assign_local_variable(&dv);
            Ok(Node::DefineVariable(dv))
        } else if self.consume_if() {
            self.if_rest(start)
        } else if self.consume_for() {
            self.for_rest(start)
        } else if self.consume_while() {
            self.while_rest(start)
        } else {
            let is_return = self.consume_return();
            let node = match self.expr() {
                Ok(n) => n,
                Err(e) => {
                    return Err(e);
                },
            };
            match self.expect(";") {
                Ok(()) => {},
                Err(e) => {
                    return Err(e);
                },
            }
            if is_return {
                Ok(Node::Return(Box::new(node)))
            } else {
                Ok(node)
            }
        }
    }

    fn expect_int(&mut self) -> (r: ParseResult<()>)
        requires
            old(self).wf(),
        ensures
            Self::moved(*old(self), *final(self)),
            r is Ok == tok(old(self).toks(), old(self).pos as int) is Int,
            r is Ok ==> final(self).pos == old(self).pos + 1,
            r matches Err(e) ==> e@ == ParseErrorView::ExpectInt(tok(old(self).toks(), old(self).pos as int)),
    {
        match self.peek() {
            Token::Int => {
                self.advance();
                Ok(())
            },
            t => Err(ParseError::ExpectInt(t.clone())),
        }
    }
}

} // verus!
