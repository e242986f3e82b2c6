use vstd::prelude::*;

verus! {

/// A lexical token.
#[derive(Debug)]
pub enum Token {
    Reserved(String),
    Ident(String),
    Num(i64),
    Return,
    If,
    Else,
    For,
    While,
    Int,
    Eof,
}

/// The model of a token: lexemes as character sequences.
pub enum TokenView {
    Reserved(Seq<char>),
    Ident(Seq<char>),
    Num(i64),
    Return,
    If,
    Else,
    For,
    While,
    Int,
    Eof,
}

impl View for Token {
    type V = TokenView;

    open spec fn view(&self) -> TokenView {
        match self {
            Token::Reserved(s) => TokenView::Reserved(s@),
            Token::Ident(s) => TokenView::Ident(s@),
            Token::Num(n) => TokenView::Num(*n),
            Token::Return => TokenView::Return,
            Token::If => TokenView::If,
            Token::Else => TokenView::Else,
            Token::For => TokenView::For,
            Token::While => TokenView::While,
            Token::Int => TokenView::Int,
            Token::Eof => TokenView::Eof,
        }
    }
}

impl Clone for Token {
    fn clone(&self) -> (r: Self)
        ensures
            r@ == self@,
    {
        match self {
            Token::Reserved(s) => Token::Reserved(s.clone()),
            Token::Ident(s) => Token::Ident(s.clone()),
            Token::Num(n) => Token::Num(*n),
            Token::Return => Token::Return,
            Token::If => Token::If,
            Token::Else => Token::Else,
            Token::For => Token::For,
            Token::While => Token::While,
            Token::Int => Token::Int,
            Token::Eof => Token::Eof,
        }
    }
}

pub open spec fn tokens_view(v: Seq<Token>) -> Seq<TokenView> {
    v.map_values(|t: Token| t@)
}

impl Token {
    pub fn reserved(s: &str) -> (r: Self)
        ensures
            r@ == TokenView::Reserved(s@),
    {
        Token::Reserved(String::from_str(s))
    }

    pub fn as_reserved(&self) -> (r: Option<&String>)
        ensures
            match self {
                Token::Reserved(s) => r == Some(s),
                _ => r is None,
            },
    {
        match self {
            Token::Reserved(s) => Some(s),
            _ => None,
        }
    }

    pub fn as_num(&self) -> (r: Option<i64>)
        ensures
            match self {
                Token::Num(n) => r == Some(*n),
                _ => r is None,
            },
    {
        match self {
            Token::Num(n) => Some(*n),
            _ => None,
        }
    }

    pub fn as_eof(&self) -> (r: bool)
        ensures
            r == (*self is Eof),
    {
        match self {
            Token::Eof => true,
            _ => false,
        }
    }
}

/// An error with a message only.
#[derive(Debug)]
pub struct GeneralError {
    pub message: String,
}

impl GeneralError {
    pub fn new(message: String) -> (r: Self)
        ensures
            r.message@ == message@,
    {
        Self { message }
    }
}

/// A character that no token starts with, at character position `pos` of `source_code_line`.
#[derive(Debug)]
pub struct TokenizeError {
    pub message: String,
    pub line_number: usize,
    pub source_code_line: String,
    pub pos: usize,
}

impl TokenizeError {
    pub fn new(message: String, line_number: usize, source_code_line: String, pos: usize) -> (r: Self)
        ensures
            r.message@ == message@,
            r.line_number == line_number,
            r.source_code_line@ == source_code_line@,
            r.pos == pos,
    {
        Self { message, line_number, source_code_line, pos }
    }
}

pub type TokenizeResult<T> = Result<T, TokenizeError>;

pub open spec fn is_alpha(c: char) -> bool {
    ('a' <= c && c <= 'z') || ('A' <= c && c <= 'Z')
}

pub open spec fn is_digit(c: char) -> bool {
    '0' <= c && c <= '9'
}

pub open spec fn is_alnum(c: char) -> bool {
    is_alpha(c) || is_digit(c)
}

/// Whether `w` occurs in `s` at position `i`.
pub open spec fn has_at(s: Seq<char>, i: int, w: Seq<char>) -> bool {
    0 <= i && i + w.len() <= s.len() && s.subrange(i, i + w.len()) == w
}

pub const N_PUNCTS: usize = 18;

/// The reserved punctuators, two-character forms first, in the order they are tried.
pub open spec fn punct(j: int) -> Seq<char> {
    if j == 0 {
        seq!['=', '=']
    } else if j == 1 {
        seq!['!', '=']
    } else if j == 2 {
        seq!['>', '=']
    } else if j == 3 {
        seq!['<', '=']
    } else if j == 4 {
        seq!['+']
    } else if j == 5 {
        seq!['-']
    } else if j == 6 {
        seq!['*']
    } else if j == 7 {
        seq!['/']
    } else if j == 8 {
        seq!['<']
    } else if j == 9 {
        seq!['>']
    } else if j == 10 {
        seq!['(']
    } else if j == 11 {
        seq![')']
    } else if j == 12 {
        seq![';']
    } else if j == 13 {
        seq!['=']
    } else if j == 14 {
        seq!['{']
    } else if j == 15 {
        seq!['}']
    } else if j == 16 {
        seq![',']
    } else {
        seq!['&']
    }
}

pub const N_KEYWORDS: usize = 6;

/// The keywords, in the order they are tried.
pub open spec fn keyword(j: int) -> Seq<char> {
    if j == 0 {
        seq!['r', 'e', 't', 'u', 'r', 'n']
    } else if j == 1 {
        seq!['i', 'f']
    } else if j == 2 {
        seq!['e', 'l', 's', 'e']
    } else if j == 3 {
        seq!['f', 'o', 'r']
    } else if j == 4 {
        seq!['w', 'h', 'i', 'l', 'e']
    } else {
        seq!['i', 'n', 't']
    }
}

pub open spec fn keyword_token(j: int) -> TokenView {
    if j == 0 {
        TokenView::Return
    } else if j == 1 {
        TokenView::If
    } else if j == 2 {
        TokenView::Else
    } else if j == 3 {
        TokenView::For
    } else if j == 4 {
        TokenView::While
    } else {
        TokenView::Int
    }
}

/// The first punctuator, from the `j`-th on, that occurs at `i`.
pub open spec fn punct_from(s: Seq<char>, i: int, j: int) -> Option<int>
    decreases N_PUNCTS - j,
{
    if j < 0 || j >= N_PUNCTS {
        None
    } else if has_at(s, i, punct(j)) {
        Some(j)
    } else {
        punct_from(s, i, j + 1)
    }
}

/// The first keyword, from the `j`-th on, that occurs at `i`.
pub open spec fn keyword_from(s: Seq<char>, i: int, j: int) -> Option<int>
    decreases N_KEYWORDS - j,
{
    if j < 0 || j >= N_KEYWORDS {
        None
    } else if has_at(s, i, keyword(j)) {
        Some(j)
    } else {
        keyword_from(s, i, j + 1)
    }
}

/// Length of the run of ASCII alphanumerics starting at `i`.
pub open spec fn alnum_run(s: Seq<char>, i: int) -> nat
    decreases s.len() - i,
{
    if 0 <= i < s.len() && is_alnum(s[i]) {
        1 + alnum_run(s, i + 1)
    } else {
        0
    }
}

/// Length of the run of ASCII digits starting at `i`.
pub open spec fn digit_run(s: Seq<char>, i: int) -> nat
    decreases s.len() - i,
{
    if 0 <= i < s.len() && is_digit(s[i]) {
        1 + digit_run(s, i + 1)
    } else {
        0
    }
}

/// The base-10 value of a sequence of digits.
pub open spec fn digits_value(d: Seq<char>) -> nat
    decreases d.len(),
{
    if d.len() == 0 {
        0
    } else {
        digits_value(d.drop_last()) * 10 + (d.last() as nat - '0' as nat) as nat
    }
}

pub open spec fn prepend(t: TokenView, r: Result<Seq<TokenView>, nat>) -> Result<Seq<TokenView>, nat> {
    match r {
        Ok(ts) => Ok(seq![t] + ts),
        Err(p) => Err(p),
    }
}

/// The tokens of `s` from position `i` on, ending in `Eof`; or the position of
/// the first character that starts no token.
pub open spec fn lex_from(s: Seq<char>, i: int) -> Result<Seq<TokenView>, nat>
    decreases s.len() - i via lex_from_decreases
{
    if i < 0 || i >= s.len() {
        Ok(seq![TokenView::Eof])
    } else {
        match punct_from(s, i, 0) {
            Some(j) => prepend(TokenView::Reserved(punct(j)), lex_from(s, i + punct(j).len())),
            None => match keyword_from(s, i, 0) {
                Some(j) => prepend(keyword_token(j), lex_from(s, i + keyword(j).len())),
                None => if is_alpha(s[i]) {
                    prepend(
                        TokenView::Ident(s.subrange(i, i + alnum_run(s, i))),
                        lex_from(s, i + alnum_run(s, i)),
                    )
                } else if s[i] == ' ' {
                    lex_from(s, i + 1)
                } else if is_digit(s[i]) {
                    if digits_value(s.subrange(i, i + digit_run(s, i))) <= i64::MAX {
                        prepend(
                            TokenView::Num(digits_value(s.subrange(i, i + digit_run(s, i))) as i64),
                            lex_from(s, i + digit_run(s, i)),
                        )
                    } else {
                        Err(i as nat)
                    }
                } else {
                    Err(i as nat)
                },
            },
        }
    }
}

proof fn lemma_punct_from(s: Seq<char>, i: int, j: int)
    ensures
        punct_from(s, i, j) matches Some(k) ==> j <= k < N_PUNCTS && has_at(s, i, punct(k)) && punct(
            k,
        ).len() >= 1,
    decreases N_PUNCTS - j,
{
    if 0 <= j < N_PUNCTS && !has_at(s, i, punct(j)) {
        lemma_punct_from(s, i, j + 1);
    }
}

proof fn lemma_keyword_from(s: Seq<char>, i: int, j: int)
    ensures
        keyword_from(s, i, j) matches Some(k) ==> j <= k < N_KEYWORDS && has_at(s, i, keyword(k))
            && keyword(k).len() >= 1,
    decreases N_KEYWORDS - j,
{
    if 0 <= j < N_KEYWORDS && !has_at(s, i, keyword(j)) {
        lemma_keyword_from(s, i, j + 1);
    }
}

proof fn lemma_alnum_run(s: Seq<char>, i: int)
    requires
        0 <= i <= s.len(),
    ensures
        alnum_run(s, i) <= s.len() - i,
        forall|m: int| i <= m < i + alnum_run(s, i) ==> is_alnum(#[trigger] s[m]),
        i + alnum_run(s, i) < s.len() ==> !is_alnum(s[i + alnum_run(s, i)]),
    decreases s.len() - i,
{
    if i < s.len() && is_alnum(s[i]) {
        lemma_alnum_run(s, i + 1);
    }
}

proof fn lemma_digit_run(s: Seq<char>, i: int)
    requires
        0 <= i <= s.len(),
    ensures
        digit_run(s, i) <= s.len() - i,
        forall|m: int| i <= m < i + digit_run(s, i) ==> is_digit(#[trigger] s[m]),
        i + digit_run(s, i) < s.len() ==> !is_digit(s[i + digit_run(s, i)]),
    decreases s.len() - i,
{
    if i < s.len() && is_digit(s[i]) {
        lemma_digit_run(s, i + 1);
    }
}

#[via_fn]
proof fn lex_from_decreases(s: Seq<char>, i: int) {
    if 0 <= i < s.len() {
        lemma_punct_from(s, i, 0);
        lemma_keyword_from(s, i, 0);
        lemma_alnum_run(s, i);
        lemma_digit_run(s, i);
    }
}

fn punctuator(j: usize) -> (r: &'static str)
    requires
        j < N_PUNCTS,
    ensures
        r@ == punct(j as int),
{
    if j == 0 {
        proof {
            reveal_strlit("==");
            assert("=="@ =~= seq!['=', '=']);
        }
        "=="
    } else if j == 1 {
        proof {
            reveal_strlit("!=");
            assert("!="@ =~= seq!['!', '=']);
        }
        "!="
    } else if j == 2 {
        proof {
            reveal_strlit(">=");
            assert(">="@ =~= seq!['>', '=']);
        }
        ">="
    } else if j == 3 {
        proof {
            reveal_strlit("<=");
            assert("<="@ =~= seq!['<', '=']);
        }
        "<="
    } else if j == 4 {
        proof {
            reveal_strlit("+");
            assert("+"@ =~= seq!['+']);
        }
        "+"
    } else if j == 5 {
        proof {
            reveal_strlit("-");
            assert("-"@ =~= seq!['-']);
        }
        "-"
    } else if j == 6 {
        proof {
            reveal_strlit("*");
            assert("*"@ =~= seq!['*']);
        }
        "*"
    } else if j == 7 {
        proof {
            reveal_strlit("/");
            assert("/"@ =~= seq!['/']);
        }
        "/"
    } else if j == 8 {
        proof {
            reveal_strlit("<");
            assert("<"@ =~= seq!['<']);
        }
        "<"
    } else if j == 9 {
        proof {
            reveal_strlit(">");
            assert(">"@ =~= seq!['>']);
        }
        ">"
    } else if j == 10 {
        proof {
            reveal_strlit("(");
            assert("("@ =~= seq!['(']);
        }
        "("
    } else if j == 11 {
        proof {
            reveal_strlit(")");
            assert(")"@ =~= seq![')']);
        }
        ")"
    } else if j == 12 {
        proof {
            reveal_strlit(";");
            assert(";"@ =~= seq![';']);
        }
        ";"
    } else if j == 13 {
        proof {
            reveal_strlit("=");
            assert("="@ =~= seq!['=']);
        }
        "="
    } else if j == 14 {
        proof {
            reveal_strlit("{");
            assert("{"@ =~= seq!['{']);
        }
        "{"
    } else if j == 15 {
        proof {
            reveal_strlit("}");
            assert("}"@ =~= seq!['}']);
        }
        "}"
    } else if j == 16 {
        proof {
            reveal_strlit(",");
            assert(","@ =~= seq![',']);
        }
        ","
    } else {
        proof {
            reveal_strlit("&");
            assert("&"@ =~= seq!['&']);
        }
        "&"
    }
}

fn keyword_text(j: usize) -> (r: &'static str)
    requires
        j < N_KEYWORDS,
    ensures
        r@ == keyword(j as int),
{
    if j == 0 {
        proof {
            reveal_strlit("return");
            assert("return"@ =~= seq!['r', 'e', 't', 'u', 'r', 'n']);
        }
        "return"
    } else if j == 1 {
        proof {
            reveal_strlit("if");
            assert("if"@ =~= seq!['i', 'f']);
        }
        "if"
    } else if j == 2 {
        proof {
            reveal_strlit("else");
            assert("else"@ =~= seq!['e', 'l', 's', 'e']);
        }
        "else"
    } else if j == 3 {
        proof {
            reveal_strlit("for");
            assert("for"@ =~= seq!['f', 'o', 'r']);
        }
        "for"
    } else if j == 4 {
        proof {
            reveal_strlit("while");
            assert("while"@ =~= seq!['w', 'h', 'i', 'l', 'e']);
        }
        "while"
    } else {
        proof {
            reveal_strlit("int");
            assert("int"@ =~= seq!['i', 'n', 't']);
        }
        "int"
    }
}

fn keyword_token_of(j: usize) -> (r: Token)
    requires
        j < N_KEYWORDS,
    ensures
        r@ == keyword_token(j as int),
{
    if j == 0 {
        Token::Return
    } else if j == 1 {
        Token::If
    } else if j == 2 {
        Token::Else
    } else if j == 3 {
        Token::For
    } else if j == 4 {
        Token::While
    } else {
        Token::Int
    }
}

fn is_alpha_char(c: char) -> (r: bool)
    ensures
        r == is_alpha(c),
{
    ('a' <= c && c <= 'z') || ('A' <= c && c <= 'Z')
}

fn is_digit_char(c: char) -> (r: bool)
    ensures
        r == is_digit(c),
{
    '0' <= c && c <= '9'
}

/// Whether `s` occurs in `input` at character position `pos`.
pub fn match_string(input: &str, pos: usize, s: &str) -> (r: bool)
    requires
        pos <= input@.len(),
    ensures
        r == has_at(input@, pos as int, s@),
{
    let n = input.unicode_len();
    let m = s.unicode_len();
    if m > n - pos {
        return false;
    }
    let mut k: usize = 0;
    while k < m
        invariant
            n == input@.len(),
            m == s@.len(),
            pos + m <= n,
            0 <= k <= m,
            forall|t: int| 0 <= t < k ==> input@[pos + t] == s@[t],
        decreases m - k,
    {
        if input.get_char(pos + k) != s.get_char(k) {
            return false;
        }
        k = k + 1;
    }
    assert(input@.subrange(pos as int, pos + m) =~= s@);
    true
}

/// The index of the first punctuator that occurs at `pos`.
fn first_punct(input: &str, pos: usize) -> (r: Option<usize>)
    requires
        pos <= input@.len(),
    ensures
        match r {
            Some(j) => punct_from(input@, pos as int, 0) == Some(j as int),
            None => punct_from(input@, pos as int, 0) is None,
        },
{
    let mut j: usize = 0;
    while j < N_PUNCTS
        invariant
            0 <= j <= N_PUNCTS,
            pos <= input@.len(),
            punct_from(input@, pos as int, 0) == punct_from(input@, pos as int, j as int),
        decreases N_PUNCTS - j,
    {
        if match_string(input, pos, punctuator(j)) {
            return Some(j);
        }
        j = j + 1;
    }
    None
}

/// The index of the first keyword that occurs at `pos`.
fn first_keyword(input: &str, pos: usize) -> (r: Option<usize>)
    requires
        pos <= input@.len(),
    ensures
        match r {
            Some(j) => keyword_from(input@, pos as int, 0) == Some(j as int),
            None => keyword_from(input@, pos as int, 0) is None,
        },
{
    let mut j: usize = 0;
    while j < N_KEYWORDS
        invariant
            0 <= j <= N_KEYWORDS,
            pos <= input@.len(),
            keyword_from(input@, pos as int, 0) == keyword_from(input@, pos as int, j as int),
        decreases N_KEYWORDS - j,
    {
        if match_string(input, pos, keyword_text(j)) {
            return Some(j);
        }
        j = j + 1;
    }
    None
}

/// The identifier that starts at `pos`: an ASCII letter followed by the
/// longest run of ASCII letters and digits.
pub fn match_variable_string(input: &str, pos: usize) -> (r: Option<String>)
    requires
        pos <= input@.len(),
    ensures
        match r {
            Some(name) => pos < input@.len() && is_alpha(input@[pos as int]) && name@
                == input@.subrange(pos as int, pos + alnum_run(input@, pos as int)),
            None => !(pos < input@.len() && is_alpha(input@[pos as int])),
        },
{
    let n = input.unicode_len();
    if pos >= n || !is_alpha_char(input.get_char(pos)) {
        return None;
    }
    let mut k: usize = pos + 1;
    while k < n && is_alnum_char(input.get_char(k))
        invariant
            n == input@.len(),
            pos < k <= n,
            alnum_run(input@, pos as int) == (k - pos) + alnum_run(input@, k as int),
        decreases n - k,
    {
        k = k + 1;
    }
    Some(String::from_str(input.substring_char(pos, k)))
}

fn is_alnum_char(c: char) -> (r: bool)
    ensures
        r == is_alnum(c),
{
    is_alpha_char(c) || is_digit_char(c)
}

proof fn lemma_digits_value_prefix(d: Seq<char>, k: int)
    requires
        0 <= k <= d.len(),
        forall|m: int| 0 <= m < d.len() ==> is_digit(#[trigger] d[m]),
    ensures
        digits_value(d.take(k)) <= digits_value(d),
    decreases d.len(),
{
    if k < d.len() {
        assert(d.drop_last().take(k) =~= d.take(k));
        lemma_digits_value_prefix(d.drop_last(), k);
    } else {
        assert(d.take(k) =~= d);
    }
}

/// Reads the run of ASCII digits that starts at `pos` as a base-10 `i64`;
/// returns its value and the position after it.
pub fn parse_number(input: &str, pos: usize) -> (r: Result<(i64, usize), GeneralError>)
    requires
        pos <= input@.len(),
    ensures
        match r {
            Ok((v, end)) => {
                &&& digit_run(input@, pos as int) > 0
                &&& end == pos + digit_run(input@, pos as int)
                &&& v as int == digits_value(input@.subrange(pos as int, end as int))
            },
            Err(_) => digit_run(input@, pos as int) == 0 || digits_value(
                input@.subrange(pos as int, pos + digit_run(input@, pos as int)),
            ) > i64::MAX,
        },
{
    let n = input.unicode_len();
    let ghost s = input@;
    proof {
        lemma_digit_run(s, pos as int);
    }
    let ghost d = s.subrange(pos as int, pos + digit_run(s, pos as int));
    let mut acc: i64 = 0;
    let mut k: usize = pos;
    while k < n && is_digit_char(input.get_char(k))
        invariant
            n == s.len(),
            s == input@,
            pos <= k <= n,
            digit_run(s, pos as int) == (k - pos) + digit_run(s, k as int),
            d == s.subrange(pos as int, pos + digit_run(s, pos as int)),
            pos + digit_run(s, pos as int) <= s.len(),
            d.len() == digit_run(s, pos as int),
            forall|m: int| 0 <= m < d.len() ==> is_digit(#[trigger] d[m]),
            acc as int == digits_value(s.subrange(pos as int, k as int)),
            acc >= 0,
        decreases n - k,
    {
        let c = input.get_char(k);
        let dig = (c as u32 - '0' as u32) as i64;
        proof {
            assert(is_digit(s[k as int]));
            assert(digit_run(s, k as int) == 1 + digit_run(s, k as int + 1));
            assert(s.subrange(pos as int, k + 1).drop_last() =~= s.subrange(pos as int, k as int));
            assert(d.take(k + 1 - pos) =~= s.subrange(pos as int, k + 1));
        }
        match acc.checked_mul(10) {
            Some(a) => match a.checked_add(dig) {
                Some(b) => {
                    acc = b;
                },
                None => {
                    proof {
                        lemma_digits_value_prefix(d, k + 1 - pos);
                    }
                    return Err(GeneralError::new(String::from_str("integer out of range")));
                },
            },
            None => {
                proof {
                    lemma_digits_value_prefix(d, k + 1 - pos);
                }
                return Err(GeneralError::new(String::from_str("integer out of range")));
            },
        }
        k = k + 1;
    }
    if k == pos {
        return Err(GeneralError::new(String::from_str("expected a digit")));
    }
    Ok((acc, k))
}

/// A token sequence that ends in exactly one `Eof`.
pub open spec fn ends_in_one_eof(ts: Seq<TokenView>) -> bool {
    &&& ts.len() >= 1
    &&& ts.last() is Eof
    &&& forall|j: int| 0 <= j < ts.len() - 1 ==> !(#[trigger] ts[j] is Eof)
}

/// Whatever the source text, a successful lexing ends in exactly one `Eof`.
pub proof fn lemma_lex_ends_in_eof(s: Seq<char>, i: int)
    ensures
        lex_from(s, i) matches Ok(ts) ==> ends_in_one_eof(ts),
    decreases s.len() - i,
{
    if 0 <= i < s.len() {
        lemma_punct_from(s, i, 0);
        lemma_keyword_from(s, i, 0);
        lemma_alnum_run(s, i);
        lemma_digit_run(s, i);
        let next = match punct_from(s, i, 0) {
            Some(j) => i + punct(j).len(),
            None => match keyword_from(s, i, 0) {
                Some(j) => i + keyword(j).len(),
                None => if is_alpha(s[i]) {
                    i + alnum_run(s, i)
                } else if is_digit(s[i]) {
                    i + digit_run(s, i)
                } else {
                    i + 1
                },
            },
        };
        if is_digit(s[i]) {
            assert(digit_run(s, i) == 1 + digit_run(s, i + 1));
        }
        if is_alpha(s[i]) {
            assert(alnum_run(s, i) == 1 + alnum_run(s, i + 1));
        }
        lemma_lex_ends_in_eof(s, next);
        if let Ok(rest) = lex_from(s, next) {
            assert forall|t: TokenView| !(t is Eof) implies #[trigger] ends_in_one_eof(seq![t] + rest) by {
                let ts = seq![t] + rest;
                assert forall|j: int| 0 <= j < ts.len() - 1 implies !(#[trigger] ts[j] is Eof) by {
                    if j > 0 {
                        assert(ts[j] == rest[j - 1]);
                    }
                }
            }
        }
    }
}

/// The tokens of a whole source text.
pub open spec fn lex(s: Seq<char>) -> Result<Seq<TokenView>, nat> {
    lex_from(s, 0)
}

pub open spec fn glue(done: Seq<TokenView>, r: Result<Seq<TokenView>, nat>) -> Result<Seq<TokenView>, nat> {
    match r {
        Ok(ts) => Ok(done + ts),
        Err(p) => Err(p),
    }
}

proof fn lemma_glue(done: Seq<TokenView>, t: TokenView, r: Result<Seq<TokenView>, nat>)
    ensures
        glue(done, prepend(t, r)) == glue(done.push(t), r),
{
    if let Ok(ts) = r {
        assert(done + (seq![t] + ts) =~= done.push(t) + ts);
    }
}

proof fn lemma_push_token(v: Seq<Token>, t: Token)
    ensures
        tokens_view(v.push(t)) == tokens_view(v).push(t@),
{
    assert(tokens_view(v.push(t)) =~= tokens_view(v).push(t@));
}

/// Splits a source text into tokens, ending in exactly one `Eof`.
pub fn tokenize(input: &str) -> (r: TokenizeResult<Vec<Token>>)
    ensures
        match r {
            Ok(tokens) => lex(input@) == Ok::<Seq<TokenView>, nat>(tokens_view(tokens@)),
            Err(e) => lex(input@) == Err::<Seq<TokenView>, nat>(e.pos as nat) && e.source_code_line@ == input@,
        },
{
    let n = input.unicode_len();
    let ghost s = input@;
    let mut tokens: Vec<Token> = Vec::new();
    let mut pos: usize = 0;
    proof {
        assert(tokens_view(tokens@) =~= Seq::<TokenView>::empty());
        assert(glue(Seq::empty(), lex_from(s, 0)) == lex_from(s, 0)) by {
            if let Ok(ts) = lex_from(s, 0) {
                assert(Seq::<TokenView>::empty() + ts =~= ts);
            }
        }
    }
    while pos < n
        invariant
            n == s.len(),
            s == input@,
            pos <= n,
            lex(s) == glue(tokens_view(tokens@), lex_from(s, pos as int)),
        decreases n - pos,
    {
        let ghost before = tokens@;
        proof {
            lemma_punct_from(s, pos as int, 0);
            lemma_keyword_from(s, pos as int, 0);
            lemma_alnum_run(s, pos as int);
            lemma_digit_run(s, pos as int);
        }
        match first_punct(input, pos) {
            Some(j) => {
                let p = punctuator(j);
                let t = Token::Reserved(String::from_str(p));
                proof {
                    lemma_glue(tokens_view(before), t@, lex_from(s, pos + punct(j as int).len()));
                    lemma_push_token(before, t);
                }
                tokens.push(t);
                pos = pos + p.unicode_len();
            },
            None => match first_keyword(input, pos) {
                Some(j) => {
                    let w = keyword_text(j);
                    let t = keyword_token_of(j);
                    proof {
                        lemma_glue(tokens_view(before), t@, lex_from(s, pos + keyword(j as int).len()));
                        lemma_push_token(before, t);
                    }
                    tokens.push(t);
                    pos = pos + w.unicode_len();
                },
                None => match match_variable_string(input, pos) {
                    Some(name) => {
                        let len = name.as_str().unicode_len();
                        let t = Token::Ident(name);
                        proof {
                            lemma_glue(tokens_view(before), t@, lex_from(s, pos + alnum_run(s, pos as int)));
                            lemma_push_token(before, t);
                        }
                        tokens.push(t);
                        pos = pos + len;
                    },
                    None => {
                        let c = input.get_char(pos);
                        if c == ' ' {
                            pos = pos + 1;
                        } else if is_digit_char(c) {
                            match parse_number(input, pos) {
                                Ok((v, end)) => {
                                    let t = Token::Num(v);
                                    proof {
                                        lemma_glue(tokens_view(before), t@, lex_from(s, end as int));
                                        lemma_push_token(before, t);
                                    }
                                    tokens.push(t);
                                    pos = end;
                                },
                                Err(e) => {
                                    proof {
                                        assert(digit_run(s, pos as int) == 1 + digit_run(s, pos + 1));
                                    }
                                    return Err(
                                        TokenizeError::new(e.message, 0, String::from_str(input), pos),
                                    );
                                },
                            }
                        } else {
                            return Err(
                                TokenizeError::new(
                                    String::from_str("unexpected character"),
                                    0,
                                    String::from_str(input),
                                    pos,
                                ),
                            );
                        }
                    },
                },
            },
        }
    }
    let t = Token::Eof;
    proof {
        lemma_push_token(tokens@, t);
        assert(tokens_view(tokens@) + seq![TokenView::Eof] =~= tokens_view(tokens@).push(t@));
    }
    tokens.push(t);
    Ok(tokens)
}

} // verus!
