use vstd::prelude::*;

use crate::ast::{lemma_nodes_view, node_view, nodes_view, Node, NodeView};
use crate::generator::{asm_of, emit, Asm, GenerateError, Generator};
use crate::grammar::p_program;
use crate::locals::MAX_LOCALS;
use crate::parser::{ParseError, TokenStream};
use crate::render::inst_text;
use crate::tokenizer::{lemma_lex_ends_in_eof, lex, tokenize, tokens_view, TokenizeError};

verus! {

/// Why a source program could not be compiled, by stage.
#[derive(Debug)]
pub enum CompileError {
    Tokenize(TokenizeError),
    /// More tokens than frame offsets can number.
    SourceTooLong,
    Parse(ParseError),
    Generate(GenerateError),
}

/// The code for the functions `fs`, one after the other, from label number `k`.
pub open spec fn emit_functions(fs: Seq<NodeView>, k: nat) -> Result<(Seq<Asm>, nat), GenerateError>
    decreases fs.len(),
{
    if fs.len() == 0 {
        Ok((Seq::empty(), k))
    } else {
        match emit_functions(fs.drop_last(), k) {
            Err(e) => Err(e),
            Ok((a, k1)) => match emit(fs.last(), k1) {
                Err(e) => Err(e),
                Ok((b, k2)) => Ok((a + b, k2)),
            },
        }
    }
}

/// The assembly text for the code `c`: the prelude, then one line per instruction.
pub open spec fn assembly_text(lines: Seq<Seq<char>>, c: Seq<Asm>) -> bool {
    &&& lines.len() == c.len() + 2
    &&& lines[0] == ".intel_syntax noprefix"@
    &&& lines[1] == ".globl main"@
    &&& forall|i: int| 0 <= i < c.len() ==> lines[i + 2] == inst_text(#[trigger] c[i])
}

proof fn lemma_emit_functions_err_prefix(s: Seq<NodeView>, i: int, k: nat)
    requires
        0 <= i <= s.len(),
        emit_functions(s.take(i), k) is Err,
    ensures
        emit_functions(s, k) == emit_functions(s.take(i), k),
    decreases s.len(),
{
    if i < s.len() {
        assert(s.drop_last().take(i) =~= s.take(i));
        lemma_emit_functions_err_prefix(s.drop_last(), i, k);
    } else {
        assert(s.take(i) =~= s);
    }
}

/// Compiles a source program to the lines of its assembly text: lexing,
/// parsing and code generation, each as its specification gives it; the
/// first stage that fails gives the error.
pub fn compile(source: &str) -> (r: Result<Vec<String>, CompileError>)
    ensures
        match lex(source@) {
            Err(p) => r matches Err(CompileError::Tokenize(e)) && e.pos == p,
            Ok(ts) => if ts.len() > MAX_LOCALS {
                r matches Err(CompileError::SourceTooLong)
            } else {
                match p_program(ts) {
                    Err(pe) => r matches Err(CompileError::Parse(e)) && e@ == pe,
                    Ok(fs) => match emit_functions(fs, 0) {
                        Err(ge) => r matches Err(CompileError::Generate(e)) && e == ge,
                        Ok((c, _)) => r matches Ok(lines) && assembly_text(
                            lines@.map_values(|l: String| l@),
                            c,
                        ),
                    },
                }
            },
        },
{
    let tokens = match tokenize(source) {
        Ok(t) => t,
        Err(e) => {
            return Err(CompileError::Tokenize(e));
        },
    };
    if tokens.len() > MAX_LOCALS {
        return Err(CompileError::SourceTooLong);
    }
    proof {
        lemma_lex_ends_in_eof(source@, 0);
        assert(tokens_view(tokens@)[tokens@.len() - 1] == tokens@.last()@);
    }
    let ghost ts = tokens_view(tokens@);
    let mut stream = TokenStream::new(tokens);
    let functions = match stream.program() {
        Ok(fs) => fs,
        Err(e) => {
            return Err(CompileError::Parse(e));
        },
    };
    let ghost fs = nodes_view(functions@);
    proof {
        lemma_nodes_view(functions@);
        assert(functions@.take(0) =~= Seq::<Node>::empty());
        assert(nodes_view(functions@.take(0)) =~= Seq::<NodeView>::empty());
    }
    let mut generator = Generator::new();
    assert(asm_of(generator.code@) =~= Seq::<Asm>::empty());
    let mut i: usize = 0;
    while i < functions.len()
        invariant
            0 <= i <= functions@.len(),
            fs == nodes_view(functions@),
            fs.len() == functions@.len(),
            lex(source@) == Ok::<Seq<crate::tokenizer::TokenView>, nat>(ts),
            ts.len() <= MAX_LOCALS,
            p_program(ts) == Ok::<Seq<NodeView>, crate::grammar::ParseErrorView>(fs),
            emit_functions(fs.take(i as int), 0) == Ok::<(Seq<Asm>, nat), GenerateError>(
                (asm_of(generator.code@), generator.next_label as nat),
            ),
        decreases functions@.len() - i,
    {
        proof {
            lemma_nodes_view(functions@);
            assert(fs.take(i + 1).drop_last() =~= fs.take(i as int));
            assert(fs.take(i + 1).last() == node_view(functions@[i as int]));
        }
        match generator.gen(&functions[i]) {
            Ok(()) => {},
            Err(e) => {
                proof {
                    assert(emit_functions(fs.take(i + 1), 0) == Err::<(Seq<Asm>, nat), GenerateError>(e));
                    lemma_emit_functions_err_prefix(fs, i + 1, 0);
                }
                return Err(CompileError::Generate(e));
            },
        }
        i = i + 1;
    }
    proof {
        assert(fs.take(i as int) =~= fs);
    }
    let mut lines: Vec<String> = Vec::new();
    lines.push(String::from_str(".intel_syntax noprefix"));
    lines.push(String::from_str(".globl main"));
    let ghost c = asm_of(generator.code@);
    let mut j: usize = 0;
    while j < generator.code.len()
        invariant
            0 <= j <= generator.code@.len(),
            c == asm_of(generator.code@),
            lines@.len() == j + 2,
            lines@[0]@ == ".intel_syntax noprefix"@,
            lines@[1]@ == ".globl main"@,
            forall|t: int| 0 <= t < j ==> lines@[t + 2]@ == inst_text(#[trigger] c[t]),
        decreases generator.code@.len() - j,
    {
        let line = generator.code[j].text();
        lines.push(line);
        j = j + 1;
    }
    assert(lines@.map_values(|l: String| l@).len() == c.len() + 2);
    Ok(lines)
}

} // verus!
