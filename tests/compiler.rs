use minicc::driver::{compile as driver_compile, CompileError};
use minicc::render::{decimal_text, int_decimal_text};
use minicc::ast::{Node, Type};
use minicc::generator::{GenerateError, Generator, Instr};
use minicc::parser::{ParseError, TokenStream};
use minicc::tokenizer::{tokenize, Token};

fn parse(src: &str) -> Result<Vec<Node>, ParseError> {
    let tokens = tokenize(src).expect("tokenize");
    let mut stream = TokenStream::new(tokens);
    stream.program()
}

fn compile(src: &str) -> Result<Vec<String>, GenerateError> {
    let program = parse(src).expect("parse");
    let mut generator = Generator::new();
    for f in &program {
        generator.gen(f)?;
    }
    Ok(generator.code.iter().map(|i| i.text()).collect())
}

fn has(lines: &[String], line: &str) -> bool {
    lines.iter().any(|l| l == line)
}

#[test]
fn tokenize_operators_longest_match() {
    let tokens = tokenize("a<=b==c!=d>=e<f>g").unwrap();
    let punct: Vec<String> = tokens
        .iter()
        .filter_map(|t| t.as_reserved().cloned())
        .collect();
    assert_eq!(punct, vec!["<=", "==", "!=", ">=", "<", ">"]);
    assert!(tokens.last().unwrap().as_eof());
}

#[test]
fn tokenize_numbers_and_spaces() {
    let tokens = tokenize("12 + 345").unwrap();
    assert_eq!(tokens.len(), 4);
    assert_eq!(tokens[0].as_num(), Some(12));
    assert_eq!(tokens[1].as_reserved().map(|s| s.as_str()), Some("+"));
    assert_eq!(tokens[2].as_num(), Some(345));
    assert!(tokens[3].as_eof());
}

#[test]
fn tokenize_keyword_has_no_boundary_check() {
    let tokens = tokenize("returnx").unwrap();
    assert!(matches!(tokens[0], Token::Return));
    assert!(matches!(&tokens[1], Token::Ident(s) if s == "x"));
    assert!(tokens[2].as_eof());
}

#[test]
fn tokenize_keywords_and_identifiers() {
    let tokens = tokenize("int if else for while foo1").unwrap();
    assert!(matches!(tokens[0], Token::Int));
    assert!(matches!(tokens[1], Token::If));
    assert!(matches!(tokens[2], Token::Else));
    assert!(matches!(tokens[3], Token::For));
    assert!(matches!(tokens[4], Token::While));
    assert!(matches!(&tokens[5], Token::Ident(s) if s == "foo1"));
}

#[test]
fn tokenize_rejects_unknown_character() {
    let err = tokenize("1 + @").unwrap_err();
    assert_eq!(err.pos, 4);
}

#[test]
fn tokenize_rejects_number_out_of_range() {
    let err = tokenize("x 99999999999999999999").unwrap_err();
    assert_eq!(err.pos, 2);
    let ok = tokenize("9223372036854775807").unwrap();
    assert_eq!(ok[0].as_num(), Some(i64::MAX));
}

#[test]
fn empty_input_is_just_eof() {
    let tokens = tokenize("").unwrap();
    assert_eq!(tokens.len(), 1);
    assert!(tokens[0].as_eof());
    assert_eq!(parse("").unwrap().len(), 0);
}

#[test]
fn return_zero() {
    let lines = compile("int main() { return 0; }").unwrap();
    assert_eq!(
        lines,
        vec![
            "main:", "  push rbp", "  mov rbp, rsp", "  push 0", "  pop rax", "  mov rsp, rbp",
            "  pop rbp", "  ret", "  pop rax", "  mov rsp, rbp", "  pop rbp", "  ret",
        ]
    );
}

#[test]
fn return_forty_two() {
    let lines = compile("int main() { return 42; }").unwrap();
    assert!(has(&lines, "  push 42"));
}

#[test]
fn add_and_sub() {
    let lines = compile("int main() { return 5+20-4; }").unwrap();
    for l in ["  push 5", "  push 20", "  push 4", "  add rax, rdi", "  sub rax, rdi"] {
        assert!(has(&lines, l), "{}", l);
    }
}

#[test]
fn parenthesised_division() {
    let lines = compile("int main() { return (3+5)/2; }").unwrap();
    assert!(has(&lines, "  cqo"));
    assert!(has(&lines, "  idiv rdi"));
}

#[test]
fn locals_get_consecutive_slots() {
    let lines = compile("int main() { int a; a = 3; int b; b = 5*6-8; return a + b / 2; }").unwrap();
    assert!(has(&lines, "  sub rax, 8"));
    assert!(has(&lines, "  sub rax, 16"));
    assert!(has(&lines, "  mul rdi"));
}

#[test]
fn for_loop_labels() {
    let lines = compile(
        "int main() { int i; int s; s = 0; for (i = 0; i < 10; i = i + 1) s = s + i; return s; }",
    )
    .unwrap();
    assert!(has(&lines, ".Lbegin0:"));
    assert!(has(&lines, "  je .Lend0"));
    assert!(has(&lines, "  jmp .Lbegin0"));
    assert!(has(&lines, ".Lend0:"));
    assert!(has(&lines, "  setl al"));
}

#[test]
fn address_and_deref() {
    let lines = compile("int main() { int x; x = 3; int *y; y = &x; return *y; }").unwrap();
    assert!(has(&lines, "  mov rax, [rsi]"));
}

#[test]
fn call_with_two_arguments() {
    let lines =
        compile("int add(int a, int b) { return a + b; } int main() { return add(3, 4); }").unwrap();
    let call = lines.iter().position(|l| l == "  call add").unwrap();
    assert_eq!(lines[call - 2], "  pop rdi");
    assert_eq!(lines[call - 1], "  pop rsi");
    assert_eq!(lines[call - 4], "  push 4");
    assert_eq!(lines[call - 3], "  push 3");
    assert!(has(&lines, "add:"));
    assert!(has(&lines, "  push rdi"));
    assert!(has(&lines, "  push rsi"));
}

#[test]
fn not_equal_is_ne() {
    let lines = compile("int main() { return 1 != 2; }").unwrap();
    assert!(has(&lines, "  setne al"));
    assert!(!has(&lines, "  sete al"));
}

#[test]
fn greater_swaps_operands() {
    let program = parse("int main() { return 1 > 2; }").unwrap();
    let Node::DefineFunction(f) = &program[0] else { panic!() };
    let Node::Return(v) = &f.statements()[0] else { panic!() };
    let Node::Operator2 { left, right, .. } = v.as_ref() else { panic!() };
    assert!(matches!(left.as_ref(), Node::Num(2)));
    assert!(matches!(right.as_ref(), Node::Num(1)));
}

#[test]
fn pointer_add_scales_by_four() {
    let lines = compile("int main() { int x; int *p; p = &x; return *(p + 1); }").unwrap();
    assert!(has(&lines, "  shl rdi, 2"));
}

#[test]
fn pointer_to_pointer_add_scales_by_eight() {
    let lines = compile("int main() { int *x; int **p; p = &x; p + 1; return 0; }").unwrap();
    assert!(has(&lines, "  shl rdi, 3"));
}

#[test]
fn pointer_sub_does_not_scale() {
    let lines = compile("int main() { int x; int *p; p = &x; p - 1; return 0; }").unwrap();
    assert!(!lines.iter().any(|l| l.starts_with("  shl")));
}

#[test]
fn if_else_labels_increase() {
    let lines = compile("int main() { if (1) 2; else 3; if (0) 4; return 0; }").unwrap();
    assert!(has(&lines, "  je .Lelse0"));
    assert!(has(&lines, ".Lelse0:"));
    assert!(has(&lines, ".Lend0:"));
    assert!(has(&lines, ".Lelse1:"));
    assert!(has(&lines, "  push 0"));
    let defs: Vec<&String> = lines.iter().filter(|l| l.starts_with(".L")).collect();
    let mut sorted = defs.clone();
    sorted.sort();
    sorted.dedup();
    assert_eq!(defs.len(), sorted.len());
}

#[test]
fn while_is_a_loop_without_init() {
    let lines = compile("int main() { int i; i = 0; while (i < 3) i = i + 1; return i; }").unwrap();
    assert!(has(&lines, ".Lbegin0:"));
    assert!(has(&lines, "  je .Lend0"));
}

#[test]
fn too_many_call_arguments() {
    let err = compile("int main() { return f(1, 2, 3, 4, 5, 6, 7); }").unwrap_err();
    assert!(matches!(err, GenerateError::CallArgsOverFlow));
}

#[test]
fn six_call_arguments_fill_all_registers() {
    let lines = compile("int main() { return f(1, 2, 3, 4, 5, 6); }").unwrap();
    for r in ["rdi", "rsi", "rdx", "rcx", "r8", "r9"] {
        assert!(has(&lines, &format!("  pop {}", r)));
    }
}

#[test]
fn assignment_needs_lvalue() {
    let err = compile("int main() { 1 = 2; return 0; }").unwrap_err();
    assert!(matches!(err, GenerateError::NotLeftValue));
}

#[test]
fn undefined_variable_is_rejected() {
    let err = parse("int main() { return x; }").unwrap_err();
    assert!(matches!(err, ParseError::NotDefinedVariable(ref s) if s == "x"));
}

#[test]
fn missing_semicolon_is_rejected() {
    let err = parse("int main() { return 1 }").unwrap_err();
    assert!(matches!(err, ParseError::ExpectReserved(ref s) if s == ";"));
}

#[test]
fn function_must_start_with_int() {
    let err = parse("main() { return 1; }").unwrap_err();
    assert!(matches!(err, ParseError::ExpectInt(_)));
}

#[test]
fn missing_number_is_rejected() {
    let err = parse("int main() { return ; }").unwrap_err();
    assert!(matches!(err, ParseError::ExpectNumber));
}

#[test]
fn redeclaration_keeps_first_slot() {
    let lines = compile("int main() { int a; int a; a = 1; return a; }").unwrap();
    assert!(has(&lines, "  sub rax, 8"));
    assert!(!has(&lines, "  sub rax, 16"));
}

#[test]
fn assignment_is_right_associative() {
    let program = parse("int main() { int a; int b; a = b = 3; return a; }").unwrap();
    let Node::DefineFunction(f) = &program[0] else { panic!() };
    let Node::Assign { right, .. } = &f.statements()[2] else { panic!() };
    assert!(matches!(right.as_ref(), Node::Assign { .. }));
}

#[test]
fn unary_minus_is_zero_minus() {
    let lines = compile("int main() { return -3; }").unwrap();
    assert_eq!(lines[3], "  push 0");
    assert_eq!(lines[4], "  push 3");
}

#[test]
fn decimal_rendering() {
    assert_eq!(decimal_text(0), "0");
    assert_eq!(decimal_text(1234), "1234");
    assert_eq!(int_decimal_text(-5), "-5");
    assert_eq!(int_decimal_text(i64::MIN), "-9223372036854775808");
}

#[test]
fn type_sizes() {
    assert_eq!(Type::Int.size(), 4);
    assert_eq!(Type::Ptr(Box::new(Type::Int)).size(), 8);
}

/// Pushes minus pops over `lines[from..to]`.
fn net(lines: &[String], from: usize, to: usize) -> i64 {
    lines[from..to]
        .iter()
        .map(|l| if l.starts_with("  push ") { 1 } else if l.starts_with("  pop ") { -1 } else { 0 })
        .sum()
}

fn index_of(lines: &[String], line: &str) -> usize {
    lines.iter().position(|l| l == line).unwrap()
}

#[test]
fn braced_if_body_keeps_stack_balanced() {
    let lines = compile("int main() { int a; a = 5; if (1) { 2; } return a; }").unwrap();
    let push2 = index_of(&lines, "  push 2");
    assert_eq!(lines[push2 + 1], "  pop rax");
    assert_eq!(lines[push2 + 2], "  push 0");
    assert_eq!(lines[push2 + 3], "  jmp .Lend0");
    // Then-path of the `if`: condition, test, braced branch; one value in all.
    let start = index_of(&lines, "  push 1");
    let jmp = index_of(&lines, "  jmp .Lend0");
    assert_eq!(net(&lines, start, jmp), 1);
    // Else-path: condition, test, the `push 0` standing for the missing branch.
    let els = index_of(&lines, ".Lelse0:");
    let end = index_of(&lines, ".Lend0:");
    assert_eq!(net(&lines, start, index_of(&lines, "  je .Lelse0") + 1) + net(&lines, els, end), 1);
}

#[test]
fn nested_block_leaves_one_value() {
    let lines = compile("int main() { { { 1; } } return 0; }").unwrap();
    let body: Vec<&str> = lines[3..9].iter().map(|s| s.as_str()).collect();
    assert_eq!(
        body,
        vec!["  push 1", "  pop rax", "  push 0", "  pop rax", "  push 0", "  pop rax"]
    );
    assert_eq!(net(&lines, 3, 9), 0);
}

#[test]
fn loop_discards_its_values_and_leaves_one() {
    let lines = compile(
        "int main() { int i; int s; s = 0; for (i = 0; i < 10; i = i + 1) s = s + i; return s; }",
    )
    .unwrap();
    let begin = index_of(&lines, ".Lbegin0:");
    assert_eq!(lines[begin - 1], "  pop rax");
    let jmp = index_of(&lines, "  jmp .Lbegin0");
    assert_eq!(lines[jmp - 1], "  pop rax");
    let end = index_of(&lines, ".Lend0:");
    assert_eq!(lines[end + 1], "  push 0");
    // One pass round the loop, condition, body and step, adds nothing.
    assert_eq!(net(&lines, begin + 1, jmp), 0);
}

#[test]
fn while_loop_leaves_one_value() {
    let lines = compile("int main() { while (0) { 1; } return 0; }").unwrap();
    let begin = index_of(&lines, ".Lbegin0:");
    let end = index_of(&lines, ".Lend0:");
    assert_eq!(net(&lines, begin, end + 2), 1);
}

#[test]
fn call_overflow_emits_nothing() {
    let program = parse("int main() { return f(1, 2, 3, 4, 5, 6, 7); }").unwrap();
    let Node::DefineFunction(f) = &program[0] else { panic!() };
    let Node::Return(call) = &f.statements()[0] else { panic!() };
    let mut generator = Generator::new();
    let err = generator.gen(call).unwrap_err();
    assert!(matches!(err, GenerateError::CallArgsOverFlow));
    assert!(generator.code.is_empty());
    assert_eq!(generator.next_label, 0);
}

#[test]
fn not_lvalue_emits_nothing() {
    let program = parse("int main() { return 1; }").unwrap();
    let Node::DefineFunction(f) = &program[0] else { panic!() };
    let Node::Return(one) = &f.statements()[0] else { panic!() };
    let mut generator = Generator::new();
    assert!(matches!(generator.gen_lval(one), Err(GenerateError::NotLeftValue)));
    assert!(generator.code.is_empty());
}

#[test]
fn label_numbers_exhausted() {
    let program = parse("int main() { if (1) 2; return 0; }").unwrap();
    let Node::DefineFunction(f) = &program[0] else { panic!() };
    let mut generator = Generator::new();
    generator.next_label = usize::MAX;
    let err = generator.gen(&f.statements()[0]).unwrap_err();
    assert!(matches!(err, GenerateError::TooManyLabels));
    assert!(generator.code.is_empty());
}

#[test]
fn labels_numbered_across_functions() {
    let lines = compile("int f() { if (1) 1; return 0; } int main() { while (0) 1; return 0; }")
        .unwrap();
    assert!(has(&lines, ".Lend0:"));
    assert!(has(&lines, ".Lbegin1:"));
    assert!(!has(&lines, ".Lbegin0:"));
}

#[test]
fn tokenize_error_keeps_source() {
    let err = tokenize("int x; #").unwrap_err();
    assert_eq!(err.pos, 7);
    assert_eq!(err.source_code_line, "int x; #");
}

#[test]
fn program_stops_on_end_marker() {
    let tokens = tokenize("int main() { return 0; }").unwrap();
    let n = tokens.len();
    let mut stream = TokenStream::new(tokens);
    let program = stream.program().unwrap();
    assert_eq!(program.len(), 1);
    assert!(stream.at_eof());
    assert_eq!(stream.pos, n - 1);
}

#[test]
fn instruction_text() {
    assert_eq!(Instr::<String>::Label(minicc::generator::LabelKind::Begin, 3).text(), ".Lbegin3:");
    assert_eq!(Instr::<String>::PushImm(-7).text(), "  push -7");
}

#[test]
fn driver_emits_prelude_and_functions() {
    let lines = driver_compile("int main() { return 42; }").unwrap();
    assert_eq!(lines[0], ".intel_syntax noprefix");
    assert_eq!(lines[1], ".globl main");
    assert_eq!(lines[2], "main:");
    assert!(lines.iter().any(|l| l == "  push 42"));
}

#[test]
fn driver_reports_each_stage() {
    assert!(matches!(driver_compile("int main() { return $; }"), Err(CompileError::Tokenize(e)) if e.pos == 20));
    assert!(matches!(driver_compile("int main() { return x; }"), Err(CompileError::Parse(_))));
    assert!(matches!(
        driver_compile("int main() { return f(1, 2, 3, 4, 5, 6, 7); }"),
        Err(CompileError::Generate(GenerateError::CallArgsOverFlow))
    ));
}
