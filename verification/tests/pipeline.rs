use minilang::ast::parse_items;
use minilang::interp::{Context, EvalError, Program, ProgramError, Value};
use minilang::lex::{lex_tokens, Token};

fn build(src: &str) -> Result<Program, ProgramError> {
    let toks = lex_tokens(src.as_bytes()).expect("lexing failed");
    let items = parse_items(&toks).expect("parsing failed");
    Program::from_items(items)
}

fn exec(src: &str) -> Result<Context, EvalError> {
    build(src).expect("program construction failed").execute(100)
}

fn var_u32(ctx: &Context, name: &str) -> u32 {
    match ctx.get_var(&name.as_bytes().to_vec()) {
        Some(Value::Int(v)) => v,
        None => panic!("variable {name} is unbound"),
    }
}

#[test]
fn whitespace_only_yields_no_tokens() {
    for src in ["", " ", "   \t\n\r  ", "\n\n\t", "\x0c \x0c"] {
        let toks = lex_tokens(src.as_bytes()).expect("whitespace must lex");
        assert!(toks.is_empty(), "{src:?} produced tokens");
    }
}

#[test]
fn integer_literal_round_trips_through_the_lexer() {
    for v in [0u32, 5, 9, 10, 42, 120, 65535, 4294967295] {
        let rendered = format!("{v}");
        let toks = lex_tokens(rendered.as_bytes()).expect("digits must lex");
        assert_eq!(toks.len(), 1);
        match &toks[0] {
            Token::Integer(text) => assert_eq!(text, rendered.as_bytes()),
            other => panic!("expected an integer literal, got {other:?}"),
        }
        let src = format!("begin {{ var x = {rendered}; }}");
        let ctx = exec(&src).expect("literal program must run");
        assert_eq!(var_u32(&ctx, "x"), v);
    }
}

#[test]
fn tokens_are_classified_in_order() {
    let toks = lex_tokens(b"begin func return var { } ( ) = + , ; name 7").unwrap();
    assert_eq!(
        toks,
        vec![
            Token::Begin,
            Token::Func,
            Token::Return,
            Token::Var,
            Token::LeftBrace,
            Token::RightBrace,
            Token::LeftParen,
            Token::RightParen,
            Token::Equals,
            Token::Plus,
            Token::Comma,
            Token::Semicolon,
            Token::Ident(b"name".to_vec()),
            Token::Integer(b"7".to_vec()),
        ]
    );
}

#[test]
fn lexing_fails_at_the_offending_byte() {
    let err = lex_tokens(b"begin @").expect_err("@ must not lex");
    assert_eq!(err.offset, 6);
}

#[test]
fn keywords_need_no_surrounding_whitespace() {
    let toks = lex_tokens(b"beginx").unwrap();
    assert_eq!(toks, vec![Token::Ident(b"beginx".to_vec())]);
    let toks = lex_tokens(b"var1").unwrap();
    assert_eq!(toks, vec![Token::Var, Token::Integer(b"1".to_vec())]);
}

#[test]
fn return_in_entry_block_is_rejected_at_execution() {
    let program = build("begin { var x = 1; var y = 2; return x + y; }")
        .expect("the text parses and builds");
    assert_eq!(program.execute(100).expect_err("must fail"), EvalError::ReturnOutsideFunction);
}

#[test]
fn entry_block_without_return_is_accepted() {
    let ctx = exec("begin { var x = 1; var y = 2; }").expect("must run");
    assert_eq!(var_u32(&ctx, "x"), 1);
    assert_eq!(var_u32(&ctx, "y"), 2);
}

#[test]
fn function_call_binds_parameters_positionally() {
    let ctx = exec("func add(a, b) { return a + b; } begin { var r = add(2, 3); }").unwrap();
    assert_eq!(var_u32(&ctx, "r"), 5);
}

#[test]
fn entry_block_may_come_before_function_definitions() {
    let ctx = exec("begin { var r = add(2, 3); } func add(a, b) { return a + b; }").unwrap();
    assert_eq!(var_u32(&ctx, "r"), 5);
}

#[test]
fn nested_calls_do_not_corrupt_same_named_locals() {
    let ctx = exec(
        "func inner(t) { var local = t + 100; return local; } \
         func outer(t) { var local = t; var u = inner(7); return local + u; } \
         begin { var r = outer(1); }",
    )
    .unwrap();
    assert_eq!(var_u32(&ctx, "r"), 108);
}

#[test]
fn unconditional_self_call_exhausts_the_call_depth() {
    let err = exec("func f(n) { return f(n + 1); } begin { var x = f(0); }")
        .expect_err("infinite recursion must fail");
    assert_eq!(err, EvalError::CallDepthExceeded);
}

#[test]
fn addition_is_right_associative_and_wraps() {
    let ctx = exec("begin { var x = 4294967295 + 1; var y = 1 + 2 + 3; }").unwrap();
    assert_eq!(var_u32(&ctx, "x"), 0);
    assert_eq!(var_u32(&ctx, "y"), 6);
}

#[test]
fn assignment_overwrites_a_declared_variable() {
    let ctx = exec("begin { var x = 1; x = x + 41; }").unwrap();
    assert_eq!(var_u32(&ctx, "x"), 42);
}

#[test]
fn redeclaration_in_one_scope_fails() {
    let err = exec("begin { var x = 1; var x = 2; }").expect_err("must fail");
    assert_eq!(err, EvalError::Redeclaration { name: b"x".to_vec() });
}

#[test]
fn assignment_to_undeclared_variable_fails() {
    let err = exec("begin { y = 1; }").expect_err("must fail");
    assert_eq!(err, EvalError::AssignToUndeclared { name: b"y".to_vec() });
}

#[test]
fn reference_to_undefined_variable_fails() {
    let err = exec("begin { var x = nope; }").expect_err("must fail");
    assert_eq!(err, EvalError::UndefinedVariable { name: b"nope".to_vec() });
}

#[test]
fn call_of_undefined_function_fails() {
    let err = exec("begin { var x = missing(1); }").expect_err("must fail");
    assert_eq!(err, EvalError::UndefinedFunction { name: b"missing".to_vec() });
}

#[test]
fn call_with_wrong_argument_count_fails() {
    let err = exec("func add(a, b) { return a + b; } begin { var x = add(1); }")
        .expect_err("must fail");
    assert_eq!(err, EvalError::ArityMismatch { name: b"add".to_vec() });
}

#[test]
fn body_without_return_fails_with_missing_return() {
    let err = exec("func f() { var x = 1; } begin { var r = f(); }").expect_err("must fail");
    assert_eq!(err, EvalError::MissingReturn { name: b"f".to_vec() });
}

#[test]
fn second_executed_return_fails_with_double_return() {
    let err = exec("func f() { return 1; return 2; } begin { var r = f(); }")
        .expect_err("must fail");
    assert_eq!(err, EvalError::DoubleReturn);
}

#[test]
fn callee_cannot_see_caller_variables() {
    let err = exec("func f() { return hidden; } begin { var hidden = 5; var r = f(); }")
        .expect_err("must fail");
    assert_eq!(err, EvalError::UndefinedVariable { name: b"hidden".to_vec() });
}

#[test]
fn two_entry_blocks_fail_construction() {
    let toks = lex_tokens(b"begin { } begin { }").unwrap();
    let items = parse_items(&toks).unwrap();
    assert_eq!(
        Program::from_items(items).expect_err("must fail"),
        ProgramError::MultipleEntryBlocks
    );
}

#[test]
fn duplicate_function_names_fail_construction() {
    let toks =
        lex_tokens(b"func f() { return 1; } func f() { return 2; } begin { }").unwrap();
    let items = parse_items(&toks).unwrap();
    assert_eq!(
        Program::from_items(items).expect_err("must fail"),
        ProgramError::DuplicateFunction { name: b"f".to_vec() }
    );
}

#[test]
fn missing_entry_block_fails_construction() {
    let toks = lex_tokens(b"func f() { return 1; }").unwrap();
    let items = parse_items(&toks).unwrap();
    assert_eq!(Program::from_items(items).expect_err("must fail"), ProgramError::NoEntryBlock);
}

#[test]
fn empty_parameter_and_argument_lists_parse() {
    let ctx = exec("func seven() { return 7; } begin { var r = seven(); }").unwrap();
    assert_eq!(var_u32(&ctx, "r"), 7);
}

#[test]
fn call_arguments_may_be_full_expressions() {
    let ctx = exec(
        "func add(a, b) { return a + b; } begin { var r = add(add(1, 2), 3 + 4); }",
    )
    .unwrap();
    assert_eq!(var_u32(&ctx, "r"), 10);
}

#[test]
fn parse_fails_at_the_offending_token() {
    let toks = lex_tokens(b"begin { var 1 = 2; }").unwrap();
    let err = parse_items(&toks).expect_err("must fail");
    assert_eq!(err.pos, 3);
}

#[test]
fn parse_fails_on_missing_semicolon() {
    let toks = lex_tokens(b"begin { var x = 1 }").unwrap();
    let err = parse_items(&toks).expect_err("must fail");
    assert_eq!(err.pos, 6);
}

#[test]
fn parse_fails_on_trailing_parameter_comma() {
    let toks = lex_tokens(b"func f(a,) { return a; } begin { }").unwrap();
    assert!(parse_items(&toks).is_err());
}

#[test]
fn parse_fails_on_oversized_integer_literal() {
    let toks = lex_tokens(b"begin { var x = 4294967296; }").unwrap();
    let err = parse_items(&toks).expect_err("must fail");
    assert_eq!(err.pos, 5);
}

#[test]
fn parse_fails_at_premature_end_of_input() {
    let toks = lex_tokens(b"begin { var x = ").unwrap();
    let err = parse_items(&toks).expect_err("must fail");
    assert_eq!(err.pos, 5);
}

#[test]
fn keywords_cannot_be_identifiers() {
    let toks = lex_tokens(b"begin { var var = 1; }").unwrap();
    assert!(parse_items(&toks).is_err());
}
