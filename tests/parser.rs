use aurora::ast::{BinaryOp, Expr, ExprType, Function};
use aurora::error::Error;
use aurora::lexer::{Lexer, Token};
use aurora::parser::Parser;
use aurora::typing::AuroraType;

fn parser(src: &str) -> Parser {
    Parser::new(Lexer::new(src.as_bytes().to_vec()))
}

fn op_text(op: BinaryOp) -> &'static str {
    match op {
        BinaryOp::LessThan => "<",
        BinaryOp::Minus => "-",
        BinaryOp::Plus => "+",
        BinaryOp::Times => "*",
        BinaryOp::Equal => "==",
    }
}

/// A compact rendering of an expression tree.
fn show(e: &Expr) -> String {
    match &e.expr_type {
        ExprType::Binary(op, l, r) => format!("({} {} {})", op_text(*op), show(l), show(r)),
        ExprType::Call(name, args) => {
            let args: Vec<String> = args.iter().map(show).collect();
            format!("{}({})", name, args.join(", "))
        }
        ExprType::Boolean(b) => format!("{}", b),
        ExprType::Integer(i) => format!("{}", i),
        ExprType::Float(s) => s.clone(),
        ExprType::Let(name, None) => format!("let {}", name),
        ExprType::Let(name, Some(x)) => format!("let {} = {}", name, show(x)),
        ExprType::Assign(name, x) => format!("{} = {}", name, show(x)),
        ExprType::Variable(name) => name.clone(),
        ExprType::Block(es) => {
            let es: Vec<String> = es.iter().map(show).collect();
            format!("{{{}}}", es.join("; "))
        }
        ExprType::Return(None) => "return".to_string(),
        ExprType::Return(Some(x)) => format!("return {}", show(x)),
    }
}

fn returned(f: &Function) -> &Expr {
    match &f.body.expr_type {
        ExprType::Block(es) => match &es.last().unwrap().expr_type {
            ExprType::Return(Some(x)) => x,
            other => panic!("not a return: {:?}", other),
        },
        other => panic!("not a block: {:?}", other),
    }
}

fn no_any(e: &Expr) -> bool {
    if e.type_ == AuroraType::Any {
        return false;
    }
    match &e.expr_type {
        ExprType::Binary(_, l, r) => no_any(l) && no_any(r),
        ExprType::Call(_, args) => args.iter().all(no_any),
        ExprType::Let(_, Some(x)) | ExprType::Assign(_, x) | ExprType::Return(Some(x)) => no_any(x),
        ExprType::Block(es) => es.iter().all(no_any),
        _ => true,
    }
}

#[test]
fn times_binds_tighter_than_plus() {
    let mut p = parser("fn f() i64 { return 1 + 2 * 3; }");
    let f = p.definition().unwrap();
    assert_eq!(show(returned(&f)), "(+ 1 (* 2 3))");
}

#[test]
fn plus_binds_tighter_than_less_than() {
    let mut p = parser("fn f(a: i64, b: i64, c: i64) i64 { return a < b + c; }");
    let f = p.definition().unwrap();
    assert_eq!(show(returned(&f)), "(< a (+ b c))");
}

#[test]
fn minus_associates_to_the_left() {
    let mut p = parser("fn f(a: i64, b: i64, c: i64) i64 { return a - b - c; }");
    let f = p.definition().unwrap();
    assert_eq!(show(returned(&f)), "(- (- a b) c)");
}

#[test]
fn parentheses_group() {
    let mut p = parser("fn f() i64 { return (1 + 2) * 3; }");
    let f = p.definition().unwrap();
    assert_eq!(show(returned(&f)), "(* (+ 1 2) 3)");
}

#[test]
fn every_node_is_typed() {
    let src = "extern g(x: f64) f64;\nfn f(a: i32, b: f64) f64 { let c: f64 = g(b); let d = a; d = a; return c * b; }";
    let mut p2 = parser(src);
    let proto = p2.extern_().unwrap();
    assert_eq!(proto.function_name, "g");
    assert_eq!(proto.return_type, AuroraType::F64);
    assert_eq!(p2.lexer.next_token().unwrap(), Token::SemiColon);
    let f = p2.definition().unwrap();
    assert!(no_any(&f.body));
    assert_eq!(f.body.type_, AuroraType::F64);
    assert_eq!(
        show(&f.body),
        "{let c = g(b); let d = a; d = a; return (* c b)}"
    );
    match &f.body.expr_type {
        ExprType::Block(es) => {
            assert_eq!(es[0].type_, AuroraType::F64);
            assert_eq!(es[1].type_, AuroraType::I32);
            assert_eq!(es[2].type_, AuroraType::I32);
            assert_eq!(es[3].type_, AuroraType::F64);
        }
        _ => panic!("not a block"),
    }
}

#[test]
fn literals_are_i64_and_f64() {
    let mut p = parser("fn f() { let a = 1; let b = 2.5; }");
    let f = p.definition().unwrap();
    match &f.body.expr_type {
        ExprType::Block(es) => {
            assert_eq!(es[0].type_, AuroraType::I64);
            assert_eq!(es[1].type_, AuroraType::F64);
        }
        _ => panic!("not a block"),
    }
    assert_eq!(f.prototype.return_type, AuroraType::Void);
    assert_eq!(f.body.type_, AuroraType::Void);
}

#[test]
fn let_without_type_or_value_is_refused() {
    let mut p = parser("fn f() { let x; }");
    assert_eq!(p.definition().unwrap_err(), Error::Undefined("type".to_string()));
}

#[test]
fn let_with_annotation_only() {
    let mut p = parser("fn f() { let x: i16; return; }");
    let f = p.definition().unwrap();
    assert_eq!(show(&f.body), "{let x; return}");
    match &f.body.expr_type {
        ExprType::Block(es) => assert_eq!(es[0].type_, AuroraType::I16),
        _ => panic!("not a block"),
    }
}

#[test]
fn let_annotation_must_match_value() {
    let mut p = parser("fn f() { let x: i32 = 1; }");
    assert_eq!(
        p.definition().unwrap_err(),
        Error::MismatchedTypes(AuroraType::I32, AuroraType::I64)
    );
}

#[test]
fn variable_redefinition_is_refused() {
    let mut p = parser("fn f() { let x = 1; let x = 2; }");
    assert_eq!(p.definition().unwrap_err(), Error::VariableRedef);
}

#[test]
fn unknown_type_name_is_refused() {
    let mut p = parser("fn f(a: int) { }");
    assert_eq!(p.definition().unwrap_err(), Error::Undefined("type".to_string()));
}

#[test]
fn duplicate_parameter_is_refused() {
    let mut p = parser("fn f(a: i64, a: i64) { }");
    assert_eq!(p.definition().unwrap_err(), Error::VariableRedef);
}

#[test]
fn second_declaration_is_refused_when_parsing() {
    let mut p = parser("fn foo() {} fn foo() {}");
    let first = p.definition().unwrap();
    assert_eq!(first.prototype.function_name, "foo");
    assert_eq!(p.definition().unwrap_err(), Error::FunctionRedef);
}

#[test]
fn undefined_identifier_is_reported() {
    let mut p = parser("fn f() { return y; }");
    assert_eq!(
        p.definition().unwrap_err(),
        Error::Undefined("identifier y".to_string())
    );
}

#[test]
fn variables_do_not_outlive_their_function() {
    let mut p = parser("fn f(a: i64) { let b = a; } fn g() i64 { return b; }");
    p.definition().unwrap();
    assert_eq!(
        p.definition().unwrap_err(),
        Error::Undefined("identifier b".to_string())
    );
}

#[test]
fn unexpected_token_names_both_tokens() {
    let mut p = parser("fn f( { }");
    assert_eq!(
        p.definition().unwrap_err(),
        Error::Unexpected("token, expecting identifier".to_string())
    );
    let mut q = parser("fn f() { return 1 }");
    assert_eq!(
        q.definition().unwrap_err(),
        Error::UnexpectedToken(Token::SemiColon, Token::CloseBracket)
    );
}

#[test]
fn calls_take_the_callee_return_type() {
    let mut p = parser("extern h(a: i64, b: i64) i8; fn f() i8 { return h(1, 2); }");
    p.extern_().unwrap();
    assert_eq!(p.lexer.next_token().unwrap(), Token::SemiColon);
    let f = p.definition().unwrap();
    let r = returned(&f);
    assert_eq!(show(r), "h(1, 2)");
    assert_eq!(r.type_, AuroraType::I8);
}

#[test]
fn void_parameter_is_refused() {
    let mut p = parser("fn f(a: void) { }");
    assert_eq!(
        p.definition().unwrap_err(),
        Error::Unexpected("parameter of type void".to_string())
    );
}

#[test]
fn empty_block_and_trailing_semicolons() {
    let mut p = parser("fn f() { } ;");
    let f = p.definition().unwrap();
    assert_eq!(show(&f.body), "{}");
    assert_eq!(p.lexer.next_token().unwrap(), Token::SemiColon);
    assert_eq!(p.lexer.next_token().unwrap(), Token::Eof);
}

#[test]
fn let_needs_semicolon_or_value() {
    let mut p = parser("fn f() { let x: i8 ) }");
    assert_eq!(
        p.definition().unwrap_err(),
        Error::Unexpected("token, expecting ';' or '='".to_string())
    );
}

#[test]
fn parameters_need_commas() {
    let mut p = parser("fn f(a: i64 b: i64) { }");
    assert_eq!(
        p.definition().unwrap_err(),
        Error::Unexpected("operator, expected ','".to_string())
    );
    let mut q = parser("fn f(a: i64; { }");
    assert_eq!(q.definition().unwrap_err(), Error::Unexpected("token".to_string()));
}

#[test]
fn let_cannot_take_a_function_name() {
    let mut p = parser("fn g() { } fn f() { let g = 1; }");
    p.definition().unwrap();
    assert_eq!(p.definition().unwrap_err(), Error::VariableRedef);
}

#[test]
fn mixed_float_sum_is_f64() {
    let mut p = parser("fn f(a: f32, b: f64) f64 { return a + b; }");
    let f = p.definition().unwrap();
    assert_eq!(returned(&f).type_, AuroraType::F64);
}

#[test]
fn unknown_callee_is_an_undefined_identifier() {
    let mut p = parser("fn f() { return g(1); }");
    assert_eq!(
        p.definition().unwrap_err(),
        Error::Undefined("identifier g".to_string())
    );
}
