use aurora::ast::{Expr, ExprType, Function, Parameter, Prototype};
use aurora::error::Error;
use aurora::gen::{Generator, ParseExpr, VariableBuilder};
use aurora::ir::{FuncDecl, Inst, IrFunction, Linkage};
use aurora::lexer::{Lexer, Token};
use aurora::parser::Parser;
use aurora::typing::{AuroraType, MachType};

/// Compiles a whole source text as the driver does: each top-level item in
/// turn, skipping one token after an error.
fn compile(src: &str) -> (Generator, Vec<Error>) {
    let mut parser = Parser::new(Lexer::new(src.as_bytes().to_vec()));
    let mut generator = Generator::new();
    generator.init_essential_lib().unwrap();
    let mut errors = Vec::new();
    loop {
        let token = match parser.lexer.peek(0) {
            Ok(t) => t,
            Err(e) => {
                errors.push(e);
                continue;
            }
        };
        match token {
            Token::Eof => break,
            Token::SemiColon => {
                parser.lexer.next_token().unwrap();
            }
            Token::Def => {
                if let Err(e) = parser.definition().and_then(|d| generator.function(d)) {
                    errors.push(e);
                    let _ = parser.lexer.next_token();
                }
            }
            Token::Extern => {
                if let Err(e) = parser
                    .extern_()
                    .and_then(|p| generator.prototype(&p, Linkage::Import))
                {
                    errors.push(e);
                    let _ = parser.lexer.next_token();
                }
            }
            _ => {
                errors.push(Error::Unexpected("top level token".to_string()));
                break;
            }
        }
    }
    (generator, errors)
}

fn parse_one(src: &str) -> Function {
    Parser::new(Lexer::new(src.as_bytes().to_vec())).definition().unwrap()
}

fn body_named<'a>(g: &'a Generator, name: &str) -> &'a IrFunction {
    let id = g
        .declarations()
        .iter()
        .rposition(|d| d.name == name)
        .expect("declared");
    g.bodies().iter().rev().find(|b| b.id == id).expect("defined")
}

fn decl_named<'a>(g: &'a Generator, name: &str) -> &'a FuncDecl {
    g.declarations().iter().rev().find(|d| d.name == name).expect("declared")
}

fn cast_id(g: &Generator, name: &str) -> usize {
    g.declarations().iter().position(|d| d.name == name).expect("cast")
}

fn render(insts: &[Inst]) -> String {
    let parts: Vec<String> = insts.iter().map(|i| format!("{:?}", i)).collect();
    parts.join("; ")
}

#[test]
fn cast_library_has_eight_functions() {
    let mut g = Generator::new();
    g.init_essential_lib().unwrap();
    let names: Vec<&str> = g.declarations().iter().map(|d| d.name.as_str()).collect();
    assert_eq!(
        names,
        vec!["i8->f32", "i8->f64", "i16->f32", "i16->f64", "i32->f32", "i32->f64", "i64->f32", "i64->f64"]
    );
    assert_eq!(g.bodies().len(), 8);
    let d = decl_named(&g, "i16->f64");
    assert_eq!(d.params, vec![MachType::I16]);
    assert_eq!(d.result, Some(MachType::F64));
    assert_eq!(d.linkage, Linkage::Export);
    let b = body_named(&g, "i16->f64");
    assert_eq!(
        render(&b.insts),
        "Param(0); FcvtFromSint(F64, 0); Return(Some(1))"
    );
}

#[test]
fn cast_library_installs_once() {
    let mut g = Generator::new();
    g.init_essential_lib().unwrap();
    assert_eq!(g.init_essential_lib(), Err(Error::FunctionRedef));
}

#[test]
fn add_of_two_i64() {
    let (g, errors) = compile("fn add(a: i64, b: i64) i64 { return a + b; }");
    assert!(errors.is_empty(), "{:?}", errors);
    let d = decl_named(&g, "add");
    assert_eq!(d.params, vec![MachType::I64, MachType::I64]);
    assert_eq!(d.result, Some(MachType::I64));
    assert_eq!(d.linkage, Linkage::Export);
    assert_eq!(
        render(&body_named(&g, "add").insts),
        "Param(0); DeclareVar(0, I64); DefVar(0, 0); Param(1); DeclareVar(1, I64); DefVar(1, 3); \
         UseVar(0); UseVar(1); Iadd(6, 7); Return(Some(8))"
    );
}

#[test]
fn identity_through_a_variable() {
    let (g, errors) = compile("fn id(x: i32) i32 { let y = x; return y; }");
    assert!(errors.is_empty(), "{:?}", errors);
    assert_eq!(
        render(&body_named(&g, "id").insts),
        "Param(0); DeclareVar(0, I32); DefVar(0, 0); UseVar(0); DeclareVar(1, I32); DefVar(1, 3); \
         UseVar(1); Return(Some(6))"
    );
}

#[test]
fn float_returned_from_i64_function_is_refused() {
    let (g, errors) = compile("fn bad() i64 { return 1.0; }");
    assert_eq!(errors, vec![Error::MismatchedTypes(AuroraType::I64, AuroraType::F64)]);
    assert!(g.declarations().iter().any(|d| d.name == "bad"));
    assert_eq!(g.bodies().len(), 8);
}

#[test]
fn mixed_float_widths_meet_in_f64() {
    let (g, errors) = compile("fn mix(a: f32, b: f64) f64 { return a + b; }");
    assert!(errors.is_empty(), "{:?}", errors);
    let d = decl_named(&g, "mix");
    assert_eq!(d.params, vec![MachType::F32, MachType::F64]);
    assert_eq!(d.result, Some(MachType::F64));
    assert_eq!(
        render(&body_named(&g, "mix").insts),
        "Param(0); DeclareVar(0, F32); DefVar(0, 0); Param(1); DeclareVar(1, F64); DefVar(1, 3); \
         UseVar(0); UseVar(1); Fpromote(6); Fadd(8, 7); Return(Some(9))"
    );
    let (g, errors) = compile("fn mix2(a: f64, b: f32) f64 { return a - b; }");
    assert!(errors.is_empty(), "{:?}", errors);
    assert_eq!(
        render(&body_named(&g, "mix2").insts),
        "Param(0); DeclareVar(0, F64); DefVar(0, 0); Param(1); DeclareVar(1, F32); DefVar(1, 3); \
         UseVar(0); UseVar(1); Fpromote(7); Fsub(6, 8); Return(Some(9))"
    );
}

#[test]
fn missing_cast_function_is_named() {
    let mut g = Generator::new();
    let f = parse_one("fn h(a: f64, b: i32) f64 { return a + b; }");
    assert_eq!(g.function(f), Err(Error::Undefined("can't cast i32 to f64".to_string())));
}

#[test]
fn integer_operand_is_cast_to_float() {
    let (g, errors) = compile("fn h(a: f64, b: i32) f64 { return a + b; }");
    assert!(errors.is_empty(), "{:?}", errors);
    let cast = cast_id(&g, "i32->f64");
    assert_eq!(
        render(&body_named(&g, "h").insts),
        format!(
            "Param(0); DeclareVar(0, F64); DefVar(0, 0); Param(1); DeclareVar(1, I32); DefVar(1, 3); \
             UseVar(0); UseVar(1); Call({}, [7]); Fadd(6, 8); Return(Some(9))",
            cast
        )
    );
}

#[test]
fn integers_are_never_widened() {
    let (_, errors) = compile("fn g(a: i32, b: i64) i32 { return a + b; }");
    assert_eq!(errors, vec![Error::MismatchedTypes(AuroraType::I32, AuroraType::I64)]);
    let (_, errors) = compile("fn g2(a: i64, b: i32) i64 { return a - b; }");
    assert_eq!(errors, vec![Error::MismatchedTypes(AuroraType::I64, AuroraType::I32)]);
}

#[test]
fn wrong_argument_count_is_refused() {
    let (g, errors) = compile("fn two(a: i64, b: i64) i64 { return a; } fn f() i64 { return two(1); }");
    assert_eq!(errors, vec![Error::WrongArgumentCount]);
    assert_eq!(g.bodies().len(), 9);
    assert!(g.declarations().iter().any(|d| d.name == "f"));
}

#[test]
fn second_definition_is_refused() {
    let (g, errors) = compile("fn foo() {} fn foo() {}");
    assert_eq!(errors[0], Error::FunctionRedef);
    assert_eq!(render(&body_named(&g, "foo").insts), "Return(None)");
}

#[test]
fn generator_refuses_redefinition() {
    let mut g = Generator::new();
    let make = || Function {
        prototype: Prototype {
            function_name: "foo".to_string(),
            parameters: vec![],
            return_type: AuroraType::Void,
        },
        body: Expr { expr_type: ExprType::Block(vec![]), type_: AuroraType::Void },
    };
    assert_eq!(g.function(make()), Ok(()));
    assert_eq!(g.function(make()), Err(Error::FunctionRedef));
}

#[test]
fn prototype_state_machine() {
    let mut g = Generator::new();
    let proto = |n: usize| Prototype {
        function_name: "ext".to_string(),
        parameters: (0..n)
            .map(|i| Parameter { name: format!("p{}", i), type_: AuroraType::F64 })
            .collect(),
        return_type: AuroraType::F64,
    };
    assert_eq!(g.prototype(&proto(1), Linkage::Import), Ok(0));
    assert_eq!(g.prototype(&proto(1), Linkage::Import), Ok(0));
    assert_eq!(
        g.prototype(&proto(2), Linkage::Import),
        Err(Error::FunctionRedefWithDifferentParams)
    );
    assert_eq!(g.declarations().len(), 1);
    assert_eq!(g.declarations()[0].linkage, Linkage::Import);
    let void_param = Prototype {
        function_name: "v".to_string(),
        parameters: vec![Parameter { name: "x".to_string(), type_: AuroraType::Void }],
        return_type: AuroraType::Void,
    };
    assert!(matches!(g.prototype(&void_param, Linkage::Import), Err(Error::Unexpected(_))));
    assert_eq!(g.declarations().len(), 1);
}

#[test]
fn extern_then_definition_shares_the_id() {
    let mut g = Generator::new();
    let mut p = Parser::new(Lexer::new(b"extern f(a: i64) i64;".to_vec()));
    let proto = p.extern_().unwrap();
    assert_eq!(g.prototype(&proto, Linkage::Import), Ok(0));
    // the parser refuses a second declaration of a name, so parse the body apart
    assert_eq!(g.function(parse_one("fn f(a: i64) i64 { return a; }")), Ok(()));
    assert_eq!(g.declarations().iter().filter(|d| d.name == "f").count(), 1);
    assert_eq!(decl_named(&g, "f").linkage, Linkage::Import);
    body_named(&g, "f");
}

#[test]
fn recursive_call_and_void_call() {
    let (g, errors) = compile(
        "extern putfloatd(x: f64); fn f(n: i64) i64 { putfloatd(2.5); return f(n); }",
    );
    assert!(errors.is_empty(), "{:?}", errors);
    let put = g.declarations().iter().position(|d| d.name == "putfloatd").unwrap();
    let f = g.declarations().iter().position(|d| d.name == "f").unwrap();
    assert_eq!(decl_named(&g, "putfloatd").result, None);
    assert_eq!(
        render(&body_named(&g, "f").insts),
        format!(
            "Param(0); DeclareVar(0, I64); DefVar(0, 0); Fconst(F64, \"2.5\"); Call({}, [3]); \
             UseVar(0); Call({}, [5]); Return(Some(6))",
            put, f
        )
    );
}

#[test]
fn block_without_return_ends_with_empty_return() {
    let (g, errors) = compile("fn f() { let x: i8; x = 1; }");
    // `1` is an i64 literal: the slot is i8, which lowering does not check
    assert!(errors.is_empty(), "{:?}", errors);
    assert_eq!(
        render(&body_named(&g, "f").insts),
        "DeclareVar(0, I8); Iconst(I64, 1); DefVar(0, 1); Return(None)"
    );
}

#[test]
fn failed_function_leaves_the_table() {
    let mut g = Generator::new();
    let first = parse_one("fn f() i64 { return 1.5; }");
    assert_eq!(g.function(first), Err(Error::MismatchedTypes(AuroraType::I64, AuroraType::F64)));
    assert!(g.bodies().is_empty());
    let second = parse_one("fn f() i64 { return 2; }");
    assert_eq!(g.function(second), Ok(()));
    assert_eq!(render(&body_named(&g, "f").insts), "Iconst(I64, 2); Return(Some(0))");
}

#[test]
fn comparisons_lower_to_compares() {
    let (g, errors) = compile("fn lt(a: f64, b: f64) f64 { return a < b; }");
    assert!(errors.is_empty(), "{:?}", errors);
    let insts = &body_named(&g, "lt").insts;
    assert_eq!(format!("{:?}", insts[8]), "FcmpLessThan(6, 7)");
}

#[test]
fn parse_expr_constructors() {
    assert_eq!(ParseExpr::new(Some(3)), ParseExpr { value: Some(3), is_return: false });
    assert_eq!(ParseExpr::new_return(None), ParseExpr { value: None, is_return: true });
    assert_eq!(ParseExpr::empty(), ParseExpr { value: None, is_return: false });
    assert_eq!(ParseExpr::empty_return(), ParseExpr { value: None, is_return: true });
}

#[test]
fn unexpected_top_level_token_stops() {
    let (_, errors) = compile("fn f() {} return");
    assert_eq!(errors, vec![Error::Unexpected("top level token".to_string())]);
}

#[test]
fn variable_builder_numbers_slots_in_order() {
    let mut vb = VariableBuilder::new();
    let mut insts = Vec::new();
    assert_eq!(vb.define_var(&mut insts, MachType::I32), Ok(0));
    assert_eq!(vb.create_var(&mut insts, 7, MachType::F64), Ok(1));
    assert_eq!(render(&insts), "DeclareVar(0, I32); DeclareVar(1, F64); DefVar(1, 7)");
}

#[test]
fn variable_slots_continue_across_functions() {
    let (g, errors) = compile("fn a(x: i64) i64 { return x; } fn b(y: i64) i64 { return y; }");
    assert!(errors.is_empty(), "{:?}", errors);
    assert_eq!(
        render(&body_named(&g, "b").insts),
        "Param(0); DeclareVar(1, I64); DefVar(1, 0); UseVar(1); Return(Some(3))"
    );
}
