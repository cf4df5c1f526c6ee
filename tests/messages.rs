use aurora::error::Error;
use aurora::lexer::Token;
use aurora::text::decimal_text;
use aurora::typing::AuroraType;

#[test]
fn error_messages() {
    assert_eq!(Error::WrongArgumentCount.message(), "wrong argument count");
    assert_eq!(Error::FunctionRedef.message(), "redefinition of function");
    assert_eq!(Error::VariableRedef.message(), "redefinition of a variable");
    assert_eq!(
        Error::FunctionRedefWithDifferentParams.message(),
        "redefinition of function with different number of parameters"
    );
    assert_eq!(Error::UnknownChar('$').message(), "unknown char `$`");
    assert_eq!(Error::Undefined("type".to_string()).message(), "undefined type");
    assert_eq!(Error::Unexpected("top level token".to_string()).message(), "unexpected top level token");
    assert_eq!(
        Error::MismatchedTypes(AuroraType::I64, AuroraType::F64).message(),
        "mismatched type, was expecting 'i64' but got 'f64'"
    );
    assert_eq!(
        Error::UnexpectedToken(Token::SemiColon, Token::Identifier("x".to_string())).message(),
        "unexpected token, was expecting ';' but got 'identifier: x'"
    );
    assert_eq!(Error::ParseInt.message(), "number too large to fit in target type");
    assert_eq!(Error::ParseFloat.message(), "invalid float literal");
}

#[test]
fn token_display_forms() {
    assert_eq!(Token::Eof.text(), "end of input");
    assert_eq!(Token::OpenBracket.text(), "{");
    assert_eq!(Token::CloseBracket.text(), "}");
    assert_eq!(Token::Integer(120).text(), "120");
    assert_eq!(Token::Float("0.5".to_string()).text(), "0.5");
    assert_eq!(Token::Def.text(), "fn");
}

#[test]
fn decimal_text_of_integers() {
    assert_eq!(decimal_text(0), "0");
    assert_eq!(decimal_text(7), "7");
    assert_eq!(decimal_text(1090), "1090");
    assert_eq!(decimal_text(-45), "-45");
    assert_eq!(decimal_text(i64::MAX), "9223372036854775807");
    assert_eq!(decimal_text(i64::MIN), "-9223372036854775808");
}

#[test]
fn type_names_and_lookup() {
    for t in [
        AuroraType::Void,
        AuroraType::Bool,
        AuroraType::I8,
        AuroraType::I16,
        AuroraType::I32,
        AuroraType::I64,
        AuroraType::F32,
        AuroraType::F64,
    ] {
        assert_eq!(AuroraType::from_string(&t.name()), Some(t));
    }
    assert_eq!(AuroraType::Any.name(), "any");
    assert_eq!(AuroraType::from_string(&"any".to_string()), None);
    assert_eq!(AuroraType::from_string(&"int".to_string()), None);
    assert_eq!(AuroraType::Bool.get_type(), AuroraType::I8.get_type());
    assert_eq!(AuroraType::Void.get_type(), None);
    assert_eq!(AuroraType::Any.get_type(), None);
}
