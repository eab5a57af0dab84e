use tinylua::token::Token;

#[test]
fn keywords_are_recognized() {
    assert_eq!(Token::from_keyword("if"), Some(Token::KwIf));
    assert_eq!(Token::from_keyword("while"), Some(Token::KwWhile));
    assert_eq!(Token::from_keyword("true"), Some(Token::KwTrue));
    assert_eq!(Token::from_keyword("foo"), None);
}

#[test]
fn is_keyword_covers_all_kw_variants() {
    let keywords = [
        Token::KwIf, Token::KwThen, Token::KwElse, Token::KwElseif,
        Token::KwEnd, Token::KwWhile, Token::KwDo, Token::KwFor,
        Token::KwLocal, Token::KwFunction, Token::KwReturn,
        Token::KwTrue, Token::KwFalse, Token::KwNil,
        Token::KwAnd, Token::KwOr, Token::KwNot,
    ];
    for kw in &keywords {
        assert!(kw.is_keyword(), "{kw:?} deveria ser keyword");
    }
    assert!(!Token::Ident("x".into()).is_keyword());
    assert!(!Token::LitInt(42).is_keyword());
}

#[test]
fn display_roundtrips_operators() {
    assert_eq!(Token::OpEqEq.to_display_string(), "==");
    assert_eq!(Token::OpTildeEq.to_display_string(), "~=");
    assert_eq!(Token::OpLtEq.to_display_string(), "<=");
}

#[test]
fn litfloat_exists_but_is_avr_invalid() {
    // O lexer PODE emitir LitFloat. É responsabilidade da análise semântica
    // rejeitar com erro claro quando target == AVR.
    let tok = Token::LitFloat("3.14".into());
    assert_eq!(tok.to_display_string(), "3.14");
}
