//! The exact text of every kind of error.
use tinylua::ast::{Expr, Stmt};
use tinylua::parser::{parse, Arena, ParseError};
use tinylua::sema::{analyse, SemaConfig, SemaError, Target, TinyType};

fn syntax_error(src: &str) -> ParseError {
    let ae: Arena<Expr> = Arena::new();
    let as_: Arena<Stmt> = Arena::new();
    parse(src, &ae, &as_).unwrap_err()
}

fn sema_errors(src: &str, target: Target) -> Vec<String> {
    let ae: Arena<Expr> = Arena::new();
    let as_: Arena<Stmt> = Arena::new();
    let stmts = parse(src, &ae, &as_).unwrap();
    let out = analyse(&stmts, &SemaConfig { target });
    out.errors.iter().map(|e: &SemaError| e.to_display_string()).collect()
}

#[test]
fn invalid_statement() {
    assert_eq!(syntax_error("@").to_display_string(), "erro[1:1]: instrução inválida: `<unknown '@'>`");
    assert_eq!(syntax_error("x = 1 )").to_display_string(), "erro[1:7]: instrução inválida: `)`");
    assert_eq!(syntax_error("end").to_display_string(), "erro[1:1]: instrução inválida: `end`");
}

#[test]
fn expected_token() {
    assert_eq!(syntax_error("if x end").to_display_string(), "erro[1:6]: esperado `then`, encontrado `end`");
    assert_eq!(syntax_error("while true do").to_display_string(), "erro[1:14]: esperado `end`, encontrado `<EOF>`");
    assert_eq!(syntax_error("x = (1 + 2").to_display_string(), "erro[1:11]: esperado `)`, encontrado `<EOF>`");
    assert_eq!(syntax_error("for i = 1 do end").to_display_string(), "erro[1:11]: esperado `,`, encontrado `do`");
}

#[test]
fn expected_identifier() {
    assert_eq!(
        syntax_error("local = 3").to_display_string(),
        "erro[1:7]: esperado identificador após 'local', encontrado `=`"
    );
    assert_eq!(
        syntax_error("function f(a,) end").to_display_string(),
        "erro[1:14]: esperado identificador na lista de parâmetros, encontrado `)`"
    );
    assert_eq!(
        syntax_error("for 1 = 1, 2 do end").to_display_string(),
        "erro[1:5]: esperado identificador após 'for', encontrado `1`"
    );
}

#[test]
fn assignment_or_call_expected() {
    let e = syntax_error("x + 1");
    assert_eq!(e.message, "esperado '=' ou '(' após 'x', encontrado `+`");
    assert_eq!((e.span.line, e.span.col), (1, 3));
}

#[test]
fn invalid_expression() {
    assert_eq!(syntax_error("x = )").to_display_string(), "erro[1:5]: expressão inválida: `)`");
    assert_eq!(syntax_error("x = \"a\" + ~").to_display_string(), "erro[1:11]: expressão inválida: `<unknown '~'>`");
}

#[test]
fn float_error_on_avr_only() {
    assert_eq!(
        sema_errors("local x = 3.14", Target::Avr),
        vec!["erro[1:11]: ponto flutuante não é suportado no target AVR (1:11)".to_string()]
    );
    assert!(sema_errors("local x = 3.14", Target::Esp32).is_empty());
}

#[test]
fn variable_errors() {
    assert_eq!(sema_errors("x = 1", Target::Avr), vec!["erro[1:1]: variável 'x' não declarada".to_string()]);
    assert_eq!(
        sema_errors("local x\nlocal y = x + 1", Target::Avr),
        vec!["erro[2:11]: variável 'x' usada antes de ser inicializada".to_string()]
    );
    assert_eq!(sema_errors("local y = z", Target::Avr), vec!["erro[1:11]: variável 'z' não declarada".to_string()]);
}

#[test]
fn recursion_error() {
    assert_eq!(
        sema_errors("function f()\n  f()\nend", Target::Avr),
        vec!["erro[2:3]: recursão não é suportada na PoC (função 'f')".to_string()]
    );
    // a function may call another one
    assert!(sema_errors("function g() end\nfunction f()\n  g()\nend", Target::Avr).is_empty());
}

#[test]
fn intrinsic_errors() {
    assert_eq!(
        sema_errors("delay(\"texto\")", Target::Avr),
        vec!["erro[1:7]: argumento 1 de 'delay' deve ser Int, recebeu Str".to_string()]
    );
    assert_eq!(sema_errors("delay(1, 2)", Target::Avr), vec!["erro[1:1]: 'delay' espera 1 argumento, recebeu 2".to_string()]);
    assert_eq!(
        sema_errors("digitalWrite(13)", Target::Avr),
        vec!["erro[1:1]: 'digitalWrite' espera 2 argumentos, recebeu 1".to_string()]
    );
    assert_eq!(
        sema_errors("digitalWrite(13, 1)", Target::Avr),
        vec!["erro[1:18]: argumento 2 de 'digitalWrite' deve ser Bool, recebeu Int".to_string()]
    );
}

#[test]
fn errors_are_all_collected_in_order() {
    let errs = sema_errors("x = 1\ny = 2.5\ndelay()", Target::Avr);
    assert_eq!(
        errs,
        vec![
            "erro[1:1]: variável 'x' não declarada".to_string(),
            "erro[2:5]: ponto flutuante não é suportado no target AVR (2:5)".to_string(),
            "erro[2:1]: variável 'y' não declarada".to_string(),
            "erro[3:1]: 'delay' espera 1 argumento, recebeu 0".to_string(),
        ]
    );
}

#[test]
fn type_names() {
    assert_eq!(TinyType::Int.to_display_string(), "Int");
    assert_eq!(TinyType::Float.to_display_string(), "Float");
    assert_eq!(TinyType::Bool.to_display_string(), "Bool");
    assert_eq!(TinyType::Str.to_display_string(), "Str");
    assert_eq!(TinyType::Nil.to_display_string(), "Nil");
}
