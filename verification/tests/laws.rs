//! Concrete instances of the properties the library proves.
use tinylua::ast::{Expr, Stmt};
use tinylua::lexer::Lexer;
use tinylua::parser::{parse, Arena};
use tinylua::sema::{analyse, SemaConfig, Target};
use tinylua::token::Token;

const PROGRAM_WITH_FLOATS: &str = "local x = 1.5\nlocal y = z\nif y then\n  w = 2.25\nend\ndelay(1, 2)";

#[test]
fn target_changes_only_float_errors() {
    let ae: Arena<Expr> = Arena::new();
    let as_: Arena<Stmt> = Arena::new();
    let stmts = parse(PROGRAM_WITH_FLOATS, &ae, &as_).unwrap();
    let avr = analyse(&stmts, &SemaConfig { target: Target::Avr });
    let esp = analyse(&stmts, &SemaConfig { target: Target::Esp32 });
    assert_eq!(avr.expr_types, esp.expr_types);
    let avr_kept: Vec<(String, u32, u32)> = avr
        .errors
        .iter()
        .filter(|e| !e.message.starts_with("ponto flutuante"))
        .map(|e| (e.message.clone(), e.span.line, e.span.col))
        .collect();
    let esp_all: Vec<(String, u32, u32)> =
        esp.errors.iter().map(|e| (e.message.clone(), e.span.line, e.span.col)).collect();
    assert_eq!(avr_kept, esp_all);
    assert_eq!(avr.errors.len(), esp.errors.len() + 2);
    assert!(esp.errors.iter().all(|e| !e.message.starts_with("ponto flutuante")));
}

#[test]
fn errors_of_a_prefix_come_first() {
    let ae: Arena<Expr> = Arena::new();
    let as_: Arena<Stmt> = Arena::new();
    let stmts = parse(PROGRAM_WITH_FLOATS, &ae, &as_).unwrap();
    let whole = analyse(&stmts, &SemaConfig { target: Target::Avr });
    for n in 0..=stmts.len() {
        let part = analyse(&stmts[..n], &SemaConfig { target: Target::Avr });
        assert!(part.errors.len() <= whole.errors.len());
        for (a, b) in part.errors.iter().zip(whole.errors.iter()) {
            assert_eq!(a.message, b.message);
            assert_eq!(a.span, b.span);
        }
    }
}

#[test]
fn assignment_in_nested_block_reaches_declaration() {
    let ae: Arena<Expr> = Arena::new();
    let as_: Arena<Stmt> = Arena::new();
    let src = "local x\nwhile true do\n  if true then\n    x = 1\n  end\nend\nlocal y = x + 1";
    let stmts = parse(src, &ae, &as_).unwrap();
    let out = analyse(&stmts, &SemaConfig { target: Target::Avr });
    assert!(out.errors.is_empty());
}

#[test]
fn syntax_errors_point_at_tokens() {
    let sources = ["@", "if x end", "while true do", "x + 1", "local = 3", "function (a) end", "x = (1 + 2", "f(1, 2", "x = 1 )"];
    for src in sources {
        let ae: Arena<Expr> = Arena::new();
        let as_: Arena<Stmt> = Arena::new();
        let err = parse(src, &ae, &as_).unwrap_err();
        let tokens = Lexer::tokenize(src);
        assert!(
            tokens.iter().any(|t| t.line == err.span.line && t.col == err.span.col),
            "{src}: {}",
            err.to_display_string()
        );
    }
}

#[test]
fn tokenize_ends_with_exactly_one_eof() {
    for src in ["", "x", "local x = 1 -- c", "\"open", "0x"] {
        let tokens = Lexer::tokenize(src);
        assert_eq!(tokens.last().unwrap().node, Token::Eof);
        assert_eq!(tokens.iter().filter(|t| t.node == Token::Eof).count(), 1);
    }
}

#[test]
fn token_positions_increase() {
    let tokens = Lexer::tokenize("local a = 1\n  b = a + 2 -- c\nf()");
    for w in tokens.windows(2) {
        assert!((w[0].line, w[0].col) < (w[1].line, w[1].col));
    }
}

#[test]
fn eof_repeats_after_the_end() {
    let mut lex = Lexer::new("x");
    assert_eq!(lex.next_token().node, Token::Ident("x".into()));
    for _ in 0..3 {
        let t = lex.next_token();
        assert_eq!(t.node, Token::Eof);
        assert_eq!((t.line, t.col), (1, 2));
    }
}

#[test]
fn lexed_integers_are_nonnegative_and_names_are_not_keywords() {
    let tokens = Lexer::tokenize("-5 - -2147483648 iffy ends end_");
    for t in &tokens {
        if let Token::LitInt(n) = t.node {
            assert!(n >= 0);
        }
        if let Token::Ident(ref s) = t.node {
            assert!(Token::from_keyword(s).is_none());
        }
    }
}

#[test]
fn keyword_text_round_trips() {
    for kw in ["if", "then", "else", "elseif", "end", "while", "do", "for", "local", "function", "return", "true", "false", "nil", "and", "or", "not"] {
        let t = Token::from_keyword(kw).unwrap();
        assert!(t.is_keyword());
        assert_eq!(t.to_display_string(), kw);
    }
}

#[test]
fn every_expression_node_is_typed_under_its_number() {
    let ae: Arena<Expr> = Arena::new();
    let as_: Arena<Stmt> = Arena::new();
    let src = "local a = 1\nfunction f(p)\n  return p * (a + 2)\nend\nwhile a < f(3) do\n  a = a + 1\nend";
    let stmts = parse(src, &ae, &as_).unwrap();
    let n = tinylua::sema::node_count(&stmts).unwrap();
    let out = analyse(&stmts, &SemaConfig { target: Target::Avr });
    let mut keys: Vec<usize> = out.expr_types.keys().copied().collect();
    keys.sort();
    assert_eq!(keys, (0..n).collect::<Vec<usize>>());
}

#[test]
fn accepted_programs_can_be_generated() {
    let sources = [
        "local p = 13\npinMode(p, \"OUTPUT\")\nwhile true do\n  digitalWrite(p, true)\n  delay(1000)\nend",
        "function f(a)\n  return analogRead(a)\nend\nlocal v = f(1)",
        "delay()",
        "local v = digitalRead()",
        "if true then\n  analogWrite(9)\nend",
        "function g()\n  pinMode(3)\nend",
    ];
    for src in sources {
        let ae: Arena<Expr> = Arena::new();
        let as_: Arena<Stmt> = Arena::new();
        let stmts = parse(src, &ae, &as_).unwrap();
        let out = analyse(&stmts, &SemaConfig { target: Target::Avr });
        assert_eq!(out.errors.is_empty(), tinylua::codegen::can_generate(&stmts), "{src}");
    }
}

#[test]
fn ordinary_sources_have_positions_that_fit() {
    for src in ["", "x", "local a = 1\n\n\nb = a -- c\n", "\n\n\n\n"] {
        assert!(tinylua::lexer::positions_fit_in_u32(src));
    }
}

#[test]
fn a_fresh_lexer_starts_at_line_one_column_one() {
    let mut lex = Lexer::new("x y");
    let t = lex.next_token();
    assert_eq!((t.node, t.line, t.col), (Token::Ident("x".into()), 1, 1));
    let t = lex.next_token();
    assert_eq!((t.node, t.line, t.col), (Token::Ident("y".into()), 1, 3));
}

#[test]
fn checking_goes_on_past_an_error() {
    let ae: Arena<Expr> = Arena::new();
    let as_: Arena<Stmt> = Arena::new();
    let stmts = parse("x = 3.14", &ae, &as_).unwrap();
    let out = analyse(&stmts, &SemaConfig { target: Target::Avr });
    let msgs: Vec<&str> = out.errors.iter().map(|e| e.message.as_str()).collect();
    assert_eq!(msgs, vec!["ponto flutuante não é suportado no target AVR (1:5)", "variável 'x' não declarada"]);
}

#[test]
fn names_declared_in_a_block_are_gone_after_it() {
    let ae: Arena<Expr> = Arena::new();
    let as_: Arena<Stmt> = Arena::new();
    let src = "if true then\n  local inner = 1\nend\nfunction f(p)\n  local q = p\nend\nlocal a = inner\nlocal b = q\nlocal c = p\nf(1)";
    let stmts = parse(src, &ae, &as_).unwrap();
    let out = analyse(&stmts, &SemaConfig { target: Target::Avr });
    let msgs: Vec<String> = out.errors.iter().map(|e| e.message.clone()).collect();
    assert_eq!(
        msgs,
        vec![
            "variável 'inner' não declarada".to_string(),
            "variável 'q' não declarada".to_string(),
            "variável 'p' não declarada".to_string(),
        ]
    );
}

#[test]
fn ascii_names_are_letters_digits_and_underscores() {
    let toks: Vec<Token> = Lexer::tokenize("a1_Z9 _ 9a $x").into_iter().map(|t| t.node).collect();
    assert_eq!(
        toks,
        vec![
            Token::Ident("a1_Z9".into()),
            Token::Ident("_".into()),
            Token::LitInt(9),
            Token::Ident("a".into()),
            Token::Unknown('$'),
            Token::Ident("x".into()),
            Token::Eof,
        ]
    );
}
