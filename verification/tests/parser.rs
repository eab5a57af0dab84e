use tinylua::ast::{BinOp, Expr, Stmt, UnOp};
use tinylua::parser::{parse, Arena};

fn arenas<'a>() -> (Arena<Expr<'a>>, Arena<Stmt<'a>>) {
    (Arena::new(), Arena::new())
}

// ── programa vazio ────────────────────────────────────────────────────────

#[test]
fn empty_source_yields_empty_block() {
    let (e, s) = arenas();
    let block = parse("", &e, &s).unwrap();
    assert!(block.is_empty());
}

#[test]
fn semicolons_only_yields_empty_block() {
    let (e, s) = arenas();
    let block = parse(";;;", &e, &s).unwrap();
    assert!(block.is_empty());
}

// ── local ─────────────────────────────────────────────────────────────────

#[test]
fn local_without_init() {
    let (e, s) = arenas();
    let block = parse("local x", &e, &s).unwrap();
    assert_eq!(block.len(), 1);
    assert!(matches!(block[0], Stmt::Local { init: None, .. }));
}

#[test]
fn local_with_int_init() {
    let (e, s) = arenas();
    let block = parse("local x = 42", &e, &s).unwrap();
    assert!(matches!(
        block[0],
        Stmt::Local { init: Some(Expr::LitInt(42, _)), .. }
    ));
}

#[test]
fn local_span_is_correct() {
    let (e, s) = arenas();
    let block = parse("local x = 1", &e, &s).unwrap();
    let span = block[0].span();
    assert_eq!(span.line, 1);
    assert_eq!(span.col,  1);
}

// ── assign ────────────────────────────────────────────────────────────────

#[test]
fn assignment() {
    let (e, s) = arenas();
    let block = parse("x = 10", &e, &s).unwrap();
    assert!(matches!(
        block[0],
        Stmt::Assign { value: Expr::LitInt(10, _), .. }
    ));
}

// ── call statement ────────────────────────────────────────────────────────

#[test]
fn call_statement_no_args() {
    let (e, s) = arenas();
    let block = parse("foo()", &e, &s).unwrap();
    assert!(matches!(block[0], Stmt::Call { ref name, ref args, .. }
        if name == "foo" && args.is_empty()));
}

#[test]
fn call_statement_intrinsic() {
    let (e, s) = arenas();
    let block = parse("delay(500)", &e, &s).unwrap();
    assert!(matches!(block[0], Stmt::Call { ref name, ref args, .. }
        if name == "delay" && args.len() == 1));
    if let Stmt::Call { args, .. } = block[0] {
        assert!(matches!(args[0], Expr::LitInt(500, _)));
    }
}

// ── if ────────────────────────────────────────────────────────────────────

#[test]
fn if_then_end() {
    let (e, s) = arenas();
    let block = parse("if x then end", &e, &s).unwrap();
    assert!(matches!(
        block[0],
        Stmt::If { then_body: ref b, else_body: None, ref elseif_clauses, .. }
        if b.is_empty() && elseif_clauses.is_empty()
    ));
}

#[test]
fn if_then_else_end() {
    let (e, s) = arenas();
    let block = parse("if x then y = 1 else y = 2 end", &e, &s).unwrap();
    if let Stmt::If { then_body, else_body, .. } = block[0] {
        assert_eq!(then_body.len(), 1);
        assert_eq!(else_body.as_ref().unwrap().len(), 1);
    } else {
        panic!("esperado Stmt::If");
    }
}

#[test]
fn if_elseif_else_end() {
    let (e, s) = arenas();
    let src = "if a then x=1 elseif b then x=2 else x=3 end";
    let block = parse(src, &e, &s).unwrap();
    if let Stmt::If { then_body, elseif_clauses, else_body, .. } = block[0] {
        assert_eq!(then_body.len(), 1);
        assert_eq!(elseif_clauses.len(), 1);
        assert_eq!(else_body.as_ref().unwrap().len(), 1);
    } else {
        panic!("esperado Stmt::If");
    }
}

// ── while ─────────────────────────────────────────────────────────────────

#[test]
fn while_true_loop() {
    let (e, s) = arenas();
    let block = parse("while true do end", &e, &s).unwrap();
    assert!(matches!(
        block[0],
        Stmt::While { cond: Expr::LitBool(true, _), .. }
    ));
}

// ── for ───────────────────────────────────────────────────────────────────

#[test]
fn numeric_for_without_step() {
    let (e, s) = arenas();
    let block = parse("for i = 1, 10 do end", &e, &s).unwrap();
    assert!(matches!(
        block[0],
        Stmt::NumFor { ref var, step: None, .. } if var == "i"
    ));
}

#[test]
fn numeric_for_with_step() {
    let (e, s) = arenas();
    let block = parse("for i = 0, 100, 2 do end", &e, &s).unwrap();
    assert!(matches!(
        block[0],
        Stmt::NumFor { step: Some(Expr::LitInt(2, _)), .. }
    ));
}

// ── function ──────────────────────────────────────────────────────────────

#[test]
fn function_no_params() {
    let (e, s) = arenas();
    let block = parse("function blink() end", &e, &s).unwrap();
    assert!(matches!(
        block[0],
        Stmt::Function { ref name, ref params, .. }
        if name == "blink" && params.is_empty()
    ));
}

#[test]
fn function_with_params_and_return() {
    let (e, s) = arenas();
    let block = parse("function add(a, b) return a end", &e, &s).unwrap();
    if let Stmt::Function { params, body, .. } = block[0] {
        assert_eq!(params, &["a", "b"]);
        assert_eq!(body.len(), 1);
        assert!(matches!(body[0], Stmt::Return { value: Some(_), .. }));
    } else {
        panic!("esperado Stmt::Function");
    }
}

// ── return ────────────────────────────────────────────────────────────────

#[test]
fn return_with_value() {
    let (e, s) = arenas();
    let block = parse("return 99", &e, &s).unwrap();
    assert!(matches!(block[0], Stmt::Return { value: Some(Expr::LitInt(99, _)), .. }));
}

#[test]
fn return_without_value() {
    let (e, s) = arenas();
    let block = parse("return", &e, &s).unwrap();
    assert!(matches!(block[0], Stmt::Return { value: None, .. }));
}

// ── expressões e precedência ──────────────────────────────────────────────

#[test]
fn precedence_mul_before_add() {
    // `1 + 2 * 3` deve ser `1 + (2 * 3)`, não `(1 + 2) * 3`
    let (e, s) = arenas();
    let block = parse("x = 1 + 2 * 3", &e, &s).unwrap();
    if let Stmt::Assign { value, .. } = block[0] {
        // raiz deve ser Add
        assert!(matches!(value, Expr::BinOp { op: BinOp::Add, .. }));
        if let Expr::BinOp { rhs, .. } = value {
            // rhs do Add deve ser Mul
            assert!(matches!(rhs, Expr::BinOp { op: BinOp::Mul, .. }));
        }
    } else {
        panic!("esperado Stmt::Assign");
    }
}

#[test]
fn unary_neg() {
    let (e, s) = arenas();
    let block = parse("x = -5", &e, &s).unwrap();
    if let Stmt::Assign { value, .. } = block[0] {
        assert!(matches!(value, Expr::UnOp { op: UnOp::Neg, operand: Expr::LitInt(5, _), .. }));
    }
}

#[test]
fn unary_not() {
    let (e, s) = arenas();
    let block = parse("x = not true", &e, &s).unwrap();
    if let Stmt::Assign { value, .. } = block[0] {
        assert!(matches!(
            value,
            Expr::UnOp { op: UnOp::Not, operand: Expr::LitBool(true, _), .. }
        ));
    }
}

#[test]
fn expr_call_in_rhs() {
    let (e, s) = arenas();
    let block = parse("local v = analogRead(0)", &e, &s).unwrap();
    if let Stmt::Local { init: Some(expr), .. } = block[0] {
        assert!(matches!(expr, Expr::Call { ref name, .. } if name == "analogRead"));
    } else {
        panic!("esperado Stmt::Local com init");
    }
}

#[test]
fn lit_float_is_parsed() {
    // O parser emite LitFloat; a sema rejeita em AVR.
    let (e, s) = arenas();
    let block = parse("x = 3.14", &e, &s).unwrap();
    if let Stmt::Assign { value, .. } = block[0] {
        assert!(matches!(value, Expr::LitFloat(_, _)));
    }
}

#[test]
fn nil_and_bool_literals() {
    let (e, s) = arenas();
    let block = parse("x = nil", &e, &s).unwrap();
    assert!(matches!(
        block[0],
        Stmt::Assign { value: Expr::Nil(_), .. }
    ));
    let block = parse("x = false", &e, &s).unwrap();
    assert!(matches!(
        block[0],
        Stmt::Assign { value: Expr::LitBool(false, _), .. }
    ));
}

#[test]
fn parenthesized_expr_overrides_precedence() {
    // `(1 + 2) * 3` — raiz deve ser Mul
    let (e, s) = arenas();
    let block = parse("x = (1 + 2) * 3", &e, &s).unwrap();
    if let Stmt::Assign { value, .. } = block[0] {
        assert!(matches!(value, Expr::BinOp { op: BinOp::Mul, .. }));
    }
}

// ── erros ─────────────────────────────────────────────────────────────────

#[test]
fn error_contains_line_col() {
    let (e, s) = arenas();
    let err = parse("@", &e, &s).unwrap_err();
    let msg = err.to_display_string();
    assert!(msg.starts_with("erro[1:1]:"), "mensagem: {msg}");
}

#[test]
fn error_missing_then() {
    let (e, s) = arenas();
    let err = parse("if x end", &e, &s).unwrap_err();
    assert!(err.message.contains("then"), "mensagem: {}", err.message);
}

#[test]
fn error_missing_end() {
    let (e, s) = arenas();
    let err = parse("while true do", &e, &s).unwrap_err();
    assert!(err.message.contains("end"), "mensagem: {}", err.message);
}

#[test]
fn error_ident_without_eq_or_paren() {
    let (e, s) = arenas();
    let err = parse("x + 1", &e, &s).unwrap_err();
    assert!(err.message.contains("'='") || err.message.contains("'('"),
        "mensagem: {}", err.message);
}

// ── exemplo completo: blink com sensor ──────────────────────────────────────

#[test]
fn blink_example_parses_correctly() {
    let src = r#"
local LED_PIN = 13
local SENSOR_PIN = 2
pinMode(LED_PIN, "OUTPUT")
pinMode(SENSOR_PIN, "INPUT")
while true do
  local state = digitalRead(SENSOR_PIN)
  if state == true then
digitalWrite(LED_PIN, true)
delay(500)
  else
digitalWrite(LED_PIN, false)
  end
end
"#;
    let (e, s) = arenas();
    let block = parse(src, &e, &s).unwrap();
    assert_eq!(block.len(), 5);
    // dois locais
    assert!(matches!(block[0], Stmt::Local { ref name, .. } if name == "LED_PIN"));
    assert!(matches!(block[1], Stmt::Local { ref name, .. } if name == "SENSOR_PIN"));
    // dois calls de pinMode
    assert!(matches!(block[2], Stmt::Call { ref name, .. } if name == "pinMode"));
    assert!(matches!(block[3], Stmt::Call { ref name, .. } if name == "pinMode"));
    // while
    if let Stmt::While { cond, body, .. } = block[4] {
        assert!(matches!(cond, Expr::LitBool(true, _)));
        assert_eq!(body.len(), 2);
        // local state = digitalRead(...)
        assert!(matches!(body[0], Stmt::Local { ref name, init: Some(_), .. }
            if name == "state"));
        // if state == true then ... else ... end
        if let Stmt::If { cond, then_body, else_body, .. } = body[1] {
            assert!(matches!(cond, Expr::BinOp { op: BinOp::Eq, .. }));
            assert_eq!(then_body.len(), 2);
            assert_eq!(else_body.as_ref().unwrap().len(), 1);
        } else {
            panic!("esperado Stmt::If");
        }
    } else {
        panic!("esperado Stmt::While");
    }
}
