use tinylua::ast::{Expr, Stmt};
use tinylua::parser::{parse, Arena};
use tinylua::sema::{analyse, SemaConfig, SemaOutput, Target, TinyType};

fn avr() -> SemaConfig { SemaConfig { target: Target::Avr } }
fn esp() -> SemaConfig { SemaConfig { target: Target::Esp32 } }

fn run<'a>(src: &'a str, cfg: &SemaConfig, arena_e: &'a Arena<Expr<'a>>, arena_s: &'a Arena<Stmt<'a>>) -> SemaOutput {
    let stmts = parse(src, arena_e, arena_s).expect("parse failed");
    let refs: Vec<&Stmt<'a>> = stmts.iter().map(|s| *s).collect();
    analyse(&refs, cfg)
}

#[test]
fn float_avr_gera_erro() {
    let ae = Arena::new(); let as_ = Arena::new();
    let out = run("local x = 3.14", &avr(), &ae, &as_);
    assert!(!out.errors.is_empty(), "deveria ter erro de float em AVR");
    assert!(out.errors[0].message.contains("ponto flutuante"));
    // span deve apontar para linha 1
    assert_eq!(out.errors[0].span.line, 1);
}

#[test]
fn float_esp32_sem_erro() {
    let ae = Arena::new(); let as_ = Arena::new();
    let out = run("local x = 3.14", &esp(), &ae, &as_);
    assert!(out.errors.is_empty(), "ESP32 aceita float");
}

#[test]
fn variavel_nao_declarada() {
    let ae = Arena::new(); let as_ = Arena::new();
    let out = run("x = 1", &avr(), &ae, &as_);
    assert!(out.errors.iter().any(|e| e.message.contains("não declarada")));
}

#[test]
fn variavel_usada_antes_de_init() {
    let ae = Arena::new(); let as_ = Arena::new();
    let out = run("local x\nlocal y = x + 1", &avr(), &ae, &as_);
    assert!(out.errors.iter().any(|e| e.message.contains("antes de ser inicializada")));
}

#[test]
fn recursao_direta_proibida() {
    let ae = Arena::new(); let as_ = Arena::new();
    let src = "function f()\n  f()\nend";
    let out = run(src, &avr(), &ae, &as_);
    assert!(out.errors.iter().any(|e| e.message.contains("recursão")));
}

#[test]
fn delay_tipo_errado() {
    let ae = Arena::new(); let as_ = Arena::new();
    let out = run("delay(\"texto\")", &avr(), &ae, &as_);
    assert!(out.errors.iter().any(|e| e.message.contains("argumento 1 de 'delay'")));
}

#[test]
fn delay_aridade_errada() {
    let ae = Arena::new(); let as_ = Arena::new();
    let out = run("delay(1, 2)", &avr(), &ae, &as_);
    assert!(out.errors.iter().any(|e| e.message.contains("espera 1 argumento")));
}

#[test]
fn blink_avr_sem_erros() {
    let ae = Arena::new(); let as_ = Arena::new();
    let src = r#"
local LED_PIN = 13
local SENSOR_PIN = 2
pinMode(LED_PIN, "OUTPUT")
pinMode(SENSOR_PIN, "INPUT")
while true do
  local state = digitalRead(SENSOR_PIN)
  if state == true then
digitalWrite(LED_PIN, true)
delay(500)
  else
digitalWrite(LED_PIN, false)
  end
end
"#;
    let out = run(src, &avr(), &ae, &as_);
    for e in &out.errors { println!("{}", e.to_display_string()); }
    assert!(out.errors.is_empty(), "blink AVR não deve ter erros semânticos");
}

#[test]
fn sensor_analogico_esp32_sem_erros() {
    let ae = Arena::new(); let as_ = Arena::new();
    let src = r#"
local LDR_PIN = 0
local PWM_LED = 9
while true do
  local luz = analogRead(LDR_PIN)
  local brilho = luz / 4
  analogWrite(PWM_LED, brilho)
  delay(100)
end
"#;
    let out = run(src, &esp(), &ae, &as_);
    for e in &out.errors { println!("{}", e.to_display_string()); }
    assert!(out.errors.is_empty(), "sensor analógico ESP32 não deve ter erros semânticos");
}

#[test]
fn variavel_inicializada_dentro_de_if() {
    let ae = Arena::new(); let as_ = Arena::new();
    let src = "local x\nif true then\n  x = 42\nend\nlocal y = x";
    let out = run(src, &avr(), &ae, &as_);
    for e in &out.errors { println!("{}", e.to_display_string()); }
    assert!(out.errors.is_empty(), "x foi inicializado antes do uso");
}

#[test]
fn return_at_top_level_is_accepted() {
    let ae = Arena::new(); let as_ = Arena::new();
    let out = run("return 1", &avr(), &ae, &as_);
    assert!(out.errors.is_empty());
    let out = run("return", &avr(), &ae, &as_);
    assert!(out.errors.is_empty());
}

#[test]
fn parameters_are_int() {
    let ae = Arena::new(); let as_ = Arena::new();
    let out = run("function f(pin)\n  delay(pin)\n  digitalWrite(pin, pin)\nend", &avr(), &ae, &as_);
    let msgs: Vec<String> = out.errors.iter().map(|e| e.message.clone()).collect();
    assert_eq!(msgs, vec!["argumento 2 de 'digitalWrite' deve ser Bool, recebeu Int".to_string()]);
}

#[test]
fn intrinsic_results_have_their_types() {
    let ae = Arena::new(); let as_ = Arena::new();
    // the nodes are numbered children first: 0 is `2`, 1 the call
    let out = run("local v = digitalRead(2)", &avr(), &ae, &as_);
    assert_eq!(out.expr_types.get(&0), Some(&TinyType::Int));
    assert_eq!(out.expr_types.get(&1), Some(&TinyType::Bool));
    let out = run("local v = analogRead(2) + 1", &avr(), &ae, &as_);
    assert_eq!(out.expr_types.get(&1), Some(&TinyType::Int));
    let out = run("local v = delay(2)", &avr(), &ae, &as_);
    assert_eq!(out.expr_types.get(&1), Some(&TinyType::Nil));
}

#[test]
fn loop_variable_is_scoped_to_the_loop() {
    let ae = Arena::new(); let as_ = Arena::new();
    let out = run("for i = 1, 3 do\n  delay(i)\nend\nlocal y = i", &avr(), &ae, &as_);
    let msgs: Vec<String> = out.errors.iter().map(|e| e.to_display_string()).collect();
    assert_eq!(msgs, vec!["erro[4:11]: variável 'i' não declarada".to_string()]);
}
