use tinylua::ast::{Expr, Stmt};
use tinylua::codegen::{generate, CodegenConfig};
use tinylua::parser::{parse, Arena};
use tinylua::sema::{analyse, SemaConfig, Target};

fn avr() -> CodegenConfig { CodegenConfig { target: Target::Avr } }
fn esp() -> CodegenConfig { CodegenConfig { target: Target::Esp32 } }

fn run<'a>(
    src: &'a str,
    cfg: CodegenConfig,
    ae: &'a Arena<Expr<'a>>,
    as_: &'a Arena<Stmt<'a>>,
) -> String {
    let stmts = parse(src, ae, as_).expect("parse failed");
    let sema_out = analyse(&stmts, &SemaConfig { target: cfg.target });
    for e in &sema_out.errors { println!("sema: {}", e.to_display_string()); }
    generate(&stmts, &sema_out, &cfg)
}

#[test]
fn local_com_init() {
    let ae = Arena::new(); let as_ = Arena::new();
    let out = run("local x = 42", avr(), &ae, &as_);
    assert!(out.contains("let mut x: i32 = 42;"), "output:\n{out}");
}

#[test]
fn local_sem_init() {
    let ae = Arena::new(); let as_ = Arena::new();
    let out = run("local x", avr(), &ae, &as_);
    assert!(out.contains("let mut x: i32 = 0;"), "output:\n{out}");
}

#[test]
fn for_sem_step() {
    let ae = Arena::new(); let as_ = Arena::new();
    let out = run("for i = 1, 10 do end", avr(), &ae, &as_);
    assert!(out.contains("for i in 1..=10 {"), "output:\n{out}");
}

#[test]
fn for_com_step() {
    let ae = Arena::new(); let as_ = Arena::new();
    let out = run("for i = 0, 10, 2 do end", avr(), &ae, &as_);
    assert!(out.contains("let mut i: i32 = 0;"), "output:\n{out}");
    assert!(out.contains("while i <= 10 {"), "output:\n{out}");
    assert!(out.contains("i += 2;"), "output:\n{out}");
}

#[test]
fn funcao_emitida_antes_do_main() {
    let ae = Arena::new(); let as_ = Arena::new();
    let src = "function add(a, b)\n  return a\nend";
    let out = run(src, avr(), &ae, &as_);
    assert!(out.contains("fn add(a: i32, b: i32) -> i32 {"), "output:\n{out}");
    let fn_pos   = out.find("fn add").unwrap();
    let main_pos = out.find("fn main").unwrap();
    assert!(fn_pos < main_pos, "função deve aparecer antes do main\n{out}");
}

#[test]
fn if_elseif_else() {
    let ae = Arena::new(); let as_ = Arena::new();
    let src = "local x = 0\nlocal y = 0\nlocal z = 0\n\
               if x == 1 then\n  y = 1\n\
               elseif z == 1 then\n  y = 2\n\
               else\n  y = 3\nend";
    let out = run(src, avr(), &ae, &as_);
    assert!(out.contains("if (x == 1) {"),       "output:\n{out}");
    assert!(out.contains("} else if (z == 1) {"), "output:\n{out}");
    assert!(out.contains("} else {"),             "output:\n{out}");
}

#[test]
fn blink_hal_calls() {
    let ae = Arena::new(); let as_ = Arena::new();
    let src = r#"
local LED_PIN = 13
local SENSOR_PIN = 2
pinMode(LED_PIN, "OUTPUT")
pinMode(SENSOR_PIN, "INPUT")
while true do
  local state = digitalRead(SENSOR_PIN)
  if state == true then
digitalWrite(LED_PIN, true)
delay(500)
  else
digitalWrite(LED_PIN, false)
  end
end
"#;
    let out = run(src, avr(), &ae, &as_);
    assert!(out.contains("hal::pin_mode("),      "output:\n{out}");
    assert!(out.contains("hal::digital_read("),  "output:\n{out}");
    assert!(out.contains("hal::digital_write("), "output:\n{out}");
    assert!(out.contains("hal::delay_ms("),      "output:\n{out}");
    assert!(out.contains("loop {"),              "output:\n{out}");
}

#[test]
fn sensor_analogico_casts() {
    let ae = Arena::new(); let as_ = Arena::new();
    let src = r#"
local LDR_PIN = 0
local PWM_LED = 9
while true do
  local luz = analogRead(LDR_PIN)
  local brilho = luz / 4
  analogWrite(PWM_LED, brilho)
  delay(100)
end
"#;
    let out = run(src, esp(), &ae, &as_);
    assert!(out.contains("hal::analog_read("),  "output:\n{out}");
    assert!(out.contains("hal::analog_write("), "output:\n{out}");
    assert!(out.contains("as u8"),              "output:\n{out}");
    assert!(out.contains("as u32"),             "output:\n{out}");
}

#[test]
fn blink_estrutura_completa() {
    let ae = Arena::new(); let as_ = Arena::new();
    let src = r#"
local LED_PIN = 13
local SENSOR_PIN = 2
pinMode(LED_PIN, "OUTPUT")
pinMode(SENSOR_PIN, "INPUT")
while true do
  local state = digitalRead(SENSOR_PIN)
  if state == true then
digitalWrite(LED_PIN, true)
delay(500)
  else
digitalWrite(LED_PIN, false)
  end
end
"#;
    let out = run(src, avr(), &ae, &as_);
    assert!(out.contains("#![no_std]"),                       "output:\n{out}");
    assert!(out.contains("#![no_main]"),                      "output:\n{out}");
    assert!(out.contains("use tinylua_hal as hal;"),          "output:\n{out}");
    assert!(out.contains("pub extern \"C\" fn main() -> !"), "output:\n{out}");
    // Imprime o output para inspeção visual nos logs do test.
    println!("{out}");
}
