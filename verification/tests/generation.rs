//! Whole generated files and the checks that come before generation.
use tinylua::ast::{Expr, Stmt};
use tinylua::codegen::{can_generate, generate, CodegenConfig};
use tinylua::lexer::Lexer;
use tinylua::parser::{parse, Arena};
use tinylua::sema::{analyse, node_count, SemaConfig, Target};
use tinylua::token::Token;

const HEADER: &str = "#![no_std]\n#![no_main]\nuse tinylua_hal as hal;\n\n#[panic_handler]\nfn panic(_: &core::panic::PanicInfo) -> ! { loop {} }\n\n";

fn gen(src: &str, target: Target) -> String {
    let ae: Arena<Expr> = Arena::new();
    let as_: Arena<Stmt> = Arena::new();
    let stmts = parse(src, &ae, &as_).unwrap();
    assert!(can_generate(&stmts));
    let sema = analyse(&stmts, &SemaConfig { target });
    generate(&stmts, &sema, &CodegenConfig { target })
}

#[test]
fn blink_file_is_generated_exactly() {
    let src = "-- Turns the LED on for 1 second, off for 1 second, repeats forever.\n\
               -- Pin 13 = LED_BUILTIN on the Arduino UNO\n\n\
               local LED_PIN = 13\n\n\
               pinMode(LED_PIN, \"OUTPUT\")\n\n\
               while true do\n    digitalWrite(LED_PIN, true)   -- HIGH\n    delay(1000)\n    \
               digitalWrite(LED_PIN, false)  -- LOW\n    delay(1000)\nend\n";
    let expected = format!(
        "{HEADER}#[no_mangle]\npub extern \"C\" fn main() -> ! {{\n    let mut LED_PIN: i32 = 13;\n    \
         hal::pin_mode(LED_PIN, hal::PinMode::Output);\n    loop {{\n        \
         hal::digital_write(LED_PIN, true);\n        hal::delay_ms(1000 as u32);\n        \
         hal::digital_write(LED_PIN, false);\n        hal::delay_ms(1000 as u32);\n    }}\n}}\n"
    );
    assert_eq!(gen(src, Target::Avr), expected);
}

#[test]
fn empty_program() {
    assert_eq!(gen("", Target::Avr), format!("{HEADER}#[no_mangle]\npub extern \"C\" fn main() -> ! {{\n}}\n"));
}

#[test]
fn target_does_not_change_the_text() {
    let src = "local x = 2\nlocal y = analogRead(x)\nanalogWrite(9, y / 4)";
    assert_eq!(gen(src, Target::Avr), gen(src, Target::Esp32));
}

#[test]
fn stepped_for_and_functions() {
    let src = "function add(a, b)\n  return a + b\nend\nfor i = 0, 10, 2 do\n  x = add(i, 1)\nend\nreturn";
    let expected = format!(
        "{HEADER}fn add(a: i32, b: i32) -> i32 {{\n    return (a + b);\n}}\n\n#[no_mangle]\npub extern \"C\" fn main() -> ! {{\n    \
         {{\n        let mut i: i32 = 0;\n        while i <= 10 {{\n            x = add(i, 1);\n            i += 2;\n        }}\n    }}\n    \
         return;\n}}\n"
    );
    assert_eq!(gen(src, Target::Avr), expected);
}

#[test]
fn branches_and_expressions() {
    let src = "local a = -1\nif not (a == 1) and a ~= 2 or false then\n  a = nil\nelseif a >= 3 then\n  a = 7 % 2\nelse\n  a = analogRead(1)\nend";
    let expected = format!(
        "{HEADER}#[no_mangle]\npub extern \"C\" fn main() -> ! {{\n    let mut a: i32 = (-1);\n    \
         if (((!(a == 1)) && (a != 2)) || false) {{\n        a = 0;\n    }} else if (a >= 3) {{\n        a = (7 % 2);\n    \
         }} else {{\n        a = hal::analog_read(1);\n    }}\n}}\n"
    );
    assert_eq!(gen(src, Target::Avr), expected);
}

#[test]
fn nested_function_in_function_body() {
    let src = "function outer()\n  function inner()\n    return 1\n  end\n  return 2\nend";
    let expected = format!(
        "{HEADER}fn outer() -> i32 {{\nfn inner() -> i32 {{\n    return 1;\n}}\nreturn 2;\n}}\n\n#[no_mangle]\npub extern \"C\" fn main() -> ! {{\n}}\n"
    );
    assert_eq!(gen(src, Target::Avr), expected);
}

#[test]
fn string_and_float_literals() {
    let src = "local f = 2.50\nlocal g = 0.\npinMode(2, \"INPUT\")\npinMode(3, \"OUTPUT\")\npinMode(4, 5)";
    let out = gen(src, Target::Esp32);
    assert!(out.contains("let mut f: i32 = 2.5_f32;"), "{out}");
    assert!(out.contains("let mut g: i32 = 0_f32;"), "{out}");
    assert!(out.contains("hal::pin_mode(2, hal::PinMode::Input);"), "{out}");
    assert!(out.contains("hal::pin_mode(3, hal::PinMode::Output);"), "{out}");
    assert!(out.contains("hal::pin_mode(4, hal::PinMode::Input);"), "{out}");
}

#[test]
fn generation_needs_intrinsic_arguments() {
    for src in ["delay()", "local v = digitalRead()", "analogWrite(9)", "x = f(pinMode(1))"] {
        let ae: Arena<Expr> = Arena::new();
        let as_: Arena<Stmt> = Arena::new();
        let stmts = parse(src, &ae, &as_).unwrap();
        assert!(!can_generate(&stmts), "{src}");
    }
}

#[test]
fn generation_needs_functions_outside_loops_and_branches() {
    for src in ["while true do function f() end end", "if x then else function f() end end", "for i = 1, 2 do function f() end end"] {
        let ae: Arena<Expr> = Arena::new();
        let as_: Arena<Stmt> = Arena::new();
        let stmts = parse(src, &ae, &as_).unwrap();
        assert!(!can_generate(&stmts), "{src}");
    }
}

#[test]
fn node_count_counts_expression_nodes() {
    let ae: Arena<Expr> = Arena::new();
    let as_: Arena<Stmt> = Arena::new();
    let stmts = parse("local x = 1 + 2\nif x then delay(x * 3) end\nlocal y", &ae, &as_).unwrap();
    assert_eq!(node_count(&stmts), Some(7));
    let out = analyse(&stmts, &SemaConfig { target: Target::Avr });
    assert_eq!(out.expr_types.len(), 7);
}

#[test]
fn unicode_letters_make_names() {
    let names: Vec<Token> = Lexer::tokenize("variável x² ação").into_iter().map(|t| t.node).collect();
    assert_eq!(
        names,
        vec![Token::Ident("variável".into()), Token::Ident("x²".into()), Token::Ident("ação".into()), Token::Eof]
    );
    assert_eq!(Lexer::tokenize("€").remove(0).node, Token::Unknown('€'));
    assert_eq!(Lexer::tokenize("²").remove(0).node, Token::Unknown('²'));
}
