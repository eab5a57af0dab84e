//! The generator: walks the checked tree and writes `no_std` Rust for the target board.
use vstd::prelude::*;
use crate::text::{int_decimal, indentation, push_indentation, push_int_decimal, push_char, str_eq};
use crate::token::{float_text, float_literal_text};
use crate::ast::{Span, BinOp, UnOp, Expr, ExprM, ElseIf, ElseIfM, Stmt, StmtM, exprs_model, stmts_model, elseifs_model, names_model};
use crate::sema::{SemaOutput, Target};

verus! {

pub struct CodegenConfig {
    pub target: Target,
}

// ── what the generator can handle ───────────────────────────────────────────

/// How many arguments the generated code reads for a call to `name`.
pub open spec fn needed_args(name: Seq<char>) -> nat {
    if name == "digitalRead"@ || name == "analogRead"@ || name == "delay"@ {
        1
    } else if name == "digitalWrite"@ || name == "analogWrite"@ || name == "pinMode"@ {
        2
    } else {
        0
    }
}

/// Every intrinsic call in `e` has the arguments its generated call reads.
pub open spec fn calls_ok_expr(e: ExprM) -> bool
    decreases e,
{
    match e {
        ExprM::BinOp { lhs, rhs, .. } => calls_ok_expr(*lhs) && calls_ok_expr(*rhs),
        ExprM::UnOp { operand, .. } => calls_ok_expr(*operand),
        ExprM::Call { name, args, .. } => args.len() >= needed_args(name) && calls_ok_args(args),
        _ => true,
    }
}

pub open spec fn calls_ok_args(args: Seq<ExprM>) -> bool
    decreases args,
{
    if args.len() == 0 { true } else { calls_ok_args(args.drop_last()) && calls_ok_expr(args.last()) }
}

pub open spec fn calls_ok_opt(e: Option<ExprM>) -> bool {
    match e {
        Some(x) => calls_ok_expr(x),
        None => true,
    }
}

/// A statement the generator handles without failing: its intrinsic calls have
/// their arguments, and no function is defined inside a `while`, `if` or `for`
/// (function definitions stand at the top level or directly in a function's body).
pub open spec fn stmt_ok(s: StmtM) -> bool
    decreases s,
{
    match s {
        StmtM::Local { init, .. } => calls_ok_opt(init),
        StmtM::Assign { value, .. } => calls_ok_expr(value),
        StmtM::Call { name, args, .. } => args.len() >= needed_args(name) && calls_ok_args(args),
        StmtM::Return { value, .. } => calls_ok_opt(value),
        StmtM::While { cond, body, .. } => calls_ok_expr(cond) && block_ok(body) && block_has_no_function(body),
        StmtM::If { cond, then_body, elseif_clauses, else_body, .. } => calls_ok_expr(cond) && block_ok(then_body)
            && block_has_no_function(then_body) && elseifs_ok(elseif_clauses) && match else_body {
                Some(b) => block_ok(b) && block_has_no_function(b),
                None => true,
            },
        StmtM::NumFor { start, limit, step, body, .. } => calls_ok_expr(start) && calls_ok_expr(limit)
            && calls_ok_opt(step) && block_ok(body) && block_has_no_function(body),
        StmtM::Function { body, .. } => block_ok(body),
    }
}

pub open spec fn block_ok(b: Seq<StmtM>) -> bool
    decreases b,
{
    if b.len() == 0 { true } else { block_ok(b.drop_last()) && stmt_ok(b.last()) }
}

pub open spec fn elseifs_ok(cs: Seq<ElseIfM>) -> bool
    decreases cs,
{
    if cs.len() == 0 {
        true
    } else {
        elseifs_ok(cs.drop_last()) && calls_ok_expr(cs.last().cond) && block_ok(cs.last().body)
            && block_has_no_function(cs.last().body)
    }
}

/// No function is defined anywhere in the statement.
pub open spec fn stmt_has_no_function(s: StmtM) -> bool
    decreases s,
{
    match s {
        StmtM::While { body, .. } => block_has_no_function(body),
        StmtM::If { then_body, elseif_clauses, else_body, .. } => block_has_no_function(then_body)
            && elseifs_have_no_function(elseif_clauses) && match else_body {
                Some(b) => block_has_no_function(b),
                None => true,
            },
        StmtM::NumFor { body, .. } => block_has_no_function(body),
        StmtM::Function { .. } => false,
        _ => true,
    }
}

pub open spec fn block_has_no_function(b: Seq<StmtM>) -> bool
    decreases b,
{
    if b.len() == 0 { true } else { block_has_no_function(b.drop_last()) && stmt_has_no_function(b.last()) }
}

pub open spec fn elseifs_have_no_function(cs: Seq<ElseIfM>) -> bool
    decreases cs,
{
    if cs.len() == 0 { true } else { elseifs_have_no_function(cs.drop_last()) && block_has_no_function(cs.last().body) }
}

/// How far the statement pushes indentation beyond its own level.
pub open spec fn stmt_depth(s: StmtM) -> nat
    decreases s,
{
    match s {
        StmtM::While { body, .. } => 1 + block_depth(body),
        StmtM::If { then_body, elseif_clauses, else_body, .. } => 1 + max3(
            block_depth(then_body),
            elseifs_depth(elseif_clauses),
            match else_body { Some(b) => block_depth(b), None => 0 },
        ),
        StmtM::NumFor { body, .. } => 2 + block_depth(body),
        StmtM::Function { body, .. } => 1 + block_depth(body),
        _ => 0,
    }
}

pub open spec fn max3(a: nat, b: nat, c: nat) -> nat {
    if a >= b && a >= c { a } else if b >= c { b } else { c }
}

pub open spec fn block_depth(b: Seq<StmtM>) -> nat
    decreases b,
{
    if b.len() == 0 {
        0
    } else {
        let d1 = block_depth(b.drop_last());
        let d2 = stmt_depth(b.last());
        if d1 >= d2 { d1 } else { d2 }
    }
}

pub open spec fn elseifs_depth(cs: Seq<ElseIfM>) -> nat
    decreases cs,
{
    if cs.len() == 0 {
        0
    } else {
        let d1 = elseifs_depth(cs.drop_last());
        let d2 = block_depth(cs.last().body);
        if d1 >= d2 { d1 } else { d2 }
    }
}

// ── the generated text ──────────────────────────────────────────────────────

/// A binary operator in Rust.
pub open spec fn binop_rust(op: BinOp) -> Seq<char> {
    match op {
        BinOp::Add => "+"@,
        BinOp::Sub => "-"@,
        BinOp::Mul => "*"@,
        BinOp::Div => "/"@,
        BinOp::Mod => "%"@,
        BinOp::Eq => "=="@,
        BinOp::Ne => "!="@,
        BinOp::Lt => "<"@,
        BinOp::Le => "<="@,
        BinOp::Gt => ">"@,
        BinOp::Ge => ">="@,
        BinOp::And => "&&"@,
        BinOp::Or => "||"@,
    }
}

/// The HAL pin mode for the second argument of `pinMode`: `"OUTPUT"` gives
/// `Output`, anything else `Input`.
pub open spec fn pinmode_text(e: ExprM) -> Seq<char> {
    match e {
        ExprM::LitStr(s, _) => if s == "OUTPUT"@ { "hal::PinMode::Output"@ } else { "hal::PinMode::Input"@ },
        _ => "hal::PinMode::Input"@,
    }
}

/// An expression in Rust; every value is an `i32` (`nil` is `0`).
pub open spec fn emit_expr(e: ExprM) -> Seq<char>
    decreases e, 1nat,
{
    match e {
        ExprM::LitInt(n, _) => int_decimal(n as int),
        ExprM::LitFloat(t, _) => float_text(t) + "_f32"@,
        ExprM::LitStr(s, _) => seq!['"'] + s + seq!['"'],
        ExprM::LitBool(b, _) => if b { "true"@ } else { "false"@ },
        ExprM::Nil(_) => "0"@,
        ExprM::Var(name, _) => name,
        ExprM::BinOp { op, lhs, rhs, .. } => "("@ + emit_expr(*lhs) + " "@ + binop_rust(op) + " "@ + emit_expr(*rhs) + ")"@,
        ExprM::UnOp { op, operand, .. } => match op {
            UnOp::Neg => "(-"@ + emit_expr(*operand) + ")"@,
            UnOp::Not => "(!"@ + emit_expr(*operand) + ")"@,
        },
        ExprM::Call { name, args, .. } => emit_call(name, args),
    }
}

/// A call in Rust: intrinsics become calls into the HAL (the `analogWrite` value and
/// the `delay` duration cast at the call), other calls keep their name.
pub open spec fn emit_call(name: Seq<char>, args: Seq<ExprM>) -> Seq<char>
    decreases args, 1nat,
{
    if name == "digitalRead"@ && args.len() >= 1 {
        "hal::digital_read("@ + emit_expr(args[0]) + ")"@
    } else if name == "digitalWrite"@ && args.len() >= 2 {
        "hal::digital_write("@ + emit_expr(args[0]) + ", "@ + emit_expr(args[1]) + ")"@
    } else if name == "analogRead"@ && args.len() >= 1 {
        "hal::analog_read("@ + emit_expr(args[0]) + ")"@
    } else if name == "analogWrite"@ && args.len() >= 2 {
        "hal::analog_write("@ + emit_expr(args[0]) + ", "@ + emit_expr(args[1]) + " as u8)"@
    } else if name == "delay"@ && args.len() >= 1 {
        "hal::delay_ms("@ + emit_expr(args[0]) + " as u32)"@
    } else if name == "pinMode"@ && args.len() >= 2 {
        "hal::pin_mode("@ + emit_expr(args[0]) + ", "@ + pinmode_text(args[1]) + ")"@
    } else {
        name + "("@ + emit_args(args) + ")"@
    }
}

/// Arguments in Rust, separated by `, `.
pub open spec fn emit_args(args: Seq<ExprM>) -> Seq<char>
    decreases args, 0nat,
{
    if args.len() == 0 {
        Seq::empty()
    } else if args.len() == 1 {
        emit_expr(args[0])
    } else {
        emit_args(args.drop_last()) + ", "@ + emit_expr(args.last())
    }
}

/// A function's parameters in Rust, each an `i32`, separated by `, `.
pub open spec fn params_text(ps: Seq<Seq<char>>) -> Seq<char>
    decreases ps.len(),
{
    if ps.len() == 0 {
        Seq::empty()
    } else if ps.len() == 1 {
        ps[0] + ": i32"@
    } else {
        params_text(ps.drop_last()) + ", "@ + ps.last() + ": i32"@
    }
}

/// A statement in Rust at indentation level `indent`: the text and the level the
/// generator is at afterwards (a function definition leaves it at 0).
pub open spec fn emit_stmt(indent: nat, s: StmtM) -> (Seq<char>, nat)
    decreases s, 0nat,
{
    let pad = indentation(indent);
    match s {
        StmtM::Local { name, init, .. } => (
            pad + "let mut "@ + name + ": i32 = "@ + match init { Some(e) => emit_expr(e), None => "0"@ } + ";\n"@,
            indent,
        ),
        StmtM::Assign { name, value, .. } => (pad + name + " = "@ + emit_expr(value) + ";\n"@, indent),
        StmtM::Call { name, args, .. } => (pad + emit_call(name, args) + ";\n"@, indent),
        StmtM::Return { value, .. } => match value {
            Some(e) => (pad + "return "@ + emit_expr(e) + ";\n"@, indent),
            None => (pad + "return;\n"@, indent),
        },
        StmtM::While { cond, body, .. } => {
            // `while true` becomes `loop`, which satisfies `-> !` in `main`
            let head = if cond matches ExprM::LitBool(true, _) {
                pad + "loop {\n"@
            } else {
                pad + "while "@ + emit_expr(cond) + " {\n"@
            };
            let (b, k) = emit_block(indent + 1, body);
            (head + b + pad + "}\n"@, (k - 1) as nat)
        },
        StmtM::If { cond, then_body, elseif_clauses, else_body, .. } => {
            let (t, k1) = emit_block(indent + 1, then_body);
            let (e, k2) = emit_elseifs(pad, (k1 - 1) as nat, elseif_clauses);
            let (el, k3) = match else_body {
                Some(b) => {
                    let (x, k) = emit_block(k2 + 1, b);
                    (pad + "} else {\n"@ + x, (k - 1) as nat)
                },
                None => (Seq::empty(), k2),
            };
            (pad + "if "@ + emit_expr(cond) + " {\n"@ + t + e + el + pad + "}\n"@, k3)
        },
        StmtM::NumFor { var, start, limit, step, body, .. } => match step {
            None => {
                let (b, k) = emit_block(indent + 1, body);
                (
                    pad + "for "@ + var + " in "@ + emit_expr(start) + "..="@ + emit_expr(limit) + " {\n"@ + b + pad + "}\n"@,
                    (k - 1) as nat,
                )
            },
            Some(st) => {
                // a `while` with the increment written out
                let inner_pad = indentation(indent + 1);
                let body_pad = indentation(indent + 2);
                let (b, k) = emit_block(indent + 2, body);
                (
                    pad + "{\n"@ + inner_pad + "let mut "@ + var + ": i32 = "@ + emit_expr(start) + ";\n"@ + inner_pad
                        + "while "@ + var + " <= "@ + emit_expr(limit) + " {\n"@ + b + body_pad + var + " += "@
                        + emit_expr(st) + ";\n"@ + inner_pad + "}\n"@ + pad + "}\n"@,
                    (k - 2) as nat,
                )
            },
        },
        StmtM::Function { name, params, body, .. } => (emit_function(name, params, body), 0),
    }
}

/// The `elseif` clauses, with the generator starting at level `indent`; each clause
/// opens with `pad`.
pub open spec fn emit_elseifs(pad: Seq<char>, indent: nat, cs: Seq<ElseIfM>) -> (Seq<char>, nat)
    decreases cs, 0nat,
{
    if cs.len() == 0 {
        (Seq::empty(), indent)
    } else {
        let (t, k) = emit_elseifs(pad, indent, cs.drop_last());
        let (b, k2) = emit_block(k + 1, cs.last().body);
        (t + pad + "} else if "@ + emit_expr(cs.last().cond) + " {\n"@ + b, (k2 - 1) as nat)
    }
}

/// The statements of a block, in order, from level `indent`.
pub open spec fn emit_block(indent: nat, b: Seq<StmtM>) -> (Seq<char>, nat)
    decreases b, 0nat,
{
    if b.len() == 0 {
        (Seq::empty(), indent)
    } else {
        let (t, k) = emit_block(indent, b.drop_last());
        let (u, k2) = emit_stmt(k, b.last());
        (t + u, k2)
    }
}

/// A function definition in Rust: parameters and result are `i32`.
pub open spec fn emit_function(name: Seq<char>, params: Seq<Seq<char>>, body: Seq<StmtM>) -> Seq<char>
    decreases body, 1nat,
{
    "fn "@ + name + "("@ + params_text(params) + ") -> i32 {\n"@ + emit_block(1, body).0 + "}\n"@
}

/// The functions of the program (the top-level `function` statements), in order,
/// each followed by an empty line.
pub open spec fn top_functions_text(b: Seq<StmtM>) -> Seq<char>
    decreases b.len(),
{
    if b.len() == 0 {
        Seq::empty()
    } else {
        top_functions_text(b.drop_last()) + match b.last() {
            StmtM::Function { name, params, body, .. } => emit_function(name, params, body) + "\n"@,
            _ => Seq::empty(),
        }
    }
}

/// The body of `main`: the other top-level statements, in order, at level 1.
pub open spec fn main_body_text(b: Seq<StmtM>) -> Seq<char>
    decreases b.len(),
{
    if b.len() == 0 {
        Seq::empty()
    } else {
        main_body_text(b.drop_last()) + match b.last() {
            StmtM::Function { .. } => Seq::empty(),
            s => emit_stmt(1, s).0,
        }
    }
}

/// The start of every generated file.
pub open spec fn file_header() -> Seq<char> {
    "#![no_std]\n"@ + "#![no_main]\n"@ + "use tinylua_hal as hal;\n"@ + "\n"@ + "#[panic_handler]\n"@
        + "fn panic(_: &core::panic::PanicInfo) -> ! { loop {} }\n"@ + "\n"@
}

/// The whole generated file: header, the program's functions, then `main`.
pub open spec fn generate_spec(b: Seq<StmtM>) -> Seq<char> {
    file_header() + top_functions_text(b) + "#[no_mangle]\n"@ + "pub extern \"C\" fn main() -> ! {\n"@
        + main_body_text(b) + "}\n"@
}

// ── facts about blocks ──────────────────────────────────────────────────────

proof fn lemma_block_at(b: Seq<StmtM>, i: int)
    requires
        0 <= i < b.len(),
    ensures
        block_ok(b) ==> stmt_ok(b[i]),
        block_has_no_function(b) ==> stmt_has_no_function(b[i]),
        stmt_depth(b[i]) <= block_depth(b),
    decreases b.len(),
{
    if i < b.len() - 1 {
        lemma_block_at(b.drop_last(), i);
        assert(b.drop_last()[i] == b[i]);
    }
}

proof fn lemma_elseifs_at(cs: Seq<ElseIfM>, i: int)
    requires
        0 <= i < cs.len(),
    ensures
        elseifs_ok(cs) ==> calls_ok_expr(cs[i].cond) && block_ok(cs[i].body) && block_has_no_function(cs[i].body),
        elseifs_have_no_function(cs) ==> block_has_no_function(cs[i].body),
        block_depth(cs[i].body) <= elseifs_depth(cs),
    decreases cs.len(),
{
    if i < cs.len() - 1 {
        lemma_elseifs_at(cs.drop_last(), i);
        assert(cs.drop_last()[i] == cs[i]);
    }
}

proof fn lemma_args_at(args: Seq<ExprM>, i: int)
    requires
        0 <= i < args.len(),
        calls_ok_args(args),
    ensures
        calls_ok_expr(args[i]),
    decreases args.len(),
{
    if i < args.len() - 1 {
        lemma_args_at(args.drop_last(), i);
        assert(args.drop_last()[i] == args[i]);
    }
}

/// The number of arguments the generated code reads for each intrinsic.
proof fn lemma_needed_args()
    ensures
        needed_args("digitalRead"@) == 1,
        needed_args("analogRead"@) == 1,
        needed_args("delay"@) == 1,
        needed_args("digitalWrite"@) == 2,
        needed_args("analogWrite"@) == 2,
        needed_args("pinMode"@) == 2,
{
    reveal_strlit("digitalRead");
    reveal_strlit("analogRead");
    reveal_strlit("delay");
    reveal_strlit("digitalWrite");
    reveal_strlit("analogWrite");
    reveal_strlit("pinMode");
    assert("digitalWrite"@ != "digitalRead"@) by {
        assert("digitalWrite"@[7] != "digitalRead"@[7]);
    }
    assert("digitalWrite"@ != "analogRead"@) by {
        assert("digitalWrite"@.len() != "analogRead"@.len());
    }
    assert("digitalWrite"@ != "delay"@) by {
        assert("digitalWrite"@.len() != "delay"@.len());
    }
    assert("analogWrite"@ != "digitalRead"@) by {
        assert("analogWrite"@[0] != "digitalRead"@[0]);
    }
    assert("analogWrite"@ != "analogRead"@) by {
        assert("analogWrite"@.len() != "analogRead"@.len());
    }
    assert("analogWrite"@ != "delay"@) by {
        assert("analogWrite"@.len() != "delay"@.len());
    }
    assert("pinMode"@.len() == 7);
    assert("pinMode"@ != "digitalRead"@ && "pinMode"@ != "analogRead"@ && "pinMode"@ != "delay"@);
}

/// A `while` loop becomes `loop` only when its condition is the literal `true`; any
/// other condition is written out, between `while` and the opening brace, at the
/// start of the statement's text.
pub proof fn law_while_keeps_its_condition(indent: nat, cond: ExprM, body: Seq<StmtM>, span: Span)
    ensures
        (cond matches ExprM::LitBool(true, _)) ==> (indentation(indent) + "loop {\n"@).is_prefix_of(
            emit_stmt(indent, StmtM::While { cond, body, span }).0,
        ),
        !(cond matches ExprM::LitBool(true, _)) ==> (indentation(indent) + "while "@ + emit_expr(cond) + " {\n"@).is_prefix_of(
            emit_stmt(indent, StmtM::While { cond, body, span }).0,
        ),
{
    let pad = indentation(indent);
    let head = if cond matches ExprM::LitBool(true, _) {
        pad + "loop {\n"@
    } else {
        pad + "while "@ + emit_expr(cond) + " {\n"@
    };
    let rest = emit_block(indent + 1, body).0 + pad + "}\n"@;
    let text = emit_stmt(indent, StmtM::While { cond, body, span }).0;
    assert(text =~= head + rest);
    assert(head =~= text.subrange(0, head.len() as int));
}

/// A statement that defines no function leaves the generator at the indentation
/// level it started at; its text is only appended after what came before.
pub proof fn law_statement_keeps_level(indent: nat, s: StmtM)
    requires
        stmt_has_no_function(s),
    ensures
        emit_stmt(indent, s).1 == indent,
    decreases s,
{
    match s {
        StmtM::While { body, .. } => lemma_block_keeps_level(indent + 1, body),
        StmtM::If { then_body, elseif_clauses, else_body, .. } => {
            lemma_block_keeps_level(indent + 1, then_body);
            lemma_elseifs_keep_level(indentation(indent), indent, elseif_clauses);
            match else_body {
                Some(b) => lemma_block_keeps_level(indent + 1, b),
                None => {},
            }
        },
        StmtM::NumFor { step, body, .. } => {
            lemma_block_keeps_level(indent + 1, body);
            lemma_block_keeps_level(indent + 2, body);
        },
        _ => {},
    }
}

proof fn lemma_block_keeps_level(indent: nat, b: Seq<StmtM>)
    requires
        block_has_no_function(b),
    ensures
        emit_block(indent, b).1 == indent,
    decreases b,
{
    if b.len() > 0 {
        lemma_block_keeps_level(indent, b.drop_last());
        law_statement_keeps_level(indent, b.last());
    }
}

proof fn lemma_elseifs_keep_level(pad: Seq<char>, indent: nat, cs: Seq<ElseIfM>)
    requires
        elseifs_have_no_function(cs),
    ensures
        emit_elseifs(pad, indent, cs).1 == indent,
    decreases cs,
{
    if cs.len() > 0 {
        lemma_elseifs_keep_level(pad, indent, cs.drop_last());
        lemma_block_keeps_level(indent + 1, cs.last().body);
    }
}

/// The text of an `if` statement whose blocks define no function.
proof fn lemma_emit_if_text(indent: nat, m: StmtM)
    requires
        m is If,
        stmt_ok(m),
    ensures
        ({
            let pad = indentation(indent);
            match m {
                StmtM::If { cond, then_body, elseif_clauses, else_body, .. } => {
                    emit_block(indent + 1, then_body).1 == indent + 1 ==>
                    emit_elseifs(pad, indent, elseif_clauses).1 == indent ==>
                    (match else_body { Some(b) => emit_block(indent + 1, b).1 == indent + 1, None => true }) ==>
                    emit_stmt(indent, m) == (
                        pad + "if "@ + emit_expr(cond) + " {\n"@ + emit_block(indent + 1, then_body).0
                            + emit_elseifs(pad, indent, elseif_clauses).0
                            + match else_body {
                                Some(b) => pad + "} else {\n"@ + emit_block(indent + 1, b).0,
                                None => Seq::empty(),
                            } + pad + "}\n"@,
                        indent,
                    )
                },
                _ => true,
            }
        }),
{
}

/// The text of a numeric `for` statement without a step, whose body defines no function.
proof fn lemma_emit_for_text(indent: nat, m: StmtM)
    requires
        m matches StmtM::NumFor { step: None, .. },
    ensures
        ({
            let pad = indentation(indent);
            match m {
                StmtM::NumFor { var, start, limit, body, .. } =>
                    emit_block(indent + 1, body).1 == indent + 1 ==> emit_stmt(indent, m) == (
                        pad + "for "@ + var + " in "@ + emit_expr(start) + "..="@ + emit_expr(limit) + " {\n"@
                            + emit_block(indent + 1, body).0 + pad + "}\n"@,
                        indent,
                    ),
                _ => true,
            }
        }),
{
}

/// The text of a numeric `for` statement with a step, whose body defines no function.
proof fn lemma_emit_stepped_for_text(indent: nat, m: StmtM)
    requires
        m matches StmtM::NumFor { step: Some(_), .. },
    ensures
        ({
            let pad = indentation(indent);
            match m {
                StmtM::NumFor { var, start, limit, step: Some(st), body, .. } =>
                    emit_block(indent + 2, body).1 == indent + 2 ==> emit_stmt(indent, m) == (
                        pad + "{\n"@ + indentation(indent + 1) + "let mut "@ + var + ": i32 = "@ + emit_expr(start)
                            + ";\n"@ + indentation(indent + 1) + "while "@ + var + " <= "@ + emit_expr(limit) + " {\n"@
                            + emit_block(indent + 2, body).0 + indentation(indent + 2) + var + " += "@ + emit_expr(st)
                            + ";\n"@ + indentation(indent + 1) + "}\n"@ + pad + "}\n"@,
                        indent,
                    ),
                _ => true,
            }
        }),
{
}

// ── the generator ───────────────────────────────────────────────────────────

fn binop_str(op: BinOp) -> (r: &'static str)
    ensures
        r@ == binop_rust(op),
{
    match op {
        BinOp::Add => "+",
        BinOp::Sub => "-",
        BinOp::Mul => "*",
        BinOp::Div => "/",
        BinOp::Mod => "%",
        BinOp::Eq => "==",
        BinOp::Ne => "!=",
        BinOp::Lt => "<",
        BinOp::Le => "<=",
        BinOp::Gt => ">",
        BinOp::Ge => ">=",
        BinOp::And => "&&",
        BinOp::Or => "||",
    }
}

fn pinmode_str(expr: &Expr<'_>) -> (r: &'static str)
    ensures
        r@ == pinmode_text(expr.model()),
{
    match expr {
        Expr::LitStr(s, _) => {
            if str_eq(s.as_str(), "OUTPUT") {
                "hal::PinMode::Output"
            } else {
                "hal::PinMode::Input"
            }
        },
        _ => "hal::PinMode::Input",
    }
}

struct Codegen {
    indent: usize,
}

impl Codegen {
    /// The indentation of the current level.
    fn pad(&self) -> (r: String)
        ensures
            r@ == indentation(self.indent as nat),
    {
        let mut p = String::new();
        push_indentation(&mut p, self.indent);
        assert(p@ =~= indentation(self.indent as nat));
        p
    }

    // ── expressions (they leave the level alone) ────────────────────────────

    fn emit_expr(&self, expr: &Expr<'_>) -> (r: String)
        requires
            calls_ok_expr(expr.model()),
        ensures
            r@ == emit_expr(expr.model()),
        decreases expr, 1nat,
    {
        match expr {
            Expr::LitInt(n, _) => {
                let mut s = String::new();
                push_int_decimal(&mut s, *n as i64);
                assert(s@ =~= int_decimal(*n as int));
                s
            },
            Expr::LitFloat(f, _) => {
                let mut s = float_literal_text(f.as_str());
                s.append("_f32");
                s
            },
            Expr::LitStr(t, _) => {
                let mut s = String::new();
                push_char(&mut s, '"');
                s.append(t.as_str());
                push_char(&mut s, '"');
                assert(s@ =~= seq!['"'] + t@ + seq!['"']);
                s
            },
            Expr::LitBool(b, _) => if *b { String::from_str("true") } else { String::from_str("false") },
            Expr::Nil(_) => String::from_str("0"),
            Expr::Var(name, _) => name.clone(),
            Expr::BinOp { op, lhs, rhs, .. } => {
                let mut s = String::from_str("(");
                s.append(self.emit_expr(lhs).as_str());
                s.append(" ");
                s.append(binop_str(*op));
                s.append(" ");
                s.append(self.emit_expr(rhs).as_str());
                s.append(")");
                s
            },
            Expr::UnOp { op, operand, .. } => {
                let mut s = match op {
                    UnOp::Neg => String::from_str("(-"),
                    UnOp::Not => String::from_str("(!"),
                };
                s.append(self.emit_expr(operand).as_str());
                s.append(")");
                s
            },
            Expr::Call { name, args, .. } => {
                assert(exprs_model(args@).len() == args@.len());
                self.emit_call_expr(name.as_str(), args)
            },
        }
    }

    fn emit_call_expr(&self, name: &str, args: &Vec<&Expr<'_>>) -> (r: String)
        requires
            args@.len() >= needed_args(name@),
            calls_ok_args(exprs_model(args@)),
        ensures
            r@ == emit_call(name@, exprs_model(args@)),
        decreases args, 1nat,
    {
        let ghost es = exprs_model(args@);
        proof {
            lemma_needed_args();
            if es.len() > 0 {
                lemma_args_at(es, 0);
            }
            if es.len() > 1 {
                lemma_args_at(es, 1);
            }
        }
        if str_eq(name, "digitalRead") {
            let mut s = String::from_str("hal::digital_read(");
            s.append(self.emit_expr(args[0]).as_str());
            s.append(")");
            s
        } else if str_eq(name, "digitalWrite") {
            let mut s = String::from_str("hal::digital_write(");
            s.append(self.emit_expr(args[0]).as_str());
            s.append(", ");
            s.append(self.emit_expr(args[1]).as_str());
            s.append(")");
            s
        } else if str_eq(name, "analogRead") {
            let mut s = String::from_str("hal::analog_read(");
            s.append(self.emit_expr(args[0]).as_str());
            s.append(")");
            s
        } else if str_eq(name, "analogWrite") {
            let mut s = String::from_str("hal::analog_write(");
            s.append(self.emit_expr(args[0]).as_str());
            s.append(", ");
            s.append(self.emit_expr(args[1]).as_str());
            s.append(" as u8)");
            s
        } else if str_eq(name, "delay") {
            let mut s = String::from_str("hal::delay_ms(");
            s.append(self.emit_expr(args[0]).as_str());
            s.append(" as u32)");
            s
        } else if str_eq(name, "pinMode") {
            let mut s = String::from_str("hal::pin_mode(");
            s.append(self.emit_expr(args[0]).as_str());
            s.append(", ");
            s.append(pinmode_str(args[1]));
            s.append(")");
            s
        } else {
            let mut s = String::from_str(name);
            s.append("(");
            s.append(self.emit_args(args).as_str());
            s.append(")");
            s
        }
    }

    /// The arguments separated by `, `.
    fn emit_args(&self, args: &Vec<&Expr<'_>>) -> (r: String)
        requires
            calls_ok_args(exprs_model(args@)),
        ensures
            r@ == emit_args(exprs_model(args@)),
        decreases args, 0nat,
    {
        let ghost es = exprs_model(args@);
        let mut s = String::new();
        let mut i: usize = 0;
        assert(es.take(0) =~= Seq::<ExprM>::empty());
        while i < args.len()
            invariant
                i <= args@.len(),
                es == exprs_model(args@),
                calls_ok_args(es),
                s@ == emit_args(es.take(i as int)),
            decreases args@.len() - i,
        {
            proof {
                lemma_args_at(es, i as int);
                assert(es.take(i + 1).drop_last() =~= es.take(i as int));
            }
            if i > 0 {
                s.append(", ");
            }
            let a = self.emit_expr(args[i]);
            s.append(a.as_str());
            proof {
                if i == 0 {
                    assert(s@ =~= emit_args(es.take(1)));
                }
            }
            i = i + 1;
        }
        assert(es.take(i as int) =~= es);
        s
    }
}

impl Codegen {
    // ── statements ──────────────────────────────────────────────────────────

    #[verifier::rlimit(40)]
    fn emit_stmt(&mut self, stmt: &Stmt<'_>, out: &mut String)
        requires
            stmt_ok(stmt.model()),
            old(self).indent + stmt_depth(stmt.model()) <= usize::MAX,
        ensures
            final(out)@ == old(out)@ + emit_stmt(old(self).indent as nat, stmt.model()).0,
            final(self).indent == emit_stmt(old(self).indent as nat, stmt.model()).1,
            final(self).indent <= old(self).indent,
            stmt_has_no_function(stmt.model()) ==> final(self).indent == old(self).indent,
        decreases stmt, 2nat,
    {
        let ghost o0 = out@;
        let ghost m = stmt.model();
        let pad = self.pad();
        match stmt {
            Stmt::Local { name, init, .. } => {
                let val = match init {
                    Some(e) => self.emit_expr(e),
                    None => String::from_str("0"),
                };
                out.append(pad.as_str());
                out.append("let mut ");
                out.append(name.as_str());
                out.append(": i32 = ");
                out.append(val.as_str());
                out.append(";\n");
                assert(out@ =~= o0 + emit_stmt(self.indent as nat, m).0);
            },
            Stmt::Assign { name, value, .. } => {
                let val = self.emit_expr(value);
                out.append(pad.as_str());
                out.append(name.as_str());
                out.append(" = ");
                out.append(val.as_str());
                out.append(";\n");
                assert(out@ =~= o0 + emit_stmt(self.indent as nat, m).0);
            },
            Stmt::Call { name, args, .. } => {
                assert(exprs_model(args@).len() == args@.len());
                let call = self.emit_call_expr(name.as_str(), args);
                out.append(pad.as_str());
                out.append(call.as_str());
                out.append(";\n");
                assert(out@ =~= o0 + emit_stmt(self.indent as nat, m).0);
            },
            Stmt::Return { value, .. } => {
                match value {
                    Some(e) => {
                        let val = self.emit_expr(e);
                        out.append(pad.as_str());
                        out.append("return ");
                        out.append(val.as_str());
                        out.append(";\n");
                    },
                    None => {
                        out.append(pad.as_str());
                        out.append("return;\n");
                    },
                }
                assert(out@ =~= o0 + emit_stmt(self.indent as nat, m).0);
            },
            Stmt::While { cond, body, .. } => {
                let ghost i0 = self.indent as nat;
                // `while true` becomes `loop`, which satisfies `-> !` in `main`
                let is_loop = match cond {
                    Expr::LitBool(b, _) => *b,
                    _ => false,
                };
                if is_loop {
                    out.append(pad.as_str());
                    out.append("loop {\n");
                } else {
                    let c = self.emit_expr(cond);
                    out.append(pad.as_str());
                    out.append("while ");
                    out.append(c.as_str());
                    out.append(" {\n");
                }
                self.indent = self.indent + 1;
                self.emit_block(body, out);
                self.indent = self.indent - 1;
                out.append(pad.as_str());
                out.append("}\n");
                assert(out@ =~= o0 + emit_stmt(i0, m).0);
            },
            Stmt::If { .. } => self.emit_if(stmt, out),
            Stmt::NumFor { .. } => self.emit_for(stmt, out),
            Stmt::Function { name, params, body, .. } => {
                // a function defined in a function's body is written out where it stands
                self.emit_function(name, params, body, out);
            },
        }
    }

    #[verifier::rlimit(40)]
    fn emit_if(&mut self, stmt: &Stmt<'_>, out: &mut String)
        requires
            stmt is If,
            stmt_ok(stmt.model()),
            old(self).indent + stmt_depth(stmt.model()) <= usize::MAX,
        ensures
            final(out)@ == old(out)@ + emit_stmt(old(self).indent as nat, stmt.model()).0,
            final(self).indent == emit_stmt(old(self).indent as nat, stmt.model()).1,
            final(self).indent == old(self).indent,
        decreases stmt, 1nat,
    {
        if let Stmt::If { cond, then_body, elseif_clauses, else_body, .. } = stmt {
            let ghost o0 = out@;
            let ghost i0 = self.indent as nat;
            let ghost m = stmt.model();
            let pad = self.pad();
            let c = self.emit_expr(cond);
            out.append(pad.as_str());
            out.append("if ");
            out.append(c.as_str());
            out.append(" {\n");
            let ghost head = pad@ + "if "@ + c@ + " {\n"@;
            assert(out@ =~= o0 + head);
            self.indent = self.indent + 1;
            self.emit_block(then_body, out);
            self.indent = self.indent - 1;
            self.emit_elseif_clauses(&pad, elseif_clauses, out);
            let ghost o3 = out@;
            let ghost mut tail: Seq<char> = Seq::empty();
            match else_body {
                Some(body) => {
                    out.append(pad.as_str());
                    out.append("} else {\n");
                    self.indent = self.indent + 1;
                    self.emit_block(body, out);
                    self.indent = self.indent - 1;
                    proof {
                        tail = pad@ + "} else {\n"@ + emit_block(i0 + 1, stmts_model(body@)).0;
                        assert(out@ =~= o3 + tail);
                    }
                },
                None => {
                    assert(out@ =~= o3 + tail);
                },
            }
            out.append(pad.as_str());
            out.append("}\n");
            proof {
                let t = emit_block(i0 + 1, stmts_model(then_body@)).0;
                let e = emit_elseifs(pad@, i0, elseifs_model(elseif_clauses@)).0;
                assert(out@ =~= o0 + (head + t + e + tail + pad@ + "}\n"@));
                lemma_emit_if_text(i0, m);
            }
        }
    }

    #[verifier::rlimit(40)]
    fn emit_for(&mut self, stmt: &Stmt<'_>, out: &mut String)
        requires
            stmt is NumFor,
            stmt_ok(stmt.model()),
            old(self).indent + stmt_depth(stmt.model()) <= usize::MAX,
        ensures
            final(out)@ == old(out)@ + emit_stmt(old(self).indent as nat, stmt.model()).0,
            final(self).indent == emit_stmt(old(self).indent as nat, stmt.model()).1,
            final(self).indent == old(self).indent,
        decreases stmt, 1nat,
    {
        if let Stmt::NumFor { var, start, limit, step, body, .. } = stmt {
            if step.is_some() {
                self.emit_stepped_for(stmt, out);
                return;
            }
            let ghost o0 = out@;
            let ghost i0 = self.indent as nat;
            let ghost m = stmt.model();
            let pad = self.pad();
            let s = self.emit_expr(start);
            let l = self.emit_expr(limit);
            out.append(pad.as_str());
            out.append("for ");
            out.append(var.as_str());
            out.append(" in ");
            out.append(s.as_str());
            out.append("..=");
            out.append(l.as_str());
            out.append(" {\n");
            let ghost head = pad@ + "for "@ + var@ + " in "@ + s@ + "..="@ + l@ + " {\n"@;
            assert(out@ =~= o0 + head);
            self.indent = self.indent + 1;
            self.emit_block(body, out);
            self.indent = self.indent - 1;
            out.append(pad.as_str());
            out.append("}\n");
            proof {
                let b = emit_block(i0 + 1, stmts_model(body@)).0;
                assert(out@ =~= o0 + (head + b + pad@ + "}\n"@));
                lemma_emit_for_text(i0, m);
            }
        }
    }

    /// A `for` with a step: a `while` with the increment written out after the body.
    fn emit_stepped_for(&mut self, stmt: &Stmt<'_>, out: &mut String)
        requires
            stmt matches Stmt::NumFor { step: Some(_), .. },
            stmt_ok(stmt.model()),
            old(self).indent + stmt_depth(stmt.model()) <= usize::MAX,
        ensures
            final(out)@ == old(out)@ + emit_stmt(old(self).indent as nat, stmt.model()).0,
            final(self).indent == emit_stmt(old(self).indent as nat, stmt.model()).1,
            final(self).indent == old(self).indent,
        decreases stmt, 0nat,
    {
        if let Stmt::NumFor { var, start, limit, step: Some(step_expr), body, .. } = stmt {
            let ghost i0 = self.indent as nat;
            let ghost m = stmt.model();
            let pad = self.pad();
            let s = self.emit_expr(start);
            let l = self.emit_expr(limit);
            let st = self.emit_expr(step_expr);
            let mut inner_pad = String::new();
            push_indentation(&mut inner_pad, self.indent + 1);
            let mut body_pad = String::new();
            push_indentation(&mut body_pad, self.indent + 2);
            let mut b = String::new();
            self.indent = self.indent + 2;
            self.emit_block(body, &mut b);
            self.indent = self.indent - 2;
            let text = stepped_for_text(
                pad.as_str(),
                inner_pad.as_str(),
                body_pad.as_str(),
                var.as_str(),
                s.as_str(),
                l.as_str(),
                st.as_str(),
                b.as_str(),
            );
            out.append(text.as_str());
            proof {
                assert(inner_pad@ =~= indentation(i0 + 1));
                assert(body_pad@ =~= indentation(i0 + 2));
                assert(b@ =~= emit_block(i0 + 2, stmts_model(body@)).0);
                lemma_emit_stepped_for_text(i0, m);
            }
        }
    }

    fn emit_block(&mut self, stmts: &Vec<&Stmt<'_>>, out: &mut String)
        requires
            block_ok(stmts_model(stmts@)),
            old(self).indent + block_depth(stmts_model(stmts@)) <= usize::MAX,
        ensures
            final(out)@ == old(out)@ + emit_block(old(self).indent as nat, stmts_model(stmts@)).0,
            final(self).indent == emit_block(old(self).indent as nat, stmts_model(stmts@)).1,
            final(self).indent <= old(self).indent,
            block_has_no_function(stmts_model(stmts@)) ==> final(self).indent == old(self).indent,
        decreases stmts, 0nat,
    {
        let ghost b = stmts_model(stmts@);
        let ghost o0 = out@;
        let ghost i0 = self.indent as nat;
        let mut i: usize = 0;
        assert(b.take(0) =~= Seq::<StmtM>::empty());
        while i < stmts.len()
            invariant
                i <= stmts@.len(),
                b == stmts_model(stmts@),
                block_ok(b),
                i0 + block_depth(b) <= usize::MAX,
                out@ == o0 + emit_block(i0, b.take(i as int)).0,
                self.indent == emit_block(i0, b.take(i as int)).1,
                self.indent <= i0,
                block_has_no_function(b) ==> self.indent == i0,
            decreases stmts@.len() - i,
        {
            proof {
                lemma_block_at(b, i as int);
                assert(b.take(i + 1).drop_last() =~= b.take(i as int));
            }
            self.emit_stmt(stmts[i], out);
            i = i + 1;
            assert(out@ =~= o0 + emit_block(i0, b.take(i as int)).0);
        }
        assert(b.take(i as int) =~= b);
    }

    fn emit_elseif_clauses(&mut self, pad: &String, clauses: &Vec<ElseIf<'_>>, out: &mut String)
        requires
            elseifs_ok(elseifs_model(clauses@)),
            old(self).indent + 1 + elseifs_depth(elseifs_model(clauses@)) <= usize::MAX,
        ensures
            final(out)@ == old(out)@ + emit_elseifs(pad@, old(self).indent as nat, elseifs_model(clauses@)).0,
            final(self).indent == emit_elseifs(pad@, old(self).indent as nat, elseifs_model(clauses@)).1,
            final(self).indent == old(self).indent,
        decreases clauses, 0nat,
    {
        let ghost cs = elseifs_model(clauses@);
        let ghost o0 = out@;
        let ghost i0 = self.indent as nat;
        let mut i: usize = 0;
        assert(cs.take(0) =~= Seq::<ElseIfM>::empty());
        while i < clauses.len()
            invariant
                i <= clauses@.len(),
                cs == elseifs_model(clauses@),
                elseifs_ok(cs),
                i0 + 1 + elseifs_depth(cs) <= usize::MAX,
                out@ == o0 + emit_elseifs(pad@, i0, cs.take(i as int)).0,
                self.indent == emit_elseifs(pad@, i0, cs.take(i as int)).1,
                self.indent == i0,
            decreases clauses@.len() - i,
        {
            proof {
                lemma_elseifs_at(cs, i as int);
                assert(cs.take(i + 1).drop_last() =~= cs.take(i as int));
            }
            let clause = &clauses[i];
            let c = self.emit_expr(clause.cond);
            out.append(pad.as_str());
            out.append("} else if ");
            out.append(c.as_str());
            out.append(" {\n");
            self.indent = self.indent + 1;
            self.emit_block(&clause.body, out);
            self.indent = self.indent - 1;
            i = i + 1;
            assert(out@ =~= o0 + emit_elseifs(pad@, i0, cs.take(i as int)).0);
        }
        assert(cs.take(i as int) =~= cs);
    }

    fn emit_function(&mut self, name: &String, params: &Vec<String>, body: &Vec<&Stmt<'_>>, out: &mut String)
        requires
            block_ok(stmts_model(body@)),
            1 + block_depth(stmts_model(body@)) <= usize::MAX,
        ensures
            final(out)@ == old(out)@ + emit_function(name@, names_model(params@), stmts_model(body@)),
            final(self).indent == 0,
        decreases body, 1nat,
    {
        let ghost o0 = out@;
        let ghost ps = names_model(params@);
        out.append("fn ");
        out.append(name.as_str());
        out.append("(");
        let ghost o1 = out@;
        let mut i: usize = 0;
        assert(ps.take(0) =~= Seq::<Seq<char>>::empty());
        while i < params.len()
            invariant
                i <= params@.len(),
                ps == names_model(params@),
                out@ == o1 + params_text(ps.take(i as int)),
            decreases params@.len() - i,
        {
            proof {
                assert(ps.take(i + 1).drop_last() =~= ps.take(i as int));
            }
            if i > 0 {
                out.append(", ");
            }
            out.append(params[i].as_str());
            out.append(": i32");
            i = i + 1;
            assert(out@ =~= o1 + params_text(ps.take(i as int)));
        }
        assert(ps.take(i as int) =~= ps);
        out.append(") -> i32 {\n");
        self.indent = 1;
        self.emit_block(body, out);
        self.indent = 0;
        out.append("}\n");
        assert(out@ =~= o0 + emit_function(name@, ps, stmts_model(body@)));
    }
}

// ── what the generator can handle, checked ────────────────────────────────

/// `Some(depth)` when the generator handles the construct and its depth fits a `usize`.
pub open spec fn support(ok: bool, depth: nat) -> Option<usize> {
    if ok && depth <= usize::MAX { Some(depth as usize) } else { None }
}

fn needed_arg_count(name: &str) -> (r: usize)
    ensures
        r == needed_args(name@),
{
    proof {
        lemma_needed_args();
    }
    if str_eq(name, "digitalRead") || str_eq(name, "analogRead") || str_eq(name, "delay") {
        1
    } else if str_eq(name, "digitalWrite") || str_eq(name, "analogWrite") || str_eq(name, "pinMode") {
        2
    } else {
        0
    }
}

fn expr_calls_ok(e: &Expr<'_>) -> (r: bool)
    ensures
        r == calls_ok_expr(e.model()),
    decreases e, 1nat,
{
    match e {
        Expr::BinOp { lhs, rhs, .. } => expr_calls_ok(lhs) && expr_calls_ok(rhs),
        Expr::UnOp { operand, .. } => expr_calls_ok(operand),
        Expr::Call { name, args, .. } => {
            assert(exprs_model(args@).len() == args@.len());
            args.len() >= needed_arg_count(name.as_str()) && args_calls_ok(args)
        },
        _ => true,
    }
}

fn opt_calls_ok(e: Option<&Expr<'_>>) -> (r: bool)
    ensures
        r == calls_ok_opt(match e { Some(x) => Some(x.model()), None => None }),
    decreases e, 2nat,
{
    match e {
        Some(x) => expr_calls_ok(x),
        None => true,
    }
}

fn args_calls_ok(args: &Vec<&Expr<'_>>) -> (r: bool)
    ensures
        r == calls_ok_args(exprs_model(args@)),
    decreases args, 0nat,
{
    let ghost es = exprs_model(args@);
    let mut i: usize = 0;
    assert(es.take(0) =~= Seq::<ExprM>::empty());
    while i < args.len()
        invariant
            i <= args@.len(),
            es == exprs_model(args@),
            calls_ok_args(es.take(i as int)),
        decreases args@.len() - i,
    {
        proof {
            assert(es.take(i + 1).drop_last() =~= es.take(i as int));
        }
        if !expr_calls_ok(args[i]) {
            proof {
                if calls_ok_args(es) {
                    lemma_args_at(es, i as int);
                }
            }
            return false;
        }
        i = i + 1;
    }
    assert(es.take(i as int) =~= es);
    true
}

fn stmt_free(stmt: &Stmt<'_>) -> (r: bool)
    ensures
        r == stmt_has_no_function(stmt.model()),
    decreases stmt, 1nat,
{
    match stmt {
        Stmt::While { body, .. } => block_free(body),
        Stmt::If { then_body, elseif_clauses, else_body, .. } => {
            block_free(then_body) && elseifs_free(elseif_clauses) && match else_body {
                Some(b) => block_free(b),
                None => true,
            }
        },
        Stmt::NumFor { body, .. } => block_free(body),
        Stmt::Function { .. } => false,
        _ => true,
    }
}

fn block_free(stmts: &Vec<&Stmt<'_>>) -> (r: bool)
    ensures
        r == block_has_no_function(stmts_model(stmts@)),
    decreases stmts, 0nat,
{
    let ghost b = stmts_model(stmts@);
    let mut i: usize = 0;
    assert(b.take(0) =~= Seq::<StmtM>::empty());
    while i < stmts.len()
        invariant
            i <= stmts@.len(),
            b == stmts_model(stmts@),
            block_has_no_function(b.take(i as int)),
        decreases stmts@.len() - i,
    {
        proof {
            assert(b.take(i + 1).drop_last() =~= b.take(i as int));
        }
        if !stmt_free(stmts[i]) {
            proof {
                lemma_block_at(b, i as int);
            }
            return false;
        }
        i = i + 1;
    }
    assert(b.take(i as int) =~= b);
    true
}

fn elseifs_free(clauses: &Vec<ElseIf<'_>>) -> (r: bool)
    ensures
        r == elseifs_have_no_function(elseifs_model(clauses@)),
    decreases clauses, 0nat,
{
    let ghost cs = elseifs_model(clauses@);
    let mut i: usize = 0;
    assert(cs.take(0) =~= Seq::<ElseIfM>::empty());
    while i < clauses.len()
        invariant
            i <= clauses@.len(),
            cs == elseifs_model(clauses@),
            elseifs_have_no_function(cs.take(i as int)),
        decreases clauses@.len() - i,
    {
        proof {
            assert(cs.take(i + 1).drop_last() =~= cs.take(i as int));
        }
        if !block_free(&clauses[i].body) {
            proof {
                lemma_elseifs_at(cs, i as int);
            }
            return false;
        }
        i = i + 1;
    }
    assert(cs.take(i as int) =~= cs);
    true
}

fn block_support(stmts: &Vec<&Stmt<'_>>) -> (r: Option<usize>)
    ensures
        r == support(block_ok(stmts_model(stmts@)), block_depth(stmts_model(stmts@))),
    decreases stmts, 0nat,
{
    let ghost b = stmts_model(stmts@);
    let mut depth: usize = 0;
    let mut i: usize = 0;
    assert(b.take(0) =~= Seq::<StmtM>::empty());
    while i < stmts.len()
        invariant
            i <= stmts@.len(),
            b == stmts_model(stmts@),
            block_ok(b.take(i as int)),
            depth == block_depth(b.take(i as int)),
        decreases stmts@.len() - i,
    {
        proof {
            assert(b.take(i + 1).drop_last() =~= b.take(i as int));
            lemma_block_at(b, i as int);
        }
        match stmt_support(stmts[i]) {
            Some(d) => {
                if d > depth {
                    depth = d;
                }
            },
            None => return None,
        }
        i = i + 1;
    }
    assert(b.take(i as int) =~= b);
    Some(depth)
}

fn elseifs_support(clauses: &Vec<ElseIf<'_>>) -> (r: Option<usize>)
    ensures
        r == support(elseifs_ok(elseifs_model(clauses@)), elseifs_depth(elseifs_model(clauses@))),
    decreases clauses, 0nat,
{
    let ghost cs = elseifs_model(clauses@);
    let mut depth: usize = 0;
    let mut i: usize = 0;
    assert(cs.take(0) =~= Seq::<ElseIfM>::empty());
    while i < clauses.len()
        invariant
            i <= clauses@.len(),
            cs == elseifs_model(clauses@),
            elseifs_ok(cs.take(i as int)),
            depth == elseifs_depth(cs.take(i as int)),
        decreases clauses@.len() - i,
    {
        proof {
            assert(cs.take(i + 1).drop_last() =~= cs.take(i as int));
            lemma_elseifs_at(cs, i as int);
        }
        let clause = &clauses[i];
        if !expr_calls_ok(clause.cond) || !block_free(&clause.body) {
            return None;
        }
        match block_support(&clause.body) {
            Some(d) => {
                if d > depth {
                    depth = d;
                }
            },
            None => return None,
        }
        i = i + 1;
    }
    assert(cs.take(i as int) =~= cs);
    Some(depth)
}

/// The depth of a nested block one level in, when the generator handles the block and
/// defines no function.
fn inner_support(stmts: &Vec<&Stmt<'_>>, extra: usize) -> (r: Option<usize>)
    requires
        extra <= 2,
    ensures
        r == support(
            block_ok(stmts_model(stmts@)) && block_has_no_function(stmts_model(stmts@)),
            block_depth(stmts_model(stmts@)) + extra as nat,
        ),
    decreases stmts, 1nat,
{
    if !block_free(stmts) {
        return None;
    }
    match block_support(stmts) {
        Some(d) => d.checked_add(extra),
        None => None,
    }
}

fn stmt_support(stmt: &Stmt<'_>) -> (r: Option<usize>)
    ensures
        r == support(stmt_ok(stmt.model()), stmt_depth(stmt.model())),
    decreases stmt, 2nat,
{
    match stmt {
        Stmt::Local { init, .. } => if opt_calls_ok(*init) { Some(0) } else { None },
        Stmt::Assign { value, .. } => if expr_calls_ok(value) { Some(0) } else { None },
        Stmt::Call { name, args, .. } => {
            assert(exprs_model(args@).len() == args@.len());
            if args.len() >= needed_arg_count(name.as_str()) && args_calls_ok(args) { Some(0) } else { None }
        },
        Stmt::Return { value, .. } => if opt_calls_ok(*value) { Some(0) } else { None },
        Stmt::While { cond, body, .. } => {
            if !expr_calls_ok(cond) {
                return None;
            }
            inner_support(body, 1)
        },
        Stmt::If { cond, then_body, elseif_clauses, else_body, .. } => {
            if !expr_calls_ok(cond) {
                return None;
            }
            let t = match inner_support(then_body, 1) {
                Some(t) => t,
                None => return None,
            };
            let e = match elseifs_support(elseif_clauses) {
                Some(e) => e,
                None => return None,
            };
            let el = match else_body {
                Some(b) => match inner_support(b, 1) {
                    Some(x) => x,
                    None => return None,
                },
                None => 1,
            };
            // `t` and `el` already count the level the `if` opens
            if e == usize::MAX {
                return None;
            }
            let e1 = e + 1;
            let m = if t >= e1 && t >= el { t } else if e1 >= el { e1 } else { el };
            Some(m)
        },
        Stmt::NumFor { start, limit, step, body, .. } => {
            if !expr_calls_ok(start) || !expr_calls_ok(limit) || !opt_calls_ok(*step) {
                return None;
            }
            inner_support(body, 2)
        },
        Stmt::Function { body, .. } => match block_support(body) {
            Some(d) => d.checked_add(1),
            None => None,
        },
    }
}

/// Whether `generate` handles the program: every intrinsic call has the
/// arguments its generated call reads, no function is defined inside a `while`, `if` or
/// `for`, and the nesting depth fits a `usize`.
pub fn can_generate(block: &[&Stmt<'_>]) -> (r: bool)
    ensures
        r == (block_ok(stmts_model(block@)) && block_depth(stmts_model(block@)) < usize::MAX),
{
    let mut stmts: Vec<&Stmt<'_>> = Vec::new();
    let mut i: usize = 0;
    while i < block.len()
        invariant
            i <= block@.len(),
            stmts@ == block@.take(i as int),
        decreases block@.len() - i,
    {
        stmts.push(block[i]);
        i = i + 1;
        assert(stmts@ =~= block@.take(i as int));
    }
    assert(stmts@ =~= block@);
    match block_support(&stmts) {
        Some(d) => d < usize::MAX,
        None => false,
    }
}

/// The text of a `for` with a step, from the texts of its parts.
fn stepped_for_text(pad: &str, inner_pad: &str, body_pad: &str, var: &str, start: &str, limit: &str, step: &str, body: &str) -> (r: String)
    ensures
        r@ == pad@ + "{\n"@ + inner_pad@ + "let mut "@ + var@ + ": i32 = "@ + start@ + ";\n"@ + inner_pad@ + "while "@
            + var@ + " <= "@ + limit@ + " {\n"@ + body@ + body_pad@ + var@ + " += "@ + step@ + ";\n"@ + inner_pad@
            + "}\n"@ + pad@ + "}\n"@,
{
    let mut out = String::from_str(pad);
    out.append("{\n");
    out.append(inner_pad);
    out.append("let mut ");
    out.append(var);
    out.append(": i32 = ");
    out.append(start);
    out.append(";\n");
    out.append(inner_pad);
    out.append("while ");
    out.append(var);
    out.append(" <= ");
    out.append(limit);
    out.append(" {\n");
    out.append(body);
    out.append(body_pad);
    out.append(var);
    out.append(" += ");
    out.append(step);
    out.append(";\n");
    out.append(inner_pad);
    out.append("}\n");
    out.append(pad);
    out.append("}\n");
    out
}

/// The Rust source of a `no_std` firmware for a checked program: the HAL
/// import and panic handler, the program's functions, then `main` with the other
/// top-level statements. The analysis result and the target do not change the text.
pub fn generate(block: &[&Stmt<'_>], _sema: &SemaOutput, _config: &CodegenConfig) -> (r: String)
    requires
        block_ok(stmts_model(block@)),
        block_depth(stmts_model(block@)) < usize::MAX,
    ensures
        r@ == generate_spec(stmts_model(block@)),
{
    let ghost b = stmts_model(block@);
    let mut gen = Codegen { indent: 0 };
    let mut fns_buf = String::new();
    let mut main_buf = String::new();
    let mut i: usize = 0;
    assert(b.take(0) =~= Seq::<StmtM>::empty());
    while i < block.len()
        invariant
            i <= block@.len(),
            b == stmts_model(block@),
            block_ok(b),
            block_depth(b) < usize::MAX,
            fns_buf@ == top_functions_text(b.take(i as int)),
            main_buf@ == main_body_text(b.take(i as int)),
        decreases block@.len() - i,
    {
        proof {
            lemma_block_at(b, i as int);
            assert(b.take(i + 1).drop_last() =~= b.take(i as int));
        }
        let stmt = block[i];
        match stmt {
            Stmt::Function { name, params, body, .. } => {
                gen.indent = 0;
                gen.emit_function(name, params, body, &mut fns_buf);
                fns_buf.append("\n");
            },
            _ => {
                gen.indent = 1;
                gen.emit_stmt(stmt, &mut main_buf);
            },
        }
        assert(b.take(i + 1).last() == stmt.model());
        i = i + 1;
        assert(fns_buf@ =~= top_functions_text(b.take(i as int)));
        assert(main_buf@ =~= main_body_text(b.take(i as int)));
    }
    assert(b.take(i as int) =~= b);
    let mut out = String::new();
    out.append("#![no_std]\n");
    out.append("#![no_main]\n");
    out.append("use tinylua_hal as hal;\n");
    out.append("\n");
    out.append("#[panic_handler]\n");
    out.append("fn panic(_: &core::panic::PanicInfo) -> ! { loop {} }\n");
    out.append("\n");
    assert(out@ =~= file_header());
    out.append(fns_buf.as_str());
    out.append("#[no_mangle]\n");
    out.append("pub extern \"C\" fn main() -> ! {\n");
    out.append(main_buf.as_str());
    out.append("}\n");
    assert(out@ =~= generate_spec(b));
    out
}

} // verus!
