//! What holds of the semantic analysis across programs and targets.
use vstd::prelude::*;
use crate::ast::{Span, ExprM, ElseIfM, StmtM, expr_span};
use crate::sema::{
    Target, TinyType, SemaState, float_message, undeclared_message, uninitialised_message,
    recursion_message, arity_message, argument_message, add_error, with_frames,
    check_recursion, check_call_args, check_arg_types, check_expr, check_args, check_stmt,
    check_scoped_block, check_elseifs, check_block, analyse_spec, scope_define, scope_assign, scope_lookup,
    define_all, expr_count, args_count, opt_count, stmt_count, elseifs_count, block_count,
};

verus! {

broadcast use Seq::lemma_filter_push;

/// An error is the floating-point error of its own position.
pub open spec fn is_float_error(e: (Seq<char>, Span)) -> bool {
    e.0 == float_message(e.1)
}

/// The errors that are not floating-point errors.
pub open spec fn non_float() -> spec_fn((Seq<char>, Span)) -> bool {
    |e: (Seq<char>, Span)| !is_float_error(e)
}

/// The state of an AVR analysis and of an ESP32 analysis of the same program agree:
/// same scope, types, numbering and function, and the ESP32 errors are the AVR ones
/// without the floating-point errors.
pub open spec fn related(avr: SemaState, esp: SemaState) -> bool {
    &&& avr.frames == esp.frames
    &&& avr.types == esp.types
    &&& avr.next_id == esp.next_id
    &&& avr.current_fn == esp.current_fn
    &&& esp.errors == avr.errors.filter(non_float())
}

// ── messages ────────────────────────────────────────────────────────────────

/// Every message but the floating-point one starts with another letter.
proof fn lemma_float_message_start(span: Span)
    ensures
        float_message(span).len() > 0,
        float_message(span)[0] == 'p',
{
    reveal_strlit("ponto flutuante não é suportado no target AVR (");
}

proof fn lemma_other_messages_not_float(name: Seq<char>, expected: nat, got: nat, index: nat, te: TinyType, tg: TinyType, span: Span)
    ensures
        !is_float_error((undeclared_message(name), span)),
        !is_float_error((uninitialised_message(name), span)),
        !is_float_error((recursion_message(name), span)),
        !is_float_error((arity_message(name, expected, got), span)),
        !is_float_error((argument_message(index, name, te, tg), span)),
{
    lemma_float_message_start(span);
    reveal_strlit("variável '");
    reveal_strlit("recursão não é suportada na PoC (função '");
    reveal_strlit("'");
    reveal_strlit("argumento ");
    assert(undeclared_message(name)[0] == 'v');
    assert(uninitialised_message(name)[0] == 'v');
    assert(recursion_message(name)[0] == 'r');
    assert(arity_message(name, expected, got)[0] == '\'');
    assert(argument_message(index, name, te, tg)[0] == 'a');
}

/// The same error added on both sides keeps the analyses related, when it is not a
/// floating-point error.
proof fn lemma_add_error_related(sa: SemaState, se: SemaState, m: Seq<char>, span: Span)
    requires
        related(sa, se),
        !is_float_error((m, span)),
    ensures
        related(add_error(sa, m, span), add_error(se, m, span)),
{
    assert(sa.errors.push((m, span)).filter(non_float()) == sa.errors.filter(non_float()).push((m, span)));
}

// ── the two targets ─────────────────────────────────────────────────────────

proof fn lemma_arg_types_related(
    sa: SemaState,
    se: SemaState,
    name: Seq<char>,
    expected: Seq<TinyType>,
    got: Seq<TinyType>,
    args: Seq<ExprM>,
    n: int,
)
    requires
        related(sa, se),
    ensures
        related(check_arg_types(sa, name, expected, got, args, n), check_arg_types(se, name, expected, got, args, n)),
    decreases n,
{
    if n > 0 {
        lemma_arg_types_related(sa, se, name, expected, got, args, n - 1);
        let i = n - 1;
        if expected[i] != got[i] {
            lemma_other_messages_not_float(name, 0, 0, (i + 1) as nat, expected[i], got[i], expr_span(args[i]));
            lemma_add_error_related(
                check_arg_types(sa, name, expected, got, args, n - 1),
                check_arg_types(se, name, expected, got, args, n - 1),
                argument_message((i + 1) as nat, name, expected[i], got[i]),
                expr_span(args[i]),
            );
        }
    }
}

proof fn lemma_call_args_related(
    sa: SemaState,
    se: SemaState,
    name: Seq<char>,
    expected: Seq<TinyType>,
    got: Seq<TinyType>,
    args: Seq<ExprM>,
    span: Span,
)
    requires
        related(sa, se),
    ensures
        related(check_call_args(sa, name, expected, got, args, span), check_call_args(se, name, expected, got, args, span)),
{
    if got.len() != expected.len() {
        lemma_other_messages_not_float(name, expected.len(), got.len(), 0, TinyType::Int, TinyType::Int, span);
        lemma_add_error_related(sa, se, arity_message(name, expected.len(), got.len()), span);
    } else {
        lemma_arg_types_related(sa, se, name, expected, got, args, expected.len() as int);
    }
}

proof fn lemma_recursion_related(sa: SemaState, se: SemaState, name: Seq<char>, span: Span)
    requires
        related(sa, se),
    ensures
        related(check_recursion(sa, name, span), check_recursion(se, name, span)),
{
    if sa.current_fn == Some(name) {
        lemma_other_messages_not_float(name, 0, 0, 0, TinyType::Int, TinyType::Int, span);
        lemma_add_error_related(sa, se, recursion_message(name), span);
    }
}

proof fn lemma_expr_related(sa: SemaState, se: SemaState, e: ExprM)
    requires
        related(sa, se),
    ensures
        related(check_expr(Target::Avr, sa, e).0, check_expr(Target::Esp32, se, e).0),
        check_expr(Target::Avr, sa, e).1 == check_expr(Target::Esp32, se, e).1,
    decreases e,
{
    match e {
        ExprM::LitFloat(_, span) => {
            lemma_float_message_start(span);
            assert(sa.errors.push((float_message(span), span)).filter(non_float()) == sa.errors.filter(non_float()));
        },
        ExprM::Var(name, span) => {
            lemma_other_messages_not_float(name, 0, 0, 0, TinyType::Int, TinyType::Int, span);
            lemma_add_error_related(sa, se, undeclared_message(name), span);
            lemma_add_error_related(sa, se, uninitialised_message(name), span);
        },
        ExprM::BinOp { lhs, rhs, .. } => {
            lemma_expr_related(sa, se, *lhs);
            lemma_expr_related(check_expr(Target::Avr, sa, *lhs).0, check_expr(Target::Esp32, se, *lhs).0, *rhs);
        },
        ExprM::UnOp { operand, .. } => {
            lemma_expr_related(sa, se, *operand);
        },
        ExprM::Call { name, args, span } => {
            lemma_recursion_related(sa, se, name, span);
            let a0 = check_recursion(sa, name, span);
            let e0 = check_recursion(se, name, span);
            lemma_args_related(a0, e0, args);
            let (a1, ta) = check_args(Target::Avr, a0, args);
            let (e1, te) = check_args(Target::Esp32, e0, args);
            match crate::sema::intrinsic_sig_spec(name) {
                Some((params, _)) => lemma_call_args_related(a1, e1, name, params, ta, args, span),
                None => {},
            }
        },
        _ => {},
    }
}

proof fn lemma_args_related(sa: SemaState, se: SemaState, args: Seq<ExprM>)
    requires
        related(sa, se),
    ensures
        related(check_args(Target::Avr, sa, args).0, check_args(Target::Esp32, se, args).0),
        check_args(Target::Avr, sa, args).1 == check_args(Target::Esp32, se, args).1,
    decreases args,
{
    if args.len() > 0 {
        lemma_args_related(sa, se, args.drop_last());
        lemma_expr_related(
            check_args(Target::Avr, sa, args.drop_last()).0,
            check_args(Target::Esp32, se, args.drop_last()).0,
            args.last(),
        );
    }
}

#[verifier::rlimit(40)]
proof fn lemma_stmt_related(sa: SemaState, se: SemaState, s: StmtM)
    requires
        related(sa, se),
    ensures
        related(check_stmt(Target::Avr, sa, s), check_stmt(Target::Esp32, se, s)),
    decreases s,
{
    match s {
        StmtM::Local { init, .. } => {
            match init {
                Some(e) => lemma_expr_related(sa, se, e),
                None => {},
            }
        },
        StmtM::Assign { name, value, span } => {
            lemma_expr_related(sa, se, value);
            let a1 = check_expr(Target::Avr, sa, value).0;
            let e1 = check_expr(Target::Esp32, se, value).0;
            lemma_other_messages_not_float(name, 0, 0, 0, TinyType::Int, TinyType::Int, span);
            lemma_add_error_related(a1, e1, undeclared_message(name), span);
        },
        StmtM::Call { name, args, span } => {
            lemma_recursion_related(sa, se, name, span);
            let a0 = check_recursion(sa, name, span);
            let e0 = check_recursion(se, name, span);
            lemma_args_related(a0, e0, args);
            let (a1, ta) = check_args(Target::Avr, a0, args);
            let (e1, te) = check_args(Target::Esp32, e0, args);
            match crate::sema::intrinsic_sig_spec(name) {
                Some((params, _)) => lemma_call_args_related(a1, e1, name, params, ta, args, span),
                None => {},
            }
        },
        StmtM::While { cond, body, .. } => {
            lemma_expr_related(sa, se, cond);
            lemma_scoped_related(check_expr(Target::Avr, sa, cond).0, check_expr(Target::Esp32, se, cond).0, body);
        },
        StmtM::If { cond, then_body, elseif_clauses, else_body, .. } => {
            lemma_expr_related(sa, se, cond);
            let a1 = check_expr(Target::Avr, sa, cond).0;
            let e1 = check_expr(Target::Esp32, se, cond).0;
            lemma_scoped_related(a1, e1, then_body);
            let a2 = check_scoped_block(Target::Avr, a1, then_body);
            let e2 = check_scoped_block(Target::Esp32, e1, then_body);
            lemma_elseifs_related(a2, e2, elseif_clauses);
            let a3 = check_elseifs(Target::Avr, a2, elseif_clauses);
            let e3 = check_elseifs(Target::Esp32, e2, elseif_clauses);
            match else_body {
                Some(b) => lemma_scoped_related(a3, e3, b),
                None => {},
            }
        },
        StmtM::NumFor { var, start, limit, step, body, .. } => {
            lemma_expr_related(sa, se, start);
            let a1 = check_expr(Target::Avr, sa, start).0;
            let e1 = check_expr(Target::Esp32, se, start).0;
            lemma_expr_related(a1, e1, limit);
            let a2 = check_expr(Target::Avr, a1, limit).0;
            let e2 = check_expr(Target::Esp32, e1, limit).0;
            let a3 = match step {
                Some(x) => check_expr(Target::Avr, a2, x).0,
                None => a2,
            };
            let e3 = match step {
                Some(x) => check_expr(Target::Esp32, e2, x).0,
                None => e2,
            };
            match step {
                Some(x) => lemma_expr_related(a2, e2, x),
                None => {},
            }
            let a4 = with_frames(a3, scope_define(a3.frames.push(Map::empty()), var, TinyType::Int));
            let e4 = with_frames(e3, scope_define(e3.frames.push(Map::empty()), var, TinyType::Int));
            lemma_block_related(a4, e4, body);
        },
        StmtM::Function { name, params, body, .. } => {
            let a1 = with_frames(sa, scope_define(sa.frames, name, TinyType::Int));
            let e1 = with_frames(se, scope_define(se.frames, name, TinyType::Int));
            let a2 = SemaState { current_fn: Some(name), ..a1 };
            let e2 = SemaState { current_fn: Some(name), ..e1 };
            let a3 = with_frames(a2, define_all(a2.frames.push(Map::empty()), params, TinyType::Int));
            let e3 = with_frames(e2, define_all(e2.frames.push(Map::empty()), params, TinyType::Int));
            lemma_block_related(a3, e3, body);
        },
        StmtM::Return { value, .. } => {
            match value {
                Some(e) => lemma_expr_related(sa, se, e),
                None => {},
            }
        },
    }
}

proof fn lemma_scoped_related(sa: SemaState, se: SemaState, body: Seq<StmtM>)
    requires
        related(sa, se),
    ensures
        related(check_scoped_block(Target::Avr, sa, body), check_scoped_block(Target::Esp32, se, body)),
    decreases body, 1nat,
{
    lemma_block_related(
        with_frames(sa, sa.frames.push(Map::empty())),
        with_frames(se, se.frames.push(Map::empty())),
        body,
    );
}

proof fn lemma_elseifs_related(sa: SemaState, se: SemaState, cs: Seq<ElseIfM>)
    requires
        related(sa, se),
    ensures
        related(check_elseifs(Target::Avr, sa, cs), check_elseifs(Target::Esp32, se, cs)),
    decreases cs,
{
    if cs.len() > 0 {
        lemma_elseifs_related(sa, se, cs.drop_last());
        let a1 = check_elseifs(Target::Avr, sa, cs.drop_last());
        let e1 = check_elseifs(Target::Esp32, se, cs.drop_last());
        lemma_expr_related(a1, e1, cs.last().cond);
        lemma_scoped_related(
            check_expr(Target::Avr, a1, cs.last().cond).0,
            check_expr(Target::Esp32, e1, cs.last().cond).0,
            cs.last().body,
        );
    }
}

proof fn lemma_block_related(sa: SemaState, se: SemaState, b: Seq<StmtM>)
    requires
        related(sa, se),
    ensures
        related(check_block(Target::Avr, sa, b), check_block(Target::Esp32, se, b)),
    decreases b, 0nat,
{
    if b.len() > 0 {
        lemma_block_related(sa, se, b.drop_last());
        lemma_stmt_related(check_block(Target::Avr, sa, b.drop_last()), check_block(Target::Esp32, se, b.drop_last()), b.last());
    }
}

/// The target changes nothing but the floating-point errors: for AVR and for ESP32
/// the analysis gives every expression node the same type, and the ESP32 errors are
/// the AVR errors, in the same order, without the floating-point ones.
pub proof fn law_target_only_adds_float_errors(b: Seq<StmtM>)
    ensures
        analyse_spec(Target::Esp32, b).types == analyse_spec(Target::Avr, b).types,
        analyse_spec(Target::Esp32, b).errors == analyse_spec(Target::Avr, b).errors.filter(non_float()),
{
    let init = crate::sema::initial_state();
    assert(init.errors.filter(non_float()) =~= init.errors) by {
        reveal(Seq::filter);
    }
    lemma_block_related(init, init, b);
}

/// ESP32 accepts floating point: no error of an ESP32 analysis is a floating-point
/// error.
pub proof fn law_esp32_reports_no_float_error(b: Seq<StmtM>)
    ensures
        forall|i: int| 0 <= i < analyse_spec(Target::Esp32, b).errors.len()
            ==> !is_float_error(#[trigger] analyse_spec(Target::Esp32, b).errors[i]),
{
    law_target_only_adds_float_errors(b);
    let avr = analyse_spec(Target::Avr, b).errors;
    assert forall|i: int| 0 <= i < analyse_spec(Target::Esp32, b).errors.len()
        implies !is_float_error(#[trigger] analyse_spec(Target::Esp32, b).errors[i]) by {
        avr.lemma_filter_pred(non_float(), i);
    }
}

// ── errors are never dropped ───────────────────────────────────────────────

/// `later` starts with every error of `earlier`, in order.
pub open spec fn extends(earlier: Seq<(Seq<char>, Span)>, later: Seq<(Seq<char>, Span)>) -> bool {
    earlier.len() <= later.len() && forall|i: int| 0 <= i < earlier.len() ==> #[trigger] later[i] == earlier[i]
}

pub(crate) proof fn lemma_arg_types_keep(st: SemaState, name: Seq<char>, expected: Seq<TinyType>, got: Seq<TinyType>, args: Seq<ExprM>, n: int)
    ensures
        extends(st.errors, check_arg_types(st, name, expected, got, args, n).errors),
    decreases n,
{
    if n > 0 {
        lemma_arg_types_keep(st, name, expected, got, args, n - 1);
    }
}

pub(crate) proof fn lemma_call_args_keep(st: SemaState, name: Seq<char>, expected: Seq<TinyType>, got: Seq<TinyType>, args: Seq<ExprM>, span: Span)
    ensures
        extends(st.errors, check_call_args(st, name, expected, got, args, span).errors),
{
    if got.len() == expected.len() {
        lemma_arg_types_keep(st, name, expected, got, args, expected.len() as int);
    }
}

pub(crate) proof fn lemma_expr_keeps(t: Target, st: SemaState, e: ExprM)
    ensures
        extends(st.errors, check_expr(t, st, e).0.errors),
    decreases e,
{
    match e {
        ExprM::BinOp { lhs, rhs, .. } => {
            lemma_expr_keeps(t, st, *lhs);
            lemma_expr_keeps(t, check_expr(t, st, *lhs).0, *rhs);
        },
        ExprM::UnOp { operand, .. } => lemma_expr_keeps(t, st, *operand),
        ExprM::Call { name, args, span } => {
            let s0 = check_recursion(st, name, span);
            lemma_args_keep(t, s0, args);
            let (s1, tys) = check_args(t, s0, args);
            match crate::sema::intrinsic_sig_spec(name) {
                Some((params, _)) => lemma_call_args_keep(s1, name, params, tys, args, span),
                None => {},
            }
        },
        _ => {},
    }
}

pub(crate) proof fn lemma_args_keep(t: Target, st: SemaState, args: Seq<ExprM>)
    ensures
        extends(st.errors, check_args(t, st, args).0.errors),
    decreases args,
{
    if args.len() > 0 {
        lemma_args_keep(t, st, args.drop_last());
        lemma_expr_keeps(t, check_args(t, st, args.drop_last()).0, args.last());
    }
}

pub(crate) proof fn lemma_stmt_keeps(t: Target, st: SemaState, s: StmtM)
    ensures
        extends(st.errors, check_stmt(t, st, s).errors),
    decreases s,
{
    match s {
        StmtM::Local { init, .. } => {
            match init {
                Some(e) => lemma_expr_keeps(t, st, e),
                None => {},
            }
        },
        StmtM::Assign { value, .. } => lemma_expr_keeps(t, st, value),
        StmtM::Call { name, args, span } => {
            let s0 = check_recursion(st, name, span);
            lemma_args_keep(t, s0, args);
            let (s1, tys) = check_args(t, s0, args);
            match crate::sema::intrinsic_sig_spec(name) {
                Some((params, _)) => lemma_call_args_keep(s1, name, params, tys, args, span),
                None => {},
            }
        },
        StmtM::While { cond, body, .. } => {
            lemma_expr_keeps(t, st, cond);
            lemma_scoped_keeps(t, check_expr(t, st, cond).0, body);
        },
        StmtM::If { cond, then_body, elseif_clauses, else_body, .. } => {
            lemma_expr_keeps(t, st, cond);
            let s1 = check_expr(t, st, cond).0;
            lemma_scoped_keeps(t, s1, then_body);
            let s2 = check_scoped_block(t, s1, then_body);
            lemma_elseifs_keep(t, s2, elseif_clauses);
            match else_body {
                Some(b) => lemma_scoped_keeps(t, check_elseifs(t, s2, elseif_clauses), b),
                None => {},
            }
        },
        StmtM::NumFor { var, start, limit, step, body, .. } => {
            lemma_expr_keeps(t, st, start);
            let s1 = check_expr(t, st, start).0;
            lemma_expr_keeps(t, s1, limit);
            let s2 = check_expr(t, s1, limit).0;
            match step {
                Some(x) => lemma_expr_keeps(t, s2, x),
                None => {},
            }
            let s3 = match step {
                Some(x) => check_expr(t, s2, x).0,
                None => s2,
            };
            lemma_block_keeps(t, with_frames(s3, scope_define(s3.frames.push(Map::empty()), var, TinyType::Int)), body);
        },
        StmtM::Function { name, params, body, .. } => {
            let s1 = with_frames(st, scope_define(st.frames, name, TinyType::Int));
            let s2 = SemaState { current_fn: Some(name), ..s1 };
            lemma_block_keeps(t, with_frames(s2, define_all(s2.frames.push(Map::empty()), params, TinyType::Int)), body);
        },
        StmtM::Return { value, .. } => {
            match value {
                Some(e) => lemma_expr_keeps(t, st, e),
                None => {},
            }
        },
    }
}

pub(crate) proof fn lemma_scoped_keeps(t: Target, st: SemaState, body: Seq<StmtM>)
    ensures
        extends(st.errors, check_scoped_block(t, st, body).errors),
    decreases body, 1nat,
{
    lemma_block_keeps(t, with_frames(st, st.frames.push(Map::empty())), body);
}

pub(crate) proof fn lemma_elseifs_keep(t: Target, st: SemaState, cs: Seq<ElseIfM>)
    ensures
        extends(st.errors, check_elseifs(t, st, cs).errors),
    decreases cs,
{
    if cs.len() > 0 {
        lemma_elseifs_keep(t, st, cs.drop_last());
        let s1 = check_elseifs(t, st, cs.drop_last());
        lemma_expr_keeps(t, s1, cs.last().cond);
        lemma_scoped_keeps(t, check_expr(t, s1, cs.last().cond).0, cs.last().body);
    }
}

pub(crate) proof fn lemma_block_keeps(t: Target, st: SemaState, b: Seq<StmtM>)
    ensures
        extends(st.errors, check_block(t, st, b).errors),
    decreases b, 0nat,
{
    if b.len() > 0 {
        lemma_block_keeps(t, st, b.drop_last());
        lemma_stmt_keeps(t, check_block(t, st, b.drop_last()), b.last());
    }
}

/// The analysis accumulates errors and never takes one back: the errors of a program
/// come first, in order, among the errors of that program followed by more
/// statements.
pub proof fn law_errors_accumulate(t: Target, b: Seq<StmtM>, more: Seq<StmtM>)
    ensures
        extends(analyse_spec(t, b).errors, analyse_spec(t, b + more).errors),
    decreases more.len(),
{
    if more.len() == 0 {
        assert(b + more =~= b);
    } else {
        law_errors_accumulate(t, b, more.drop_last());
        assert((b + more).drop_last() =~= b + more.drop_last());
        assert((b + more).last() == more.last());
        lemma_stmt_keeps(t, analyse_spec(t, b + more.drop_last()), more.last());
    }
}

// ── scopes ──────────────────────────────────────────────────────────────────

proof fn lemma_assign_skips(outer: Seq<Map<Seq<char>, TinyType>>, inner: Seq<Map<Seq<char>, TinyType>>, name: Seq<char>, ty: TinyType)
    requires
        forall|i: int| 0 <= i < inner.len() ==> !(#[trigger] inner[i]).contains_key(name),
    ensures
        scope_assign(outer + inner, name, ty) == scope_assign(outer, name, ty) + inner,
    decreases inner.len(),
{
    if inner.len() == 0 {
        assert(outer + inner =~= outer);
        assert(scope_assign(outer, name, ty) + inner =~= scope_assign(outer, name, ty));
    } else {
        lemma_assign_skips(outer, inner.drop_last(), name, ty);
        assert((outer + inner).drop_last() =~= outer + inner.drop_last());
        assert((outer + inner).last() == inner.last());
        assert(inner.last() == inner[inner.len() - 1]);
        assert(scope_assign(outer, name, ty) + inner =~= (scope_assign(outer, name, ty) + inner.drop_last()).push(inner.last()));
    }
}

proof fn lemma_assign_then_lookup(frames: Seq<Map<Seq<char>, TinyType>>, name: Seq<char>, ty: TinyType)
    requires
        scope_lookup(frames, name) is Some,
    ensures
        scope_lookup(scope_assign(frames, name, ty), name) == Some(ty),
        scope_assign(frames, name, ty).len() == frames.len(),
    decreases frames.len(),
{
    if !frames.last().contains_key(name) {
        lemma_assign_then_lookup(frames.drop_last(), name, ty);
        assert(scope_assign(frames, name, ty).drop_last() =~= scope_assign(frames.drop_last(), name, ty));
    }
}

/// An assignment made in an inner block changes the variable where it was declared:
/// with the frames of the inner blocks, which do not declare the name, closed again,
/// the variable has the type assigned.
pub proof fn law_assignment_reaches_declaring_frame(
    outer: Seq<Map<Seq<char>, TinyType>>,
    inner: Seq<Map<Seq<char>, TinyType>>,
    name: Seq<char>,
    ty: TinyType,
)
    requires
        scope_lookup(outer, name) is Some,
        forall|i: int| 0 <= i < inner.len() ==> !(#[trigger] inner[i]).contains_key(name),
    ensures
        scope_assign(outer + inner, name, ty).take(outer.len() as int) == scope_assign(outer, name, ty),
        scope_lookup(scope_assign(outer + inner, name, ty).take(outer.len() as int), name) == Some(ty),
{
    lemma_assign_skips(outer, inner, name, ty);
    lemma_assign_then_lookup(outer, name, ty);
    assert((scope_assign(outer, name, ty) + inner).take(outer.len() as int) =~= scope_assign(outer, name, ty));
}

// ── every expression node gets a type ──────────────────────────────────────

/// From `before` to `after` the analysis numbered `n` more nodes and typed exactly
/// those.
pub open spec fn numbered(before: SemaState, after: SemaState, n: nat) -> bool {
    &&& after.next_id == before.next_id + n
    &&& forall|k: usize| #[trigger] after.types.contains_key(k)
            <==> (before.types.contains_key(k) || (before.next_id <= k && k < before.next_id + n))
}

proof fn lemma_arg_types_untyped(st: SemaState, name: Seq<char>, expected: Seq<TinyType>, got: Seq<TinyType>, args: Seq<ExprM>, n: int)
    ensures
        check_arg_types(st, name, expected, got, args, n).types == st.types,
        check_arg_types(st, name, expected, got, args, n).next_id == st.next_id,
    decreases n,
{
    if n > 0 {
        lemma_arg_types_untyped(st, name, expected, got, args, n - 1);
    }
}

proof fn lemma_call_args_untyped(st: SemaState, name: Seq<char>, expected: Seq<TinyType>, got: Seq<TinyType>, args: Seq<ExprM>, span: Span)
    ensures
        check_call_args(st, name, expected, got, args, span).types == st.types,
        check_call_args(st, name, expected, got, args, span).next_id == st.next_id,
{
    if got.len() == expected.len() {
        lemma_arg_types_untyped(st, name, expected, got, args, expected.len() as int);
    }
}

proof fn lemma_expr_numbered(t: Target, st: SemaState, e: ExprM)
    requires
        st.next_id + expr_count(e) <= usize::MAX,
    ensures
        numbered(st, check_expr(t, st, e).0, expr_count(e)),
    decreases e,
{
    match e {
        ExprM::BinOp { lhs, rhs, .. } => {
            lemma_expr_numbered(t, st, *lhs);
            lemma_expr_numbered(t, check_expr(t, st, *lhs).0, *rhs);
        },
        ExprM::UnOp { operand, .. } => lemma_expr_numbered(t, st, *operand),
        ExprM::Call { name, args, span } => {
            let s0 = check_recursion(st, name, span);
            lemma_args_numbered(t, s0, args);
            let (s1, tys) = check_args(t, s0, args);
            match crate::sema::intrinsic_sig_spec(name) {
                Some((params, _)) => lemma_call_args_untyped(s1, name, params, tys, args, span),
                None => {},
            }
        },
        _ => {},
    }
}

proof fn lemma_args_numbered(t: Target, st: SemaState, args: Seq<ExprM>)
    requires
        st.next_id + args_count(args) <= usize::MAX,
    ensures
        numbered(st, check_args(t, st, args).0, args_count(args)),
    decreases args,
{
    if args.len() > 0 {
        lemma_args_numbered(t, st, args.drop_last());
        lemma_expr_numbered(t, check_args(t, st, args.drop_last()).0, args.last());
    }
}

proof fn lemma_opt_numbered(t: Target, st: SemaState, e: Option<ExprM>)
    requires
        st.next_id + opt_count(e) <= usize::MAX,
    ensures
        numbered(st, match e { Some(x) => check_expr(t, st, x).0, None => st }, opt_count(e)),
{
    match e {
        Some(x) => lemma_expr_numbered(t, st, x),
        None => {},
    }
}

#[verifier::rlimit(40)]
proof fn lemma_stmt_numbered(t: Target, st: SemaState, s: StmtM)
    requires
        st.next_id + stmt_count(s) <= usize::MAX,
    ensures
        numbered(st, check_stmt(t, st, s), stmt_count(s)),
    decreases s,
{
    match s {
        StmtM::Local { init, .. } => lemma_opt_numbered(t, st, init),
        StmtM::Assign { value, .. } => lemma_expr_numbered(t, st, value),
        StmtM::Call { name, args, span } => {
            let s0 = check_recursion(st, name, span);
            lemma_args_numbered(t, s0, args);
            let (s1, tys) = check_args(t, s0, args);
            match crate::sema::intrinsic_sig_spec(name) {
                Some((params, _)) => lemma_call_args_untyped(s1, name, params, tys, args, span),
                None => {},
            }
        },
        StmtM::While { cond, body, .. } => {
            lemma_expr_numbered(t, st, cond);
            lemma_scoped_numbered(t, check_expr(t, st, cond).0, body);
        },
        StmtM::If { cond, then_body, elseif_clauses, else_body, .. } => {
            lemma_expr_numbered(t, st, cond);
            let s1 = check_expr(t, st, cond).0;
            lemma_scoped_numbered(t, s1, then_body);
            let s2 = check_scoped_block(t, s1, then_body);
            lemma_elseifs_numbered(t, s2, elseif_clauses);
            match else_body {
                Some(b) => lemma_scoped_numbered(t, check_elseifs(t, s2, elseif_clauses), b),
                None => {},
            }
        },
        StmtM::NumFor { var, start, limit, step, body, .. } => {
            lemma_expr_numbered(t, st, start);
            let s1 = check_expr(t, st, start).0;
            lemma_expr_numbered(t, s1, limit);
            let s2 = check_expr(t, s1, limit).0;
            lemma_opt_numbered(t, s2, step);
            let s3 = match step {
                Some(x) => check_expr(t, s2, x).0,
                None => s2,
            };
            lemma_block_numbered(t, with_frames(s3, scope_define(s3.frames.push(Map::empty()), var, TinyType::Int)), body);
        },
        StmtM::Function { name, params, body, .. } => {
            let s1 = with_frames(st, scope_define(st.frames, name, TinyType::Int));
            let s2 = SemaState { current_fn: Some(name), ..s1 };
            lemma_block_numbered(t, with_frames(s2, define_all(s2.frames.push(Map::empty()), params, TinyType::Int)), body);
        },
        StmtM::Return { value, .. } => lemma_opt_numbered(t, st, value),
    }
}

proof fn lemma_scoped_numbered(t: Target, st: SemaState, body: Seq<StmtM>)
    requires
        st.next_id + block_count(body) <= usize::MAX,
    ensures
        numbered(st, check_scoped_block(t, st, body), block_count(body)),
    decreases body, 1nat,
{
    lemma_block_numbered(t, with_frames(st, st.frames.push(Map::empty())), body);
}

proof fn lemma_elseifs_numbered(t: Target, st: SemaState, cs: Seq<ElseIfM>)
    requires
        st.next_id + elseifs_count(cs) <= usize::MAX,
    ensures
        numbered(st, check_elseifs(t, st, cs), elseifs_count(cs)),
    decreases cs,
{
    if cs.len() > 0 {
        lemma_elseifs_numbered(t, st, cs.drop_last());
        let s1 = check_elseifs(t, st, cs.drop_last());
        lemma_expr_numbered(t, s1, cs.last().cond);
        lemma_scoped_numbered(t, check_expr(t, s1, cs.last().cond).0, cs.last().body);
    }
}

proof fn lemma_block_numbered(t: Target, st: SemaState, b: Seq<StmtM>)
    requires
        st.next_id + block_count(b) <= usize::MAX,
    ensures
        numbered(st, check_block(t, st, b), block_count(b)),
    decreases b, 0nat,
{
    if b.len() > 0 {
        lemma_block_numbered(t, st, b.drop_last());
        lemma_stmt_numbered(t, check_block(t, st, b.drop_last()), b.last());
    }
}

/// Every expression node of the program gets a type, under its own number: the
/// numbers are exactly `0` up to the number of nodes.
pub proof fn law_every_expression_node_is_typed(t: Target, b: Seq<StmtM>)
    requires
        block_count(b) <= usize::MAX,
    ensures
        forall|k: usize| #[trigger] analyse_spec(t, b).types.contains_key(k) <==> k < block_count(b),
{
    lemma_block_numbered(t, crate::sema::initial_state(), b);
}

// ── errors, statement by statement ──────────────────────────────────────────

/// A statement never takes back an error found before it: the errors after it start
/// with the errors before it, in order.
pub proof fn law_statement_keeps_errors(t: Target, st: SemaState, s: StmtM)
    ensures
        extends(st.errors, check_stmt(t, st, s).errors),
{
    lemma_stmt_keeps(t, st, s);
}

// ── the scope after a statement ─────────────────────────────────────────────

/// `after` has the frames of `before`, and every frame but the innermost declares the
/// same names.
pub open spec fn outer_frames_kept(before: Seq<Map<Seq<char>, TinyType>>, after: Seq<Map<Seq<char>, TinyType>>) -> bool {
    &&& after.len() == before.len()
    &&& forall|i: int| 0 <= i < before.len() - 1 ==> (#[trigger] after[i]).dom() == before[i].dom()
}

/// The name a statement declares in the current frame, if any.
pub open spec fn declared_name(s: StmtM) -> Option<Seq<char>> {
    match s {
        StmtM::Local { name, .. } => Some(name),
        StmtM::Function { name, .. } => Some(name),
        _ => None,
    }
}

proof fn lemma_lookup_some(frames: Seq<Map<Seq<char>, TinyType>>, name: Seq<char>)
    ensures
        (scope_lookup(frames, name) is Some) == (exists|i: int| 0 <= i < frames.len() && (#[trigger] frames[i]).contains_key(name)),
    decreases frames.len(),
{
    if frames.len() > 0 {
        lemma_lookup_some(frames.drop_last(), name);
        if exists|i: int| 0 <= i < frames.len() && (#[trigger] frames[i]).contains_key(name) {
            let i = choose|i: int| 0 <= i < frames.len() && (#[trigger] frames[i]).contains_key(name);
            if i < frames.len() - 1 {
                assert(frames.drop_last()[i] == frames[i]);
            }
        }
        if exists|i: int| 0 <= i < frames.drop_last().len() && (#[trigger] frames.drop_last()[i]).contains_key(name) {
            let i = choose|i: int| 0 <= i < frames.drop_last().len() && (#[trigger] frames.drop_last()[i]).contains_key(name);
            assert(frames[i] == frames.drop_last()[i]);
        }
    }
}

proof fn lemma_assign_keeps_names(frames: Seq<Map<Seq<char>, TinyType>>, name: Seq<char>, ty: TinyType)
    ensures
        scope_assign(frames, name, ty).len() == frames.len(),
        forall|i: int| 0 <= i < frames.len() ==> (#[trigger] scope_assign(frames, name, ty)[i]).dom() == frames[i].dom(),
    decreases frames.len(),
{
    if frames.len() > 0 {
        if frames.last().contains_key(name) {
            assert(frames.last().insert(name, ty).dom() =~= frames.last().dom());
        } else {
            lemma_assign_keeps_names(frames.drop_last(), name, ty);
            assert forall|i: int| 0 <= i < frames.len() implies (#[trigger] scope_assign(frames, name, ty)[i]).dom() == frames[i].dom() by {
                if i < frames.len() - 1 {
                    assert(frames.drop_last()[i] == frames[i]);
                }
            }
        }
    }
}

proof fn lemma_define_all_inner(frames: Seq<Map<Seq<char>, TinyType>>, names: Seq<Seq<char>>, ty: TinyType)
    requires
        frames.len() > 0,
    ensures
        outer_frames_kept(frames, define_all(frames, names, ty)),
    decreases names.len(),
{
    if names.len() > 0 {
        lemma_define_all_inner(frames, names.drop_last(), ty);
    }
}

proof fn lemma_arg_types_scope(st: SemaState, name: Seq<char>, expected: Seq<TinyType>, got: Seq<TinyType>, args: Seq<ExprM>, n: int)
    ensures
        check_arg_types(st, name, expected, got, args, n).frames == st.frames,
        check_arg_types(st, name, expected, got, args, n).current_fn == st.current_fn,
    decreases n,
{
    if n > 0 {
        lemma_arg_types_scope(st, name, expected, got, args, n - 1);
    }
}

proof fn lemma_call_args_scope(st: SemaState, name: Seq<char>, expected: Seq<TinyType>, got: Seq<TinyType>, args: Seq<ExprM>, span: Span)
    ensures
        check_call_args(st, name, expected, got, args, span).frames == st.frames,
        check_call_args(st, name, expected, got, args, span).current_fn == st.current_fn,
{
    if got.len() == expected.len() {
        lemma_arg_types_scope(st, name, expected, got, args, expected.len() as int);
    }
}

proof fn lemma_expr_scope(t: Target, st: SemaState, e: ExprM)
    ensures
        check_expr(t, st, e).0.frames == st.frames,
        check_expr(t, st, e).0.current_fn == st.current_fn,
    decreases e,
{
    match e {
        ExprM::BinOp { lhs, rhs, .. } => {
            lemma_expr_scope(t, st, *lhs);
            lemma_expr_scope(t, check_expr(t, st, *lhs).0, *rhs);
        },
        ExprM::UnOp { operand, .. } => lemma_expr_scope(t, st, *operand),
        ExprM::Call { name, args, span } => {
            let s0 = check_recursion(st, name, span);
            lemma_args_scope(t, s0, args);
            let (s1, tys) = check_args(t, s0, args);
            match crate::sema::intrinsic_sig_spec(name) {
                Some((params, _)) => lemma_call_args_scope(s1, name, params, tys, args, span),
                None => {},
            }
        },
        _ => {},
    }
}

proof fn lemma_args_scope(t: Target, st: SemaState, args: Seq<ExprM>)
    ensures
        check_args(t, st, args).0.frames == st.frames,
        check_args(t, st, args).0.current_fn == st.current_fn,
    decreases args,
{
    if args.len() > 0 {
        lemma_args_scope(t, st, args.drop_last());
        lemma_expr_scope(t, check_args(t, st, args.drop_last()).0, args.last());
    }
}

#[verifier::rlimit(40)]
proof fn lemma_stmt_scope(t: Target, st: SemaState, s: StmtM)
    requires
        st.frames.len() > 0,
    ensures
        outer_frames_kept(st.frames, check_stmt(t, st, s).frames),
        check_stmt(t, st, s).frames.last().dom() == match declared_name(s) {
            Some(n) => st.frames.last().dom().insert(n),
            None => st.frames.last().dom(),
        },
        check_stmt(t, st, s).current_fn == st.current_fn,
    decreases s,
{
    let f = st.frames;
    match s {
        StmtM::Local { name, init, .. } => {
            match init {
                Some(e) => lemma_expr_scope(t, st, e),
                None => {},
            }
        },
        StmtM::Assign { name, value, span } => {
            lemma_expr_scope(t, st, value);
            let s1 = check_expr(t, st, value).0;
            let vty = check_expr(t, st, value).1;
            lemma_assign_keeps_names(f, name, vty);
            assert(scope_assign(f, name, vty)[f.len() - 1] == scope_assign(f, name, vty).last());
        },
        StmtM::Call { name, args, span } => {
            let s0 = check_recursion(st, name, span);
            lemma_args_scope(t, s0, args);
            let (s1, tys) = check_args(t, s0, args);
            match crate::sema::intrinsic_sig_spec(name) {
                Some((params, _)) => lemma_call_args_scope(s1, name, params, tys, args, span),
                None => {},
            }
        },
        StmtM::While { cond, body, .. } => {
            lemma_expr_scope(t, st, cond);
            lemma_scoped_scope(t, check_expr(t, st, cond).0, body);
        },
        StmtM::If { cond, then_body, elseif_clauses, else_body, .. } => {
            lemma_expr_scope(t, st, cond);
            let s1 = check_expr(t, st, cond).0;
            lemma_scoped_scope(t, s1, then_body);
            let s2 = check_scoped_block(t, s1, then_body);
            lemma_elseifs_scope(t, s2, elseif_clauses);
            let s3 = check_elseifs(t, s2, elseif_clauses);
            match else_body {
                Some(b) => lemma_scoped_scope(t, s3, b),
                None => {},
            }
        },
        StmtM::NumFor { var, start, limit, step, body, .. } => {
            lemma_expr_scope(t, st, start);
            let s1 = check_expr(t, st, start).0;
            lemma_expr_scope(t, s1, limit);
            let s2 = check_expr(t, s1, limit).0;
            match step {
                Some(x) => lemma_expr_scope(t, s2, x),
                None => {},
            }
            let s3 = match step {
                Some(x) => check_expr(t, s2, x).0,
                None => s2,
            };
            let inner = scope_define(s3.frames.push(Map::empty()), var, TinyType::Int);
            let s4 = with_frames(s3, inner);
            lemma_block_scope(t, s4, body);
            let s5 = check_block(t, s4, body);
            assert forall|i: int| 0 <= i < f.len() implies (#[trigger] s5.frames.drop_last()[i]).dom() == f[i].dom() by {
                assert(s5.frames.drop_last()[i] == s5.frames[i]);
                assert(inner[i] == f[i]);
            }
        },
        StmtM::Function { name, params, body, .. } => {
            let s1 = with_frames(st, scope_define(f, name, TinyType::Int));
            let s2 = SemaState { current_fn: Some(name), ..s1 };
            let pushed = s2.frames.push(Map::empty());
            let inner = define_all(pushed, params, TinyType::Int);
            lemma_define_all_inner(pushed, params, TinyType::Int);
            let s3 = with_frames(s2, inner);
            lemma_block_scope(t, s3, body);
            let s4 = check_block(t, s3, body);
            assert forall|i: int| 0 <= i < f.len() implies (#[trigger] s4.frames.drop_last()[i]).dom() == s1.frames[i].dom() by {
                assert(s4.frames.drop_last()[i] == s4.frames[i]);
                assert(pushed[i] == s1.frames[i]);
            }
            assert(s1.frames[f.len() - 1] == f.last().insert(name, TinyType::Int));
            assert(s4.frames.drop_last().last() == s4.frames.drop_last()[f.len() - 1]);
        },
        StmtM::Return { value, .. } => {
            match value {
                Some(e) => lemma_expr_scope(t, st, e),
                None => {},
            }
        },
    }
}

proof fn lemma_scoped_scope(t: Target, st: SemaState, body: Seq<StmtM>)
    requires
        st.frames.len() > 0,
    ensures
        check_scoped_block(t, st, body).frames.len() == st.frames.len(),
        forall|i: int| 0 <= i < st.frames.len() ==> (#[trigger] check_scoped_block(t, st, body).frames[i]).dom() == st.frames[i].dom(),
        check_scoped_block(t, st, body).current_fn == st.current_fn,
    decreases body, 1nat,
{
    let pushed = st.frames.push(Map::empty());
    let s1 = with_frames(st, pushed);
    lemma_block_scope(t, s1, body);
    let s2 = check_block(t, s1, body);
    assert forall|i: int| 0 <= i < st.frames.len() implies (#[trigger] s2.frames.drop_last()[i]).dom() == st.frames[i].dom() by {
        assert(s2.frames.drop_last()[i] == s2.frames[i]);
        assert(pushed[i] == st.frames[i]);
    }
}

proof fn lemma_elseifs_scope(t: Target, st: SemaState, cs: Seq<ElseIfM>)
    requires
        st.frames.len() > 0,
    ensures
        check_elseifs(t, st, cs).frames.len() == st.frames.len(),
        forall|i: int| 0 <= i < st.frames.len() ==> (#[trigger] check_elseifs(t, st, cs).frames[i]).dom() == st.frames[i].dom(),
        check_elseifs(t, st, cs).current_fn == st.current_fn,
    decreases cs,
{
    if cs.len() > 0 {
        lemma_elseifs_scope(t, st, cs.drop_last());
        let s1 = check_elseifs(t, st, cs.drop_last());
        lemma_expr_scope(t, s1, cs.last().cond);
        lemma_scoped_scope(t, check_expr(t, s1, cs.last().cond).0, cs.last().body);
    }
}

proof fn lemma_block_scope(t: Target, st: SemaState, b: Seq<StmtM>)
    requires
        st.frames.len() > 0,
    ensures
        outer_frames_kept(st.frames, check_block(t, st, b).frames),
        check_block(t, st, b).current_fn == st.current_fn,
    decreases b, 0nat,
{
    if b.len() > 0 {
        lemma_block_scope(t, st, b.drop_last());
        lemma_stmt_scope(t, check_block(t, st, b.drop_last()), b.last());
    }
}

/// After a statement the names in scope are those in scope before it, together with
/// the name a `local` or `function` statement declares: whatever a `while`, `if`,
/// `for` or function body declares inside is gone when it ends. The function being
/// analysed is the same as before.
pub proof fn law_statement_scope(t: Target, st: SemaState, s: StmtM, name: Seq<char>)
    requires
        st.frames.len() > 0,
    ensures
        (scope_lookup(check_stmt(t, st, s).frames, name) is Some)
            == (scope_lookup(st.frames, name) is Some || declared_name(s) == Some(name)),
        check_stmt(t, st, s).current_fn == st.current_fn,
{
    lemma_stmt_scope(t, st, s);
    let f = st.frames;
    let g = check_stmt(t, st, s).frames;
    lemma_lookup_some(f, name);
    lemma_lookup_some(g, name);
    assert(g.last() == g[f.len() - 1]);
    assert(f.last() == f[f.len() - 1]);
    if exists|i: int| 0 <= i < g.len() && (#[trigger] g[i]).contains_key(name) {
        let i = choose|i: int| 0 <= i < g.len() && (#[trigger] g[i]).contains_key(name);
        if i < f.len() - 1 {
            assert(g[i].dom().contains(name));
        } else {
            assert(g[i].dom().contains(name));
        }
    }
    if exists|i: int| 0 <= i < f.len() && (#[trigger] f[i]).contains_key(name) {
        let i = choose|i: int| 0 <= i < f.len() && (#[trigger] f[i]).contains_key(name);
        assert(f[i].dom().contains(name));
        assert(g[i].dom().contains(name));
    }
    if declared_name(s) == Some(name) {
        assert(g[f.len() - 1].dom().contains(name));
    }
}

// ── the types of operators ──────────────────────────────────────────────────

/// Arithmetic operators: `+ - * / %`.
pub open spec fn is_arithmetic(op: crate::ast::BinOp) -> bool {
    op is Add || op is Sub || op is Mul || op is Div || op is Mod
}

/// Comparison operators: `== ~= < <= > >=`.
pub open spec fn is_comparison(op: crate::ast::BinOp) -> bool {
    op is Eq || op is Ne || op is Lt || op is Le || op is Gt || op is Ge
}

/// Arithmetic gives an `Int`; a comparison, `and` or `or` gives a `Bool`. That type is
/// what the analysis hands back for the operation and what it records as the type
/// of its node.
pub proof fn law_operator_types(t: Target, st: SemaState, op: crate::ast::BinOp, lhs: ExprM, rhs: ExprM, span: Span)
    ensures
        ({
            let (s, ty) = check_expr(t, st, ExprM::BinOp { op, lhs: Box::new(lhs), rhs: Box::new(rhs), span });
            &&& is_arithmetic(op) ==> ty == TinyType::Int
            &&& is_comparison(op) ==> ty == TinyType::Bool
            &&& (op is And || op is Or) ==> ty == TinyType::Bool
            &&& s.types.contains_key((s.next_id - 1) as usize)
            &&& s.types[(s.next_id - 1) as usize] == ty
        }),
{
}

} // verus!
