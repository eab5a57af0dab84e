//! What the semantic analysis guarantees the generator.
use vstd::prelude::*;
use crate::ast::{Span, ExprM, ElseIfM, StmtM};
use crate::sema::{
    Target, TinyType, SemaState, intrinsic_sig_spec, with_frames, check_recursion, check_call_args,
    check_expr, check_args, check_stmt, check_scoped_block, check_elseifs, check_block, analyse_spec,
    scope_define, define_all,
};
use crate::sema_laws::{
    extends, lemma_expr_keeps, lemma_args_keep, lemma_call_args_keep, lemma_scoped_keeps,
    lemma_elseifs_keep, lemma_block_keeps, lemma_stmt_keeps,
};
use crate::codegen::{
    needed_args, calls_ok_expr, calls_ok_args, calls_ok_opt, stmt_ok, block_ok, elseifs_ok,
    stmt_has_no_function, block_has_no_function, elseifs_have_no_function,
};

verus! {

// ── where functions are defined ─────────────────────────────────────────────

/// Every function of the statement is defined at the top level or directly in a
/// function's body, never inside a `while`, `if` or `for`.
pub open spec fn stmt_functions_placed(s: StmtM) -> bool
    decreases s,
{
    match s {
        StmtM::While { body, .. } => block_has_no_function(body),
        StmtM::If { then_body, elseif_clauses, else_body, .. } => block_has_no_function(then_body)
            && elseifs_have_no_function(elseif_clauses) && match else_body {
                Some(b) => block_has_no_function(b),
                None => true,
            },
        StmtM::NumFor { body, .. } => block_has_no_function(body),
        StmtM::Function { body, .. } => block_functions_placed(body),
        _ => true,
    }
}

pub open spec fn block_functions_placed(b: Seq<StmtM>) -> bool
    decreases b,
{
    if b.len() == 0 { true } else { block_functions_placed(b.drop_last()) && stmt_functions_placed(b.last()) }
}

proof fn lemma_no_function_is_placed(b: Seq<StmtM>)
    requires
        block_has_no_function(b),
    ensures
        block_functions_placed(b),
    decreases b.len(),
{
    if b.len() > 0 {
        lemma_no_function_is_placed(b.drop_last());
        assert(stmt_has_no_function(b.last()));
        assert(stmt_functions_placed(b.last()));
    }
}

// ── the intrinsics ──────────────────────────────────────────────────────────

/// A name whose generated call reads arguments is an intrinsic of exactly that arity.
proof fn lemma_needed_args_are_arity(name: Seq<char>)
    requires
        needed_args(name) > 0,
    ensures
        intrinsic_sig_spec(name) matches Some((ps, _)) && ps.len() == needed_args(name),
{
    reveal_strlit("digitalRead");
    reveal_strlit("analogRead");
    reveal_strlit("delay");
    reveal_strlit("digitalWrite");
    reveal_strlit("analogWrite");
    reveal_strlit("pinMode");
    assert("digitalRead"@ != "analogWrite"@) by {
        assert("digitalRead"@[0] != "analogWrite"@[0]);
    }
    assert("digitalRead"@.len() == 11 && "digitalWrite"@.len() == 12 && "analogRead"@.len() == 10);
    assert("analogWrite"@.len() == 11 && "delay"@.len() == 5 && "pinMode"@.len() == 7);
}

// ── a missing argument is an error ──────────────────────────────────────────

/// An intrinsic call without the arguments its generated call reads is an arity error.
proof fn lemma_short_call_grows(st: SemaState, name: Seq<char>, got: Seq<TinyType>, args: Seq<ExprM>, span: Span)
    requires
        got.len() == args.len(),
        args.len() < needed_args(name),
    ensures
        intrinsic_sig_spec(name) matches Some((ps, _)) && check_call_args(st, name, ps, got, args, span).errors.len()
            > st.errors.len(),
{
    lemma_needed_args_are_arity(name);
}

/// The analysis of a call, from the state `st`, ends with more errors than it started
/// with when the call misses an argument or one of its arguments holds such a call.
proof fn lemma_call_grows(t: Target, st: SemaState, name: Seq<char>, args: Seq<ExprM>, span: Span)
    requires
        !(args.len() >= needed_args(name) && calls_ok_args(args)),
    ensures
        ({
            let s0 = check_recursion(st, name, span);
            let (s1, tys) = check_args(t, s0, args);
            let s2 = match intrinsic_sig_spec(name) {
                Some((ps, _)) => check_call_args(s1, name, ps, tys, args, span),
                None => s1,
            };
            s2.errors.len() > st.errors.len()
        }),
    decreases args, 1nat,
{
    let s0 = check_recursion(st, name, span);
    let (s1, tys) = check_args(t, s0, args);
    lemma_args_keep(t, s0, args);
    lemma_args_grow(t, s0, args);
    lemma_args_len(t, s0, args);
    match intrinsic_sig_spec(name) {
        Some((ps, _)) => {
            lemma_call_args_keep(s1, name, ps, tys, args, span);
            if args.len() < needed_args(name) {
                lemma_short_call_grows(s1, name, tys, args, span);
            }
        },
        None => {
            if args.len() < needed_args(name) {
                lemma_needed_args_are_arity(name);
            }
        },
    }
}

proof fn lemma_args_len(t: Target, st: SemaState, args: Seq<ExprM>)
    ensures
        check_args(t, st, args).1.len() == args.len(),
    decreases args,
{
    if args.len() > 0 {
        lemma_args_len(t, st, args.drop_last());
    }
}

proof fn lemma_expr_grows(t: Target, st: SemaState, e: ExprM)
    requires
        !calls_ok_expr(e),
    ensures
        check_expr(t, st, e).0.errors.len() > st.errors.len(),
    decreases e, 2nat,
{
    match e {
        ExprM::BinOp { lhs, rhs, .. } => {
            let s1 = check_expr(t, st, *lhs).0;
            lemma_expr_keeps(t, st, *lhs);
            lemma_expr_keeps(t, s1, *rhs);
            if !calls_ok_expr(*lhs) {
                lemma_expr_grows(t, st, *lhs);
            } else {
                lemma_expr_grows(t, s1, *rhs);
            }
        },
        ExprM::UnOp { operand, .. } => lemma_expr_grows(t, st, *operand),
        ExprM::Call { name, args, span } => {
            lemma_recursion_keeps(st, name, span);
            lemma_call_grows(t, st, name, args, span);
        },
        _ => {},
    }
}

proof fn lemma_recursion_keeps(st: SemaState, name: Seq<char>, span: Span)
    ensures
        extends(st.errors, check_recursion(st, name, span).errors),
{
}

proof fn lemma_args_grow(t: Target, st: SemaState, args: Seq<ExprM>)
    ensures
        !calls_ok_args(args) ==> check_args(t, st, args).0.errors.len() > st.errors.len(),
    decreases args, 0nat,
{
    if args.len() > 0 && !calls_ok_args(args) {
        let s1 = check_args(t, st, args.drop_last()).0;
        lemma_args_keep(t, st, args.drop_last());
        lemma_expr_keeps(t, s1, args.last());
        if !calls_ok_args(args.drop_last()) {
            lemma_args_grow(t, st, args.drop_last());
        } else {
            lemma_expr_grows(t, s1, args.last());
        }
    }
}

proof fn lemma_opt_grows(t: Target, st: SemaState, e: Option<ExprM>)
    requires
        !calls_ok_opt(e),
    ensures
        e is Some && check_expr(t, st, e->0).0.errors.len() > st.errors.len(),
{
    lemma_expr_grows(t, st, e->0);
}

#[verifier::rlimit(40)]
proof fn lemma_stmt_grows(t: Target, st: SemaState, s: StmtM)
    requires
        stmt_functions_placed(s),
        !stmt_ok(s),
    ensures
        check_stmt(t, st, s).errors.len() > st.errors.len(),
    decreases s,
{
    match s {
        StmtM::Local { init, .. } => lemma_opt_grows(t, st, init),
        StmtM::Assign { value, .. } => lemma_expr_grows(t, st, value),
        StmtM::Call { name, args, span } => lemma_call_grows(t, st, name, args, span),
        StmtM::Return { value, .. } => lemma_opt_grows(t, st, value),
        StmtM::While { cond, body, .. } => {
            let s1 = check_expr(t, st, cond).0;
            lemma_expr_keeps(t, st, cond);
            lemma_scoped_keeps(t, s1, body);
            if !calls_ok_expr(cond) {
                lemma_expr_grows(t, st, cond);
            } else {
                lemma_no_function_is_placed(body);
                lemma_scoped_grows(t, s1, body);
            }
        },
        StmtM::If { cond, then_body, elseif_clauses, else_body, .. } => {
            let s1 = check_expr(t, st, cond).0;
            let s2 = check_scoped_block(t, s1, then_body);
            let s3 = check_elseifs(t, s2, elseif_clauses);
            lemma_expr_keeps(t, st, cond);
            lemma_scoped_keeps(t, s1, then_body);
            lemma_elseifs_keep(t, s2, elseif_clauses);
            match else_body {
                Some(b) => lemma_scoped_keeps(t, s3, b),
                None => {},
            }
            if !calls_ok_expr(cond) {
                lemma_expr_grows(t, st, cond);
            } else if !block_ok(then_body) {
                lemma_no_function_is_placed(then_body);
                lemma_scoped_grows(t, s1, then_body);
            } else if !elseifs_ok(elseif_clauses) {
                lemma_elseifs_grow(t, s2, elseif_clauses);
            } else {
                match else_body {
                    Some(b) => {
                        lemma_no_function_is_placed(b);
                        lemma_scoped_grows(t, s3, b);
                    },
                    None => {},
                }
            }
        },
        StmtM::NumFor { var, start, limit, step, body, .. } => {
            let s1 = check_expr(t, st, start).0;
            let s2 = check_expr(t, s1, limit).0;
            let s3 = match step {
                Some(x) => check_expr(t, s2, x).0,
                None => s2,
            };
            let s4 = with_frames(s3, scope_define(s3.frames.push(Map::empty()), var, TinyType::Int));
            lemma_expr_keeps(t, st, start);
            lemma_expr_keeps(t, s1, limit);
            match step {
                Some(x) => lemma_expr_keeps(t, s2, x),
                None => {},
            }
            lemma_block_keeps(t, s4, body);
            if !calls_ok_expr(start) {
                lemma_expr_grows(t, st, start);
            } else if !calls_ok_expr(limit) {
                lemma_expr_grows(t, s1, limit);
            } else if !calls_ok_opt(step) {
                lemma_opt_grows(t, s2, step);
            } else {
                lemma_no_function_is_placed(body);
                lemma_block_grows(t, s4, body);
            }
        },
        StmtM::Function { name, params, body, .. } => {
            let s1 = with_frames(st, scope_define(st.frames, name, TinyType::Int));
            let s2 = SemaState { current_fn: Some(name), ..s1 };
            lemma_block_grows(t, with_frames(s2, define_all(s2.frames.push(Map::empty()), params, TinyType::Int)), body);
        },
    }
}

proof fn lemma_scoped_grows(t: Target, st: SemaState, body: Seq<StmtM>)
    requires
        block_functions_placed(body),
        !block_ok(body),
    ensures
        check_scoped_block(t, st, body).errors.len() > st.errors.len(),
    decreases body, 1nat,
{
    lemma_block_grows(t, with_frames(st, st.frames.push(Map::empty())), body);
}

proof fn lemma_elseifs_grow(t: Target, st: SemaState, cs: Seq<ElseIfM>)
    requires
        elseifs_have_no_function(cs),
        !elseifs_ok(cs),
    ensures
        check_elseifs(t, st, cs).errors.len() > st.errors.len(),
    decreases cs,
{
    let s1 = check_elseifs(t, st, cs.drop_last());
    let s2 = check_expr(t, s1, cs.last().cond).0;
    lemma_elseifs_keep(t, st, cs.drop_last());
    lemma_expr_keeps(t, s1, cs.last().cond);
    lemma_scoped_keeps(t, s2, cs.last().body);
    if !elseifs_ok(cs.drop_last()) {
        lemma_elseifs_grow(t, st, cs.drop_last());
    } else if !calls_ok_expr(cs.last().cond) {
        lemma_expr_grows(t, s1, cs.last().cond);
    } else {
        lemma_no_function_is_placed(cs.last().body);
        lemma_scoped_grows(t, s2, cs.last().body);
    }
}

proof fn lemma_block_grows(t: Target, st: SemaState, b: Seq<StmtM>)
    requires
        block_functions_placed(b),
        !block_ok(b),
    ensures
        check_block(t, st, b).errors.len() > st.errors.len(),
    decreases b, 0nat,
{
    let s1 = check_block(t, st, b.drop_last());
    lemma_block_keeps(t, st, b.drop_last());
    if !block_ok(b.drop_last()) {
        lemma_block_grows(t, st, b.drop_last());
        lemma_stmt_keeps(t, s1, b.last());
    } else {
        lemma_stmt_grows(t, s1, b.last());
    }
}

/// The generator handles every program the analysis accepts whose functions are
/// defined at the top level or directly in a function's body: an intrinsic call
/// without the arguments its generated call reads is always an analysis error.
pub proof fn law_accepted_programs_can_be_generated(t: Target, b: Seq<StmtM>)
    requires
        analyse_spec(t, b).errors.len() == 0,
        block_functions_placed(b),
    ensures
        block_ok(b),
{
    if !block_ok(b) {
        lemma_block_grows(t, crate::sema::initial_state(), b);
    }
}

} // verus!
