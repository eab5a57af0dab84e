//! Where the parser's errors point.
use vstd::prelude::*;
use crate::ast::{Span, ExprM, ElseIfM, StmtM};
use crate::token::{TokenOf, SpannedModel};
use crate::lexer::tokenize_spec;
use crate::parser::{
    PRes, Stop, tok, span_at, adv, ge_pos, gt_pos, p_expect, p_expect_ident, skip_semis,
    lemma_skip_semis, p_params, p_params_from, or_op, and_op, comparison_op, add_op, mul_op, p_expr,
    p_or, p_or_tail, p_and, p_and_tail, p_comparison, p_comparison_tail, p_add, p_add_tail, p_mul,
    p_mul_tail, p_unary, p_primary, p_args, p_args_from, p_block, p_stmt, p_local, p_if, p_elseifs,
    p_while, p_for, p_for_body, p_function, p_return, p_ident_stmt, parse_spec,
};

verus! {

/// `span` is the position of one of the tokens.
pub open spec fn at_token(ts: Seq<SpannedModel>, span: Span) -> bool {
    exists|k: int| 0 <= k < ts.len() && #[trigger] span_at(ts, k) == span
}

/// A parsing outcome that stays on the tokens: on success the next index is one of
/// theirs, on failure the error points at one of them.
pub open spec fn well<T>(ts: Seq<SpannedModel>, r: PRes<T>) -> bool {
    match r {
        Ok((_, q)) => 0 <= q < ts.len(),
        Err(e) => at_token(ts, e.1),
    }
}

proof fn lemma_at(ts: Seq<SpannedModel>, p: int)
    requires
        0 <= p < ts.len(),
    ensures
        at_token(ts, span_at(ts, p)),
{
    assert(span_at(ts, p) == span_at(ts, p));
}

proof fn lemma_expect(ts: Seq<SpannedModel>, p: int, expected: crate::token::TokenModel)
    requires
        0 <= p < ts.len(),
    ensures
        match p_expect(ts, p, expected) {
            Ok((_, q)) => 0 <= q < ts.len(),
            Err(e) => at_token(ts, e.1),
        },
{
    lemma_at(ts, p);
}

proof fn lemma_expect_ident(ts: Seq<SpannedModel>, p: int, ctx: Seq<char>)
    requires
        0 <= p < ts.len(),
    ensures
        well(ts, p_expect_ident(ts, p, ctx)),
{
    lemma_at(ts, p);
}

proof fn lemma_params_from(ts: Seq<SpannedModel>, p: int, acc: Seq<Seq<char>>)
    requires
        0 <= p < ts.len(),
    ensures
        well(ts, p_params_from(ts, p, acc)),
    decreases ts.len() - p,
{
    lemma_expect_ident(ts, p, "na lista de parâmetros"@);
    match p_expect_ident(ts, p, "na lista de parâmetros"@) {
        Ok((n, q)) => {
            if tok(ts, q) is Comma {
                let q2 = adv(ts, q);
                lemma_at(ts, q2);
                if gt_pos(ts, p, q2) {
                    lemma_params_from(ts, q2, acc.push(n));
                }
            }
        },
        Err(_) => {},
    }
}

proof fn lemma_params(ts: Seq<SpannedModel>, p: int)
    requires
        0 <= p < ts.len(),
    ensures
        well(ts, p_params(ts, p)),
{
    lemma_params_from(ts, p, Seq::empty());
}

proof fn lemma_expr(ts: Seq<SpannedModel>, p: int)
    requires
        0 <= p < ts.len(),
    ensures
        well(ts, p_expr(ts, p)),
    decreases ts.len() - p, 20int,
{
    lemma_or(ts, p);
}

proof fn lemma_or(ts: Seq<SpannedModel>, p: int)
    requires
        0 <= p < ts.len(),
    ensures
        well(ts, p_or(ts, p)),
    decreases ts.len() - p, 19int,
{
    lemma_and(ts, p);
    match p_and(ts, p) {
        Ok((l, q)) => {
            if ge_pos(ts, p, q) {
                lemma_or_tail(ts, q, l);
            } else {
                lemma_at(ts, p);
            }
        },
        Err(_) => {},
    }
}

proof fn lemma_or_tail(ts: Seq<SpannedModel>, p: int, lhs: ExprM)
    requires
        0 <= p < ts.len(),
    ensures
        well(ts, p_or_tail(ts, p, lhs)),
    decreases ts.len() - p, 18int,
{
    lemma_at(ts, p);
    match or_op(tok(ts, p)) {
        None => {},
        Some(op) => {
            let q = adv(ts, p);
            if gt_pos(ts, p, q) {
                lemma_and(ts, q);
                match p_and(ts, q) {
                    Ok((r, q2)) => {
                        if ge_pos(ts, q, q2) {
                            lemma_or_tail(ts, q2, ExprM::BinOp { op, lhs: Box::new(lhs), rhs: Box::new(r), span: span_at(ts, p) });
                        }
                    },
                    Err(_) => {},
                }
            }
        },
    }
}

proof fn lemma_and(ts: Seq<SpannedModel>, p: int)
    requires
        0 <= p < ts.len(),
    ensures
        well(ts, p_and(ts, p)),
    decreases ts.len() - p, 17int,
{
    lemma_comparison(ts, p);
    match p_comparison(ts, p) {
        Ok((l, q)) => {
            if ge_pos(ts, p, q) {
                lemma_and_tail(ts, q, l);
            } else {
                lemma_at(ts, p);
            }
        },
        Err(_) => {},
    }
}

proof fn lemma_and_tail(ts: Seq<SpannedModel>, p: int, lhs: ExprM)
    requires
        0 <= p < ts.len(),
    ensures
        well(ts, p_and_tail(ts, p, lhs)),
    decreases ts.len() - p, 16int,
{
    lemma_at(ts, p);
    match and_op(tok(ts, p)) {
        None => {},
        Some(op) => {
            let q = adv(ts, p);
            if gt_pos(ts, p, q) {
                lemma_comparison(ts, q);
                match p_comparison(ts, q) {
                    Ok((r, q2)) => {
                        if ge_pos(ts, q, q2) {
                            lemma_and_tail(ts, q2, ExprM::BinOp { op, lhs: Box::new(lhs), rhs: Box::new(r), span: span_at(ts, p) });
                        }
                    },
                    Err(_) => {},
                }
            }
        },
    }
}

proof fn lemma_comparison(ts: Seq<SpannedModel>, p: int)
    requires
        0 <= p < ts.len(),
    ensures
        well(ts, p_comparison(ts, p)),
    decreases ts.len() - p, 15int,
{
    lemma_add(ts, p);
    match p_add(ts, p) {
        Ok((l, q)) => {
            if ge_pos(ts, p, q) {
                lemma_comparison_tail(ts, q, l);
            } else {
                lemma_at(ts, p);
            }
        },
        Err(_) => {},
    }
}

proof fn lemma_comparison_tail(ts: Seq<SpannedModel>, p: int, lhs: ExprM)
    requires
        0 <= p < ts.len(),
    ensures
        well(ts, p_comparison_tail(ts, p, lhs)),
    decreases ts.len() - p, 14int,
{
    lemma_at(ts, p);
    match comparison_op(tok(ts, p)) {
        None => {},
        Some(op) => {
            let q = adv(ts, p);
            if gt_pos(ts, p, q) {
                lemma_add(ts, q);
                match p_add(ts, q) {
                    Ok((r, q2)) => {
                        if ge_pos(ts, q, q2) {
                            lemma_comparison_tail(ts, q2, ExprM::BinOp { op, lhs: Box::new(lhs), rhs: Box::new(r), span: span_at(ts, p) });
                        }
                    },
                    Err(_) => {},
                }
            }
        },
    }
}

#[verifier::rlimit(40)]
proof fn lemma_add(ts: Seq<SpannedModel>, p: int)
    requires
        0 <= p < ts.len(),
    ensures
        well(ts, p_add(ts, p)),
    decreases ts.len() - p, 13int,
{
    lemma_mul(ts, p);
    match p_mul(ts, p) {
        Ok((l, q)) => {
            if ge_pos(ts, p, q) {
                lemma_add_tail(ts, q, l);
            } else {
                lemma_at(ts, p);
            }
        },
        Err(_) => {},
    }
}

proof fn lemma_add_tail(ts: Seq<SpannedModel>, p: int, lhs: ExprM)
    requires
        0 <= p < ts.len(),
    ensures
        well(ts, p_add_tail(ts, p, lhs)),
    decreases ts.len() - p, 12int,
{
    lemma_at(ts, p);
    match add_op(tok(ts, p)) {
        None => {},
        Some(op) => {
            let q = adv(ts, p);
            if gt_pos(ts, p, q) {
                lemma_mul(ts, q);
                match p_mul(ts, q) {
                    Ok((r, q2)) => {
                        if ge_pos(ts, q, q2) {
                            lemma_add_tail(ts, q2, ExprM::BinOp { op, lhs: Box::new(lhs), rhs: Box::new(r), span: span_at(ts, p) });
                        }
                    },
                    Err(_) => {},
                }
            }
        },
    }
}

proof fn lemma_mul(ts: Seq<SpannedModel>, p: int)
    requires
        0 <= p < ts.len(),
    ensures
        well(ts, p_mul(ts, p)),
    decreases ts.len() - p, 11int,
{
    lemma_unary(ts, p);
    match p_unary(ts, p) {
        Ok((l, q)) => {
            if ge_pos(ts, p, q) {
                lemma_mul_tail(ts, q, l);
            } else {
                lemma_at(ts, p);
            }
        },
        Err(_) => {},
    }
}

proof fn lemma_mul_tail(ts: Seq<SpannedModel>, p: int, lhs: ExprM)
    requires
        0 <= p < ts.len(),
    ensures
        well(ts, p_mul_tail(ts, p, lhs)),
    decreases ts.len() - p, 10int,
{
    lemma_at(ts, p);
    match mul_op(tok(ts, p)) {
        None => {},
        Some(op) => {
            let q = adv(ts, p);
            if gt_pos(ts, p, q) {
                lemma_unary(ts, q);
                match p_unary(ts, q) {
                    Ok((r, q2)) => {
                        if ge_pos(ts, q, q2) {
                            lemma_mul_tail(ts, q2, ExprM::BinOp { op, lhs: Box::new(lhs), rhs: Box::new(r), span: span_at(ts, p) });
                        }
                    },
                    Err(_) => {},
                }
            }
        },
    }
}

proof fn lemma_unary(ts: Seq<SpannedModel>, p: int)
    requires
        0 <= p < ts.len(),
    ensures
        well(ts, p_unary(ts, p)),
    decreases ts.len() - p, 9int,
{
    lemma_at(ts, p);
    let op = if tok(ts, p) is KwNot { Some(crate::ast::UnOp::Not) } else if tok(ts, p) is OpMinus { Some(crate::ast::UnOp::Neg) } else { None };
    match op {
        Some(_) => {
            let q = adv(ts, p);
            if gt_pos(ts, p, q) {
                lemma_unary(ts, q);
            }
        },
        None => lemma_primary(ts, p),
    }
}

proof fn lemma_primary(ts: Seq<SpannedModel>, p: int)
    requires
        0 <= p < ts.len(),
    ensures
        well(ts, p_primary(ts, p)),
    decreases ts.len() - p, 8int,
{
    lemma_at(ts, p);
    let q = adv(ts, p);
    match tok(ts, p) {
        TokenOf::Ident(_) => {
            if tok(ts, q) is LParen && gt_pos(ts, p, q) {
                lemma_args(ts, q);
            }
        },
        TokenOf::LParen => {
            if gt_pos(ts, p, q) {
                lemma_expr(ts, q);
                match p_expr(ts, q) {
                    Ok((_, q2)) => lemma_expect(ts, q2, TokenOf::RParen),
                    Err(_) => {},
                }
            }
        },
        _ => {},
    }
}

proof fn lemma_args(ts: Seq<SpannedModel>, p: int)
    requires
        0 <= p < ts.len(),
    ensures
        well(ts, p_args(ts, p)),
    decreases ts.len() - p, 22int,
{
    lemma_expect(ts, p, TokenOf::LParen);
    lemma_at(ts, p);
    match p_expect(ts, p, TokenOf::LParen) {
        Ok((_, q)) => {
            if tok(ts, q) is RParen {
                lemma_expect(ts, q, TokenOf::RParen);
            } else if gt_pos(ts, p, q) {
                lemma_args_from(ts, q, Seq::empty());
            }
        },
        Err(_) => {},
    }
}

proof fn lemma_args_from(ts: Seq<SpannedModel>, p: int, acc: Seq<ExprM>)
    requires
        0 <= p < ts.len(),
    ensures
        well(ts, p_args_from(ts, p, acc)),
    decreases ts.len() - p, 21int,
{
    lemma_expr(ts, p);
    lemma_at(ts, p);
    match p_expr(ts, p) {
        Ok((e, q)) => {
            if tok(ts, q) is Comma {
                let q2 = adv(ts, q);
                if gt_pos(ts, p, q2) {
                    lemma_args_from(ts, q2, acc.push(e));
                }
            } else {
                lemma_expect(ts, q, TokenOf::RParen);
            }
        },
        Err(_) => {},
    }
}

proof fn lemma_block(ts: Seq<SpannedModel>, p: int, stop: Stop, acc: Seq<StmtM>)
    requires
        0 <= p < ts.len(),
    ensures
        well(ts, p_block(ts, p, stop, acc)),
    decreases ts.len() - p, 40int,
{
    lemma_skip_semis(ts, p);
    let q = skip_semis(ts, p);
    lemma_at(ts, q);
    if !(tok(ts, q) is Eof || crate::parser::is_stop(stop, tok(ts, q))) {
        lemma_stmt(ts, q);
        match p_stmt(ts, q) {
            Ok((s, q2)) => {
                if gt_pos(ts, q, q2) {
                    lemma_block(ts, q2, stop, acc.push(s));
                }
            },
            Err(_) => {},
        }
    }
}

proof fn lemma_stmt(ts: Seq<SpannedModel>, p: int)
    requires
        0 <= p < ts.len(),
    ensures
        well(ts, p_stmt(ts, p)),
    decreases ts.len() - p, 39int,
{
    lemma_at(ts, p);
    match tok(ts, p) {
        TokenOf::KwLocal => lemma_local(ts, p),
        TokenOf::KwIf => lemma_if(ts, p),
        TokenOf::KwWhile => lemma_while(ts, p),
        TokenOf::KwFor => lemma_for(ts, p),
        TokenOf::KwFunction => lemma_function(ts, p),
        TokenOf::KwReturn => lemma_return(ts, p),
        TokenOf::Ident(_) => lemma_ident_stmt(ts, p),
        _ => {},
    }
}

proof fn lemma_local(ts: Seq<SpannedModel>, p: int)
    requires
        0 <= p < ts.len(),
    ensures
        well(ts, p_local(ts, p)),
    decreases ts.len() - p, 38int,
{
    lemma_at(ts, p);
    lemma_expect_ident(ts, adv(ts, p), "após 'local'"@);
    match p_expect_ident(ts, adv(ts, p), "após 'local'"@) {
        Ok((_, q)) => {
            if tok(ts, q) is OpEq {
                let q2 = adv(ts, q);
                if gt_pos(ts, p, q2) {
                    lemma_expr(ts, q2);
                }
            }
        },
        Err(_) => {},
    }
}

proof fn lemma_if(ts: Seq<SpannedModel>, p: int)
    requires
        0 <= p < ts.len(),
    ensures
        well(ts, p_if(ts, p)),
    decreases ts.len() - p, 38int,
{
    lemma_at(ts, p);
    let q = adv(ts, p);
    if gt_pos(ts, p, q) {
        lemma_expr(ts, q);
        if let Ok((_, q1)) = p_expr(ts, q) {
            lemma_expect(ts, q1, TokenOf::KwThen);
            if let Ok((_, q2)) = p_expect(ts, q1, TokenOf::KwThen) {
                if gt_pos(ts, p, q2) {
                    lemma_block(ts, q2, Stop::Branch, Seq::empty());
                    if let Ok((_, q3)) = p_block(ts, q2, Stop::Branch, Seq::empty()) {
                        if gt_pos(ts, p, q3) {
                            lemma_elseifs(ts, q3, Seq::empty());
                            if let Ok((_, q4)) = p_elseifs(ts, q3, Seq::empty()) {
                                if tok(ts, q4) is KwElse {
                                    let q5 = adv(ts, q4);
                                    if gt_pos(ts, p, q5) {
                                        lemma_block(ts, q5, Stop::End, Seq::empty());
                                        if let Ok((_, q6)) = p_block(ts, q5, Stop::End, Seq::empty()) {
                                            lemma_expect(ts, q6, TokenOf::KwEnd);
                                        }
                                    }
                                } else {
                                    lemma_expect(ts, q4, TokenOf::KwEnd);
                                }
                            }
                        }
                    }
                }
            }
        }
    }
}

proof fn lemma_elseifs(ts: Seq<SpannedModel>, p: int, acc: Seq<ElseIfM>)
    requires
        0 <= p < ts.len(),
    ensures
        well(ts, p_elseifs(ts, p, acc)),
    decreases ts.len() - p, 37int,
{
    lemma_at(ts, p);
    if tok(ts, p) is KwElseif {
        let q = adv(ts, p);
        if gt_pos(ts, p, q) {
            lemma_expr(ts, q);
            if let Ok((cond, q1)) = p_expr(ts, q) {
                lemma_expect(ts, q1, TokenOf::KwThen);
                if let Ok((_, q2)) = p_expect(ts, q1, TokenOf::KwThen) {
                    if gt_pos(ts, p, q2) {
                        lemma_block(ts, q2, Stop::Branch, Seq::empty());
                        if let Ok((body, q3)) = p_block(ts, q2, Stop::Branch, Seq::empty()) {
                            if gt_pos(ts, p, q3) {
                                lemma_elseifs(ts, q3, acc.push(ElseIfM { cond, body }));
                            }
                        }
                    }
                }
            }
        }
    }
}

proof fn lemma_while(ts: Seq<SpannedModel>, p: int)
    requires
        0 <= p < ts.len(),
    ensures
        well(ts, p_while(ts, p)),
    decreases ts.len() - p, 38int,
{
    lemma_at(ts, p);
    let q = adv(ts, p);
    if gt_pos(ts, p, q) {
        lemma_expr(ts, q);
        if let Ok((_, q1)) = p_expr(ts, q) {
            lemma_expect(ts, q1, TokenOf::KwDo);
            if let Ok((_, q2)) = p_expect(ts, q1, TokenOf::KwDo) {
                if gt_pos(ts, p, q2) {
                    lemma_block(ts, q2, Stop::End, Seq::empty());
                    if let Ok((_, q3)) = p_block(ts, q2, Stop::End, Seq::empty()) {
                        lemma_expect(ts, q3, TokenOf::KwEnd);
                    }
                }
            }
        }
    }
}

proof fn lemma_for(ts: Seq<SpannedModel>, p: int)
    requires
        0 <= p < ts.len(),
    ensures
        well(ts, p_for(ts, p)),
    decreases ts.len() - p, 38int,
{
    lemma_at(ts, p);
    lemma_expect_ident(ts, adv(ts, p), "após 'for'"@);
    if let Ok((var, q1)) = p_expect_ident(ts, adv(ts, p), "após 'for'"@) {
        lemma_expect(ts, q1, TokenOf::OpEq);
        if let Ok((_, q2)) = p_expect(ts, q1, TokenOf::OpEq) {
            if gt_pos(ts, p, q2) {
                lemma_expr(ts, q2);
                if let Ok((start, q3)) = p_expr(ts, q2) {
                    lemma_expect(ts, q3, TokenOf::Comma);
                    if let Ok((_, q4)) = p_expect(ts, q3, TokenOf::Comma) {
                        if gt_pos(ts, p, q4) {
                            lemma_expr(ts, q4);
                            if let Ok((limit, q5)) = p_expr(ts, q4) {
                                let span = span_at(ts, p);
                                if tok(ts, q5) is Comma {
                                    let q6 = adv(ts, q5);
                                    if gt_pos(ts, p, q6) {
                                        lemma_expr(ts, q6);
                                        if let Ok((step, q7)) = p_expr(ts, q6) {
                                            if gt_pos(ts, p, q7) {
                                                lemma_for_body(ts, q7, var, start, limit, Some(step), span);
                                            }
                                        }
                                    }
                                } else if gt_pos(ts, p, q5) {
                                    lemma_for_body(ts, q5, var, start, limit, None, span);
                                }
                            }
                        }
                    }
                }
            }
        }
    }
}

proof fn lemma_for_body(
    ts: Seq<SpannedModel>,
    p: int,
    var: Seq<char>,
    start: ExprM,
    limit: ExprM,
    step: Option<ExprM>,
    span: Span,
)
    requires
        0 <= p < ts.len(),
    ensures
        well(ts, p_for_body(ts, p, var, start, limit, step, span)),
    decreases ts.len() - p, 37int,
{
    lemma_at(ts, p);
    lemma_expect(ts, p, TokenOf::KwDo);
    if let Ok((_, q)) = p_expect(ts, p, TokenOf::KwDo) {
        if gt_pos(ts, p, q) {
            lemma_block(ts, q, Stop::End, Seq::empty());
            if let Ok((_, q2)) = p_block(ts, q, Stop::End, Seq::empty()) {
                lemma_expect(ts, q2, TokenOf::KwEnd);
            }
        }
    }
}

proof fn lemma_function(ts: Seq<SpannedModel>, p: int)
    requires
        0 <= p < ts.len(),
    ensures
        well(ts, p_function(ts, p)),
    decreases ts.len() - p, 38int,
{
    lemma_at(ts, p);
    lemma_expect_ident(ts, adv(ts, p), "após 'function'"@);
    if let Ok((_, q1)) = p_expect_ident(ts, adv(ts, p), "após 'function'"@) {
        lemma_expect(ts, q1, TokenOf::LParen);
        if let Ok((_, q2)) = p_expect(ts, q1, TokenOf::LParen) {
            lemma_params(ts, q2);
            if let Ok((_, q3)) = p_params(ts, q2) {
                lemma_expect(ts, q3, TokenOf::RParen);
                if let Ok((_, q4)) = p_expect(ts, q3, TokenOf::RParen) {
                    if gt_pos(ts, p, q4) {
                        lemma_block(ts, q4, Stop::End, Seq::empty());
                        if let Ok((_, q5)) = p_block(ts, q4, Stop::End, Seq::empty()) {
                            lemma_expect(ts, q5, TokenOf::KwEnd);
                        }
                    }
                }
            }
        }
    }
}

proof fn lemma_return(ts: Seq<SpannedModel>, p: int)
    requires
        0 <= p < ts.len(),
    ensures
        well(ts, p_return(ts, p)),
    decreases ts.len() - p, 38int,
{
    lemma_at(ts, p);
    let q = adv(ts, p);
    if !crate::parser::ends_block(tok(ts, q)) && gt_pos(ts, p, q) {
        lemma_expr(ts, q);
    }
}

proof fn lemma_ident_stmt(ts: Seq<SpannedModel>, p: int)
    requires
        0 <= p < ts.len(),
    ensures
        well(ts, p_ident_stmt(ts, p)),
    decreases ts.len() - p, 38int,
{
    lemma_at(ts, p);
    lemma_expect_ident(ts, p, "no início de instrução"@);
    if let Ok((_, q)) = p_expect_ident(ts, p, "no início de instrução"@) {
        lemma_at(ts, q);
        match tok(ts, q) {
            TokenOf::OpEq => {
                let q1 = adv(ts, q);
                if gt_pos(ts, p, q1) {
                    lemma_expr(ts, q1);
                }
            },
            TokenOf::LParen => {
                if gt_pos(ts, p, q) {
                    lemma_args(ts, q);
                }
            },
            _ => {},
        }
    }
}

/// Every syntax error points at a token: its position is the line and column where
/// one of the source's tokens starts.
pub proof fn law_syntax_errors_point_at_tokens(src: Seq<char>)
    ensures
        parse_spec(src) matches Err(e) ==> exists|k: int|
            0 <= k < tokenize_spec(src).len() && #[trigger] span_at(tokenize_spec(src), k) == e.1,
{
    let ts = tokenize_spec(src);
    crate::lexer::law_tokenize_ends_with_single_eof(src);
    if ts.len() > 0 {
        lemma_block(ts, 0, Stop::Eof, Seq::empty());
        if let Ok((_, q)) = p_block(ts, 0, Stop::Eof, Seq::empty()) {
            lemma_at(ts, q);
        }
    }
}

} // verus!
