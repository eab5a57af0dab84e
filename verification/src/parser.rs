//! The recursive-descent parser: from tokens to a syntax tree allocated in arenas.
use vstd::prelude::*;
pub use typed_arena::Arena;
use crate::text::push_decimal;
use crate::token::{TokenOf, Token, TokenModel, SpannedModel, SpannedToken, token_text, tokens_view};
use crate::lexer::{Lexer, tokenize_spec, positions_fit};
use crate::ast::{
    binop_text, error_text, Span, BinOp, UnOp, Expr, ExprM, ElseIf, ElseIfM, Stmt, StmtM, exprs_model, stmts_model,
    elseifs_model, names_model, lemma_exprs_model_push, lemma_stmts_model_push,
    lemma_elseifs_model_push, lemma_names_model_push,
};

verus! {

// ── errors ──────────────────────────────────────────────────────────────────

/// A syntax error with the position of the token where it was found.
/// Written out as `erro[line:col]: <message>`.
#[derive(Debug, Clone, PartialEq)]
pub struct ParseError {
    pub message: String,
    pub span: Span,
}

/// The model of a syntax error: its message and position.
pub type ErrM = (Seq<char>, Span);

impl ParseError {
    pub open spec fn model(&self) -> ErrM {
        (self.message@, self.span)
    }

    /// The error as `erro[line:col]: message`.
    pub fn to_display_string(&self) -> (r: String)
        ensures
            r@ == error_text(self.message@, self.span),
    {
        let mut out = String::from_str("erro[");
        push_decimal(&mut out, self.span.line as u64);
        out.append(":");
        push_decimal(&mut out, self.span.col as u64);
        out.append("]: ");
        out.append(self.message.as_str());
        out
    }
}

/// The outcome of parsing one construct: what was read and the index of the next token.
pub type PRes<T> = Result<(T, int), ErrM>;

// ── tokens ──────────────────────────────────────────────────────────────────

/// A token list the parser can walk: it ends with `Eof`.
pub open spec fn wf_tokens(ts: Seq<SpannedModel>) -> bool {
    ts.len() > 0 && ts.last().node is Eof
}

/// The token at index `p`.
pub open spec fn tok(ts: Seq<SpannedModel>, p: int) -> TokenModel {
    ts[p].node
}

/// The position of the token at index `p`.
pub open spec fn span_at(ts: Seq<SpannedModel>, p: int) -> Span {
    Span { line: ts[p].line, col: ts[p].col }
}

/// The index after `p`; the parser never moves past the last token.
pub open spec fn adv(ts: Seq<SpannedModel>, p: int) -> int {
    if p + 1 < ts.len() { p + 1 } else { p }
}

/// Moving on never leaves the tokens: the parser steps to the next token and, on
/// the last one (the final `Eof`), stays there.
pub proof fn law_advance_stays_on_tokens(ts: Seq<SpannedModel>, p: int)
    requires
        0 <= p < ts.len(),
    ensures
        0 <= adv(ts, p) < ts.len(),
        p + 1 < ts.len() ==> adv(ts, p) == p + 1,
        p + 1 == ts.len() ==> adv(ts, p) == p,
{
}

/// `q` lies at or after `p`, within the tokens.
pub open spec fn ge_pos(ts: Seq<SpannedModel>, p: int, q: int) -> bool {
    p <= q < ts.len()
}

/// `q` lies strictly after `p`, within the tokens.
pub open spec fn gt_pos(ts: Seq<SpannedModel>, p: int, q: int) -> bool {
    p < q < ts.len()
}

/// The error given where parsing cannot move on (never reached on a list ending with `Eof`).
pub open spec fn stuck(ts: Seq<SpannedModel>, p: int) -> ErrM {
    ("token inesperado: `"@ + token_text(tok(ts, p)) + "`"@, span_at(ts, p))
}

/// Tokens that end a block.
#[derive(Clone, Copy)]
pub enum Stop {
    /// Only the end of input ends the block (the whole program).
    Eof,
    /// `elseif`, `else` or `end` (the branches of an `if`).
    Branch,
    /// `end`.
    End,
}

pub open spec fn is_stop(stop: Stop, t: TokenModel) -> bool {
    match stop {
        Stop::Eof => false,
        Stop::Branch => t is KwElseif || t is KwElse || t is KwEnd,
        Stop::End => t is KwEnd,
    }
}

/// The message of an unexpected token where `expected` was required.
pub open spec fn expected_message(expected: TokenModel, found: TokenModel) -> Seq<char> {
    "esperado `"@ + token_text(expected) + "`, encontrado `"@ + token_text(found) + "`"@
}

/// Requires `expected` at `p`: its position and the next index, or an error there.
pub open spec fn p_expect(ts: Seq<SpannedModel>, p: int, expected: TokenModel) -> Result<(Span, int), ErrM> {
    if tok(ts, p) == expected {
        Ok((span_at(ts, p), adv(ts, p)))
    } else {
        Err((expected_message(expected, tok(ts, p)), span_at(ts, p)))
    }
}

/// Requires a name at `p`; `ctx` says where, in the error message.
pub open spec fn p_expect_ident(ts: Seq<SpannedModel>, p: int, ctx: Seq<char>) -> PRes<Seq<char>> {
    match tok(ts, p) {
        TokenOf::Ident(n) => Ok((n, adv(ts, p))),
        other => Err(("esperado identificador "@ + ctx + ", encontrado `"@ + token_text(other) + "`"@, span_at(ts, p))),
    }
}

/// The index after the semicolons that start at `p`.
pub open spec fn skip_semis(ts: Seq<SpannedModel>, p: int) -> int
    decreases ts.len() - p,
{
    if 0 <= p && p + 1 < ts.len() && tok(ts, p) is Semicolon {
        skip_semis(ts, p + 1)
    } else {
        p
    }
}

pub proof fn lemma_skip_semis(ts: Seq<SpannedModel>, p: int)
    requires
        0 <= p < ts.len(),
    ensures
        p <= skip_semis(ts, p) < ts.len(),
    decreases ts.len() - p,
{
    if p + 1 < ts.len() && tok(ts, p) is Semicolon {
        lemma_skip_semis(ts, p + 1);
    }
}

/// The parameter names of a function, from `p` (just after `(`).
pub open spec fn p_params(ts: Seq<SpannedModel>, p: int) -> PRes<Seq<Seq<char>>> {
    if tok(ts, p) is RParen {
        Ok((Seq::empty(), p))
    } else {
        p_params_from(ts, p, Seq::empty())
    }
}

pub open spec fn p_params_from(ts: Seq<SpannedModel>, p: int, acc: Seq<Seq<char>>) -> PRes<Seq<Seq<char>>>
    decreases ts.len() - p,
{
    match p_expect_ident(ts, p, "na lista de parâmetros"@) {
        Err(e) => Err(e),
        Ok((n, q)) => {
            if tok(ts, q) is Comma {
                let q2 = adv(ts, q);
                if gt_pos(ts, p, q2) { p_params_from(ts, q2, acc.push(n)) } else { Err(stuck(ts, q2)) }
            } else {
                Ok((acc.push(n), q))
            }
        },
    }
}

/// Operators of the comparison level.
pub open spec fn comparison_op(t: TokenModel) -> Option<BinOp> {
    match t {
        TokenOf::OpEqEq => Some(BinOp::Eq),
        TokenOf::OpTildeEq => Some(BinOp::Ne),
        TokenOf::OpLt => Some(BinOp::Lt),
        TokenOf::OpLtEq => Some(BinOp::Le),
        TokenOf::OpGt => Some(BinOp::Gt),
        TokenOf::OpGtEq => Some(BinOp::Ge),
        _ => None,
    }
}

/// Operators of the additive level.
pub open spec fn add_op(t: TokenModel) -> Option<BinOp> {
    match t {
        TokenOf::OpPlus => Some(BinOp::Add),
        TokenOf::OpMinus => Some(BinOp::Sub),
        _ => None,
    }
}

/// Operators of the multiplicative level.
pub open spec fn mul_op(t: TokenModel) -> Option<BinOp> {
    match t {
        TokenOf::OpStar => Some(BinOp::Mul),
        TokenOf::OpSlash => Some(BinOp::Div),
        TokenOf::OpPercent => Some(BinOp::Mod),
        _ => None,
    }
}

/// `or` operators (the loosest level).
pub open spec fn or_op(t: TokenModel) -> Option<BinOp> {
    if t is KwOr { Some(BinOp::Or) } else { None }
}

/// `and` operators.
pub open spec fn and_op(t: TokenModel) -> Option<BinOp> {
    if t is KwAnd { Some(BinOp::And) } else { None }
}

/// Every binary operator the parser reads is the one its token spells: at each level
/// of precedence, the operator's Lua text is the text of the token it was read from.
pub proof fn law_operators_are_spelled_by_their_tokens(t: TokenModel)
    ensures
        or_op(t) matches Some(op) ==> binop_text(op) == token_text(t),
        and_op(t) matches Some(op) ==> binop_text(op) == token_text(t),
        comparison_op(t) matches Some(op) ==> binop_text(op) == token_text(t),
        add_op(t) matches Some(op) ==> binop_text(op) == token_text(t),
        mul_op(t) matches Some(op) ==> binop_text(op) == token_text(t),
{
}

// ── the grammar ─────────────────────────────────────────────────────────────
//
// Expressions, from the loosest level to the tightest:
//   or → and → comparison → additive → multiplicative → unary → primary.
// Each binary level is left-associative: `a - b - c` is `(a - b) - c`.

/// An expression from `p`.
pub open spec fn p_expr(ts: Seq<SpannedModel>, p: int) -> PRes<ExprM>
    decreases ts.len() - p, 20int,
    when 0 <= p < ts.len()
{
    p_or(ts, p)
}

pub open spec fn p_or(ts: Seq<SpannedModel>, p: int) -> PRes<ExprM>
    decreases ts.len() - p, 19int,
    when 0 <= p < ts.len()
{
    match p_and(ts, p) {
        Err(e) => Err(e),
        Ok((l, q)) => if ge_pos(ts, p, q) { p_or_tail(ts, q, l) } else { Err(stuck(ts, p)) },
    }
}

pub open spec fn p_or_tail(ts: Seq<SpannedModel>, p: int, lhs: ExprM) -> PRes<ExprM>
    decreases ts.len() - p, 18int,
    when 0 <= p < ts.len()
{
    match or_op(tok(ts, p)) {
        None => Ok((lhs, p)),
        Some(op) => {
            let q = adv(ts, p);
            if gt_pos(ts, p, q) {
                match p_and(ts, q) {
                    Err(e) => Err(e),
                    Ok((r, q2)) => if ge_pos(ts, q, q2) {
                        p_or_tail(ts, q2, ExprM::BinOp { op, lhs: Box::new(lhs), rhs: Box::new(r), span: span_at(ts, p) })
                    } else {
                        Err(stuck(ts, p))
                    },
                }
            } else {
                Err(stuck(ts, p))
            }
        },
    }
}

pub open spec fn p_and(ts: Seq<SpannedModel>, p: int) -> PRes<ExprM>
    decreases ts.len() - p, 17int,
    when 0 <= p < ts.len()
{
    match p_comparison(ts, p) {
        Err(e) => Err(e),
        Ok((l, q)) => if ge_pos(ts, p, q) { p_and_tail(ts, q, l) } else { Err(stuck(ts, p)) },
    }
}

pub open spec fn p_and_tail(ts: Seq<SpannedModel>, p: int, lhs: ExprM) -> PRes<ExprM>
    decreases ts.len() - p, 16int,
    when 0 <= p < ts.len()
{
    match and_op(tok(ts, p)) {
        None => Ok((lhs, p)),
        Some(op) => {
            let q = adv(ts, p);
            if gt_pos(ts, p, q) {
                match p_comparison(ts, q) {
                    Err(e) => Err(e),
                    Ok((r, q2)) => if ge_pos(ts, q, q2) {
                        p_and_tail(ts, q2, ExprM::BinOp { op, lhs: Box::new(lhs), rhs: Box::new(r), span: span_at(ts, p) })
                    } else {
                        Err(stuck(ts, p))
                    },
                }
            } else {
                Err(stuck(ts, p))
            }
        },
    }
}

pub open spec fn p_comparison(ts: Seq<SpannedModel>, p: int) -> PRes<ExprM>
    decreases ts.len() - p, 15int,
    when 0 <= p < ts.len()
{
    match p_add(ts, p) {
        Err(e) => Err(e),
        Ok((l, q)) => if ge_pos(ts, p, q) { p_comparison_tail(ts, q, l) } else { Err(stuck(ts, p)) },
    }
}

pub open spec fn p_comparison_tail(ts: Seq<SpannedModel>, p: int, lhs: ExprM) -> PRes<ExprM>
    decreases ts.len() - p, 14int,
    when 0 <= p < ts.len()
{
    match comparison_op(tok(ts, p)) {
        None => Ok((lhs, p)),
        Some(op) => {
            let q = adv(ts, p);
            if gt_pos(ts, p, q) {
                match p_add(ts, q) {
                    Err(e) => Err(e),
                    Ok((r, q2)) => if ge_pos(ts, q, q2) {
                        p_comparison_tail(ts, q2, ExprM::BinOp { op, lhs: Box::new(lhs), rhs: Box::new(r), span: span_at(ts, p) })
                    } else {
                        Err(stuck(ts, p))
                    },
                }
            } else {
                Err(stuck(ts, p))
            }
        },
    }
}

pub open spec fn p_add(ts: Seq<SpannedModel>, p: int) -> PRes<ExprM>
    decreases ts.len() - p, 13int,
    when 0 <= p < ts.len()
{
    match p_mul(ts, p) {
        Err(e) => Err(e),
        Ok((l, q)) => if ge_pos(ts, p, q) { p_add_tail(ts, q, l) } else { Err(stuck(ts, p)) },
    }
}

pub open spec fn p_add_tail(ts: Seq<SpannedModel>, p: int, lhs: ExprM) -> PRes<ExprM>
    decreases ts.len() - p, 12int,
    when 0 <= p < ts.len()
{
    match add_op(tok(ts, p)) {
        None => Ok((lhs, p)),
        Some(op) => {
            let q = adv(ts, p);
            if gt_pos(ts, p, q) {
                match p_mul(ts, q) {
                    Err(e) => Err(e),
                    Ok((r, q2)) => if ge_pos(ts, q, q2) {
                        p_add_tail(ts, q2, ExprM::BinOp { op, lhs: Box::new(lhs), rhs: Box::new(r), span: span_at(ts, p) })
                    } else {
                        Err(stuck(ts, p))
                    },
                }
            } else {
                Err(stuck(ts, p))
            }
        },
    }
}

pub open spec fn p_mul(ts: Seq<SpannedModel>, p: int) -> PRes<ExprM>
    decreases ts.len() - p, 11int,
    when 0 <= p < ts.len()
{
    match p_unary(ts, p) {
        Err(e) => Err(e),
        Ok((l, q)) => if ge_pos(ts, p, q) { p_mul_tail(ts, q, l) } else { Err(stuck(ts, p)) },
    }
}

pub open spec fn p_mul_tail(ts: Seq<SpannedModel>, p: int, lhs: ExprM) -> PRes<ExprM>
    decreases ts.len() - p, 10int,
    when 0 <= p < ts.len()
{
    match mul_op(tok(ts, p)) {
        None => Ok((lhs, p)),
        Some(op) => {
            let q = adv(ts, p);
            if gt_pos(ts, p, q) {
                match p_unary(ts, q) {
                    Err(e) => Err(e),
                    Ok((r, q2)) => if ge_pos(ts, q, q2) {
                        p_mul_tail(ts, q2, ExprM::BinOp { op, lhs: Box::new(lhs), rhs: Box::new(r), span: span_at(ts, p) })
                    } else {
                        Err(stuck(ts, p))
                    },
                }
            } else {
                Err(stuck(ts, p))
            }
        },
    }
}

/// `not` and unary `-`, which nest to the right.
pub open spec fn p_unary(ts: Seq<SpannedModel>, p: int) -> PRes<ExprM>
    decreases ts.len() - p, 9int,
    when 0 <= p < ts.len()
{
    let span = span_at(ts, p);
    let op = if tok(ts, p) is KwNot { Some(UnOp::Not) } else if tok(ts, p) is OpMinus { Some(UnOp::Neg) } else { None };
    match op {
        Some(op) => {
            let q = adv(ts, p);
            if gt_pos(ts, p, q) {
                match p_unary(ts, q) {
                    Err(e) => Err(e),
                    Ok((o, q2)) => Ok((ExprM::UnOp { op, operand: Box::new(o), span }, q2)),
                }
            } else {
                Err(stuck(ts, p))
            }
        },
        None => p_primary(ts, p),
    }
}

/// Literals, names, calls and parenthesised expressions.
pub open spec fn p_primary(ts: Seq<SpannedModel>, p: int) -> PRes<ExprM>
    decreases ts.len() - p, 8int,
    when 0 <= p < ts.len()
{
    let span = span_at(ts, p);
    let q = adv(ts, p);
    match tok(ts, p) {
        TokenOf::LitInt(n) => Ok((ExprM::LitInt(n, span), q)),
        TokenOf::LitFloat(v) => Ok((ExprM::LitFloat(v, span), q)),
        TokenOf::LitStr(s) => Ok((ExprM::LitStr(s, span), q)),
        TokenOf::KwTrue => Ok((ExprM::LitBool(true, span), q)),
        TokenOf::KwFalse => Ok((ExprM::LitBool(false, span), q)),
        TokenOf::KwNil => Ok((ExprM::Nil(span), q)),
        TokenOf::Ident(name) => {
            if tok(ts, q) is LParen {
                if gt_pos(ts, p, q) {
                    match p_args(ts, q) {
                        Err(e) => Err(e),
                        Ok((args, q2)) => Ok((ExprM::Call { name, args, span }, q2)),
                    }
                } else {
                    Err(stuck(ts, p))
                }
            } else {
                Ok((ExprM::Var(name, span), q))
            }
        },
        TokenOf::LParen => {
            if gt_pos(ts, p, q) {
                match p_expr(ts, q) {
                    Err(e) => Err(e),
                    Ok((inner, q2)) => match p_expect(ts, q2, TokenOf::RParen) {
                        Err(e) => Err(e),
                        Ok((_, q3)) => Ok((inner, q3)),
                    },
                }
            } else {
                Err(stuck(ts, p))
            }
        },
        other => Err(("expressão inválida: `"@ + token_text(other) + "`"@, span)),
    }
}

/// A parenthesised argument list from `p` (at the `(`).
pub open spec fn p_args(ts: Seq<SpannedModel>, p: int) -> PRes<Seq<ExprM>>
    decreases ts.len() - p, 22int,
    when 0 <= p < ts.len()
{
    match p_expect(ts, p, TokenOf::LParen) {
        Err(e) => Err(e),
        Ok((_, q)) => {
            if tok(ts, q) is RParen {
                match p_expect(ts, q, TokenOf::RParen) {
                    Err(e) => Err(e),
                    Ok((_, q2)) => Ok((Seq::empty(), q2)),
                }
            } else if gt_pos(ts, p, q) {
                p_args_from(ts, q, Seq::empty())
            } else {
                Err(stuck(ts, p))
            }
        },
    }
}

/// Arguments from `p`, after `acc`, up to and including the `)`.
pub open spec fn p_args_from(ts: Seq<SpannedModel>, p: int, acc: Seq<ExprM>) -> PRes<Seq<ExprM>>
    decreases ts.len() - p, 21int,
    when 0 <= p < ts.len()
{
    match p_expr(ts, p) {
        Err(e) => Err(e),
        Ok((e, q)) => {
            if tok(ts, q) is Comma {
                let q2 = adv(ts, q);
                if gt_pos(ts, p, q2) { p_args_from(ts, q2, acc.push(e)) } else { Err(stuck(ts, p)) }
            } else {
                match p_expect(ts, q, TokenOf::RParen) {
                    Err(err) => Err(err),
                    Ok((_, q2)) => Ok((acc.push(e), q2)),
                }
            }
        },
    }
}

/// The statements of a block from `p`, after `acc`, up to a token of `stop` or the end
/// of input (not consumed); semicolons between statements are skipped.
pub open spec fn p_block(ts: Seq<SpannedModel>, p: int, stop: Stop, acc: Seq<StmtM>) -> PRes<Seq<StmtM>>
    decreases ts.len() - p, 40int,
    when 0 <= p < ts.len()
{
    proof {
        lemma_skip_semis(ts, p);
    }
    let q = skip_semis(ts, p);
    if tok(ts, q) is Eof || is_stop(stop, tok(ts, q)) {
        Ok((acc, q))
    } else {
        match p_stmt(ts, q) {
            Err(e) => Err(e),
            Ok((s, q2)) => if gt_pos(ts, q, q2) { p_block(ts, q2, stop, acc.push(s)) } else { Err(stuck(ts, q)) },
        }
    }
}

/// A statement from `p`.
pub open spec fn p_stmt(ts: Seq<SpannedModel>, p: int) -> PRes<StmtM>
    decreases ts.len() - p, 39int,
    when 0 <= p < ts.len()
{
    match tok(ts, p) {
        TokenOf::KwLocal => p_local(ts, p),
        TokenOf::KwIf => p_if(ts, p),
        TokenOf::KwWhile => p_while(ts, p),
        TokenOf::KwFor => p_for(ts, p),
        TokenOf::KwFunction => p_function(ts, p),
        TokenOf::KwReturn => p_return(ts, p),
        TokenOf::Ident(_) => p_ident_stmt(ts, p),
        other => Err(("instrução inválida: `"@ + token_text(other) + "`"@, span_at(ts, p))),
    }
}

/// `local name [= expr]`.
pub open spec fn p_local(ts: Seq<SpannedModel>, p: int) -> PRes<StmtM>
    decreases ts.len() - p, 38int,
    when 0 <= p < ts.len()
{
    let span = span_at(ts, p);
    match p_expect_ident(ts, adv(ts, p), "após 'local'"@) {
        Err(e) => Err(e),
        Ok((name, q)) => {
            if tok(ts, q) is OpEq {
                let q2 = adv(ts, q);
                if gt_pos(ts, p, q2) {
                    match p_expr(ts, q2) {
                        Err(e) => Err(e),
                        Ok((e, q3)) => Ok((StmtM::Local { name, init: Some(e), span }, q3)),
                    }
                } else {
                    Err(stuck(ts, p))
                }
            } else {
                Ok((StmtM::Local { name, init: None, span }, q))
            }
        },
    }
}

/// `if cond then block {elseif cond then block} [else block] end`.
pub open spec fn p_if(ts: Seq<SpannedModel>, p: int) -> PRes<StmtM>
    decreases ts.len() - p, 38int,
    when 0 <= p < ts.len()
{
    let span = span_at(ts, p);
    let q = adv(ts, p);
    if !gt_pos(ts, p, q) {
        Err(stuck(ts, p))
    } else {
        match p_expr(ts, q) {
            Err(e) => Err(e),
            Ok((cond, q1)) => match p_expect(ts, q1, TokenOf::KwThen) {
                Err(e) => Err(e),
                Ok((_, q2)) => if !gt_pos(ts, p, q2) {
                    Err(stuck(ts, p))
                } else {
                    match p_block(ts, q2, Stop::Branch, Seq::empty()) {
                        Err(e) => Err(e),
                        Ok((then_body, q3)) => if !gt_pos(ts, p, q3) {
                            Err(stuck(ts, p))
                        } else {
                            match p_elseifs(ts, q3, Seq::empty()) {
                                Err(e) => Err(e),
                                Ok((elseif_clauses, q4)) => if tok(ts, q4) is KwElse {
                                    let q5 = adv(ts, q4);
                                    if !gt_pos(ts, p, q5) {
                                        Err(stuck(ts, p))
                                    } else {
                                        match p_block(ts, q5, Stop::End, Seq::empty()) {
                                            Err(e) => Err(e),
                                            Ok((else_body, q6)) => match p_expect(ts, q6, TokenOf::KwEnd) {
                                                Err(e) => Err(e),
                                                Ok((_, q7)) => Ok((StmtM::If { cond, then_body, elseif_clauses, else_body: Some(else_body), span }, q7)),
                                            },
                                        }
                                    }
                                } else {
                                    match p_expect(ts, q4, TokenOf::KwEnd) {
                                        Err(e) => Err(e),
                                        Ok((_, q5)) => Ok((StmtM::If { cond, then_body, elseif_clauses, else_body: None, span }, q5)),
                                    }
                                },
                            }
                        },
                    }
                },
            },
        }
    }
}

/// The `elseif` clauses from `p`, after `acc`.
pub open spec fn p_elseifs(ts: Seq<SpannedModel>, p: int, acc: Seq<ElseIfM>) -> PRes<Seq<ElseIfM>>
    decreases ts.len() - p, 37int,
    when 0 <= p < ts.len()
{
    if !(tok(ts, p) is KwElseif) {
        Ok((acc, p))
    } else {
        let q = adv(ts, p);
        if !gt_pos(ts, p, q) {
            Err(stuck(ts, p))
        } else {
            match p_expr(ts, q) {
                Err(e) => Err(e),
                Ok((cond, q1)) => match p_expect(ts, q1, TokenOf::KwThen) {
                    Err(e) => Err(e),
                    Ok((_, q2)) => if !gt_pos(ts, p, q2) {
                        Err(stuck(ts, p))
                    } else {
                        match p_block(ts, q2, Stop::Branch, Seq::empty()) {
                            Err(e) => Err(e),
                            Ok((body, q3)) => if !gt_pos(ts, p, q3) {
                                Err(stuck(ts, p))
                            } else {
                                p_elseifs(ts, q3, acc.push(ElseIfM { cond, body }))
                            },
                        }
                    },
                },
            }
        }
    }
}

/// `while cond do block end`.
pub open spec fn p_while(ts: Seq<SpannedModel>, p: int) -> PRes<StmtM>
    decreases ts.len() - p, 38int,
    when 0 <= p < ts.len()
{
    let span = span_at(ts, p);
    let q = adv(ts, p);
    if !gt_pos(ts, p, q) {
        Err(stuck(ts, p))
    } else {
        match p_expr(ts, q) {
            Err(e) => Err(e),
            Ok((cond, q1)) => match p_expect(ts, q1, TokenOf::KwDo) {
                Err(e) => Err(e),
                Ok((_, q2)) => if !gt_pos(ts, p, q2) {
                    Err(stuck(ts, p))
                } else {
                    match p_block(ts, q2, Stop::End, Seq::empty()) {
                        Err(e) => Err(e),
                        Ok((body, q3)) => match p_expect(ts, q3, TokenOf::KwEnd) {
                            Err(e) => Err(e),
                            Ok((_, q4)) => Ok((StmtM::While { cond, body, span }, q4)),
                        },
                    }
                },
            },
        }
    }
}

/// `for var = start, limit [, step] do block end`.
pub open spec fn p_for(ts: Seq<SpannedModel>, p: int) -> PRes<StmtM>
    decreases ts.len() - p, 38int,
    when 0 <= p < ts.len()
{
    let span = span_at(ts, p);
    match p_expect_ident(ts, adv(ts, p), "após 'for'"@) {
        Err(e) => Err(e),
        Ok((var, q1)) => match p_expect(ts, q1, TokenOf::OpEq) {
            Err(e) => Err(e),
            Ok((_, q2)) => if !gt_pos(ts, p, q2) {
                Err(stuck(ts, p))
            } else {
                match p_expr(ts, q2) {
                    Err(e) => Err(e),
                    Ok((start, q3)) => match p_expect(ts, q3, TokenOf::Comma) {
                        Err(e) => Err(e),
                        Ok((_, q4)) => if !gt_pos(ts, p, q4) {
                            Err(stuck(ts, p))
                        } else {
                            match p_expr(ts, q4) {
                                Err(e) => Err(e),
                                Ok((limit, q5)) => if tok(ts, q5) is Comma {
                                    let q6 = adv(ts, q5);
                                    if !gt_pos(ts, p, q6) {
                                        Err(stuck(ts, p))
                                    } else {
                                        match p_expr(ts, q6) {
                                            Err(e) => Err(e),
                                            Ok((step, q7)) => if !gt_pos(ts, p, q7) {
                                                Err(stuck(ts, p))
                                            } else {
                                                p_for_body(ts, q7, var, start, limit, Some(step), span)
                                            },
                                        }
                                    }
                                } else if !gt_pos(ts, p, q5) {
                                    Err(stuck(ts, p))
                                } else {
                                    p_for_body(ts, q5, var, start, limit, None, span)
                                },
                            }
                        },
                    },
                }
            },
        },
    }
}

/// `do block end` of a numeric `for`, from `p`.
pub open spec fn p_for_body(
    ts: Seq<SpannedModel>,
    p: int,
    var: Seq<char>,
    start: ExprM,
    limit: ExprM,
    step: Option<ExprM>,
    span: Span,
) -> PRes<StmtM>
    decreases ts.len() - p, 37int,
    when 0 <= p < ts.len()
{
    match p_expect(ts, p, TokenOf::KwDo) {
        Err(e) => Err(e),
        Ok((_, q)) => if !gt_pos(ts, p, q) {
            Err(stuck(ts, p))
        } else {
            match p_block(ts, q, Stop::End, Seq::empty()) {
                Err(e) => Err(e),
                Ok((body, q2)) => match p_expect(ts, q2, TokenOf::KwEnd) {
                    Err(e) => Err(e),
                    Ok((_, q3)) => Ok((StmtM::NumFor { var, start, limit, step, body, span }, q3)),
                },
            }
        },
    }
}

/// `function name(params) block end`.
pub open spec fn p_function(ts: Seq<SpannedModel>, p: int) -> PRes<StmtM>
    decreases ts.len() - p, 38int,
    when 0 <= p < ts.len()
{
    let span = span_at(ts, p);
    match p_expect_ident(ts, adv(ts, p), "após 'function'"@) {
        Err(e) => Err(e),
        Ok((name, q1)) => match p_expect(ts, q1, TokenOf::LParen) {
            Err(e) => Err(e),
            Ok((_, q2)) => match p_params(ts, q2) {
                Err(e) => Err(e),
                Ok((params, q3)) => match p_expect(ts, q3, TokenOf::RParen) {
                    Err(e) => Err(e),
                    Ok((_, q4)) => if !gt_pos(ts, p, q4) {
                        Err(stuck(ts, p))
                    } else {
                        match p_block(ts, q4, Stop::End, Seq::empty()) {
                            Err(e) => Err(e),
                            Ok((body, q5)) => match p_expect(ts, q5, TokenOf::KwEnd) {
                                Err(e) => Err(e),
                                Ok((_, q6)) => Ok((StmtM::Function { name, params, body, span }, q6)),
                            },
                        }
                    },
                },
            },
        },
    }
}

/// Tokens after which `return` carries no value.
pub open spec fn ends_block(t: TokenModel) -> bool {
    t is KwEnd || t is KwElse || t is KwElseif || t is Semicolon || t is Eof
}

/// `return [expr]`: no value when the block ends right after it.
pub open spec fn p_return(ts: Seq<SpannedModel>, p: int) -> PRes<StmtM>
    decreases ts.len() - p, 38int,
    when 0 <= p < ts.len()
{
    let span = span_at(ts, p);
    let q = adv(ts, p);
    if ends_block(tok(ts, q)) {
        Ok((StmtM::Return { value: None, span }, q))
    } else if !gt_pos(ts, p, q) {
        Err(stuck(ts, p))
    } else {
        match p_expr(ts, q) {
            Err(e) => Err(e),
            Ok((e, q1)) => Ok((StmtM::Return { value: Some(e), span }, q1)),
        }
    }
}

/// `name = expr` or `name(args)`.
pub open spec fn p_ident_stmt(ts: Seq<SpannedModel>, p: int) -> PRes<StmtM>
    decreases ts.len() - p, 38int,
    when 0 <= p < ts.len()
{
    let span = span_at(ts, p);
    match p_expect_ident(ts, p, "no início de instrução"@) {
        Err(e) => Err(e),
        Ok((name, q)) => match tok(ts, q) {
            TokenOf::OpEq => {
                let q1 = adv(ts, q);
                if !gt_pos(ts, p, q1) {
                    Err(stuck(ts, p))
                } else {
                    match p_expr(ts, q1) {
                        Err(e) => Err(e),
                        Ok((value, q2)) => Ok((StmtM::Assign { name, value, span }, q2)),
                    }
                }
            },
            TokenOf::LParen => if !gt_pos(ts, p, q) {
                Err(stuck(ts, p))
            } else {
                match p_args(ts, q) {
                    Err(e) => Err(e),
                    Ok((args, q1)) => Ok((StmtM::Call { name, args, span }, q1)),
                }
            },
            other => Err((
                "esperado '=' ou '(' após '"@ + name + "', encontrado `"@ + token_text(other) + "`"@,
                span_at(ts, q),
            )),
        },
    }
}

/// A whole program: its top-level statements, up to the end of input.
pub open spec fn parse_tokens(ts: Seq<SpannedModel>) -> Result<Seq<StmtM>, ErrM> {
    if ts.len() == 0 {
        Err(("entrada vazia"@, Span { line: 0, col: 0 }))
    } else {
        match p_block(ts, 0, Stop::Eof, Seq::empty()) {
            Err(e) => Err(e),
            Ok((block, q)) => if tok(ts, q) is Eof {
                Ok(block)
            } else {
                Err(("token inesperado: `"@ + token_text(tok(ts, q)) + "`"@, span_at(ts, q)))
            },
        }
    }
}

/// What `parse` gives for a source text.
pub open spec fn parse_spec(src: Seq<char>) -> Result<Seq<StmtM>, ErrM> {
    parse_tokens(tokenize_spec(src))
}

// ── the parser ──────────────────────────────────────────────────────────────

/// `typed_arena::Arena`: an allocator whose values live as long as the arena.
#[verifier::external_type_specification]
#[verifier::external_body]
#[verifier::reject_recursive_types(T)]
pub struct ExArena<T>(Arena<T>);

/// `Arena::alloc`: moves `value` into the arena and hands back a reference to it that
/// lives as long as the arena; the value behind it is `value`. Nothing is said of
/// running out of memory when the arena grows a new chunk, which is the only way the
/// call can fail.
#[verifier::external_body]
fn arena_alloc<'a, T>(arena: &'a Arena<T>, value: T) -> (r: &'a T)
    ensures
        *r == value,
{
    arena.alloc(value)
}

/// Whether two tokens are the same token.
fn token_eq(a: &Token, b: &Token) -> (r: bool)
    ensures
        r == (a@ == b@),
{
    match a {
        TokenOf::KwIf => matches!(b, TokenOf::KwIf),
        TokenOf::KwThen => matches!(b, TokenOf::KwThen),
        TokenOf::KwElse => matches!(b, TokenOf::KwElse),
        TokenOf::KwElseif => matches!(b, TokenOf::KwElseif),
        TokenOf::KwEnd => matches!(b, TokenOf::KwEnd),
        TokenOf::KwWhile => matches!(b, TokenOf::KwWhile),
        TokenOf::KwDo => matches!(b, TokenOf::KwDo),
        TokenOf::KwFor => matches!(b, TokenOf::KwFor),
        TokenOf::KwLocal => matches!(b, TokenOf::KwLocal),
        TokenOf::KwFunction => matches!(b, TokenOf::KwFunction),
        TokenOf::KwReturn => matches!(b, TokenOf::KwReturn),
        TokenOf::KwTrue => matches!(b, TokenOf::KwTrue),
        TokenOf::KwFalse => matches!(b, TokenOf::KwFalse),
        TokenOf::KwNil => matches!(b, TokenOf::KwNil),
        TokenOf::KwAnd => matches!(b, TokenOf::KwAnd),
        TokenOf::KwOr => matches!(b, TokenOf::KwOr),
        TokenOf::KwNot => matches!(b, TokenOf::KwNot),
        TokenOf::OpPlus => matches!(b, TokenOf::OpPlus),
        TokenOf::OpMinus => matches!(b, TokenOf::OpMinus),
        TokenOf::OpStar => matches!(b, TokenOf::OpStar),
        TokenOf::OpSlash => matches!(b, TokenOf::OpSlash),
        TokenOf::OpPercent => matches!(b, TokenOf::OpPercent),
        TokenOf::OpEqEq => matches!(b, TokenOf::OpEqEq),
        TokenOf::OpTildeEq => matches!(b, TokenOf::OpTildeEq),
        TokenOf::OpLt => matches!(b, TokenOf::OpLt),
        TokenOf::OpLtEq => matches!(b, TokenOf::OpLtEq),
        TokenOf::OpGt => matches!(b, TokenOf::OpGt),
        TokenOf::OpGtEq => matches!(b, TokenOf::OpGtEq),
        TokenOf::OpEq => matches!(b, TokenOf::OpEq),
        TokenOf::LParen => matches!(b, TokenOf::LParen),
        TokenOf::RParen => matches!(b, TokenOf::RParen),
        TokenOf::Comma => matches!(b, TokenOf::Comma),
        TokenOf::Semicolon => matches!(b, TokenOf::Semicolon),
        TokenOf::Eof => matches!(b, TokenOf::Eof),
        TokenOf::LitInt(x) => match b {
            TokenOf::LitInt(y) => *x == *y,
            _ => false,
        },
        TokenOf::LitFloat(x) => match b {
            TokenOf::LitFloat(y) => *x == *y,
            _ => false,
        },
        TokenOf::LitStr(x) => match b {
            TokenOf::LitStr(y) => *x == *y,
            _ => false,
        },
        TokenOf::Ident(x) => match b {
            TokenOf::Ident(y) => *x == *y,
            _ => false,
        },
        TokenOf::Unknown(x) => match b {
            TokenOf::Unknown(y) => *x == *y,
            _ => false,
        },
    }
}

/// The exec result `r`, with the parser now at `pos`, is the modelled outcome `s`.
pub open spec fn expr_outcome<'a>(r: Result<&'a Expr<'a>, ParseError>, s: PRes<ExprM>, pos: int) -> bool {
    match s {
        Ok((e, q)) => r matches Ok(x) && x.model() == e && pos == q,
        Err(err) => r matches Err(x) && x.model() == err,
    }
}

pub open spec fn stmt_outcome<'a>(r: Result<&'a Stmt<'a>, ParseError>, s: PRes<StmtM>, pos: int) -> bool {
    match s {
        Ok((st, q)) => r matches Ok(x) && x.model() == st && pos == q,
        Err(err) => r matches Err(x) && x.model() == err,
    }
}

pub open spec fn stmt_value_outcome<'a>(r: Result<Stmt<'a>, ParseError>, s: PRes<StmtM>, pos: int) -> bool {
    match s {
        Ok((st, q)) => r matches Ok(x) && x.model() == st && pos == q,
        Err(err) => r matches Err(x) && x.model() == err,
    }
}

pub open spec fn block_outcome<'a>(r: Result<Vec<&'a Stmt<'a>>, ParseError>, s: PRes<Seq<StmtM>>, pos: int) -> bool {
    match s {
        Ok((b, q)) => r matches Ok(x) && stmts_model(x@) == b && pos == q,
        Err(err) => r matches Err(x) && x.model() == err,
    }
}

pub open spec fn args_outcome<'a>(r: Result<Vec<&'a Expr<'a>>, ParseError>, s: PRes<Seq<ExprM>>, pos: int) -> bool {
    match s {
        Ok((b, q)) => r matches Ok(x) && exprs_model(x@) == b && pos == q,
        Err(err) => r matches Err(x) && x.model() == err,
    }
}

pub open spec fn name_outcome(r: Result<String, ParseError>, s: PRes<Seq<char>>, pos: int) -> bool {
    match s {
        Ok((n, q)) => r matches Ok(x) && x@ == n && pos == q,
        Err(err) => r matches Err(x) && x.model() == err,
    }
}

pub open spec fn names_outcome(r: Result<Vec<String>, ParseError>, s: PRes<Seq<Seq<char>>>, pos: int) -> bool {
    match s {
        Ok((ns, q)) => r matches Ok(x) && names_model(x@) == ns && pos == q,
        Err(err) => r matches Err(x) && x.model() == err,
    }
}

pub open spec fn span_outcome(r: Result<Span, ParseError>, s: Result<(Span, int), ErrM>, pos: int) -> bool {
    match s {
        Ok((sp, q)) => r == Ok::<Span, ParseError>(sp) && pos == q,
        Err(err) => r matches Err(x) && x.model() == err,
    }
}

struct Parser<'a> {
    tokens: Vec<SpannedToken>,
    pos: usize,
    exprs: &'a Arena<Expr<'a>>,
    stmts: &'a Arena<Stmt<'a>>,
}

impl<'a> Parser<'a> {
    spec fn ts(&self) -> Seq<SpannedModel> {
        tokens_view(self.tokens@)
    }

    spec fn wf(&self) -> bool {
        &&& wf_tokens(self.ts())
        &&& self.pos < self.tokens@.len()
    }

    /// `other` is this parser later on: same tokens and arenas, not behind it.
    spec fn moved_to(&self, other: &Self) -> bool {
        &&& other.tokens@ == self.tokens@
        &&& other.exprs == self.exprs
        &&& other.stmts == self.stmts
        &&& self.pos <= other.pos
        &&& other.wf()
    }

    fn new(src: &str, exprs: &'a Arena<Expr<'a>>, stmts: &'a Arena<Stmt<'a>>) -> (r: Self)
        requires
            positions_fit(src@),
        ensures
            r.wf(),
            r.ts() == tokenize_spec(src@),
            r.pos == 0,
            r.exprs == exprs,
            r.stmts == stmts,
    {
        let tokens = Lexer::tokenize(src);
        proof {
            crate::lexer::law_tokenize_ends_with_single_eof(src@);
        }
        Self { tokens, pos: 0, exprs, stmts }
    }

    // ── primitives ──────────────────────────────────────────────────────────

    fn peek(&self) -> (r: &Token)
        requires
            self.wf(),
        ensures
            r@ == tok(self.ts(), self.pos as int),
    {
        &self.tokens[self.pos].node
    }

    fn peek_span(&self) -> (r: Span)
        requires
            self.wf(),
        ensures
            r == span_at(self.ts(), self.pos as int),
    {
        let t = &self.tokens[self.pos];
        Span { line: t.line, col: t.col }
    }

    /// Steps to the next token; on the last one (the final `Eof`) it stays there.
    fn bump(&mut self)
        requires
            old(self).wf(),
        ensures
            old(self).moved_to(final(self)),
            final(self).pos == adv(old(self).ts(), old(self).pos as int),
            old(self).pos + 1 < old(self).tokens@.len() ==> final(self).pos == old(self).pos + 1,
            old(self).pos + 1 >= old(self).tokens@.len() ==> final(self).pos == old(self).pos,
            final(self).pos < final(self).tokens@.len(),
    {
        if self.pos < self.tokens.len() - 1 {
            self.pos = self.pos + 1;
        }
    }

    fn expect(&mut self, expected: &Token) -> (r: Result<Span, ParseError>)
        requires
            old(self).wf(),
        ensures
            old(self).moved_to(final(self)),
            span_outcome(r, p_expect(old(self).ts(), old(self).pos as int, expected@), final(self).pos as int),
    {
        if token_eq(self.peek(), expected) {
            let span = self.peek_span();
            self.bump();
            Ok(span)
        } else {
            let found = self.peek().to_display_string();
            let mut message = String::from_str("esperado `");
            message.append(expected.to_display_string().as_str());
            message.append("`, encontrado `");
            message.append(found.as_str());
            message.append("`");
            Err(ParseError { message, span: self.peek_span() })
        }
    }

    fn err(&self, message: String) -> (r: ParseError)
        requires
            self.wf(),
        ensures
            r.model() == (message@, span_at(self.ts(), self.pos as int)),
    {
        ParseError { message, span: self.peek_span() }
    }

    fn expect_ident(&mut self, ctx: &str) -> (r: Result<String, ParseError>)
        requires
            old(self).wf(),
        ensures
            old(self).moved_to(final(self)),
            name_outcome(r, p_expect_ident(old(self).ts(), old(self).pos as int, ctx@), final(self).pos as int),
    {
        match self.peek() {
            TokenOf::Ident(n) => {
                let n = n.clone();
                self.bump();
                Ok(n)
            },
            other => {
                let mut message = String::from_str("esperado identificador ");
                message.append(ctx);
                message.append(", encontrado `");
                message.append(other.to_display_string().as_str());
                message.append("`");
                Err(self.err(message))
            },
        }
    }

    fn alloc_expr(&self, e: Expr<'a>) -> (r: &'a Expr<'a>)
        ensures
            *r == e,
    {
        arena_alloc(self.exprs, e)
    }

    fn alloc_stmt(&self, s: Stmt<'a>) -> (r: &'a Stmt<'a>)
        ensures
            *r == s,
    {
        arena_alloc(self.stmts, s)
    }

    // ── blocks and statements ───────────────────────────────────────────────

    fn parse_block(&mut self, stop: Stop) -> (r: Result<Vec<&'a Stmt<'a>>, ParseError>)
        requires
            old(self).wf(),
        ensures
            old(self).moved_to(final(self)),
            block_outcome(r, p_block(old(self).ts(), old(self).pos as int, stop, Seq::empty()), final(self).pos as int),
        decreases old(self).tokens@.len() - old(self).pos, 40int,
    {
        let ghost ts = self.ts();
        let ghost p0 = self.pos as int;
        let mut block: Vec<&'a Stmt<'a>> = Vec::new();
        assert(stmts_model(block@) =~= Seq::<StmtM>::empty());
        loop
            invariant
                self.wf(),
                self.ts() == ts,
                old(self).moved_to(self),
                ts == old(self).ts(),
                p0 == old(self).pos,
                p_block(ts, p0, stop, Seq::empty()) == p_block(ts, self.pos as int, stop, stmts_model(block@)),
            decreases ts.len() - self.pos,
        {
            let ghost start = self.pos as int;
            // optional semicolons between statements
            while matches!(self.peek(), TokenOf::Semicolon)
                invariant
                    self.wf(),
                    self.ts() == ts,
                    old(self).moved_to(self),
                    start <= self.pos,
                    skip_semis(ts, self.pos as int) == skip_semis(ts, start),
                decreases ts.len() - self.pos,
            {
                self.bump();
            }
            if matches!(self.peek(), TokenOf::Eof) || stops_at(stop, self.peek()) {
                return Ok(block);
            }
            let s = match self.parse_stmt() {
                Ok(s) => s,
                Err(e) => return Err(e),
            };
            proof {
                lemma_stmts_model_push(block@, s);
            }
            block.push(s);
        }
    }

    fn parse_stmt(&mut self) -> (r: Result<&'a Stmt<'a>, ParseError>)
        requires
            old(self).wf(),
        ensures
            old(self).moved_to(final(self)),
            stmt_outcome(r, p_stmt(old(self).ts(), old(self).pos as int), final(self).pos as int),
            r is Ok ==> old(self).pos < final(self).pos,
        decreases old(self).tokens@.len() - old(self).pos, 39int,
    {
        let span = self.peek_span();
        let stmt = if matches!(self.peek(), TokenOf::KwLocal) {
            self.parse_local(span)
        } else if matches!(self.peek(), TokenOf::KwIf) {
            self.parse_if(span)
        } else if matches!(self.peek(), TokenOf::KwWhile) {
            self.parse_while(span)
        } else if matches!(self.peek(), TokenOf::KwFor) {
            self.parse_for(span)
        } else if matches!(self.peek(), TokenOf::KwFunction) {
            self.parse_function(span)
        } else if matches!(self.peek(), TokenOf::KwReturn) {
            self.parse_return(span)
        } else if matches!(self.peek(), TokenOf::Ident(_)) {
            self.parse_ident_stmt(span)
        } else {
            let mut message = String::from_str("instrução inválida: `");
            message.append(self.peek().to_display_string().as_str());
            message.append("`");
            return Err(ParseError { message, span });
        };
        match stmt {
            Ok(s) => Ok(self.alloc_stmt(s)),
            Err(e) => Err(e),
        }
    }

    fn parse_local(&mut self, span: Span) -> (r: Result<Stmt<'a>, ParseError>)
        requires
            old(self).wf(),
            tok(old(self).ts(), old(self).pos as int) is KwLocal,
            span == span_at(old(self).ts(), old(self).pos as int),
        ensures
            old(self).moved_to(final(self)),
            stmt_value_outcome(r, p_local(old(self).ts(), old(self).pos as int), final(self).pos as int),
            r is Ok ==> old(self).pos < final(self).pos,
        decreases old(self).tokens@.len() - old(self).pos, 38int,
    {
        self.bump();  // 'local'
        let name = match self.expect_ident("após 'local'") {
            Ok(n) => n,
            Err(e) => return Err(e),
        };
        if matches!(self.peek(), TokenOf::OpEq) {
            self.bump();
            match self.parse_expr() {
                Ok(e) => Ok(Stmt::Local { name, init: Some(e), span }),
                Err(e) => Err(e),
            }
        } else {
            Ok(Stmt::Local { name, init: None, span })
        }
    }

    #[verifier::rlimit(40)]
    fn parse_if(&mut self, span: Span) -> (r: Result<Stmt<'a>, ParseError>)
        requires
            old(self).wf(),
            tok(old(self).ts(), old(self).pos as int) is KwIf,
            span == span_at(old(self).ts(), old(self).pos as int),
        ensures
            old(self).moved_to(final(self)),
            stmt_value_outcome(r, p_if(old(self).ts(), old(self).pos as int), final(self).pos as int),
            r is Ok ==> old(self).pos < final(self).pos,
        decreases old(self).tokens@.len() - old(self).pos, 38int,
    {
        let ghost ts = self.ts();
        self.bump();  // 'if'
        let cond = match self.parse_expr() {
            Ok(e) => e,
            Err(e) => return Err(e),
        };
        match self.expect(&TokenOf::KwThen) {
            Ok(_) => {},
            Err(e) => return Err(e),
        }
        let then_body = match self.parse_block(Stop::Branch) {
            Ok(b) => b,
            Err(e) => return Err(e),
        };
        let elseif_clauses = match self.parse_elseifs() {
            Ok(c) => c,
            Err(e) => return Err(e),
        };
        let else_body = if matches!(self.peek(), TokenOf::KwElse) {
            self.bump();
            match self.parse_block(Stop::End) {
                Ok(b) => Some(b),
                Err(e) => return Err(e),
            }
        } else {
            None
        };
        match self.expect(&TokenOf::KwEnd) {
            Ok(_) => {},
            Err(e) => return Err(e),
        }
        Ok(Stmt::If { cond, then_body, elseif_clauses, else_body, span })
    }

    /// The `elseif` clauses of an `if`.
    fn parse_elseifs(&mut self) -> (r: Result<Vec<ElseIf<'a>>, ParseError>)
        requires
            old(self).wf(),
        ensures
            old(self).moved_to(final(self)),
            match p_elseifs(old(self).ts(), old(self).pos as int, Seq::empty()) {
                Ok((cs, q)) => r matches Ok(x) && elseifs_model(x@) == cs && final(self).pos == q,
                Err(err) => r matches Err(x) && x.model() == err,
            },
        decreases old(self).tokens@.len() - old(self).pos, 37int,
    {
        let ghost ts = self.ts();
        let ghost p0 = self.pos as int;
        let mut elseif_clauses: Vec<ElseIf<'a>> = Vec::new();
        assert(elseifs_model(elseif_clauses@) =~= Seq::<ElseIfM>::empty());
        while matches!(self.peek(), TokenOf::KwElseif)
            invariant
                self.wf(),
                self.ts() == ts,
                old(self).moved_to(self),
                ts == old(self).ts(),
                p0 == old(self).pos,
                p_elseifs(ts, p0, Seq::empty()) == p_elseifs(ts, self.pos as int, elseifs_model(elseif_clauses@)),
            decreases ts.len() - self.pos,
        {
            self.bump();
            let ei_cond = match self.parse_expr() {
                Ok(e) => e,
                Err(e) => return Err(e),
            };
            match self.expect(&TokenOf::KwThen) {
                Ok(_) => {},
                Err(e) => return Err(e),
            }
            let ei_body = match self.parse_block(Stop::Branch) {
                Ok(b) => b,
                Err(e) => return Err(e),
            };
            let clause = ElseIf { cond: ei_cond, body: ei_body };
            proof {
                lemma_elseifs_model_push(elseif_clauses@, clause);
            }
            elseif_clauses.push(clause);
        }
        Ok(elseif_clauses)
    }

    fn parse_while(&mut self, span: Span) -> (r: Result<Stmt<'a>, ParseError>)
        requires
            old(self).wf(),
            tok(old(self).ts(), old(self).pos as int) is KwWhile,
            span == span_at(old(self).ts(), old(self).pos as int),
        ensures
            old(self).moved_to(final(self)),
            stmt_value_outcome(r, p_while(old(self).ts(), old(self).pos as int), final(self).pos as int),
            r is Ok ==> old(self).pos < final(self).pos,
        decreases old(self).tokens@.len() - old(self).pos, 38int,
    {
        self.bump();  // 'while'
        let cond = match self.parse_expr() {
            Ok(e) => e,
            Err(e) => return Err(e),
        };
        match self.expect(&TokenOf::KwDo) {
            Ok(_) => {},
            Err(e) => return Err(e),
        }
        let body = match self.parse_block(Stop::End) {
            Ok(b) => b,
            Err(e) => return Err(e),
        };
        match self.expect(&TokenOf::KwEnd) {
            Ok(_) => {},
            Err(e) => return Err(e),
        }
        Ok(Stmt::While { cond, body, span })
    }

    #[verifier::rlimit(40)]
    fn parse_for(&mut self, span: Span) -> (r: Result<Stmt<'a>, ParseError>)
        requires
            old(self).wf(),
            tok(old(self).ts(), old(self).pos as int) is KwFor,
            span == span_at(old(self).ts(), old(self).pos as int),
        ensures
            old(self).moved_to(final(self)),
            stmt_value_outcome(r, p_for(old(self).ts(), old(self).pos as int), final(self).pos as int),
            r is Ok ==> old(self).pos < final(self).pos,
        decreases old(self).tokens@.len() - old(self).pos, 38int,
    {
        self.bump();  // 'for'
        let var = match self.expect_ident("após 'for'") {
            Ok(n) => n,
            Err(e) => return Err(e),
        };
        match self.expect(&TokenOf::OpEq) {
            Ok(_) => {},
            Err(e) => return Err(e),
        }
        let start = match self.parse_expr() {
            Ok(e) => e,
            Err(e) => return Err(e),
        };
        match self.expect(&TokenOf::Comma) {
            Ok(_) => {},
            Err(e) => return Err(e),
        }
        let limit = match self.parse_expr() {
            Ok(e) => e,
            Err(e) => return Err(e),
        };
        let step = if matches!(self.peek(), TokenOf::Comma) {
            self.bump();
            match self.parse_expr() {
                Ok(e) => Some(e),
                Err(e) => return Err(e),
            }
        } else {
            None
        };
        self.parse_for_body(var, start, limit, step, span)
    }

    /// `do block end` of a numeric `for` whose header is already read.
    fn parse_for_body(
        &mut self,
        var: String,
        start: &'a Expr<'a>,
        limit: &'a Expr<'a>,
        step: Option<&'a Expr<'a>>,
        span: Span,
    ) -> (r: Result<Stmt<'a>, ParseError>)
        requires
            old(self).wf(),
        ensures
            old(self).moved_to(final(self)),
            stmt_value_outcome(
                r,
                p_for_body(
                    old(self).ts(),
                    old(self).pos as int,
                    var@,
                    start.model(),
                    limit.model(),
                    match step { Some(e) => Some(e.model()), None => None },
                    span,
                ),
                final(self).pos as int,
            ),
            r is Ok ==> old(self).pos < final(self).pos,
        decreases old(self).tokens@.len() - old(self).pos, 37int,
    {
        match self.expect(&TokenOf::KwDo) {
            Ok(_) => {},
            Err(e) => return Err(e),
        }
        let body = match self.parse_block(Stop::End) {
            Ok(b) => b,
            Err(e) => return Err(e),
        };
        match self.expect(&TokenOf::KwEnd) {
            Ok(_) => {},
            Err(e) => return Err(e),
        }
        Ok(Stmt::NumFor { var, start, limit, step, body, span })
    }

    #[verifier::rlimit(40)]
    fn parse_function(&mut self, span: Span) -> (r: Result<Stmt<'a>, ParseError>)
        requires
            old(self).wf(),
            tok(old(self).ts(), old(self).pos as int) is KwFunction,
            span == span_at(old(self).ts(), old(self).pos as int),
        ensures
            old(self).moved_to(final(self)),
            stmt_value_outcome(r, p_function(old(self).ts(), old(self).pos as int), final(self).pos as int),
            r is Ok ==> old(self).pos < final(self).pos,
        decreases old(self).tokens@.len() - old(self).pos, 38int,
    {
        self.bump();  // 'function'
        let name = match self.expect_ident("após 'function'") {
            Ok(n) => n,
            Err(e) => return Err(e),
        };
        match self.expect(&TokenOf::LParen) {
            Ok(_) => {},
            Err(e) => return Err(e),
        }
        let params = match self.parse_param_list() {
            Ok(ps) => ps,
            Err(e) => return Err(e),
        };
        match self.expect(&TokenOf::RParen) {
            Ok(_) => {},
            Err(e) => return Err(e),
        }
        let body = match self.parse_block(Stop::End) {
            Ok(b) => b,
            Err(e) => return Err(e),
        };
        match self.expect(&TokenOf::KwEnd) {
            Ok(_) => {},
            Err(e) => return Err(e),
        }
        Ok(Stmt::Function { name, params, body, span })
    }

    fn parse_return(&mut self, span: Span) -> (r: Result<Stmt<'a>, ParseError>)
        requires
            old(self).wf(),
            tok(old(self).ts(), old(self).pos as int) is KwReturn,
            span == span_at(old(self).ts(), old(self).pos as int),
        ensures
            old(self).moved_to(final(self)),
            stmt_value_outcome(r, p_return(old(self).ts(), old(self).pos as int), final(self).pos as int),
            r is Ok ==> old(self).pos < final(self).pos,
        decreases old(self).tokens@.len() - old(self).pos, 38int,
    {
        self.bump();  // 'return'
        // no value when the next token ends the block
        let no_value = matches!(
            self.peek(),
            TokenOf::KwEnd | TokenOf::KwElse | TokenOf::KwElseif | TokenOf::Semicolon | TokenOf::Eof
        );
        let value = if no_value {
            None
        } else {
            match self.parse_expr() {
                Ok(e) => Some(e),
                Err(e) => return Err(e),
            }
        };
        Ok(Stmt::Return { value, span })
    }

    fn parse_ident_stmt(&mut self, span: Span) -> (r: Result<Stmt<'a>, ParseError>)
        requires
            old(self).wf(),
            tok(old(self).ts(), old(self).pos as int) is Ident,
            span == span_at(old(self).ts(), old(self).pos as int),
        ensures
            old(self).moved_to(final(self)),
            stmt_value_outcome(r, p_ident_stmt(old(self).ts(), old(self).pos as int), final(self).pos as int),
            r is Ok ==> old(self).pos < final(self).pos,
        decreases old(self).tokens@.len() - old(self).pos, 38int,
    {
        let name = match self.expect_ident("no início de instrução") {
            Ok(n) => n,
            Err(e) => return Err(e),
        };
        if matches!(self.peek(), TokenOf::OpEq) {
            self.bump();
            match self.parse_expr() {
                Ok(value) => Ok(Stmt::Assign { name, value, span }),
                Err(e) => Err(e),
            }
        } else if matches!(self.peek(), TokenOf::LParen) {
            match self.parse_arg_list() {
                Ok(args) => Ok(Stmt::Call { name, args, span }),
                Err(e) => Err(e),
            }
        } else {
            let mut message = String::from_str("esperado '=' ou '(' após '");
            message.append(name.as_str());
            message.append("', encontrado `");
            message.append(self.peek().to_display_string().as_str());
            message.append("`");
            Err(self.err(message))
        }
    }

    fn parse_param_list(&mut self) -> (r: Result<Vec<String>, ParseError>)
        requires
            old(self).wf(),
        ensures
            old(self).moved_to(final(self)),
            names_outcome(r, p_params(old(self).ts(), old(self).pos as int), final(self).pos as int),
    {
        let ghost ts = self.ts();
        let ghost p0 = self.pos as int;
        let mut params: Vec<String> = Vec::new();
        assert(names_model(params@) =~= Seq::<Seq<char>>::empty());
        if matches!(self.peek(), TokenOf::RParen) {
            return Ok(params);
        }
        loop
            invariant
                self.wf(),
                self.ts() == ts,
                old(self).moved_to(self),
                ts == old(self).ts(),
                p0 == old(self).pos,
                !(tok(ts, p0) is RParen),
                p_params(ts, p0) == p_params_from(ts, self.pos as int, names_model(params@)),
            decreases ts.len() - self.pos,
        {
            let n = match self.expect_ident("na lista de parâmetros") {
                Ok(n) => n,
                Err(e) => return Err(e),
            };
            proof {
                lemma_names_model_push(params@, n);
            }
            params.push(n);
            if matches!(self.peek(), TokenOf::Comma) {
                self.bump();
            } else {
                return Ok(params);
            }
        }
    }

    // ── expressions (loosest level first) ───────────────────────────────────

    fn parse_expr(&mut self) -> (r: Result<&'a Expr<'a>, ParseError>)
        requires
            old(self).wf(),
        ensures
            old(self).moved_to(final(self)),
            expr_outcome(r, p_expr(old(self).ts(), old(self).pos as int), final(self).pos as int),
            r is Ok ==> old(self).pos < final(self).pos,
        decreases old(self).tokens@.len() - old(self).pos, 20int,
    {
        self.parse_or()
    }

    fn parse_or(&mut self) -> (r: Result<&'a Expr<'a>, ParseError>)
        requires
            old(self).wf(),
        ensures
            old(self).moved_to(final(self)),
            expr_outcome(r, p_or(old(self).ts(), old(self).pos as int), final(self).pos as int),
            r is Ok ==> old(self).pos < final(self).pos,
        decreases old(self).tokens@.len() - old(self).pos, 19int,
    {
        let ghost ts = self.ts();
        let ghost p0 = self.pos as int;
        let mut lhs = match self.parse_and() {
            Ok(e) => e,
            Err(e) => return Err(e),
        };
        loop
            invariant
                self.wf(),
                self.ts() == ts,
                old(self).moved_to(self),
                ts == old(self).ts(),
                p0 == old(self).pos,
                p0 < self.pos,
                p_or(ts, p0) == p_or_tail(ts, self.pos as int, lhs.model()),
            decreases ts.len() - self.pos,
        {
            let op = match or_op_of(self.peek()) {
                Some(op) => op,
                None => return Ok(lhs),
            };
            let span = self.peek_span();
            self.bump();
            let rhs = match self.parse_and() {
                Ok(e) => e,
                Err(e) => return Err(e),
            };
            lhs = self.alloc_expr(Expr::BinOp { op, lhs, rhs, span });
        }
    }

    fn parse_and(&mut self) -> (r: Result<&'a Expr<'a>, ParseError>)
        requires
            old(self).wf(),
        ensures
            old(self).moved_to(final(self)),
            expr_outcome(r, p_and(old(self).ts(), old(self).pos as int), final(self).pos as int),
            r is Ok ==> old(self).pos < final(self).pos,
        decreases old(self).tokens@.len() - old(self).pos, 17int,
    {
        let ghost ts = self.ts();
        let ghost p0 = self.pos as int;
        let mut lhs = match self.parse_comparison() {
            Ok(e) => e,
            Err(e) => return Err(e),
        };
        loop
            invariant
                self.wf(),
                self.ts() == ts,
                old(self).moved_to(self),
                ts == old(self).ts(),
                p0 == old(self).pos,
                p0 < self.pos,
                p_and(ts, p0) == p_and_tail(ts, self.pos as int, lhs.model()),
            decreases ts.len() - self.pos,
        {
            let op = match and_op_of(self.peek()) {
                Some(op) => op,
                None => return Ok(lhs),
            };
            let span = self.peek_span();
            self.bump();
            let rhs = match self.parse_comparison() {
                Ok(e) => e,
                Err(e) => return Err(e),
            };
            lhs = self.alloc_expr(Expr::BinOp { op, lhs, rhs, span });
        }
    }

    fn parse_comparison(&mut self) -> (r: Result<&'a Expr<'a>, ParseError>)
        requires
            old(self).wf(),
        ensures
            old(self).moved_to(final(self)),
            expr_outcome(r, p_comparison(old(self).ts(), old(self).pos as int), final(self).pos as int),
            r is Ok ==> old(self).pos < final(self).pos,
        decreases old(self).tokens@.len() - old(self).pos, 15int,
    {
        let ghost ts = self.ts();
        let ghost p0 = self.pos as int;
        let mut lhs = match self.parse_add() {
            Ok(e) => e,
            Err(e) => return Err(e),
        };
        loop
            invariant
                self.wf(),
                self.ts() == ts,
                old(self).moved_to(self),
                ts == old(self).ts(),
                p0 == old(self).pos,
                p0 < self.pos,
                p_comparison(ts, p0) == p_comparison_tail(ts, self.pos as int, lhs.model()),
            decreases ts.len() - self.pos,
        {
            let op = match comparison_op_of(self.peek()) {
                Some(op) => op,
                None => return Ok(lhs),
            };
            let span = self.peek_span();
            self.bump();
            let rhs = match self.parse_add() {
                Ok(e) => e,
                Err(e) => return Err(e),
            };
            lhs = self.alloc_expr(Expr::BinOp { op, lhs, rhs, span });
        }
    }

    fn parse_add(&mut self) -> (r: Result<&'a Expr<'a>, ParseError>)
        requires
            old(self).wf(),
        ensures
            old(self).moved_to(final(self)),
            expr_outcome(r, p_add(old(self).ts(), old(self).pos as int), final(self).pos as int),
            r is Ok ==> old(self).pos < final(self).pos,
        decreases old(self).tokens@.len() - old(self).pos, 13int,
    {
        let ghost ts = self.ts();
        let ghost p0 = self.pos as int;
        let mut lhs = match self.parse_mul() {
            Ok(e) => e,
            Err(e) => return Err(e),
        };
        loop
            invariant
                self.wf(),
                self.ts() == ts,
                old(self).moved_to(self),
                ts == old(self).ts(),
                p0 == old(self).pos,
                p0 < self.pos,
                p_add(ts, p0) == p_add_tail(ts, self.pos as int, lhs.model()),
            decreases ts.len() - self.pos,
        {
            let op = match add_op_of(self.peek()) {
                Some(op) => op,
                None => return Ok(lhs),
            };
            let span = self.peek_span();
            self.bump();
            let rhs = match self.parse_mul() {
                Ok(e) => e,
                Err(e) => return Err(e),
            };
            lhs = self.alloc_expr(Expr::BinOp { op, lhs, rhs, span });
        }
    }

    fn parse_mul(&mut self) -> (r: Result<&'a Expr<'a>, ParseError>)
        requires
            old(self).wf(),
        ensures
            old(self).moved_to(final(self)),
            expr_outcome(r, p_mul(old(self).ts(), old(self).pos as int), final(self).pos as int),
            r is Ok ==> old(self).pos < final(self).pos,
        decreases old(self).tokens@.len() - old(self).pos, 11int,
    {
        let ghost ts = self.ts();
        let ghost p0 = self.pos as int;
        let mut lhs = match self.parse_unary() {
            Ok(e) => e,
            Err(e) => return Err(e),
        };
        loop
            invariant
                self.wf(),
                self.ts() == ts,
                old(self).moved_to(self),
                ts == old(self).ts(),
                p0 == old(self).pos,
                p0 < self.pos,
                p_mul(ts, p0) == p_mul_tail(ts, self.pos as int, lhs.model()),
            decreases ts.len() - self.pos,
        {
            let op = match mul_op_of(self.peek()) {
                Some(op) => op,
                None => return Ok(lhs),
            };
            let span = self.peek_span();
            self.bump();
            let rhs = match self.parse_unary() {
                Ok(e) => e,
                Err(e) => return Err(e),
            };
            lhs = self.alloc_expr(Expr::BinOp { op, lhs, rhs, span });
        }
    }

    /// `not` and unary `-`, nesting to the right.
    fn parse_unary(&mut self) -> (r: Result<&'a Expr<'a>, ParseError>)
        requires
            old(self).wf(),
        ensures
            old(self).moved_to(final(self)),
            expr_outcome(r, p_unary(old(self).ts(), old(self).pos as int), final(self).pos as int),
            r is Ok ==> old(self).pos < final(self).pos,
        decreases old(self).tokens@.len() - old(self).pos, 9int,
    {
        let span = self.peek_span();
        let op = if matches!(self.peek(), TokenOf::KwNot) {
            Some(UnOp::Not)
        } else if matches!(self.peek(), TokenOf::OpMinus) {
            Some(UnOp::Neg)
        } else {
            None
        };
        match op {
            Some(op) => {
                self.bump();
                match self.parse_unary() {
                    Ok(operand) => Ok(self.alloc_expr(Expr::UnOp { op, operand, span })),
                    Err(e) => Err(e),
                }
            },
            None => self.parse_primary(),
        }
    }

    fn parse_primary(&mut self) -> (r: Result<&'a Expr<'a>, ParseError>)
        requires
            old(self).wf(),
        ensures
            old(self).moved_to(final(self)),
            expr_outcome(r, p_primary(old(self).ts(), old(self).pos as int), final(self).pos as int),
            r is Ok ==> old(self).pos < final(self).pos,
        decreases old(self).tokens@.len() - old(self).pos, 8int,
    {
        let span = self.peek_span();
        match self.peek() {
            TokenOf::LitInt(n) => {
                let n = *n;
                self.bump();
                Ok(self.alloc_expr(Expr::LitInt(n, span)))
            },
            TokenOf::LitFloat(v) => {
                let v = v.clone();
                self.bump();
                Ok(self.alloc_expr(Expr::LitFloat(v, span)))
            },
            TokenOf::LitStr(t) => {
                let t = t.clone();
                self.bump();
                Ok(self.alloc_expr(Expr::LitStr(t, span)))
            },
            TokenOf::KwTrue => {
                self.bump();
                Ok(self.alloc_expr(Expr::LitBool(true, span)))
            },
            TokenOf::KwFalse => {
                self.bump();
                Ok(self.alloc_expr(Expr::LitBool(false, span)))
            },
            TokenOf::KwNil => {
                self.bump();
                Ok(self.alloc_expr(Expr::Nil(span)))
            },
            TokenOf::Ident(name) => {
                let name = name.clone();
                self.bump();
                if matches!(self.peek(), TokenOf::LParen) {
                    match self.parse_arg_list() {
                        Ok(args) => Ok(self.alloc_expr(Expr::Call { name, args, span })),
                        Err(e) => Err(e),
                    }
                } else {
                    Ok(self.alloc_expr(Expr::Var(name, span)))
                }
            },
            TokenOf::LParen => {
                self.bump();
                let inner = match self.parse_expr() {
                    Ok(e) => e,
                    Err(e) => return Err(e),
                };
                match self.expect(&TokenOf::RParen) {
                    Ok(_) => Ok(inner),
                    Err(e) => Err(e),
                }
            },
            other => {
                let mut message = String::from_str("expressão inválida: `");
                message.append(other.to_display_string().as_str());
                message.append("`");
                Err(ParseError { message, span })
            },
        }
    }

    /// `( [expr {, expr}] )`.
    fn parse_arg_list(&mut self) -> (r: Result<Vec<&'a Expr<'a>>, ParseError>)
        requires
            old(self).wf(),
        ensures
            old(self).moved_to(final(self)),
            args_outcome(r, p_args(old(self).ts(), old(self).pos as int), final(self).pos as int),
            r is Ok ==> old(self).pos < final(self).pos,
        decreases old(self).tokens@.len() - old(self).pos, 22int,
    {
        let ghost ts = self.ts();
        let ghost p0 = self.pos as int;
        match self.expect(&TokenOf::LParen) {
            Ok(_) => {},
            Err(e) => return Err(e),
        }
        let mut args: Vec<&'a Expr<'a>> = Vec::new();
        assert(exprs_model(args@) =~= Seq::<ExprM>::empty());
        if matches!(self.peek(), TokenOf::RParen) {
            return match self.expect(&TokenOf::RParen) {
                Ok(_) => Ok(args),
                Err(e) => Err(e),
            };
        }
        loop
            invariant
                self.wf(),
                self.ts() == ts,
                old(self).moved_to(self),
                ts == old(self).ts(),
                p0 == old(self).pos,
                p0 < self.pos,
                p_args(ts, p0) == p_args_from(ts, self.pos as int, exprs_model(args@)),
            decreases ts.len() - self.pos,
        {
            let e = match self.parse_expr() {
                Ok(e) => e,
                Err(e) => return Err(e),
            };
            proof {
                lemma_exprs_model_push(args@, e);
            }
            args.push(e);
            if matches!(self.peek(), TokenOf::Comma) {
                self.bump();
            } else {
                return match self.expect(&TokenOf::RParen) {
                    Ok(_) => Ok(args),
                    Err(e) => Err(e),
                };
            }
        }
    }
}

/// Whether `t` ends a block of kind `stop`.
fn stops_at(stop: Stop, t: &Token) -> (r: bool)
    ensures
        r == is_stop(stop, t@),
{
    match stop {
        Stop::Eof => false,
        Stop::Branch => matches!(t, TokenOf::KwElseif | TokenOf::KwElse | TokenOf::KwEnd),
        Stop::End => matches!(t, TokenOf::KwEnd),
    }
}

/// Parses `src` into its top-level statements, allocating the nodes in the arenas given.
///
/// Any error carries the position of the token where it was found.
pub fn parse<'a>(
    src: &str,
    exprs: &'a Arena<Expr<'a>>,
    stmts: &'a Arena<Stmt<'a>>,
) -> (r: Result<Vec<&'a Stmt<'a>>, ParseError>)
    requires
        positions_fit(src@),
    ensures
        match parse_spec(src@) {
            Ok(b) => r matches Ok(x) && stmts_model(x@) == b,
            Err(e) => r matches Err(x) && x.model() == e,
        },
{
    let mut p = Parser::new(src, exprs, stmts);
    let block = match p.parse_block(Stop::Eof) {
        Ok(b) => b,
        Err(e) => return Err(e),
    };
    if !matches!(p.peek(), TokenOf::Eof) {
        let mut message = String::from_str("token inesperado: `");
        message.append(p.peek().to_display_string().as_str());
        message.append("`");
        return Err(p.err(message));
    }
    Ok(block)
}

fn or_op_of(t: &Token) -> (r: Option<BinOp>)
    ensures
        r == or_op(t@),
{
    if matches!(t, TokenOf::KwOr) { Some(BinOp::Or) } else { None }
}

fn and_op_of(t: &Token) -> (r: Option<BinOp>)
    ensures
        r == and_op(t@),
{
    if matches!(t, TokenOf::KwAnd) { Some(BinOp::And) } else { None }
}

fn comparison_op_of(t: &Token) -> (r: Option<BinOp>)
    ensures
        r == comparison_op(t@),
{
    match t {
        TokenOf::OpEqEq => Some(BinOp::Eq),
        TokenOf::OpTildeEq => Some(BinOp::Ne),
        TokenOf::OpLt => Some(BinOp::Lt),
        TokenOf::OpLtEq => Some(BinOp::Le),
        TokenOf::OpGt => Some(BinOp::Gt),
        TokenOf::OpGtEq => Some(BinOp::Ge),
        _ => None,
    }
}

fn add_op_of(t: &Token) -> (r: Option<BinOp>)
    ensures
        r == add_op(t@),
{
    match t {
        TokenOf::OpPlus => Some(BinOp::Add),
        TokenOf::OpMinus => Some(BinOp::Sub),
        _ => None,
    }
}

fn mul_op_of(t: &Token) -> (r: Option<BinOp>)
    ensures
        r == mul_op(t@),
{
    match t {
        TokenOf::OpStar => Some(BinOp::Mul),
        TokenOf::OpSlash => Some(BinOp::Div),
        TokenOf::OpPercent => Some(BinOp::Mod),
        _ => None,
    }
}

} // verus!
