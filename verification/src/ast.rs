//! The syntax tree: expressions and statements, each with the position it starts at.
use vstd::prelude::*;
use crate::text::nat_decimal;

verus! {

/// Position in the Lua source (where a node starts); only used in error messages.
#[derive(Debug, Clone, Copy, PartialEq, Eq, Structural)]
pub struct Span {
    pub line: u32,
    pub col: u32,
}

/// An error written out as `erro[line:col]: message`.
pub open spec fn error_text(message: Seq<char>, span: Span) -> Seq<char> {
    "erro["@ + nat_decimal(span.line as nat) + ":"@ + nat_decimal(span.col as nat) + "]: "@ + message
}

// ── operators ───────────────────────────────────────────────────────────────

#[derive(Debug, Clone, Copy, PartialEq, Eq, Structural)]
pub enum BinOp {
    Add,
    Sub,
    Mul,
    Div,
    Mod,
    Eq,
    Ne,
    Lt,
    Le,
    Gt,
    Ge,
    And,
    Or,
}

#[derive(Debug, Clone, Copy, PartialEq, Eq, Structural)]
pub enum UnOp {
    Neg,
    Not,
}

// ── expressions ─────────────────────────────────────────────────────────────

/// An expression node, allocated in an arena that outlives `'a` and holds its children.
#[derive(Debug)]
pub enum Expr<'a> {
    LitInt(i32, Span),
    /// A floating-point literal, as written; the semantic analysis rejects it on AVR.
    LitFloat(String, Span),
    /// Only for intrinsic arguments (such as `"OUTPUT"`).
    LitStr(String, Span),
    LitBool(bool, Span),
    Nil(Span),
    Var(String, Span),
    BinOp { op: BinOp, lhs: &'a Expr<'a>, rhs: &'a Expr<'a>, span: Span },
    UnOp { op: UnOp, operand: &'a Expr<'a>, span: Span },
    Call { name: String, args: Vec<&'a Expr<'a>>, span: Span },
}

/// The mathematical model of an expression: a tree with its text as character sequences.
pub enum ExprM {
    LitInt(i32, Span),
    LitFloat(Seq<char>, Span),
    LitStr(Seq<char>, Span),
    LitBool(bool, Span),
    Nil(Span),
    Var(Seq<char>, Span),
    BinOp { op: BinOp, lhs: Box<ExprM>, rhs: Box<ExprM>, span: Span },
    UnOp { op: UnOp, operand: Box<ExprM>, span: Span },
    Call { name: Seq<char>, args: Seq<ExprM>, span: Span },
}

/// The models of a list of expressions.
pub open spec fn exprs_model<'a>(es: Seq<&'a Expr<'a>>) -> Seq<ExprM>
    decreases es,
{
    Seq::new(es.len(), |i: int| if 0 <= i < es.len() { es[i].model() } else { ExprM::Nil(Span { line: 0, col: 0 }) })
}

impl<'a> Expr<'a> {
    /// The tree this node stands for.
    pub open spec fn model(&self) -> ExprM
        decreases self,
    {
        match self {
            Expr::LitInt(n, s) => ExprM::LitInt(*n, *s),
            Expr::LitFloat(t, s) => ExprM::LitFloat(t@, *s),
            Expr::LitStr(t, s) => ExprM::LitStr(t@, *s),
            Expr::LitBool(b, s) => ExprM::LitBool(*b, *s),
            Expr::Nil(s) => ExprM::Nil(*s),
            Expr::Var(n, s) => ExprM::Var(n@, *s),
            Expr::BinOp { op, lhs, rhs, span } => ExprM::BinOp {
                op: *op,
                lhs: Box::new(lhs.model()),
                rhs: Box::new(rhs.model()),
                span: *span,
            },
            Expr::UnOp { op, operand, span } => ExprM::UnOp { op: *op, operand: Box::new(operand.model()), span: *span },
            Expr::Call { name, args, span } => ExprM::Call {
                name: name@,
                args: exprs_model(args@),
                span: *span,
            },
        }
    }

    /// Where the expression starts.
    pub fn span(&self) -> (r: Span)
        ensures
            r == expr_span(self.model()),
    {
        match self {
            Expr::LitInt(_, s) => *s,
            Expr::LitFloat(_, s) => *s,
            Expr::LitStr(_, s) => *s,
            Expr::LitBool(_, s) => *s,
            Expr::Nil(s) => *s,
            Expr::Var(_, s) => *s,
            Expr::BinOp { span, .. } => *span,
            Expr::UnOp { span, .. } => *span,
            Expr::Call { span, .. } => *span,
        }
    }
}

/// Where a modelled expression starts.
pub open spec fn expr_span(e: ExprM) -> Span {
    match e {
        ExprM::LitInt(_, s) => s,
        ExprM::LitFloat(_, s) => s,
        ExprM::LitStr(_, s) => s,
        ExprM::LitBool(_, s) => s,
        ExprM::Nil(s) => s,
        ExprM::Var(_, s) => s,
        ExprM::BinOp { span, .. } => span,
        ExprM::UnOp { span, .. } => span,
        ExprM::Call { span, .. } => span,
    }
}

// ── statements ──────────────────────────────────────────────────────────────

/// An `elseif` clause of an `if` statement.
#[derive(Debug)]
pub struct ElseIf<'a> {
    pub cond: &'a Expr<'a>,
    pub body: Vec<&'a Stmt<'a>>,
}

/// A statement node, allocated in an arena.
#[derive(Debug)]
pub enum Stmt<'a> {
    Local { name: String, init: Option<&'a Expr<'a>>, span: Span },
    Assign { name: String, value: &'a Expr<'a>, span: Span },
    While { cond: &'a Expr<'a>, body: Vec<&'a Stmt<'a>>, span: Span },
    If {
        cond: &'a Expr<'a>,
        then_body: Vec<&'a Stmt<'a>>,
        elseif_clauses: Vec<ElseIf<'a>>,
        else_body: Option<Vec<&'a Stmt<'a>>>,
        span: Span,
    },
    /// Numeric loop `for var = start, limit [, step] do body end`.
    NumFor {
        var: String,
        start: &'a Expr<'a>,
        limit: &'a Expr<'a>,
        step: Option<&'a Expr<'a>>,
        body: Vec<&'a Stmt<'a>>,
        span: Span,
    },
    Function { name: String, params: Vec<String>, body: Vec<&'a Stmt<'a>>, span: Span },
    Return { value: Option<&'a Expr<'a>>, span: Span },
    /// A call used as a statement (such as `delay(500)`).
    Call { name: String, args: Vec<&'a Expr<'a>>, span: Span },
}

/// The model of an `elseif` clause.
pub struct ElseIfM {
    pub cond: ExprM,
    pub body: Seq<StmtM>,
}

/// The mathematical model of a statement.
pub enum StmtM {
    Local { name: Seq<char>, init: Option<ExprM>, span: Span },
    Assign { name: Seq<char>, value: ExprM, span: Span },
    While { cond: ExprM, body: Seq<StmtM>, span: Span },
    If { cond: ExprM, then_body: Seq<StmtM>, elseif_clauses: Seq<ElseIfM>, else_body: Option<Seq<StmtM>>, span: Span },
    NumFor { var: Seq<char>, start: ExprM, limit: ExprM, step: Option<ExprM>, body: Seq<StmtM>, span: Span },
    Function { name: Seq<char>, params: Seq<Seq<char>>, body: Seq<StmtM>, span: Span },
    Return { value: Option<ExprM>, span: Span },
    Call { name: Seq<char>, args: Seq<ExprM>, span: Span },
}

/// Appending an expression appends its model.
pub proof fn lemma_exprs_model_push<'a>(es: Seq<&'a Expr<'a>>, e: &'a Expr<'a>)
    ensures
        exprs_model(es.push(e)) == exprs_model(es).push(e.model()),
{
    assert(exprs_model(es.push(e)) =~= exprs_model(es).push(e.model()));
}

/// The models of a list of statements.
pub open spec fn stmts_model<'a>(ss: Seq<&'a Stmt<'a>>) -> Seq<StmtM>
    decreases ss,
{
    Seq::new(ss.len(), |i: int| if 0 <= i < ss.len() { ss[i].model() } else { StmtM::Return { value: None, span: Span { line: 0, col: 0 } } })
}

/// The models of a list of `elseif` clauses.
pub open spec fn elseifs_model<'a>(cs: Seq<ElseIf<'a>>) -> Seq<ElseIfM>
    decreases cs,
{
    Seq::new(cs.len(), |i: int| if 0 <= i < cs.len() { cs[i].model() } else { ElseIfM { cond: ExprM::Nil(Span { line: 0, col: 0 }), body: Seq::empty() } })
}

/// Appending a statement appends its model.
pub proof fn lemma_stmts_model_push<'a>(ss: Seq<&'a Stmt<'a>>, st: &'a Stmt<'a>)
    ensures
        stmts_model(ss.push(st)) == stmts_model(ss).push(st.model()),
{
    assert(stmts_model(ss.push(st)) =~= stmts_model(ss).push(st.model()));
}

/// Appending a clause appends its model.
pub proof fn lemma_elseifs_model_push<'a>(cs: Seq<ElseIf<'a>>, c: ElseIf<'a>)
    ensures
        elseifs_model(cs.push(c)) == elseifs_model(cs).push(c.model()),
{
    assert(elseifs_model(cs.push(c)) =~= elseifs_model(cs).push(c.model()));
}

/// The texts of a list of names.
pub open spec fn names_model(ns: Seq<String>) -> Seq<Seq<char>> {
    ns.map_values(|n: String| n@)
}

/// Appending a name appends its text.
pub proof fn lemma_names_model_push(ns: Seq<String>, n: String)
    ensures
        names_model(ns.push(n)) == names_model(ns).push(n@),
{
    assert(names_model(ns.push(n)) =~= names_model(ns).push(n@));
}

impl<'a> ElseIf<'a> {
    pub open spec fn model(&self) -> ElseIfM
        decreases self,
    {
        ElseIfM {
            cond: self.cond.model(),
            body: stmts_model(self.body@),
        }
    }
}

impl<'a> Stmt<'a> {
    /// The tree this node stands for.
    pub open spec fn model(&self) -> StmtM
        decreases self,
    {
        match self {
            Stmt::Local { name, init, span } => StmtM::Local {
                name: name@,
                init: match init { Some(e) => Some(e.model()), None => None },
                span: *span,
            },
            Stmt::Assign { name, value, span } => StmtM::Assign { name: name@, value: value.model(), span: *span },
            Stmt::While { cond, body, span } => StmtM::While {
                cond: cond.model(),
                body: stmts_model(body@),
                span: *span,
            },
            Stmt::If { cond, then_body, elseif_clauses, else_body, span } => StmtM::If {
                cond: cond.model(),
                then_body: stmts_model(then_body@),
                elseif_clauses: elseifs_model(elseif_clauses@),
                else_body: match else_body {
                    Some(b) => Some(stmts_model(b@)),
                    None => None,
                },
                span: *span,
            },
            Stmt::NumFor { var, start, limit, step, body, span } => StmtM::NumFor {
                var: var@,
                start: start.model(),
                limit: limit.model(),
                step: match step { Some(e) => Some(e.model()), None => None },
                body: stmts_model(body@),
                span: *span,
            },
            Stmt::Function { name, params, body, span } => StmtM::Function {
                name: name@,
                params: names_model(params@),
                body: stmts_model(body@),
                span: *span,
            },
            Stmt::Return { value, span } => StmtM::Return {
                value: match value { Some(e) => Some(e.model()), None => None },
                span: *span,
            },
            Stmt::Call { name, args, span } => StmtM::Call {
                name: name@,
                args: exprs_model(args@),
                span: *span,
            },
        }
    }

    /// Where the statement starts.
    pub fn span(&self) -> (r: Span)
        ensures
            r == stmt_span(self.model()),
    {
        match self {
            Stmt::Local { span, .. } => *span,
            Stmt::Assign { span, .. } => *span,
            Stmt::While { span, .. } => *span,
            Stmt::If { span, .. } => *span,
            Stmt::NumFor { span, .. } => *span,
            Stmt::Function { span, .. } => *span,
            Stmt::Return { span, .. } => *span,
            Stmt::Call { span, .. } => *span,
        }
    }
}

/// Where a modelled statement starts.
pub open spec fn stmt_span(s: StmtM) -> Span {
    match s {
        StmtM::Local { span, .. } => span,
        StmtM::Assign { span, .. } => span,
        StmtM::While { span, .. } => span,
        StmtM::If { span, .. } => span,
        StmtM::NumFor { span, .. } => span,
        StmtM::Function { span, .. } => span,
        StmtM::Return { span, .. } => span,
        StmtM::Call { span, .. } => span,
    }
}

// ── operators as text ───────────────────────────────────────────────────────

/// How a binary operator is written in Lua.
pub open spec fn binop_text(op: BinOp) -> Seq<char> {
    match op {
        BinOp::Add => "+"@,
        BinOp::Sub => "-"@,
        BinOp::Mul => "*"@,
        BinOp::Div => "/"@,
        BinOp::Mod => "%"@,
        BinOp::Eq => "=="@,
        BinOp::Ne => "~="@,
        BinOp::Lt => "<"@,
        BinOp::Le => "<="@,
        BinOp::Gt => ">"@,
        BinOp::Ge => ">="@,
        BinOp::And => "and"@,
        BinOp::Or => "or"@,
    }
}

/// How a unary operator is written in Lua.
pub open spec fn unop_text(op: UnOp) -> Seq<char> {
    match op {
        UnOp::Neg => "-"@,
        UnOp::Not => "not"@,
    }
}

impl BinOp {
    /// The operator as written in Lua (used in error messages).
    pub fn to_display_string(&self) -> (r: String)
        ensures
            r@ == binop_text(*self),
    {
        match self {
            BinOp::Add => String::from_str("+"),
            BinOp::Sub => String::from_str("-"),
            BinOp::Mul => String::from_str("*"),
            BinOp::Div => String::from_str("/"),
            BinOp::Mod => String::from_str("%"),
            BinOp::Eq => String::from_str("=="),
            BinOp::Ne => String::from_str("~="),
            BinOp::Lt => String::from_str("<"),
            BinOp::Le => String::from_str("<="),
            BinOp::Gt => String::from_str(">"),
            BinOp::Ge => String::from_str(">="),
            BinOp::And => String::from_str("and"),
            BinOp::Or => String::from_str("or"),
        }
    }
}

impl UnOp {
    /// The operator as written in Lua (used in error messages).
    pub fn to_display_string(&self) -> (r: String)
        ensures
            r@ == unop_text(*self),
    {
        match self {
            UnOp::Neg => String::from_str("-"),
            UnOp::Not => String::from_str("not"),
        }
    }
}

} // verus!
