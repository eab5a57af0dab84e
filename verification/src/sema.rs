//! Semantic analysis: scopes, initialisation, recursion and intrinsic calls are
//! checked, and every error is collected (the analysis never stops early).
use vstd::prelude::*;
use std::collections::HashMap;
use crate::text::{nat_decimal, push_decimal, str_eq};
use crate::ast::{error_text, Span, BinOp, UnOp, Expr, ExprM, ElseIf, ElseIfM, Stmt, StmtM, exprs_model, stmts_model, elseifs_model, names_model, expr_span};

verus! {

broadcast use vstd::std_specs::hash::group_hash_axioms;

// ── public types ────────────────────────────────────────────────────────────

/// The microcontroller the program is compiled for.
#[derive(Debug, Clone, Copy, PartialEq, Eq, Structural)]
pub enum Target {
    Avr,
    Esp32,
}

pub struct SemaConfig {
    pub target: Target,
}

/// The types the analysis infers.
#[derive(Debug, Clone, Copy, PartialEq, Eq, Structural)]
pub enum TinyType {
    Int,
    Float,
    Bool,
    Str,
    Nil,
}

/// The name of a type, as error messages write it.
pub open spec fn type_text(t: TinyType) -> Seq<char> {
    match t {
        TinyType::Int => "Int"@,
        TinyType::Float => "Float"@,
        TinyType::Bool => "Bool"@,
        TinyType::Str => "Str"@,
        TinyType::Nil => "Nil"@,
    }
}

impl TinyType {
    /// The name of the type (`Int`, `Float`, `Bool`, `Str` or `Nil`).
    pub fn to_display_string(&self) -> (r: String)
        ensures
            r@ == type_text(*self),
    {
        match self {
            TinyType::Int => String::from_str("Int"),
            TinyType::Float => String::from_str("Float"),
            TinyType::Bool => String::from_str("Bool"),
            TinyType::Str => String::from_str("Str"),
            TinyType::Nil => String::from_str("Nil"),
        }
    }
}

/// A semantic error with the position it refers to.
pub struct SemaError {
    pub message: String,
    pub span: Span,
}

impl SemaError {
    pub open spec fn model(&self) -> (Seq<char>, Span) {
        (self.message@, self.span)
    }

    /// The error as `erro[line:col]: message`.
    pub fn to_display_string(&self) -> (r: String)
        ensures
            r@ == error_text(self.message@, self.span),
    {
        let mut out = String::from_str("erro[");
        push_decimal(&mut out, self.span.line as u64);
        out.append(":");
        push_decimal(&mut out, self.span.col as u64);
        out.append("]: ");
        out.append(self.message.as_str());
        out
    }
}

/// What the analysis hands back.
pub struct SemaOutput {
    /// The type inferred for each expression node, keyed by the order in which the
    /// analysis finishes with the nodes (children before their parent, left to right).
    pub expr_types: HashMap<usize, TinyType>,
    /// Every error found, in the order found.
    pub errors: Vec<SemaError>,
}

// ── messages ────────────────────────────────────────────────────────────────

pub open spec fn float_message(span: Span) -> Seq<char> {
    "ponto flutuante não é suportado no target AVR ("@ + nat_decimal(span.line as nat) + ":"@
        + nat_decimal(span.col as nat) + ")"@
}

pub open spec fn undeclared_message(name: Seq<char>) -> Seq<char> {
    "variável '"@ + name + "' não declarada"@
}

pub open spec fn uninitialised_message(name: Seq<char>) -> Seq<char> {
    "variável '"@ + name + "' usada antes de ser inicializada"@
}

pub open spec fn recursion_message(name: Seq<char>) -> Seq<char> {
    "recursão não é suportada na PoC (função '"@ + name + "')"@
}

pub open spec fn arity_message(name: Seq<char>, expected: nat, got: nat) -> Seq<char> {
    "'"@ + name + "' espera "@ + nat_decimal(expected) + " argumento"@ + (if expected == 1 { ""@ } else { "s"@ })
        + ", recebeu "@ + nat_decimal(got)
}

pub open spec fn argument_message(index: nat, name: Seq<char>, expected: TinyType, got: TinyType) -> Seq<char> {
    "argumento "@ + nat_decimal(index) + " de '"@ + name + "' deve ser "@ + type_text(expected) + ", recebeu "@
        + type_text(got)
}

// ── intrinsics ──────────────────────────────────────────────────────────────

/// Parameter types and result type (if any) of the hardware intrinsics.
pub open spec fn intrinsic_sig_spec(name: Seq<char>) -> Option<(Seq<TinyType>, Option<TinyType>)> {
    if name == "digitalRead"@ {
        Some((seq![TinyType::Int], Some(TinyType::Bool)))
    } else if name == "digitalWrite"@ {
        Some((seq![TinyType::Int, TinyType::Bool], None))
    } else if name == "analogRead"@ {
        Some((seq![TinyType::Int], Some(TinyType::Int)))
    } else if name == "analogWrite"@ {
        Some((seq![TinyType::Int, TinyType::Int], None))
    } else if name == "delay"@ {
        Some((seq![TinyType::Int], None))
    } else if name == "pinMode"@ {
        Some((seq![TinyType::Int, TinyType::Str], None))
    } else {
        None
    }
}

/// The type of a binary operation: arithmetic gives `Int`, comparisons and logic `Bool`.
pub open spec fn binop_type(op: BinOp) -> TinyType {
    match op {
        BinOp::Add | BinOp::Sub | BinOp::Mul | BinOp::Div | BinOp::Mod => TinyType::Int,
        _ => TinyType::Bool,
    }
}

// ── scopes ──────────────────────────────────────────────────────────────────

/// The variable in the innermost frame that declares `name`.
pub open spec fn scope_lookup(frames: Seq<Map<Seq<char>, TinyType>>, name: Seq<char>) -> Option<TinyType>
    decreases frames.len(),
{
    if frames.len() == 0 {
        None
    } else if frames.last().contains_key(name) {
        Some(frames.last()[name])
    } else {
        scope_lookup(frames.drop_last(), name)
    }
}

/// `name` declared (or redeclared) in the innermost frame.
pub open spec fn scope_define(frames: Seq<Map<Seq<char>, TinyType>>, name: Seq<char>, ty: TinyType) -> Seq<Map<Seq<char>, TinyType>> {
    if frames.len() == 0 {
        frames
    } else {
        frames.update(frames.len() - 1, frames.last().insert(name, ty))
    }
}

/// The type of `name` changed in the innermost frame that declares it.
pub open spec fn scope_assign(frames: Seq<Map<Seq<char>, TinyType>>, name: Seq<char>, ty: TinyType) -> Seq<Map<Seq<char>, TinyType>>
    decreases frames.len(),
{
    if frames.len() == 0 {
        frames
    } else if frames.last().contains_key(name) {
        frames.update(frames.len() - 1, frames.last().insert(name, ty))
    } else {
        scope_assign(frames.drop_last(), name, ty).push(frames.last())
    }
}

/// The innermost frame removed (none when there is none).
pub open spec fn scope_pop(frames: Seq<Map<Seq<char>, TinyType>>) -> Seq<Map<Seq<char>, TinyType>> {
    if frames.len() == 0 { frames } else { frames.drop_last() }
}

// ── the analysis, as a function of the program ──────────────────────────────

/// What the analysis knows at a point of the program.
pub struct SemaState {
    /// The scope: one map from names to types per open block, innermost last.
    pub frames: Seq<Map<Seq<char>, TinyType>>,
    pub errors: Seq<(Seq<char>, Span)>,
    pub types: Map<usize, TinyType>,
    /// How many expression nodes the analysis has finished with.
    pub next_id: nat,
    /// The function whose body is being analysed, if any.
    pub current_fn: Option<Seq<char>>,
}

pub open spec fn initial_state() -> SemaState {
    SemaState {
        frames: seq![Map::empty()],
        errors: Seq::empty(),
        types: Map::empty(),
        next_id: 0,
        current_fn: None,
    }
}

pub open spec fn add_error(st: SemaState, message: Seq<char>, span: Span) -> SemaState {
    SemaState { errors: st.errors.push((message, span)), ..st }
}

pub open spec fn with_frames(st: SemaState, frames: Seq<Map<Seq<char>, TinyType>>) -> SemaState {
    SemaState { frames, ..st }
}

/// The type of the node just finished recorded under its number.
pub open spec fn record(st: SemaState, ty: TinyType) -> SemaState {
    SemaState { types: st.types.insert(st.next_id as usize, ty), next_id: st.next_id + 1, ..st }
}

/// The recursion error, when `name` is the function being analysed.
pub open spec fn check_recursion(st: SemaState, name: Seq<char>, span: Span) -> SemaState {
    if st.current_fn == Some(name) { add_error(st, recursion_message(name), span) } else { st }
}

/// The errors of an intrinsic call: its arity, then each argument's type in order.
pub open spec fn check_call_args(st: SemaState, name: Seq<char>, expected: Seq<TinyType>, got: Seq<TinyType>, args: Seq<ExprM>, span: Span) -> SemaState {
    if got.len() != expected.len() {
        add_error(st, arity_message(name, expected.len(), got.len()), span)
    } else {
        check_arg_types(st, name, expected, got, args, expected.len() as int)
    }
}

/// The argument-type errors of the first `n` arguments.
pub open spec fn check_arg_types(st: SemaState, name: Seq<char>, expected: Seq<TinyType>, got: Seq<TinyType>, args: Seq<ExprM>, n: int) -> SemaState
    decreases n,
{
    if n <= 0 {
        st
    } else {
        let s = check_arg_types(st, name, expected, got, args, n - 1);
        let i = n - 1;
        if expected[i] != got[i] {
            add_error(s, argument_message((i + 1) as nat, name, expected[i], got[i]), expr_span(args[i]))
        } else {
            s
        }
    }
}

/// An expression analysed: the state after it and its type.
pub open spec fn check_expr(target: Target, st: SemaState, e: ExprM) -> (SemaState, TinyType)
    decreases e,
{
    let (s, ty) = match e {
        ExprM::LitInt(_, _) => (st, TinyType::Int),
        ExprM::LitFloat(_, span) => (
            if target == Target::Avr { add_error(st, float_message(span), span) } else { st },
            TinyType::Float,
        ),
        ExprM::LitStr(_, _) => (st, TinyType::Str),
        ExprM::LitBool(_, _) => (st, TinyType::Bool),
        ExprM::Nil(_) => (st, TinyType::Nil),
        ExprM::Var(name, span) => match scope_lookup(st.frames, name) {
            None => (add_error(st, undeclared_message(name), span), TinyType::Nil),
            Some(ty) => (if ty == TinyType::Nil { add_error(st, uninitialised_message(name), span) } else { st }, ty),
        },
        ExprM::BinOp { op, lhs, rhs, .. } => {
            let (s1, _) = check_expr(target, st, *lhs);
            let (s2, _) = check_expr(target, s1, *rhs);
            (s2, binop_type(op))
        },
        ExprM::UnOp { op, operand, .. } => {
            let (s1, ot) = check_expr(target, st, *operand);
            (s1, match op { UnOp::Neg => ot, UnOp::Not => TinyType::Bool })
        },
        ExprM::Call { name, args, span } => {
            let s0 = check_recursion(st, name, span);
            let (s1, arg_types) = check_args(target, s0, args);
            match intrinsic_sig_spec(name) {
                Some((params, ret)) => (
                    check_call_args(s1, name, params, arg_types, args, span),
                    match ret { Some(t) => t, None => TinyType::Nil },
                ),
                // a function of the program: `Int` by default
                None => (s1, TinyType::Int),
            }
        },
    };
    (record(s, ty), ty)
}

/// A list of expressions analysed left to right: the state after them and their types.
pub open spec fn check_args(target: Target, st: SemaState, args: Seq<ExprM>) -> (SemaState, Seq<TinyType>)
    decreases args,
{
    if args.len() == 0 {
        (st, Seq::empty())
    } else {
        let (s1, tys) = check_args(target, st, args.drop_last());
        let (s2, t) = check_expr(target, s1, args.last());
        (s2, tys.push(t))
    }
}

/// A statement analysed.
pub open spec fn check_stmt(target: Target, st: SemaState, s: StmtM) -> SemaState
    decreases s,
{
    match s {
        StmtM::Local { name, init, .. } => {
            let (s1, ty) = match init {
                Some(e) => check_expr(target, st, e),
                None => (st, TinyType::Nil),
            };
            with_frames(s1, scope_define(s1.frames, name, ty))
        },
        StmtM::Assign { name, value, span } => {
            let (s1, vty) = check_expr(target, st, value);
            match scope_lookup(s1.frames, name) {
                None => add_error(s1, undeclared_message(name), span),
                // a variable still `Nil` takes the type assigned, where it was declared
                Some(prev) => if prev == TinyType::Nil { with_frames(s1, scope_assign(s1.frames, name, vty)) } else { s1 },
            }
        },
        StmtM::Call { name, args, span } => {
            let s0 = check_recursion(st, name, span);
            let (s1, arg_types) = check_args(target, s0, args);
            match intrinsic_sig_spec(name) {
                Some((params, _)) => check_call_args(s1, name, params, arg_types, args, span),
                None => s1,
            }
        },
        StmtM::While { cond, body, .. } => {
            let (s1, _) = check_expr(target, st, cond);
            check_scoped_block(target, s1, body)
        },
        StmtM::If { cond, then_body, elseif_clauses, else_body, .. } => {
            let (s1, _) = check_expr(target, st, cond);
            let s2 = check_scoped_block(target, s1, then_body);
            let s3 = check_elseifs(target, s2, elseif_clauses);
            match else_body {
                Some(b) => check_scoped_block(target, s3, b),
                None => s3,
            }
        },
        StmtM::NumFor { var, start, limit, step, body, .. } => {
            let (s1, _) = check_expr(target, st, start);
            let (s2, _) = check_expr(target, s1, limit);
            let s3 = match step {
                Some(e) => check_expr(target, s2, e).0,
                None => s2,
            };
            // the loop variable is an `Int` of the loop's own scope
            let s4 = with_frames(s3, scope_define(s3.frames.push(Map::empty()), var, TinyType::Int));
            let s5 = check_block(target, s4, body);
            with_frames(s5, scope_pop(s5.frames))
        },
        StmtM::Function { name, params, body, .. } => {
            // the name is declared outside before the body is analysed
            let s1 = with_frames(st, scope_define(st.frames, name, TinyType::Int));
            let s2 = SemaState { current_fn: Some(name), ..s1 };
            // parameters are `Int`
            let s3 = with_frames(s2, define_all(s2.frames.push(Map::empty()), params, TinyType::Int));
            let s4 = check_block(target, s3, body);
            SemaState { frames: scope_pop(s4.frames), current_fn: st.current_fn, ..s4 }
        },
        StmtM::Return { value, .. } => match value {
            Some(e) => check_expr(target, st, e).0,
            None => st,
        },
    }
}

/// Every name of `names` declared in the innermost frame, in order.
pub open spec fn define_all(frames: Seq<Map<Seq<char>, TinyType>>, names: Seq<Seq<char>>, ty: TinyType) -> Seq<Map<Seq<char>, TinyType>>
    decreases names.len(),
{
    if names.len() == 0 {
        frames
    } else {
        scope_define(define_all(frames, names.drop_last(), ty), names.last(), ty)
    }
}

/// A block analysed in a frame of its own.
pub open spec fn check_scoped_block(target: Target, st: SemaState, body: Seq<StmtM>) -> SemaState
    decreases body, 1nat,
{
    let s = check_block(target, with_frames(st, st.frames.push(Map::empty())), body);
    with_frames(s, scope_pop(s.frames))
}

/// The `elseif` clauses analysed in order, each body in a frame of its own.
pub open spec fn check_elseifs(target: Target, st: SemaState, cs: Seq<ElseIfM>) -> SemaState
    decreases cs,
{
    if cs.len() == 0 {
        st
    } else {
        let s1 = check_elseifs(target, st, cs.drop_last());
        let (s2, _) = check_expr(target, s1, cs.last().cond);
        check_scoped_block(target, s2, cs.last().body)
    }
}

/// The statements of a block analysed in order.
pub open spec fn check_block(target: Target, st: SemaState, b: Seq<StmtM>) -> SemaState
    decreases b, 0nat,
{
    if b.len() == 0 {
        st
    } else {
        check_stmt(target, check_block(target, st, b.drop_last()), b.last())
    }
}

/// The analysis of a whole program.
pub open spec fn analyse_spec(target: Target, block: Seq<StmtM>) -> SemaState {
    check_block(target, initial_state(), block)
}

// ── sizes ───────────────────────────────────────────────────────────────────

/// The number of expression nodes of an expression.
pub open spec fn expr_count(e: ExprM) -> nat
    decreases e,
{
    match e {
        ExprM::BinOp { lhs, rhs, .. } => 1 + expr_count(*lhs) + expr_count(*rhs),
        ExprM::UnOp { operand, .. } => 1 + expr_count(*operand),
        ExprM::Call { args, .. } => 1 + args_count(args),
        _ => 1,
    }
}

pub open spec fn args_count(args: Seq<ExprM>) -> nat
    decreases args,
{
    if args.len() == 0 { 0 } else { args_count(args.drop_last()) + expr_count(args.last()) }
}

pub open spec fn opt_count(e: Option<ExprM>) -> nat
    decreases e,
{
    match e {
        Some(x) => expr_count(x),
        None => 0,
    }
}

/// The number of expression nodes of a statement.
pub open spec fn stmt_count(s: StmtM) -> nat
    decreases s,
{
    match s {
        StmtM::Local { init, .. } => opt_count(init),
        StmtM::Assign { value, .. } => expr_count(value),
        StmtM::Call { args, .. } => args_count(args),
        StmtM::While { cond, body, .. } => expr_count(cond) + block_count(body),
        StmtM::If { cond, then_body, elseif_clauses, else_body, .. } => expr_count(cond) + block_count(then_body)
            + elseifs_count(elseif_clauses) + match else_body { Some(b) => block_count(b), None => 0 },
        StmtM::NumFor { start, limit, step, body, .. } => expr_count(start) + expr_count(limit) + opt_count(step)
            + block_count(body),
        StmtM::Function { body, .. } => block_count(body),
        StmtM::Return { value, .. } => opt_count(value),
    }
}

pub open spec fn elseifs_count(cs: Seq<ElseIfM>) -> nat
    decreases cs,
{
    if cs.len() == 0 { 0 } else { elseifs_count(cs.drop_last()) + expr_count(cs.last().cond) + block_count(cs.last().body) }
}

/// The number of expression nodes of a block.
pub open spec fn block_count(b: Seq<StmtM>) -> nat
    decreases b,
{
    if b.len() == 0 { 0 } else { block_count(b.drop_last()) + stmt_count(b.last()) }
}

// ── scopes, in memory ───────────────────────────────────────────────────────

#[derive(Clone, Copy)]
struct VarInfo {
    ty: TinyType,
    #[allow(dead_code)]
    span: Span,
}

/// A frame as a map from names to types.
spec fn frame_map(f: Seq<(String, VarInfo)>) -> Map<Seq<char>, TinyType>
    decreases f.len(),
{
    if f.len() == 0 {
        Map::empty()
    } else {
        frame_map(f.drop_last()).insert(f.last().0@, f.last().1.ty)
    }
}

/// No name occurs twice in a frame.
spec fn frame_wf(f: Seq<(String, VarInfo)>) -> bool {
    forall|i: int, j: int| 0 <= i < j < f.len() ==> f[i].0@ != f[j].0@
}

proof fn lemma_frame_lookup(f: Seq<(String, VarInfo)>, k: Seq<char>)
    requires
        frame_wf(f),
    ensures
        frame_map(f).contains_key(k) <==> exists|i: int| 0 <= i < f.len() && f[i].0@ == k,
        forall|i: int| 0 <= i < f.len() && f[i].0@ == k ==> frame_map(f)[k] == #[trigger] f[i].1.ty,
    decreases f.len(),
{
    if f.len() > 0 {
        let g = f.drop_last();
        assert(frame_wf(g));
        lemma_frame_lookup(g, k);
        if frame_map(f).contains_key(k) && f.last().0@ != k {
            let i = choose|i: int| 0 <= i < g.len() && g[i].0@ == k;
            assert(f[i].0@ == k);
        }
        if exists|i: int| 0 <= i < f.len() && f[i].0@ == k {
            let i = choose|i: int| 0 <= i < f.len() && f[i].0@ == k;
            if i < f.len() - 1 {
                assert(g[i].0@ == k);
            }
        }
        assert forall|i: int| 0 <= i < f.len() && f[i].0@ == k implies frame_map(f)[k] == #[trigger] f[i].1.ty by {
            if i < f.len() - 1 {
                assert(g[i].0@ == k);
            }
        }
    }
}

proof fn lemma_frame_update(f: Seq<(String, VarInfo)>, i: int, x: (String, VarInfo))
    requires
        frame_wf(f),
        0 <= i < f.len(),
        x.0@ == f[i].0@,
    ensures
        frame_map(f.update(i, x)) == frame_map(f).insert(x.0@, x.1.ty),
        frame_wf(f.update(i, x)),
    decreases f.len(),
{
    let g = f.update(i, x);
    if i == f.len() - 1 {
        assert(g.drop_last() =~= f.drop_last());
        assert(frame_map(g) =~= frame_map(f).insert(x.0@, x.1.ty));
    } else {
        let h = f.drop_last();
        assert(frame_wf(h));
        lemma_frame_update(h, i, x);
        assert(g.drop_last() =~= h.update(i, x));
        assert(f.last().0@ != x.0@);
        assert(frame_map(g) =~= frame_map(f).insert(x.0@, x.1.ty));
    }
    assert forall|a: int, b: int| 0 <= a < b < g.len() implies g[a].0@ != g[b].0@ by {
        assert(g[a].0@ == f[a].0@);
        assert(g[b].0@ == f[b].0@);
    }
}

/// The open scopes, innermost last. Each frame is a list of (name, variable) pairs in
/// which no name occurs twice, seen as a map from names to types by `frame_map`; a
/// map keyed by `String` would give the contracts nothing they could prove about its
/// contents.
struct Scope {
    frames: Vec<Vec<(String, VarInfo)>>,
}

impl Scope {
    spec fn model(&self) -> Seq<Map<Seq<char>, TinyType>> {
        Seq::new(self.frames@.len(), |i: int| frame_map(self.frames@[i]@))
    }

    spec fn wf(&self) -> bool {
        forall|i: int| 0 <= i < self.frames@.len() ==> frame_wf(#[trigger] self.frames@[i]@)
    }

    fn new() -> (r: Self)
        ensures
            r.wf(),
            r.model() == seq![Map::<Seq<char>, TinyType>::empty()],
    {
        let r = Self { frames: vec![Vec::new()] };
        assert(r.model() =~= seq![Map::<Seq<char>, TinyType>::empty()]);
        r
    }

    fn push(&mut self)
        requires
            old(self).wf(),
        ensures
            final(self).wf(),
            final(self).model() == old(self).model().push(Map::empty()),
    {
        self.frames.push(Vec::new());
        assert(self.model() =~= old(self).model().push(Map::empty()));
    }

    fn pop(&mut self)
        requires
            old(self).wf(),
        ensures
            final(self).wf(),
            final(self).model() == scope_pop(old(self).model()),
    {
        let _ = self.frames.pop();
        assert(self.model() =~= scope_pop(old(self).model()));
    }

    /// Declares `name` in the innermost frame.
    fn define(&mut self, name: &str, info: VarInfo)
        requires
            old(self).wf(),
        ensures
            final(self).wf(),
            final(self).model() == scope_define(old(self).model(), name@, info.ty),
    {
        let n = self.frames.len();
        if n == 0 {
            return;
        }
        let last = n - 1;
        let ghost f = self.frames@[last as int]@;
        match find_in_frame(&self.frames[last], name) {
            Some(j) => {
                let key = self.frames[last][j].0.clone();
                proof {
                    lemma_frame_update(f, j as int, (key, info));
                }
                self.frames[last].set(j, (key, info));
            },
            None => {
                proof {
                    lemma_frame_lookup(f, name@);
                }
                let key = String::from_str(name);
                let ghost entry = (key, info);
                self.frames[last].push((key, info));
                assert(self.frames@[last as int]@ == f.push(entry));
                assert(self.frames@[last as int]@.drop_last() =~= f);
            },
        }
        assert(self.model() =~= scope_define(old(self).model(), name@, info.ty));
    }

    /// The type of `name` in the innermost frame that declares it.
    fn lookup(&self, name: &str) -> (r: Option<TinyType>)
        requires
            self.wf(),
        ensures
            r == scope_lookup(self.model(), name@),
    {
        let ghost m = self.model();
        let mut i = self.frames.len();
        assert(m.take(i as int) =~= m);
        while i > 0
            invariant
                i <= self.frames@.len(),
                m == self.model(),
                self.wf(),
                scope_lookup(m, name@) == scope_lookup(m.take(i as int), name@),
            decreases i,
        {
            let ghost f = self.frames@[i - 1]@;
            proof {
                lemma_frame_lookup(f, name@);
                assert(m.take(i as int).drop_last() =~= m.take(i - 1));
            }
            match find_in_frame(&self.frames[i - 1], name) {
                Some(j) => {
                    return Some(self.frames[i - 1][j].1.ty);
                },
                None => {},
            }
            i = i - 1;
        }
        None
    }

    /// Gives `name` the type `ty` in the innermost frame that declares it.
    fn assign_type(&mut self, name: &str, ty: TinyType)
        requires
            old(self).wf(),
        ensures
            final(self).wf(),
            final(self).model() == scope_assign(old(self).model(), name@, ty),
    {
        let ghost m = self.model();
        let mut i = self.frames.len();
        assert(m.take(i as int) =~= m);
        while i > 0
            invariant
                i <= self.frames@.len(),
                m == self.model(),
                self.frames@ == old(self).frames@,
                self.wf(),
                scope_assign(m, name@, ty) == scope_assign(m.take(i as int), name@, ty) + m.skip(i as int),
            decreases i,
        {
            let ghost f = self.frames@[i - 1]@;
            proof {
                lemma_frame_lookup(f, name@);
                assert(m.take(i as int).drop_last() =~= m.take(i - 1));
                assert(m.take(i as int).last() == m[i - 1]);
            }
            match find_in_frame(&self.frames[i - 1], name) {
                Some(j) => {
                    let key = self.frames[i - 1][j].0.clone();
                    let span = self.frames[i - 1][j].1.span;
                    proof {
                        lemma_frame_update(f, j as int, (key, VarInfo { ty, span }));
                    }
                    self.frames[i - 1].set(j, (key, VarInfo { ty, span }));
                    assert(self.model() =~= scope_assign(m, name@, ty));
                    return;
                },
                None => {},
            }
            assert(scope_assign(m.take(i as int), name@, ty) == scope_assign(m.take(i - 1), name@, ty).push(m[i - 1]));
            assert(m.skip(i - 1) =~= seq![m[i - 1]] + m.skip(i as int));
            assert(scope_assign(m.take(i - 1), name@, ty).push(m[i - 1]) + m.skip(i as int) =~= scope_assign(m.take(i - 1), name@, ty) + m.skip(i - 1));
            i = i - 1;
        }
        assert(m.take(0) =~= Seq::<Map<Seq<char>, TinyType>>::empty());
        assert(m.skip(0) =~= m);
        assert(self.model() =~= m);
    }
}

/// Index of `name` in a frame, if it is there.
fn find_in_frame(f: &Vec<(String, VarInfo)>, name: &str) -> (r: Option<usize>)
    ensures
        r matches Some(j) ==> j < f@.len() && f@[j as int].0@ == name@,
        r is None ==> forall|j: int| 0 <= j < f@.len() ==> (#[trigger] f@[j]).0@ != name@,
{
    let mut j: usize = 0;
    while j < f.len()
        invariant
            j <= f@.len(),
            forall|k: int| 0 <= k < j ==> (#[trigger] f@[k]).0@ != name@,
        decreases f@.len() - j,
    {
        if str_eq(f[j].0.as_str(), name) {
            return Some(j);
        }
        j = j + 1;
    }
    None
}

// ── messages, in memory ─────────────────────────────────────────────────────

fn float_msg(span: Span) -> (r: String)
    ensures
        r@ == float_message(span),
{
    let mut m = String::from_str("ponto flutuante não é suportado no target AVR (");
    push_decimal(&mut m, span.line as u64);
    m.append(":");
    push_decimal(&mut m, span.col as u64);
    m.append(")");
    m
}

fn undeclared_msg(name: &str) -> (r: String)
    ensures
        r@ == undeclared_message(name@),
{
    let mut m = String::from_str("variável '");
    m.append(name);
    m.append("' não declarada");
    m
}

fn uninitialised_msg(name: &str) -> (r: String)
    ensures
        r@ == uninitialised_message(name@),
{
    let mut m = String::from_str("variável '");
    m.append(name);
    m.append("' usada antes de ser inicializada");
    m
}

fn recursion_msg(name: &str) -> (r: String)
    ensures
        r@ == recursion_message(name@),
{
    let mut m = String::from_str("recursão não é suportada na PoC (função '");
    m.append(name);
    m.append("')");
    m
}

fn arity_msg(name: &str, expected: usize, got: usize) -> (r: String)
    ensures
        r@ == arity_message(name@, expected as nat, got as nat),
{
    let mut m = String::from_str("'");
    m.append(name);
    m.append("' espera ");
    push_decimal(&mut m, expected as u64);
    m.append(" argumento");
    if expected != 1 {
        m.append("s");
    } else {
        m.append("");
    }
    m.append(", recebeu ");
    push_decimal(&mut m, got as u64);
    m
}

fn argument_msg(index: usize, name: &str, expected: TinyType, got: TinyType) -> (r: String)
    ensures
        r@ == argument_message(index as nat, name@, expected, got),
{
    let mut m = String::from_str("argumento ");
    push_decimal(&mut m, index as u64);
    m.append(" de '");
    m.append(name);
    m.append("' deve ser ");
    m.append(expected.to_display_string().as_str());
    m.append(", recebeu ");
    m.append(got.to_display_string().as_str());
    m
}

/// Signature of the intrinsic `name`, if it is one.
fn intrinsic_sig(name: &str) -> (r: Option<(Vec<TinyType>, Option<TinyType>)>)
    ensures
        r matches Some((ps, ret)) ==> intrinsic_sig_spec(name@) == Some((ps@, ret)),
        r is None ==> intrinsic_sig_spec(name@) is None,
{
    if str_eq(name, "digitalRead") {
        Some((vec![TinyType::Int], Some(TinyType::Bool)))
    } else if str_eq(name, "digitalWrite") {
        Some((vec![TinyType::Int, TinyType::Bool], None))
    } else if str_eq(name, "analogRead") {
        Some((vec![TinyType::Int], Some(TinyType::Int)))
    } else if str_eq(name, "analogWrite") {
        Some((vec![TinyType::Int, TinyType::Int], None))
    } else if str_eq(name, "delay") {
        Some((vec![TinyType::Int], None))
    } else if str_eq(name, "pinMode") {
        Some((vec![TinyType::Int, TinyType::Str], None))
    } else {
        None
    }
}

fn binop_type_of(op: BinOp) -> (r: TinyType)
    ensures
        r == binop_type(op),
{
    match op {
        BinOp::Add | BinOp::Sub | BinOp::Mul | BinOp::Div | BinOp::Mod => TinyType::Int,
        BinOp::Eq | BinOp::Ne | BinOp::Lt | BinOp::Le | BinOp::Gt | BinOp::Ge => TinyType::Bool,
        BinOp::And | BinOp::Or => TinyType::Bool,
    }
}

// ── the analyser ────────────────────────────────────────────────────────────

/// The models of a list of errors.
pub open spec fn errors_model(es: Seq<SemaError>) -> Seq<(Seq<char>, Span)> {
    es.map_values(|e: SemaError| e.model())
}

struct Analyser<'c> {
    config: &'c SemaConfig,
    scope: Scope,
    errors: Vec<SemaError>,
    expr_types: HashMap<usize, TinyType>,
    next_id: usize,
    /// Name of the function being analysed (to detect recursion).
    current_fn: Option<String>,
}

impl<'a, 'c> Analyser<'c> {
    spec fn model(&self) -> SemaState {
        SemaState {
            frames: self.scope.model(),
            errors: errors_model(self.errors@),
            types: self.expr_types@,
            next_id: self.next_id as nat,
            current_fn: match self.current_fn {
                Some(f) => Some(f@),
                None => None,
            },
        }
    }

    spec fn target(&self) -> Target {
        self.config.target
    }

    fn new(config: &'c SemaConfig) -> (r: Self)
        ensures
            r.scope.wf(),
            r.model() == initial_state(),
            r.config == config,
    {
        let r = Self {
            config,
            scope: Scope::new(),
            errors: Vec::new(),
            expr_types: HashMap::new(),
            next_id: 0,
            current_fn: None,
        };
        assert(errors_model(r.errors@) =~= Seq::<(Seq<char>, Span)>::empty());
        r
    }

    fn error(&mut self, message: String, span: Span)
        requires
            old(self).scope.wf(),
        ensures
            final(self).scope.wf(),
            final(self).config == old(self).config,
            final(self).model() == add_error(old(self).model(), message@, span),
    {
        let ghost old_errors = self.errors@;
        self.errors.push(SemaError { message, span });
        assert(errors_model(self.errors@) =~= errors_model(old_errors).push((message@, span)));
    }

    /// The recursion error when `name` is the function being analysed.
    fn check_recursion(&mut self, name: &String, span: Span)
        requires
            old(self).scope.wf(),
        ensures
            final(self).scope.wf(),
            final(self).config == old(self).config,
            final(self).model() == check_recursion(old(self).model(), name@, span),
    {
        let recursive = match &self.current_fn {
            Some(f) => str_eq(f.as_str(), name.as_str()),
            None => false,
        };
        if recursive {
            self.error(recursion_msg(name.as_str()), span);
        }
    }

    // ── expressions ─────────────────────────────────────────────────────────

    fn check_expr(&mut self, expr: &Expr<'a>) -> (r: TinyType)
        requires
            old(self).scope.wf(),
            old(self).next_id + expr_count(expr.model()) <= usize::MAX,
        ensures
            final(self).scope.wf(),
            final(self).config == old(self).config,
            (final(self).model(), r) == check_expr(old(self).target(), old(self).model(), expr.model()),
            final(self).next_id == old(self).next_id + expr_count(expr.model()),
        decreases expr, 0nat,
    {
        let ty = match expr {
            Expr::LitInt(_, _) => TinyType::Int,
            Expr::LitFloat(_, span) => {
                if self.config.target == Target::Avr {
                    self.error(float_msg(*span), *span);
                }
                TinyType::Float
            },
            Expr::LitStr(_, _) => TinyType::Str,
            Expr::LitBool(_, _) => TinyType::Bool,
            Expr::Nil(_) => TinyType::Nil,
            Expr::Var(name, span) => match self.scope.lookup(name.as_str()) {
                None => {
                    self.error(undeclared_msg(name.as_str()), *span);
                    TinyType::Nil
                },
                Some(ty) => {
                    if ty == TinyType::Nil {
                        self.error(uninitialised_msg(name.as_str()), *span);
                    }
                    ty
                },
            },
            Expr::BinOp { op, lhs, rhs, .. } => {
                self.check_expr(lhs);
                self.check_expr(rhs);
                binop_type_of(*op)
            },
            Expr::UnOp { op, operand, .. } => {
                let ot = self.check_expr(operand);
                match op {
                    UnOp::Neg => ot,
                    UnOp::Not => TinyType::Bool,
                }
            },
            Expr::Call { name, args, span } => {
                self.check_recursion(name, *span);
                let arg_types = self.check_arguments(args);
                match intrinsic_sig(name.as_str()) {
                    Some((param_tys, ret_ty)) => {
                        self.check_call_args(name, &param_tys, &arg_types, args, *span);
                        match ret_ty {
                            Some(t) => t,
                            None => TinyType::Nil,
                        }
                    },
                    // a function of the program: `Int` by default
                    None => TinyType::Int,
                }
            },
        };
        self.expr_types.insert(self.next_id, ty);
        self.next_id = self.next_id + 1;
        ty
    }

    /// Analyses the arguments of a call left to right; their types.
    fn check_arguments(&mut self, args: &Vec<&'a Expr<'a>>) -> (r: Vec<TinyType>)
        requires
            old(self).scope.wf(),
            old(self).next_id + args_count(exprs_model(args@)) <= usize::MAX,
        ensures
            final(self).scope.wf(),
            final(self).config == old(self).config,
            (final(self).model(), r@) == check_args(old(self).target(), old(self).model(), exprs_model(args@)),
            final(self).next_id == old(self).next_id + args_count(exprs_model(args@)),
            r@.len() == args@.len(),
        decreases args, 0nat,
    {
        let ghost es = exprs_model(args@);
        let ghost s0 = self.model();
        let ghost n0 = self.next_id;
        let mut arg_types: Vec<TinyType> = Vec::new();
        let mut i: usize = 0;
        assert(es.take(0) =~= Seq::<ExprM>::empty());
        while i < args.len()
            invariant
                i <= args@.len(),
                es == exprs_model(args@),
                self.scope.wf(),
                self.config == old(self).config,
                n0 == old(self).next_id,
                s0 == old(self).model(),
                n0 + args_count(es) <= usize::MAX,
                (self.model(), arg_types@) == check_args(self.target(), s0, es.take(i as int)),
                self.next_id == n0 + args_count(es.take(i as int)),
                arg_types@.len() == i,
            decreases args@.len() - i,
        {
            proof {
                assert(es.take(i + 1).drop_last() =~= es.take(i as int));
                lemma_args_count_prefix(es, i + 1);
            }
            let t = self.check_expr(args[i]);
            arg_types.push(t);
            i = i + 1;
        }
        assert(es.take(i as int) =~= es);
        arg_types
    }

    /// Arity, then the type of each argument, of a call to an intrinsic.
    fn check_call_args(
        &mut self,
        name: &String,
        expected: &Vec<TinyType>,
        got_types: &Vec<TinyType>,
        args: &Vec<&'a Expr<'a>>,
        span: Span,
    )
        requires
            old(self).scope.wf(),
            got_types@.len() == args@.len(),
        ensures
            final(self).scope.wf(),
            final(self).config == old(self).config,
            final(self).next_id == old(self).next_id,
            final(self).model() == check_call_args(old(self).model(), name@, expected@, got_types@, exprs_model(args@), span),
    {
        if got_types.len() != expected.len() {
            self.error(arity_msg(name.as_str(), expected.len(), got_types.len()), span);
            return;
        }
        let ghost s0 = self.model();
        let mut i: usize = 0;
        while i < expected.len()
            invariant
                i <= expected@.len(),
                expected@.len() == got_types@.len(),
                got_types@.len() == args@.len(),
                self.scope.wf(),
                self.config == old(self).config,
                self.next_id == old(self).next_id,
                s0 == old(self).model(),
                self.model() == check_arg_types(s0, name@, expected@, got_types@, exprs_model(args@), i as int),
            decreases expected@.len() - i,
        {
            if expected[i] != got_types[i] {
                let arg_span = args[i].span();
                self.error(argument_msg(i + 1, name.as_str(), expected[i], got_types[i]), arg_span);
            }
            i = i + 1;
        }
    }
}

impl<'a, 'c> Analyser<'c> {
    // ── statements ──────────────────────────────────────────────────────────

    fn check_block(&mut self, stmts: &Vec<&'a Stmt<'a>>)
        requires
            old(self).scope.wf(),
            old(self).next_id + block_count(stmts_model(stmts@)) <= usize::MAX,
        ensures
            final(self).scope.wf(),
            final(self).config == old(self).config,
            final(self).model() == check_block(old(self).target(), old(self).model(), stmts_model(stmts@)),
            final(self).next_id == old(self).next_id + block_count(stmts_model(stmts@)),
        decreases stmts, 0nat,
    {
        let ghost b = stmts_model(stmts@);
        let ghost s0 = self.model();
        let ghost n0 = self.next_id;
        let mut i: usize = 0;
        assert(b.take(0) =~= Seq::<StmtM>::empty());
        while i < stmts.len()
            invariant
                i <= stmts@.len(),
                b == stmts_model(stmts@),
                self.scope.wf(),
                self.config == old(self).config,
                n0 == old(self).next_id,
                s0 == old(self).model(),
                n0 + block_count(b) <= usize::MAX,
                self.model() == check_block(self.target(), s0, b.take(i as int)),
                self.next_id == n0 + block_count(b.take(i as int)),
            decreases stmts@.len() - i,
        {
            proof {
                assert(b.take(i + 1).drop_last() =~= b.take(i as int));
                lemma_block_count_prefix(b, i + 1);
            }
            self.check_stmt(stmts[i]);
            i = i + 1;
        }
        assert(b.take(i as int) =~= b);
    }

    /// A block in a frame of its own.
    fn check_scoped_block(&mut self, stmts: &Vec<&'a Stmt<'a>>)
        requires
            old(self).scope.wf(),
            old(self).next_id + block_count(stmts_model(stmts@)) <= usize::MAX,
        ensures
            final(self).scope.wf(),
            final(self).config == old(self).config,
            final(self).model() == check_scoped_block(old(self).target(), old(self).model(), stmts_model(stmts@)),
            final(self).next_id == old(self).next_id + block_count(stmts_model(stmts@)),
        decreases stmts, 1nat,
    {
        self.scope.push();
        self.check_block(stmts);
        self.scope.pop();
    }

    fn check_elseif_clauses(&mut self, clauses: &Vec<ElseIf<'a>>)
        requires
            old(self).scope.wf(),
            old(self).next_id + elseifs_count(elseifs_model(clauses@)) <= usize::MAX,
        ensures
            final(self).scope.wf(),
            final(self).config == old(self).config,
            final(self).model() == check_elseifs(old(self).target(), old(self).model(), elseifs_model(clauses@)),
            final(self).next_id == old(self).next_id + elseifs_count(elseifs_model(clauses@)),
        decreases clauses, 0nat,
    {
        let ghost cs = elseifs_model(clauses@);
        let ghost s0 = self.model();
        let ghost n0 = self.next_id;
        let mut i: usize = 0;
        assert(cs.take(0) =~= Seq::<ElseIfM>::empty());
        while i < clauses.len()
            invariant
                i <= clauses@.len(),
                cs == elseifs_model(clauses@),
                self.scope.wf(),
                self.config == old(self).config,
                n0 == old(self).next_id,
                s0 == old(self).model(),
                n0 + elseifs_count(cs) <= usize::MAX,
                self.model() == check_elseifs(self.target(), s0, cs.take(i as int)),
                self.next_id == n0 + elseifs_count(cs.take(i as int)),
            decreases clauses@.len() - i,
        {
            proof {
                assert(cs.take(i + 1).drop_last() =~= cs.take(i as int));
                lemma_elseifs_count_prefix(cs, i + 1);
            }
            let clause = &clauses[i];
            self.check_expr(clause.cond);
            self.check_scoped_block(&clause.body);
            i = i + 1;
        }
        assert(cs.take(i as int) =~= cs);
    }

    fn check_stmt(&mut self, stmt: &'a Stmt<'a>)
        requires
            old(self).scope.wf(),
            old(self).next_id + stmt_count(stmt.model()) <= usize::MAX,
        ensures
            final(self).scope.wf(),
            final(self).config == old(self).config,
            final(self).model() == check_stmt(old(self).target(), old(self).model(), stmt.model()),
            final(self).next_id == old(self).next_id + stmt_count(stmt.model()),
        decreases stmt, 2nat,
    {
        match stmt {
            Stmt::Local { name, init, span } => {
                let ty = match init {
                    Some(expr) => self.check_expr(expr),
                    None => TinyType::Nil,
                };
                self.scope.define(name.as_str(), VarInfo { ty, span: *span });
            },
            Stmt::Assign { .. } => self.check_assign(stmt),
            Stmt::Call { name, args, span } => {
                self.check_recursion(name, *span);
                let arg_types = self.check_arguments(args);
                match intrinsic_sig(name.as_str()) {
                    Some((param_tys, _)) => {
                        self.check_call_args(name, &param_tys, &arg_types, args, *span);
                    },
                    // calls to functions of the program need no further check
                    None => {},
                }
            },
            Stmt::While { cond, body, .. } => {
                self.check_expr(cond);
                self.check_scoped_block(body);
            },
            Stmt::If { .. } => self.check_if(stmt),
            Stmt::NumFor { .. } => self.check_for(stmt),
            Stmt::Function { .. } => self.check_function(stmt),
            Stmt::Return { value, .. } => {
                match value {
                    Some(expr) => {
                        self.check_expr(expr);
                    },
                    None => {},
                }
            },
        }
    }

    fn check_assign(&mut self, stmt: &'a Stmt<'a>)
        requires
            old(self).scope.wf(),
            old(self).next_id + stmt_count(stmt.model()) <= usize::MAX,
            stmt is Assign,
        ensures
            final(self).scope.wf(),
            final(self).config == old(self).config,
            final(self).model() == check_stmt(old(self).target(), old(self).model(), stmt.model()),
            final(self).next_id == old(self).next_id + stmt_count(stmt.model()),
        decreases stmt, 1nat,
    {
        if let Stmt::Assign { name, value, span } = stmt {
            let vty = self.check_expr(value);
            match self.scope.lookup(name.as_str()) {
                None => {
                    self.error(undeclared_msg(name.as_str()), *span);
                },
                Some(prev_ty) => {
                    // a variable still `Nil` takes the type assigned, where it was declared
                    if prev_ty == TinyType::Nil {
                        self.scope.assign_type(name.as_str(), vty);
                    }
                },
            }
        }
    }

    fn check_if(&mut self, stmt: &'a Stmt<'a>)
        requires
            old(self).scope.wf(),
            old(self).next_id + stmt_count(stmt.model()) <= usize::MAX,
            stmt is If,
        ensures
            final(self).scope.wf(),
            final(self).config == old(self).config,
            final(self).model() == check_stmt(old(self).target(), old(self).model(), stmt.model()),
            final(self).next_id == old(self).next_id + stmt_count(stmt.model()),
        decreases stmt, 1nat,
    {
        if let Stmt::If { cond, then_body, elseif_clauses, else_body, .. } = stmt {
            self.check_expr(cond);
            self.check_scoped_block(then_body);
            self.check_elseif_clauses(elseif_clauses);
            match else_body {
                Some(body) => self.check_scoped_block(body),
                None => {},
            }
        }
    }

    fn check_for(&mut self, stmt: &'a Stmt<'a>)
        requires
            old(self).scope.wf(),
            old(self).next_id + stmt_count(stmt.model()) <= usize::MAX,
            stmt is NumFor,
        ensures
            final(self).scope.wf(),
            final(self).config == old(self).config,
            final(self).model() == check_stmt(old(self).target(), old(self).model(), stmt.model()),
            final(self).next_id == old(self).next_id + stmt_count(stmt.model()),
        decreases stmt, 1nat,
    {
        if let Stmt::NumFor { var, start, limit, step, body, span } = stmt {
            self.check_expr(start);
            self.check_expr(limit);
            match step {
                Some(e) => {
                    self.check_expr(e);
                },
                None => {},
            }
            // the loop variable is an `Int` of the loop's own scope
            self.scope.push();
            self.scope.define(var.as_str(), VarInfo { ty: TinyType::Int, span: *span });
            self.check_block(body);
            self.scope.pop();
        }
    }

    fn check_function(&mut self, stmt: &'a Stmt<'a>)
        requires
            old(self).scope.wf(),
            old(self).next_id + stmt_count(stmt.model()) <= usize::MAX,
            stmt is Function,
        ensures
            final(self).scope.wf(),
            final(self).config == old(self).config,
            final(self).model() == check_stmt(old(self).target(), old(self).model(), stmt.model()),
            final(self).next_id == old(self).next_id + stmt_count(stmt.model()),
        decreases stmt, 1nat,
    {
        if let Stmt::Function { name, params, body, span } = stmt {
            // the name is declared in the enclosing scope before the body is
            // analysed; recursion is then detected inside the body
            self.scope.define(name.as_str(), VarInfo { ty: TinyType::Int, span: *span });
            let prev_fn = match &self.current_fn {
                Some(f) => Some(f.clone()),
                None => None,
            };
            self.current_fn = Some(name.clone());
            self.scope.push();
            let ghost frames0 = self.scope.model();
            let ghost before = self.model();
            let mut i: usize = 0;
            assert(names_model(params@).take(0) =~= Seq::<Seq<char>>::empty());
            // parameters are `Int`
            while i < params.len()
                invariant
                    i <= params@.len(),
                    self.scope.wf(),
                    self.config == old(self).config,
                    self.model() == with_frames(before, self.scope.model()),
                    self.next_id == old(self).next_id,
                    self.scope.model() == define_all(frames0, names_model(params@).take(i as int), TinyType::Int),
                decreases params@.len() - i,
            {
                proof {
                    assert(names_model(params@).take(i + 1).drop_last() =~= names_model(params@).take(i as int));
                }
                self.scope.define(params[i].as_str(), VarInfo { ty: TinyType::Int, span: *span });
                i = i + 1;
            }
            assert(names_model(params@).take(i as int) =~= names_model(params@));
            self.check_block(body);
            self.scope.pop();
            self.current_fn = prev_fn;
        }
    }
}

/// Analyses a program for the target of `config`: the type of every expression node
/// and every error found.
pub fn analyse<'a>(block: &[&'a Stmt<'a>], config: &SemaConfig) -> (r: SemaOutput)
    requires
        block_count(stmts_model(block@)) <= usize::MAX,
    ensures
        r.expr_types@ == analyse_spec(config.target, stmts_model(block@)).types,
        errors_model(r.errors@) == analyse_spec(config.target, stmts_model(block@)).errors,
{
    let mut analyser = Analyser::new(config);
    let mut stmts: Vec<&'a Stmt<'a>> = Vec::new();
    let mut i: usize = 0;
    while i < block.len()
        invariant
            i <= block@.len(),
            stmts@ == block@.take(i as int),
        decreases block@.len() - i,
    {
        stmts.push(block[i]);
        i = i + 1;
        assert(stmts@ =~= block@.take(i as int));
    }
    assert(stmts@ =~= block@);
    analyser.check_block(&stmts);
    SemaOutput { expr_types: analyser.expr_types, errors: analyser.errors }
}

// ── the size check ──────────────────────────────────────────────────────────

/// `n` as a `usize`, when it fits in one.
pub open spec fn fits(n: nat) -> Option<usize> {
    if n <= usize::MAX { Some(n as usize) } else { None }
}

/// The sum of two counts, when it fits.
fn plus(a: Option<usize>, b: Option<usize>, Ghost(x): Ghost<nat>, Ghost(y): Ghost<nat>) -> (r: Option<usize>)
    requires
        a == fits(x),
        b == fits(y),
    ensures
        r == fits(x + y),
{
    match (a, b) {
        (Some(p), Some(q)) => p.checked_add(q),
        _ => None,
    }
}

fn expr_nodes(e: &Expr<'_>) -> (r: Option<usize>)
    ensures
        r == fits(expr_count(e.model())),
    decreases e, 1nat,
{
    match e {
        Expr::BinOp { lhs, rhs, .. } => {
            let a = plus(expr_nodes(lhs), expr_nodes(rhs), Ghost(expr_count(lhs.model())), Ghost(expr_count(rhs.model())));
            plus(Some(1), a, Ghost(1), Ghost(expr_count(lhs.model()) + expr_count(rhs.model())))
        },
        Expr::UnOp { operand, .. } => plus(Some(1), expr_nodes(operand), Ghost(1), Ghost(expr_count(operand.model()))),
        Expr::Call { args, .. } => plus(Some(1), args_nodes(args), Ghost(1), Ghost(args_count(exprs_model(args@)))),
        _ => Some(1),
    }
}

fn opt_nodes(e: Option<&Expr<'_>>) -> (r: Option<usize>)
    ensures
        r == fits(opt_count(match e { Some(x) => Some(x.model()), None => None })),
    decreases e, 2nat,
{
    match e {
        Some(x) => expr_nodes(x),
        None => Some(0),
    }
}

fn args_nodes(args: &Vec<&Expr<'_>>) -> (r: Option<usize>)
    ensures
        r == fits(args_count(exprs_model(args@))),
    decreases args, 0nat,
{
    let ghost es = exprs_model(args@);
    let mut acc: usize = 0;
    let mut i: usize = 0;
    assert(es.take(0) =~= Seq::<ExprM>::empty());
    while i < args.len()
        invariant
            i <= args@.len(),
            es == exprs_model(args@),
            acc == args_count(es.take(i as int)),
        decreases args@.len() - i,
    {
        proof {
            assert(es.take(i + 1).drop_last() =~= es.take(i as int));
            lemma_args_count_prefix(es, i + 1);
        }
        match plus(Some(acc), expr_nodes(args[i]), Ghost(acc as nat), Ghost(expr_count(es[i as int]))) {
            Some(n) => acc = n,
            None => return None,
        }
        i = i + 1;
    }
    assert(es.take(i as int) =~= es);
    Some(acc)
}

fn block_nodes(stmts: &Vec<&Stmt<'_>>) -> (r: Option<usize>)
    ensures
        r == fits(block_count(stmts_model(stmts@))),
    decreases stmts, 0nat,
{
    let ghost b = stmts_model(stmts@);
    let mut acc: usize = 0;
    let mut i: usize = 0;
    assert(b.take(0) =~= Seq::<StmtM>::empty());
    while i < stmts.len()
        invariant
            i <= stmts@.len(),
            b == stmts_model(stmts@),
            acc == block_count(b.take(i as int)),
        decreases stmts@.len() - i,
    {
        proof {
            assert(b.take(i + 1).drop_last() =~= b.take(i as int));
            lemma_block_count_prefix(b, i + 1);
        }
        match plus(Some(acc), stmt_nodes(stmts[i]), Ghost(acc as nat), Ghost(stmt_count(b[i as int]))) {
            Some(n) => acc = n,
            None => return None,
        }
        i = i + 1;
    }
    assert(b.take(i as int) =~= b);
    Some(acc)
}

fn elseifs_nodes(clauses: &Vec<ElseIf<'_>>) -> (r: Option<usize>)
    ensures
        r == fits(elseifs_count(elseifs_model(clauses@))),
    decreases clauses, 0nat,
{
    let ghost cs = elseifs_model(clauses@);
    let mut acc: usize = 0;
    let mut i: usize = 0;
    assert(cs.take(0) =~= Seq::<ElseIfM>::empty());
    while i < clauses.len()
        invariant
            i <= clauses@.len(),
            cs == elseifs_model(clauses@),
            acc == elseifs_count(cs.take(i as int)),
        decreases clauses@.len() - i,
    {
        proof {
            assert(cs.take(i + 1).drop_last() =~= cs.take(i as int));
            lemma_elseifs_count_prefix(cs, i + 1);
        }
        let clause = &clauses[i];
        let c = plus(
            expr_nodes(clause.cond),
            block_nodes(&clause.body),
            Ghost(expr_count(cs[i as int].cond)),
            Ghost(block_count(cs[i as int].body)),
        );
        match plus(Some(acc), c, Ghost(acc as nat), Ghost(expr_count(cs[i as int].cond) + block_count(cs[i as int].body))) {
            Some(n) => acc = n,
            None => return None,
        }
        i = i + 1;
    }
    assert(cs.take(i as int) =~= cs);
    Some(acc)
}

fn stmt_nodes(stmt: &Stmt<'_>) -> (r: Option<usize>)
    ensures
        r == fits(stmt_count(stmt.model())),
    decreases stmt, 3nat,
{
    match stmt {
        Stmt::Local { init, .. } => opt_nodes(*init),
        Stmt::Assign { value, .. } => expr_nodes(value),
        Stmt::Call { args, .. } => args_nodes(args),
        Stmt::While { cond, body, .. } => plus(
            expr_nodes(cond),
            block_nodes(body),
            Ghost(expr_count(cond.model())),
            Ghost(block_count(stmts_model(body@))),
        ),
        Stmt::If { cond, then_body, elseif_clauses, else_body, .. } => {
            let ghost c = expr_count(cond.model());
            let ghost t = block_count(stmts_model(then_body@));
            let ghost e = elseifs_count(elseifs_model(elseif_clauses@));
            let ghost el = match else_body { Some(b) => block_count(stmts_model(b@)), None => 0 };
            let a = plus(expr_nodes(cond), block_nodes(then_body), Ghost(c), Ghost(t));
            let a = plus(a, elseifs_nodes(elseif_clauses), Ghost(c + t), Ghost(e));
            let z = match else_body {
                Some(b) => block_nodes(b),
                None => Some(0),
            };
            plus(a, z, Ghost(c + t + e), Ghost(el))
        },
        Stmt::NumFor { start, limit, step, body, .. } => {
            let ghost a0 = expr_count(start.model());
            let ghost l0 = expr_count(limit.model());
            let ghost s0 = opt_count(match step { Some(x) => Some(x.model()), None => None });
            let ghost b0 = block_count(stmts_model(body@));
            let a = plus(expr_nodes(start), expr_nodes(limit), Ghost(a0), Ghost(l0));
            let a = plus(a, opt_nodes(*step), Ghost(a0 + l0), Ghost(s0));
            plus(a, block_nodes(body), Ghost(a0 + l0 + s0), Ghost(b0))
        },
        Stmt::Function { body, .. } => block_nodes(body),
        Stmt::Return { value, .. } => opt_nodes(*value),
    }
}

/// The number of expression nodes of a program, when it fits in a `usize`: the
/// condition under which `analyse` can number every node.
pub fn node_count(block: &[&Stmt<'_>]) -> (r: Option<usize>)
    ensures
        r == fits(block_count(stmts_model(block@))),
{
    let mut stmts: Vec<&Stmt<'_>> = Vec::new();
    let mut i: usize = 0;
    while i < block.len()
        invariant
            i <= block@.len(),
            stmts@ == block@.take(i as int),
        decreases block@.len() - i,
    {
        stmts.push(block[i]);
        i = i + 1;
        assert(stmts@ =~= block@.take(i as int));
    }
    assert(stmts@ =~= block@);
    block_nodes(&stmts)
}

proof fn lemma_block_count_prefix(b: Seq<StmtM>, n: int)
    requires
        0 <= n <= b.len(),
    ensures
        block_count(b.take(n)) <= block_count(b),
        n >= 1 ==> block_count(b.take(n - 1)) + stmt_count(b[n - 1]) == block_count(b.take(n)),
    decreases b.len() - n,
{
    if n >= 1 {
        assert(b.take(n).drop_last() =~= b.take(n - 1));
    }
    if n < b.len() {
        lemma_block_count_prefix(b, n + 1);
        assert(b.take(n + 1).drop_last() =~= b.take(n));
    } else {
        assert(b.take(n) =~= b);
    }
}

proof fn lemma_elseifs_count_prefix(cs: Seq<ElseIfM>, n: int)
    requires
        0 <= n <= cs.len(),
    ensures
        elseifs_count(cs.take(n)) <= elseifs_count(cs),
        n >= 1 ==> elseifs_count(cs.take(n - 1)) + expr_count(cs[n - 1].cond) + block_count(cs[n - 1].body) == elseifs_count(cs.take(n)),
    decreases cs.len() - n,
{
    if n >= 1 {
        assert(cs.take(n).drop_last() =~= cs.take(n - 1));
    }
    if n < cs.len() {
        lemma_elseifs_count_prefix(cs, n + 1);
        assert(cs.take(n + 1).drop_last() =~= cs.take(n));
    } else {
        assert(cs.take(n) =~= cs);
    }
}

/// The nodes of the first `n` arguments are part of all the arguments' nodes.
proof fn lemma_args_count_prefix(es: Seq<ExprM>, n: int)
    requires
        0 <= n <= es.len(),
    ensures
        args_count(es.take(n)) <= args_count(es),
        n >= 1 ==> args_count(es.take(n - 1)) + expr_count(es[n - 1]) == args_count(es.take(n)),
    decreases es.len() - n,
{
    if n >= 1 {
        assert(es.take(n).drop_last() =~= es.take(n - 1));
    }
    if n < es.len() {
        lemma_args_count_prefix(es, n + 1);
        assert(es.take(n + 1).drop_last() =~= es.take(n));
    } else {
        assert(es.take(n) =~= es);
    }
}

} // verus!
