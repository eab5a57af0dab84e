//! The lexer: turns source text into tokens with their positions.
use vstd::prelude::*;
use crate::text::{
    char_alphabetic, char_alphanumeric, digits_value, is_alphabetic, is_alphanumeric, is_digit,
    is_hex_digit, is_white_space, is_whitespace, chars_of, push_char, digit_value,
};
use crate::token::{
    TokenOf, Token, TokenModel, Spanned, SpannedToken, SpannedModel, keyword_of, tokens_view,
    law_keyword_of_is_keyword,
};

verus! {

// ── positions ───────────────────────────────────────────────────────────────

/// Line (from 1) of index `i` of `s`: one more than the newlines before it.
pub open spec fn line_at(s: Seq<char>, i: int) -> nat
    decreases i,
{
    if i <= 0 {
        1
    } else if s[i - 1] == '\n' {
        line_at(s, i - 1) + 1
    } else {
        line_at(s, i - 1)
    }
}

/// Column (from 1) of index `i` of `s`: one more than the characters since the last newline.
pub open spec fn col_at(s: Seq<char>, i: int) -> nat
    decreases i,
{
    if i <= 0 {
        1
    } else if s[i - 1] == '\n' {
        1
    } else {
        col_at(s, i - 1) + 1
    }
}

/// Every line number and column of `s` fits a `u32`: at most `u32::MAX` lines, and
/// no line of `u32::MAX` characters or more.
pub open spec fn positions_fit(s: Seq<char>) -> bool {
    &&& forall|i: int| 0 <= i <= s.len() ==> #[trigger] line_at(s, i) <= u32::MAX
    &&& forall|i: int| 0 <= i <= s.len() ==> #[trigger] col_at(s, i) <= u32::MAX
}

// ── the lexical grammar ─────────────────────────────────────────────────────

/// End of a line comment: the first newline at or after `i`, or the end of `s`.
pub open spec fn comment_end(s: Seq<char>, i: int) -> int
    decreases s.len() - i,
{
    if i < 0 || i >= s.len() || s[i] == '\n' {
        i
    } else {
        comment_end(s, i + 1)
    }
}

/// The index where the next token starts: whitespace and `--` comments from `i` skipped.
pub open spec fn skip_trivia(s: Seq<char>, i: int) -> int
    decreases s.len() - i,
{
    if 0 <= i < s.len() {
        if is_white_space(s[i]) {
            skip_trivia(s, i + 1)
        } else if s[i] == '-' && i + 1 < s.len() && s[i + 1] == '-' {
            proof {
                lemma_comment_end_bounds(s, i + 2);
            }
            skip_trivia(s, comment_end(s, i + 2))
        } else {
            i
        }
    } else {
        i
    }
}

/// End of the run of identifier characters (alphanumeric or `_`) that starts at `i`.
pub open spec fn ident_end(s: Seq<char>, i: int) -> int
    decreases s.len() - i,
{
    if 0 <= i < s.len() && (char_alphanumeric(s[i]) || s[i] == '_') {
        ident_end(s, i + 1)
    } else {
        i
    }
}

/// End of the run of hexadecimal digits that starts at `i`.
pub open spec fn hex_end(s: Seq<char>, i: int) -> int
    decreases s.len() - i,
{
    if 0 <= i < s.len() && is_hex_digit(s[i]) {
        hex_end(s, i + 1)
    } else {
        i
    }
}

/// End of a decimal literal's remaining digits and (at most one) dot from `i`, and
/// whether a dot was taken.
pub open spec fn number_end(s: Seq<char>, i: int, has_dot: bool) -> (int, bool)
    decreases s.len() - i,
{
    if 0 <= i < s.len() && is_digit(s[i]) {
        number_end(s, i + 1, has_dot)
    } else if 0 <= i < s.len() && s[i] == '.' && !has_dot {
        number_end(s, i + 1, true)
    } else {
        (i, has_dot)
    }
}

/// A non-negative value saturated to `i32::MAX`.
pub open spec fn clamp_i32(v: nat) -> i32 {
    if v > i32::MAX { i32::MAX } else { v as i32 }
}

/// The escaped character that `\e` stands for inside a string literal, if `e` is
/// one of the recognised escapes.
pub open spec fn escape_of(e: char) -> Option<char> {
    if e == 'n' {
        Some('\n')
    } else if e == 't' {
        Some('\t')
    } else if e == 'r' {
        Some('\r')
    } else if e == '"' {
        Some('"')
    } else if e == '\\' {
        Some('\\')
    } else {
        None
    }
}

/// The rest of a string literal from index `i` (after the opening quote), `acc`
/// holding the characters read so far: the token and the index after it.
/// A newline or the end of the source before the closing quote gives `Unknown('"')`.
pub open spec fn lex_str(s: Seq<char>, i: int, acc: Seq<char>) -> (TokenModel, int)
    decreases s.len() - i,
{
    if i < 0 || i >= s.len() {
        (TokenOf::Unknown('"'), i)
    } else if s[i] == '\n' {
        (TokenOf::Unknown('"'), i + 1)
    } else if s[i] == '"' {
        (TokenOf::LitStr(acc), i + 1)
    } else if s[i] == '\\' {
        if i + 1 >= s.len() {
            (TokenOf::Unknown('"'), i + 1)
        } else {
            match escape_of(s[i + 1]) {
                Some(c) => lex_str(s, i + 2, acc.push(c)),
                None => lex_str(s, i + 2, acc.push('\\').push(s[i + 1])),
            }
        }
    } else {
        lex_str(s, i + 1, acc.push(s[i]))
    }
}

/// A numeric literal whose first digit is at `p`. `0x`/`0X` starts a hexadecimal
/// integer (`Unknown('x')` when no digit follows); otherwise digits with at most one
/// dot, a dot making it a float. Integers saturate at `i32::MAX`.
pub open spec fn scan_number(s: Seq<char>, p: int) -> (TokenModel, int) {
    if s[p] == '0' && p + 1 < s.len() && (s[p + 1] == 'x' || s[p + 1] == 'X') {
        let e = hex_end(s, p + 2);
        if e == p + 2 {
            (TokenOf::Unknown('x'), p + 2)
        } else {
            (TokenOf::LitInt(clamp_i32(digits_value(s.subrange(p + 2, e), 16))), e)
        }
    } else {
        let (e, dot) = number_end(s, p + 1, false);
        if dot {
            (TokenOf::LitFloat(s.subrange(p, e)), e)
        } else {
            (TokenOf::LitInt(clamp_i32(digits_value(s.subrange(p, e), 10))), e)
        }
    }
}

/// A name starting at `p`: a reserved word if it spells one, an identifier otherwise.
pub open spec fn scan_ident(s: Seq<char>, p: int) -> (TokenModel, int) {
    let e = ident_end(s, p + 1);
    let text = s.subrange(p, e);
    match keyword_of(text) {
        Some(k) => (k, e),
        None => (TokenOf::Ident(text), e),
    }
}

/// A two-character operator `c=` when `=` follows at `p + 1`, else the one-character one.
pub open spec fn with_eq(s: Seq<char>, p: int, two: TokenModel, one: TokenModel) -> (TokenModel, int) {
    if p + 1 < s.len() && s[p + 1] == '=' {
        (two, p + 2)
    } else {
        (one, p + 1)
    }
}

/// The token that starts at index `p` (where no trivia remains) and the index after it.
pub open spec fn scan_token(s: Seq<char>, p: int) -> (TokenModel, int) {
    if p < 0 || p >= s.len() {
        (TokenOf::Eof, p)
    } else {
        let c = s[p];
        if c == '+' {
            (TokenOf::OpPlus, p + 1)
        } else if c == '-' {
            (TokenOf::OpMinus, p + 1)
        } else if c == '*' {
            (TokenOf::OpStar, p + 1)
        } else if c == '/' {
            (TokenOf::OpSlash, p + 1)
        } else if c == '%' {
            (TokenOf::OpPercent, p + 1)
        } else if c == '(' {
            (TokenOf::LParen, p + 1)
        } else if c == ')' {
            (TokenOf::RParen, p + 1)
        } else if c == ',' {
            (TokenOf::Comma, p + 1)
        } else if c == ';' {
            (TokenOf::Semicolon, p + 1)
        } else if c == '=' {
            with_eq(s, p, TokenOf::OpEqEq, TokenOf::OpEq)
        } else if c == '<' {
            with_eq(s, p, TokenOf::OpLtEq, TokenOf::OpLt)
        } else if c == '>' {
            with_eq(s, p, TokenOf::OpGtEq, TokenOf::OpGt)
        } else if c == '~' {
            with_eq(s, p, TokenOf::OpTildeEq, TokenOf::Unknown('~'))
        } else if c == '"' {
            lex_str(s, p + 1, Seq::empty())
        } else if is_digit(c) {
            scan_number(s, p)
        } else if char_alphabetic(c) || c == '_' {
            scan_ident(s, p)
        } else {
            (TokenOf::Unknown(c), p + 1)
        }
    }
}

/// The next token read from index `i`, with the line and column where it starts,
/// and the index after it.
pub open spec fn next_spec(s: Seq<char>, i: int) -> (SpannedModel, int) {
    let p = skip_trivia(s, i);
    let (t, e) = scan_token(s, p);
    (Spanned { node: t, line: line_at(s, p) as u32, col: col_at(s, p) as u32 }, e)
}

/// All tokens read from index `i`, up to and including the first `Eof`.
pub open spec fn tokens_from(s: Seq<char>, i: int) -> Seq<SpannedModel>
    decreases s.len() - i,
    when 0 <= i <= s.len()
{
    let (t, e) = next_spec(s, i);
    if t.node is Eof {
        seq![t]
    } else {
        proof {
            lemma_next_advances(s, i);
        }
        seq![t] + tokens_from(s, e)
    }
}

/// The tokens of a whole source text, ending with `Eof`.
pub open spec fn tokenize_spec(s: Seq<char>) -> Seq<SpannedModel> {
    tokens_from(s, 0)
}

// ── lemmas on the grammar ───────────────────────────────────────────────────

pub proof fn lemma_comment_end_bounds(s: Seq<char>, i: int)
    requires
        0 <= i,
    ensures
        i <= comment_end(s, i),
        i <= s.len() ==> comment_end(s, i) <= s.len(),
    decreases s.len() - i,
{
    if 0 <= i < s.len() && s[i] != '\n' {
        lemma_comment_end_bounds(s, i + 1);
    }
}

pub proof fn lemma_skip_bounds(s: Seq<char>, i: int)
    requires
        0 <= i <= s.len(),
    ensures
        i <= skip_trivia(s, i) <= s.len(),
    decreases s.len() - i,
{
    if 0 <= i < s.len() {
        if is_white_space(s[i]) {
            lemma_skip_bounds(s, i + 1);
        } else if s[i] == '-' && i + 1 < s.len() && s[i + 1] == '-' {
            lemma_comment_end_bounds(s, i + 2);
            lemma_skip_bounds(s, comment_end(s, i + 2));
        }
    }
}

pub proof fn lemma_ident_end_bounds(s: Seq<char>, i: int)
    requires
        0 <= i <= s.len(),
    ensures
        i <= ident_end(s, i) <= s.len(),
    decreases s.len() - i,
{
    if i < s.len() && (char_alphanumeric(s[i]) || s[i] == '_') {
        lemma_ident_end_bounds(s, i + 1);
    }
}

pub proof fn lemma_hex_end_bounds(s: Seq<char>, i: int)
    requires
        0 <= i <= s.len(),
    ensures
        i <= hex_end(s, i) <= s.len(),
    decreases s.len() - i,
{
    if i < s.len() && is_hex_digit(s[i]) {
        lemma_hex_end_bounds(s, i + 1);
    }
}

pub proof fn lemma_number_end_bounds(s: Seq<char>, i: int, dot: bool)
    requires
        0 <= i <= s.len(),
    ensures
        i <= number_end(s, i, dot).0 <= s.len(),
    decreases s.len() - i,
{
    if i < s.len() && is_digit(s[i]) {
        lemma_number_end_bounds(s, i + 1, dot);
    } else if i < s.len() && s[i] == '.' && !dot {
        lemma_number_end_bounds(s, i + 1, true);
    }
}

pub proof fn lemma_lex_str_bounds(s: Seq<char>, i: int, acc: Seq<char>)
    requires
        0 <= i <= s.len(),
    ensures
        i <= lex_str(s, i, acc).1 <= s.len(),
        lex_str(s, i, acc).1 == i ==> i == s.len(),
        !(lex_str(s, i, acc).0 is Eof),
        lex_str(s, i, acc).0 is LitStr || lex_str(s, i, acc).0 is Unknown,
    decreases s.len() - i,
{
    if i < s.len() && s[i] != '\n' && s[i] != '"' {
        if s[i] == '\\' {
            if i + 1 < s.len() {
                match escape_of(s[i + 1]) {
                    Some(c) => lemma_lex_str_bounds(s, i + 2, acc.push(c)),
                    None => lemma_lex_str_bounds(s, i + 2, acc.push('\\').push(s[i + 1])),
                }
            }
        } else {
            lemma_lex_str_bounds(s, i + 1, acc.push(s[i]));
        }
    }
}

/// A token that is not `Eof` takes at least one character, and none past the end.
pub proof fn lemma_scan_bounds(s: Seq<char>, p: int)
    requires
        0 <= p <= s.len(),
    ensures
        p <= scan_token(s, p).1 <= s.len(),
        scan_token(s, p).0 is Eof <==> p == s.len(),
        p < s.len() ==> p < scan_token(s, p).1,
{
    if p < s.len() {
        let c = s[p];
        if c == '"' {
            lemma_lex_str_bounds(s, p + 1, Seq::empty());
        } else if is_digit(c) {
            if s[p] == '0' && p + 1 < s.len() && (s[p + 1] == 'x' || s[p + 1] == 'X') {
                lemma_hex_end_bounds(s, p + 2);
            } else {
                lemma_number_end_bounds(s, p + 1, false);
            }
        } else if char_alphabetic(c) || c == '_' {
            lemma_ident_end_bounds(s, p + 1);
            let e = ident_end(s, p + 1);
            lemma_keyword_not_eof(s.subrange(p, e));
        }
    }
}

pub proof fn lemma_keyword_not_eof(text: Seq<char>)
    ensures
        keyword_of(text) matches Some(k) ==> !(k is Eof),
{
}

/// Reading a token from `i` either gives `Eof` or moves strictly forward.
pub proof fn lemma_next_advances(s: Seq<char>, i: int)
    requires
        0 <= i <= s.len(),
    ensures
        i <= next_spec(s, i).1 <= s.len(),
        !(next_spec(s, i).0.node is Eof) ==> i < next_spec(s, i).1,
        next_spec(s, i).0.node is Eof ==> next_spec(s, i).1 == s.len(),
{
    lemma_skip_bounds(s, i);
    lemma_scan_bounds(s, skip_trivia(s, i));
}

pub proof fn lemma_line_col_bounds(s: Seq<char>, i: int)
    requires
        0 <= i <= s.len(),
    ensures
        1 <= line_at(s, i) <= i + 1,
        1 <= col_at(s, i) <= i + 1,
    decreases i,
{
    if i > 0 {
        lemma_line_col_bounds(s, i - 1);
    }
}

/// Extending a slice of `s` by the character that follows it.
proof fn lemma_subrange_push(s: Seq<char>, p: int, b: int)
    requires
        0 <= p <= b < s.len(),
    ensures
        s.subrange(p, b).push(s[b]) == s.subrange(p, b + 1),
{
    assert(s.subrange(p, b).push(s[b]) =~= s.subrange(p, b + 1));
}

/// A saturated partial value stays saturated, or exact, after one more digit.
proof fn lemma_saturating_step(v: nat, b: nat, d: nat)
    requires
        b >= 1,
    ensures
        ({
            let cap: nat = 0x8000_0000;
            let sat = if v < cap { v } else { cap };
            let next = v * b + d;
            (if sat * b + d < cap { sat * b + d } else { cap }) == (if next < cap { next } else { cap })
        }),
{
    let cap: nat = 0x8000_0000;
    if v >= cap {
        assert(v * b >= cap * 1) by (nonlinear_arith)
            requires
                v >= cap,
                b >= 1,
        ;
        assert(cap * b >= cap * 1) by (nonlinear_arith)
            requires
                b >= 1,
        ;
    }
}

// ── the lexer ───────────────────────────────────────────────────────────────

/// A cursor over a source text that hands out one token at a time.
pub struct Lexer<'src> {
    src: &'src str,
    chars: Vec<char>,
    pos: usize,
    line: u32,
    col: u32,
}

impl<'src> Lexer<'src> {
    /// The characters of the source text.
    pub closed spec fn source(&self) -> Seq<char> {
        self.chars@
    }

    /// Index, in characters, of the next character to read.
    pub closed spec fn position(&self) -> int {
        self.pos as int
    }

    /// The cursor lies within the source, and its line and column are those of its index.
    pub closed spec fn wf(&self) -> bool {
        &&& self.chars@ == self.src@
        &&& self.pos <= self.chars@.len()
        &&& self.line == line_at(self.chars@, self.pos as int)
        &&& self.col == col_at(self.chars@, self.pos as int)
    }

    /// The cursor of a well-formed lexer lies within its source.
    pub proof fn lemma_position_within(&self)
        requires
            self.wf(),
        ensures
            0 <= self.position() <= self.source().len(),
    {
    }

    /// A well-formed lexer whose every position can be counted in `u32`.
    spec fn lexable(&self) -> bool {
        self.wf() && positions_fit(self.chars@)
    }

    /// A lexer at the start of `src`.
    pub fn new(src: &'src str) -> (r: Self)
        ensures
            r.wf(),
            r.source() == src@,
            r.position() == 0,
    {
        Self { src, chars: chars_of(src), pos: 0, line: 1, col: 1 }
    }

    /// All the tokens of `src`, the final `Eof` included.
    pub fn tokenize(src: &'src str) -> (r: Vec<SpannedToken>)
        requires
            positions_fit(src@),
        ensures
            tokens_view(r@) == tokenize_spec(src@),
    {
        let mut lex = Self::new(src);
        let mut out: Vec<SpannedToken> = Vec::new();
        let ghost s = src@;
        loop
            invariant_except_break
                lex.wf(),
                lex.source() == s,
                positions_fit(s),
                tokens_view(out@) + tokens_from(s, lex.position()) == tokens_from(s, 0),
            ensures
                tokens_view(out@) == tokens_from(s, 0),
            decreases s.len() - lex.position(),
        {
            let ghost before = lex.position();
            let t = lex.next_token();
            proof {
                lemma_next_advances(s, before);
            }
            let done = matches!(t.node, TokenOf::Eof);
            let ghost old_out = out@;
            out.push(t);
            assert(tokens_view(out@) =~= tokens_view(old_out).push(t@));
            if done {
                assert(tokens_from(s, before) == seq![t@]);
                assert(tokens_view(out@) =~= tokens_view(old_out) + tokens_from(s, before));
                break;
            }
            assert(tokens_from(s, before) == seq![t@] + tokens_from(s, lex.position()));
            assert(tokens_view(old_out) + tokens_from(s, before) =~= tokens_view(out@)
                + tokens_from(s, lex.position()));
        }
        out
    }

    /// The next token; `Eof` once the source is exhausted, again and again.
    pub fn next_token(&mut self) -> (r: SpannedToken)
        requires
            old(self).wf(),
            positions_fit(old(self).source()),
        ensures
            final(self).wf(),
            final(self).source() == old(self).source(),
            (r@, final(self).position()) == next_spec(old(self).source(), old(self).position()),
    {
        self.skip_whitespace_and_comments();
        let line = self.line;
        let col = self.col;
        let ghost p = self.pos as int;
        let ghost s = self.chars@;
        proof {
            lemma_line_col_bounds(s, p);
        }
        let tok = match self.advance() {
            None => TokenOf::Eof,
            Some(c) => {
                if c == '+' {
                    TokenOf::OpPlus
                } else if c == '-' {
                    TokenOf::OpMinus
                } else if c == '*' {
                    TokenOf::OpStar
                } else if c == '/' {
                    TokenOf::OpSlash
                } else if c == '%' {
                    TokenOf::OpPercent
                } else if c == '(' {
                    TokenOf::LParen
                } else if c == ')' {
                    TokenOf::RParen
                } else if c == ',' {
                    TokenOf::Comma
                } else if c == ';' {
                    TokenOf::Semicolon
                } else if c == '=' {
                    if self.peek_is('=') {
                        self.advance();
                        TokenOf::OpEqEq
                    } else {
                        TokenOf::OpEq
                    }
                } else if c == '<' {
                    if self.peek_is('=') {
                        self.advance();
                        TokenOf::OpLtEq
                    } else {
                        TokenOf::OpLt
                    }
                } else if c == '>' {
                    if self.peek_is('=') {
                        self.advance();
                        TokenOf::OpGtEq
                    } else {
                        TokenOf::OpGt
                    }
                } else if c == '~' {
                    // `~=` is Lua's not-equal; a lone `~` is no operator of the subset.
                    if self.peek_is('=') {
                        self.advance();
                        TokenOf::OpTildeEq
                    } else {
                        TokenOf::Unknown('~')
                    }
                } else if c == '"' {
                    self.lex_string()
                } else if '0' <= c && c <= '9' {
                    self.lex_number(c)
                } else if is_alphabetic(c) || c == '_' {
                    self.lex_ident(c)
                } else {
                    TokenOf::Unknown(c)
                }
            },
        };
        Spanned { node: tok, line, col }
    }

    /// The next token, or `None` where `next_token` would give `Eof`: the lexer read
    /// as a stream that stops before the end marker.
    pub fn next(&mut self) -> (r: Option<SpannedToken>)
        requires
            old(self).wf(),
            positions_fit(old(self).source()),
        ensures
            final(self).wf(),
            final(self).source() == old(self).source(),
            ({
                let (t, e) = next_spec(old(self).source(), old(self).position());
                &&& final(self).position() == e
                &&& if t.node is Eof { r is None } else { r matches Some(x) && x@ == t }
            }),
    {
        let t = self.next_token();
        if matches!(t.node, TokenOf::Eof) {
            None
        } else {
            Some(t)
        }
    }

    // ── primitives ──────────────────────────────────────────────────────────

    fn peek(&self) -> (r: Option<char>)
        requires
            self.wf(),
        ensures
            r == (if self.pos < self.chars@.len() { Some(self.chars@[self.pos as int]) } else { None::<char> }),
    {
        if self.pos < self.chars.len() {
            Some(self.chars[self.pos])
        } else {
            None
        }
    }

    fn peek_is(&self, c: char) -> (r: bool)
        requires
            self.wf(),
        ensures
            r == (self.pos < self.chars@.len() && self.chars@[self.pos as int] == c),
    {
        self.pos < self.chars.len() && self.chars[self.pos] == c
    }

    fn peek2_is(&self, c: char) -> (r: bool)
        requires
            self.wf(),
        ensures
            r == (self.pos + 1 < self.chars@.len() && self.chars@[self.pos + 1] == c),
    {
        self.pos < self.chars.len() && self.pos + 1 < self.chars.len() && self.chars[self.pos + 1] == c
    }

    fn advance(&mut self) -> (r: Option<char>)
        requires
            old(self).lexable(),
        ensures
            final(self).lexable(),
            final(self).chars@ == old(self).chars@,
            final(self).src == old(self).src,
            old(self).pos < old(self).chars@.len() ==> r == Some(old(self).chars@[old(self).pos as int])
                && final(self).pos == old(self).pos + 1,
            old(self).pos >= old(self).chars@.len() ==> r is None && final(self).pos == old(self).pos,
    {
        if self.pos < self.chars.len() {
            let c = self.chars[self.pos];
            proof {
                assert(line_at(self.chars@, self.pos + 1) <= u32::MAX);
                assert(col_at(self.chars@, self.pos + 1) <= u32::MAX);
            }
            self.pos = self.pos + 1;
            if c == '\n' {
                self.line = self.line + 1;
                self.col = 1;
            } else {
                self.col = self.col + 1;
            }
            Some(c)
        } else {
            None
        }
    }

    // ── trivia ──────────────────────────────────────────────────────────────

    fn skip_whitespace_and_comments(&mut self)
        requires
            old(self).lexable(),
        ensures
            final(self).lexable(),
            final(self).chars@ == old(self).chars@,
            final(self).src == old(self).src,
            final(self).pos == skip_trivia(old(self).chars@, old(self).pos as int),
    {
        let ghost s = self.chars@;
        let ghost target = skip_trivia(s, self.pos as int);
        loop
            invariant
                self.lexable(),
                self.chars@ == s,
                self.src == old(self).src,
                skip_trivia(s, self.pos as int) == target,
            ensures
                self.lexable(),
                self.chars@ == s,
                self.src == old(self).src,
                self.pos == target,
            decreases s.len() - self.pos,
        {
            match self.peek() {
                Some(c) => {
                    if is_whitespace(c) {
                        self.advance();
                    } else if c == '-' && self.peek2_is('-') {
                        // A Lua line comment: `--` up to the end of the line.
                        let ghost start = self.pos as int;
                        assert(comment_end(s, start) == comment_end(s, start + 1));
                        assert(comment_end(s, start + 1) == comment_end(s, start + 2));
                        proof {
                            lemma_comment_end_bounds(s, start + 2);
                        }
                        while self.pos < self.chars.len() && self.chars[self.pos] != '\n'
                            invariant
                                self.lexable(),
                                self.chars@ == s,
                                self.src == old(self).src,
                                start <= self.pos,
                                comment_end(s, self.pos as int) == comment_end(s, start + 2),
                            decreases s.len() - self.pos,
                        {
                            self.advance();
                        }
                        assert(self.pos > start);
                    } else {
                        break;
                    }
                },
                None => break,
            }
        }
    }

    // ── sub-lexers ──────────────────────────────────────────────────────────

    fn lex_ident(&mut self, first: char) -> (r: Token)
        requires
            old(self).lexable(),
            old(self).pos >= 1,
            old(self).chars@[old(self).pos - 1] == first,
        ensures
            final(self).lexable(),
            final(self).chars@ == old(self).chars@,
            final(self).src == old(self).src,
            (r@, final(self).pos as int) == scan_ident(old(self).chars@, old(self).pos - 1),
    {
        let ghost s = self.chars@;
        let ghost p = self.pos - 1;
        let mut text = String::new();
        push_char(&mut text, first);
        assert(text@ =~= s.subrange(p, self.pos as int));
        loop
            invariant
                self.lexable(),
                self.chars@ == s,
                self.src == old(self).src,
                0 <= p,
                p + 1 <= self.pos,
                text@ == s.subrange(p, self.pos as int),
                ident_end(s, self.pos as int) == ident_end(s, p + 1),
            ensures
                self.lexable(),
                self.chars@ == s,
                self.src == old(self).src,
                self.pos == ident_end(s, p + 1),
                text@ == s.subrange(p, self.pos as int),
            decreases s.len() - self.pos,
        {
            match self.peek() {
                Some(c) => {
                    if is_alphanumeric(c) || c == '_' {
                        let ghost before = self.pos as int;
                        assert(before < s.len());
                        assert(c == s[before]);
                        push_char(&mut text, c);
                        self.advance();
                        proof {
                            lemma_subrange_push(s, p, before);
                        }
                    } else {
                        break;
                    }
                },
                None => break,
            }
        }
        match Token::from_keyword(text.as_str()) {
            Some(k) => k,
            None => TokenOf::Ident(text),
        }
    }

    fn lex_number(&mut self, first: char) -> (r: Token)
        requires
            old(self).lexable(),
            old(self).pos >= 1,
            old(self).chars@[old(self).pos - 1] == first,
            is_digit(first),
        ensures
            final(self).lexable(),
            final(self).chars@ == old(self).chars@,
            final(self).src == old(self).src,
            (r@, final(self).pos as int) == scan_number(old(self).chars@, old(self).pos - 1),
    {
        // Hexadecimal literal: 0x / 0X
        if first == '0' && (self.peek_is('x') || self.peek_is('X')) {
            self.advance();
            self.lex_hex()
        } else {
            self.lex_decimal(first)
        }
    }

    /// The digits of a hexadecimal literal, `0x` already read.
    fn lex_hex(&mut self) -> (r: Token)
        requires
            old(self).lexable(),
            old(self).pos >= 2,
            old(self).chars@[old(self).pos - 2] == '0',
            old(self).chars@[old(self).pos - 1] == 'x' || old(self).chars@[old(self).pos - 1] == 'X',
        ensures
            final(self).lexable(),
            final(self).chars@ == old(self).chars@,
            final(self).src == old(self).src,
            (r@, final(self).pos as int) == scan_number(old(self).chars@, old(self).pos - 2),
    {
        let ghost s = self.chars@;
        let cap: u64 = 0x8000_0000;
        let mut value: u64 = 0;
        let start_pos = self.pos;
        let ghost digits_start = self.pos as int;
        assert(s.subrange(digits_start, digits_start) =~= Seq::<char>::empty());
        loop
            invariant
                self.lexable(),
                self.chars@ == s,
                self.src == old(self).src,
                digits_start <= self.pos,
                start_pos == digits_start,
                cap == 0x8000_0000,
                value <= cap,
                hex_end(s, self.pos as int) == hex_end(s, digits_start),
                value == (if digits_value(s.subrange(digits_start, self.pos as int), 16) < cap {
                    digits_value(s.subrange(digits_start, self.pos as int), 16)
                } else {
                    cap as nat
                }),
            ensures
                self.lexable(),
                self.chars@ == s,
                self.src == old(self).src,
                self.pos == hex_end(s, digits_start),
                value == (if digits_value(s.subrange(digits_start, self.pos as int), 16) < cap {
                    digits_value(s.subrange(digits_start, self.pos as int), 16)
                } else {
                    cap as nat
                }),
            decreases s.len() - self.pos,
        {
            match self.peek() {
                Some(c) => {
                    if is_hex_digit_char(c) {
                        let ghost before = self.pos as int;
                        let d = hex_digit_value(c);
                        proof {
                            let old_v = digits_value(s.subrange(digits_start, before), 16);
                            lemma_saturating_step(old_v, 16, d as nat);
                            assert(s.subrange(digits_start, before + 1).drop_last()
                                =~= s.subrange(digits_start, before));
                            assert(s.subrange(digits_start, before + 1).last() == c);
                        }
                        let t = value * 16 + d;
                        value = if t < cap { t } else { cap };
                        self.advance();
                    } else {
                        break;
                    }
                },
                None => break,
            }
        }
        if self.pos == start_pos {
            // `0x` without digits is invalid; `Unknown` keeps the offending character.
            return TokenOf::Unknown('x');
        }
        TokenOf::LitInt(if value > 0x7fff_ffff { i32::MAX } else { value as i32 })
    }

    /// A decimal literal whose first digit `first` was just read.
    fn lex_decimal(&mut self, first: char) -> (r: Token)
        requires
            old(self).lexable(),
            old(self).pos >= 1,
            old(self).chars@[old(self).pos - 1] == first,
            is_digit(first),
            !(first == '0' && old(self).pos < old(self).chars@.len()
                && (old(self).chars@[old(self).pos as int] == 'x' || old(self).chars@[old(self).pos as int] == 'X')),
        ensures
            final(self).lexable(),
            final(self).chars@ == old(self).chars@,
            final(self).src == old(self).src,
            (r@, final(self).pos as int) == scan_number(old(self).chars@, old(self).pos - 1),
    {
        let ghost s = self.chars@;
        let ghost p = self.pos - 1;
        let cap: u64 = 0x8000_0000;
        let mut text = String::new();
        push_char(&mut text, first);
        let mut has_dot = false;
        let mut value: u64 = digit_value_u64(first);
        assert(text@ =~= s.subrange(p, self.pos as int));
        assert(text@.drop_last() =~= Seq::<char>::empty());
        assert(text@.last() == first);
        assert(digits_value(Seq::<char>::empty(), 10) == 0);
        assert(digits_value(text@, 10) == digit_value(first));
        loop
            invariant
                self.lexable(),
                self.chars@ == s,
                self.src == old(self).src,
                0 <= p,
                p + 1 <= self.pos,
                text@ == s.subrange(p, self.pos as int),
                number_end(s, self.pos as int, has_dot) == number_end(s, p + 1, false),
                cap == 0x8000_0000,
                value <= cap,
                !has_dot ==> value == (if digits_value(text@, 10) < cap { digits_value(text@, 10) } else { cap as nat }),
            ensures
                self.lexable(),
                self.chars@ == s,
                self.src == old(self).src,
                (self.pos as int, has_dot) == number_end(s, p + 1, false),
                text@ == s.subrange(p, self.pos as int),
                !has_dot ==> value == (if digits_value(text@, 10) < cap { digits_value(text@, 10) } else { cap as nat }),
            decreases s.len() - self.pos,
        {
            match self.peek() {
                Some(c) => {
                    let ghost old_text = text@;
                    let ghost before = self.pos as int;
                    assert(c == s[before]);
                    if '0' <= c && c <= '9' {
                        let d = digit_value_u64(c);
                        proof {
                            lemma_saturating_step(digits_value(old_text, 10), 10, d as nat);
                            assert(old_text.push(c).drop_last() =~= old_text);
                        }
                        if !has_dot {
                            let t = value * 10 + d;
                            value = if t < cap { t } else { cap };
                        }
                        push_char(&mut text, c);
                        self.advance();
                        proof {
                            lemma_subrange_push(s, p, before);
                        }
                    } else if c == '.' && !has_dot {
                        // One decimal dot: `3.14` and `3.` are floats.
                        has_dot = true;
                        push_char(&mut text, '.');
                        self.advance();
                        proof {
                            lemma_subrange_push(s, p, before);
                        }
                    } else {
                        break;
                    }
                },
                None => break,
            }
        }
        if has_dot {
            TokenOf::LitFloat(text)
        } else {
            // Overflow saturates at i32::MAX.
            TokenOf::LitInt(if value > 0x7fff_ffff { i32::MAX } else { value as i32 })
        }
    }

    fn lex_string(&mut self) -> (r: Token)
        requires
            old(self).lexable(),
        ensures
            final(self).lexable(),
            final(self).chars@ == old(self).chars@,
            final(self).src == old(self).src,
            (r@, final(self).pos as int) == lex_str(old(self).chars@, old(self).pos as int, Seq::empty()),
    {
        let ghost s = self.chars@;
        let ghost target = lex_str(s, self.pos as int, Seq::empty());
        assert(s == old(self).chars@);
        let mut text = String::new();
        loop
            invariant
                self.lexable(),
                self.chars@ == s,
                s == old(self).chars@,
                target == lex_str(s, old(self).pos as int, Seq::empty()),
                self.src == old(self).src,
                lex_str(s, self.pos as int, text@) == target,
            decreases s.len() - self.pos,
        {
            let next = self.advance();
            match next {
                None => return TokenOf::Unknown('"'),
                Some(c) => {
                    if c == '\n' {
                        // A newline ends the literal unterminated: no multi-line strings.
                        return TokenOf::Unknown('"');
                    } else if c == '"' {
                        return TokenOf::LitStr(text);
                    } else if c == '\\' {
                        let escaped = self.advance();
                        match escaped {
                            None => return TokenOf::Unknown('"'),
                            Some(e) => {
                                if e == 'n' {
                                    push_char(&mut text, '\n');
                                } else if e == 't' {
                                    push_char(&mut text, '\t');
                                } else if e == 'r' {
                                    push_char(&mut text, '\r');
                                } else if e == '"' {
                                    push_char(&mut text, '"');
                                } else if e == '\\' {
                                    push_char(&mut text, '\\');
                                } else {
                                    push_char(&mut text, '\\');
                                    push_char(&mut text, e);
                                }
                            },
                        }
                    } else {
                        push_char(&mut text, c);
                    }
                },
            }
        }
    }
}

/// Whether every line number and column of `src` fits a `u32`: the condition under
/// which the lexer can count positions.
pub fn positions_fit_in_u32(src: &str) -> (r: bool)
    ensures
        r == positions_fit(src@),
{
    let cs = chars_of(src);
    let ghost s = src@;
    let mut line: u64 = 1;
    let mut col: u64 = 1;
    let mut i: usize = 0;
    while i < cs.len()
        invariant
            cs@ == s,
            s == src@,
            i <= s.len(),
            line == line_at(s, i as int),
            col == col_at(s, i as int),
            forall|j: int| 0 <= j <= i ==> #[trigger] line_at(s, j) <= u32::MAX,
            forall|j: int| 0 <= j <= i ==> #[trigger] col_at(s, j) <= u32::MAX,
        decreases s.len() - i,
    {
        if cs[i] == '\n' {
            line = line + 1;
            col = 1;
        } else {
            col = col + 1;
        }
        assert(line == line_at(s, i + 1) && col == col_at(s, i + 1));
        if line > 0xFFFF_FFFF || col > 0xFFFF_FFFF {
            assert(!positions_fit(s)) by {
                if positions_fit(s) {
                    assert(line_at(s, i + 1) <= u32::MAX);
                    assert(col_at(s, i + 1) <= u32::MAX);
                }
            }
            return false;
        }
        i = i + 1;
    }
    true
}

fn is_hex_digit_char(c: char) -> (r: bool)
    ensures
        r == is_hex_digit(c),
{
    ('0' <= c && c <= '9') || ('a' <= c && c <= 'f') || ('A' <= c && c <= 'F')
}

fn hex_digit_value(c: char) -> (r: u64)
    requires
        is_hex_digit(c),
    ensures
        r == digit_value(c),
        r < 16,
{
    if '0' <= c && c <= '9' {
        (c as u32 - '0' as u32) as u64
    } else if 'a' <= c && c <= 'f' {
        (c as u32 - 'a' as u32 + 10) as u64
    } else {
        (c as u32 - 'A' as u32 + 10) as u64
    }
}

fn digit_value_u64(c: char) -> (r: u64)
    requires
        is_digit(c),
    ensures
        r == digit_value(c),
        r < 10,
{
    (c as u32 - '0' as u32) as u64
}

/// The tokens read from any index form a sequence that ends with its only `Eof`.
pub proof fn lemma_tokens_shape(s: Seq<char>, i: int)
    requires
        0 <= i <= s.len(),
    ensures
        tokens_from(s, i).len() >= 1,
        tokens_from(s, i).last().node is Eof,
        forall|k: int| 0 <= k < tokens_from(s, i).len() - 1 ==> !(#[trigger] tokens_from(s, i)[k].node is Eof),
    decreases s.len() - i,
{
    lemma_next_advances(s, i);
    let (t, e) = next_spec(s, i);
    if !(t.node is Eof) {
        lemma_tokens_shape(s, e);
        let rest = tokens_from(s, e);
        assert(tokens_from(s, i) == seq![t] + rest);
        assert forall|k: int| 0 <= k < tokens_from(s, i).len() - 1 implies !(#[trigger] tokens_from(s, i)[k].node is Eof) by {
            if k > 0 {
                assert(tokens_from(s, i)[k] == rest[k - 1]);
            }
        }
    }
}

// ── laws of the lexer ───────────────────────────────────────────────────────

/// `(l1, c1)` comes strictly before `(l2, c2)` in the source.
pub open spec fn pos_before(l1: nat, c1: nat, l2: nat, c2: nat) -> bool {
    l1 < l2 || (l1 == l2 && c1 < c2)
}

proof fn lemma_line_col_step(s: Seq<char>, i: int)
    requires
        0 <= i < s.len(),
    ensures
        pos_before(line_at(s, i), col_at(s, i), line_at(s, i + 1), col_at(s, i + 1)),
{
}

/// Later indices of a text have later (line, column) positions.
pub proof fn lemma_line_col_monotone(s: Seq<char>, i: int, j: int)
    requires
        0 <= i < j <= s.len(),
    ensures
        pos_before(line_at(s, i), col_at(s, i), line_at(s, j), col_at(s, j)),
    decreases j - i,
{
    lemma_line_col_step(s, j - 1);
    if i < j - 1 {
        lemma_line_col_monotone(s, i, j - 1);
    }
}

proof fn lemma_tokens_positions(s: Seq<char>, i: int)
    requires
        0 <= i <= s.len(),
        positions_fit(s),
    ensures
        forall|a: int, b: int|
            0 <= a < b < tokens_from(s, i).len() ==> pos_before(
                #[trigger] tokens_from(s, i)[a].line as nat,
                tokens_from(s, i)[a].col as nat,
                #[trigger] tokens_from(s, i)[b].line as nat,
                tokens_from(s, i)[b].col as nat,
            ),
        forall|a: int|
            0 <= a < tokens_from(s, i).len() ==> !pos_before(
                #[trigger] tokens_from(s, i)[a].line as nat,
                tokens_from(s, i)[a].col as nat,
                line_at(s, i),
                col_at(s, i),
            ),
    decreases s.len() - i,
{
    lemma_next_advances(s, i);
    lemma_skip_bounds(s, i);
    let p = skip_trivia(s, i);
    let (t, e) = next_spec(s, i);
    lemma_line_col_bounds(s, p);
    assert(line_at(s, p) <= u32::MAX && col_at(s, p) <= u32::MAX);
    assert(t.line as nat == line_at(s, p));
    assert(t.col as nat == col_at(s, p));
    if i < p {
        lemma_line_col_monotone(s, i, p);
    }
    let ts = tokens_from(s, i);
    if !(t.node is Eof) {
        lemma_scan_bounds(s, p);
        lemma_tokens_positions(s, e);
        lemma_line_col_monotone(s, p, e);
        let rest = tokens_from(s, e);
        assert(ts == seq![t] + rest);
        assert forall|a: int, b: int| 0 <= a < b < ts.len() implies pos_before(
            #[trigger] ts[a].line as nat,
            ts[a].col as nat,
            #[trigger] ts[b].line as nat,
            ts[b].col as nat,
        ) by {
            assert(ts[b] == rest[b - 1]);
            if a > 0 {
                assert(ts[a] == rest[a - 1]);
            }
        }
        assert forall|a: int| 0 <= a < ts.len() implies !pos_before(
            #[trigger] ts[a].line as nat,
            ts[a].col as nat,
            line_at(s, i),
            col_at(s, i),
        ) by {
            if a > 0 {
                assert(ts[a] == rest[a - 1]);
            }
        }
    }
}

/// Tokens come out in source order: each one starts strictly after the one before.
pub proof fn law_token_positions_increase(s: Seq<char>)
    requires
        positions_fit(s),
    ensures
        forall|a: int, b: int|
            0 <= a < b < tokenize_spec(s).len() ==> pos_before(
                #[trigger] tokenize_spec(s)[a].line as nat,
                tokenize_spec(s)[a].col as nat,
                #[trigger] tokenize_spec(s)[b].line as nat,
                tokenize_spec(s)[b].col as nat,
            ),
{
    lemma_tokens_positions(s, 0);
}

/// The token list of any text ends with `Eof`, and `Eof` occurs nowhere else.
pub proof fn law_tokenize_ends_with_single_eof(s: Seq<char>)
    ensures
        tokenize_spec(s).len() >= 1,
        tokenize_spec(s).last().node is Eof,
        forall|k: int| 0 <= k < tokenize_spec(s).len() - 1 ==> !(#[trigger] tokenize_spec(s)[k].node is Eof),
{
    lemma_tokens_shape(s, 0);
}

proof fn lemma_tokens_literals(s: Seq<char>, i: int)
    requires
        0 <= i <= s.len(),
    ensures
        forall|k: int| 0 <= k < tokens_from(s, i).len() ==> (#[trigger] tokens_from(s, i)[k].node matches TokenOf::LitInt(n) ==> n >= 0),
        forall|k: int| 0 <= k < tokens_from(s, i).len() ==> (#[trigger] tokens_from(s, i)[k].node matches TokenOf::Ident(x) ==> keyword_of(x) is None),
    decreases s.len() - i,
{
    lemma_next_advances(s, i);
    let (t, e) = next_spec(s, i);
    let p = skip_trivia(s, i);
    lemma_keyword_not_int(s, p);
    if !(t.node is Eof) {
        lemma_tokens_literals(s, e);
        let ts = tokens_from(s, i);
        let rest = tokens_from(s, e);
        assert(ts == seq![t] + rest);
        assert forall|k: int| 0 <= k < ts.len() implies (#[trigger] ts[k].node matches TokenOf::LitInt(n) ==> n >= 0) by {
            if k > 0 {
                assert(ts[k] == rest[k - 1]);
            }
        }
        assert forall|k: int| 0 <= k < ts.len() implies (#[trigger] ts[k].node matches TokenOf::Ident(x) ==> keyword_of(x) is None) by {
            if k > 0 {
                assert(ts[k] == rest[k - 1]);
            }
        }
    }
}

proof fn lemma_keyword_not_int(s: Seq<char>, p: int)
    ensures
        scan_token(s, p).0 matches TokenOf::LitInt(n) ==> n >= 0,
        scan_token(s, p).0 matches TokenOf::Ident(x) ==> keyword_of(x) is None,
{
    if 0 <= p < s.len() {
        let c = s[p];
        if c == '"' {
            lemma_lex_str_bounds(s, p + 1, Seq::empty());
        } else if char_alphabetic(c) || c == '_' {
            let e = ident_end(s, p + 1);
            let text = s.subrange(p, e);
            law_keyword_of_is_keyword(text);
        }
    }
}

/// The lexer writes no negative literal: `-3` is `OpMinus` then `LitInt(3)`.
pub proof fn law_lexed_integers_are_nonnegative(s: Seq<char>)
    ensures
        forall|k: int| 0 <= k < tokenize_spec(s).len() ==> (#[trigger] tokenize_spec(s)[k].node matches TokenOf::LitInt(n) ==> n >= 0),
{
    lemma_tokens_literals(s, 0);
}

/// A name that spells a reserved word always comes out as that reserved word, never as `Ident`.
pub proof fn law_identifiers_are_not_keywords(s: Seq<char>)
    ensures
        forall|k: int| 0 <= k < tokenize_spec(s).len() ==> (#[trigger] tokenize_spec(s)[k].node matches TokenOf::Ident(x) ==> keyword_of(x) is None),
{
    lemma_tokens_literals(s, 0);
}

/// Once the lexer has given `Eof`, reading again gives the same `Eof` at the same place.
pub proof fn law_eof_repeats(s: Seq<char>, i: int)
    requires
        0 <= i <= s.len(),
    ensures
        next_spec(s, i).0.node is Eof ==> next_spec(s, next_spec(s, i).1) == next_spec(s, i),
{
    lemma_next_advances(s, i);
    lemma_skip_bounds(s, i);
    lemma_scan_bounds(s, skip_trivia(s, i));
}

/// Every token but `Eof` consumes at least one character, and `Eof` comes only when
/// nothing but whitespace and comments is left.
pub proof fn law_lexer_makes_progress(s: Seq<char>, i: int)
    requires
        0 <= i <= s.len(),
    ensures
        !(next_spec(s, i).0.node is Eof) ==> i < next_spec(s, i).1,
        next_spec(s, i).0.node is Eof ==> skip_trivia(s, i) == s.len(),
{
    lemma_next_advances(s, i);
    lemma_skip_bounds(s, i);
    lemma_scan_bounds(s, skip_trivia(s, i));
}

proof fn lemma_blank_is_trivia(s: Seq<char>, i: int)
    requires
        0 <= i <= s.len(),
        forall|k: int| 0 <= k < s.len() ==> #[trigger] s[k] == ' ' || ('\t' <= s[k] && s[k] <= '\r'),
    ensures
        skip_trivia(s, i) == s.len(),
    decreases s.len() - i,
{
    if i < s.len() {
        crate::text::law_ascii_white_space(s[i]);
        lemma_blank_is_trivia(s, i + 1);
    }
}

/// Blank text holds no token: a source made of spaces, tabs and line breaks (`\n`,
/// `\r`, vertical tab, form feed), in any mix, gives the end marker alone.
pub proof fn law_blank_source_has_no_tokens(s: Seq<char>)
    requires
        forall|k: int| 0 <= k < s.len() ==> #[trigger] s[k] == ' ' || ('\t' <= s[k] && s[k] <= '\r'),
    ensures
        tokenize_spec(s).len() == 1,
        tokenize_spec(s)[0].node is Eof,
{
    lemma_blank_is_trivia(s, 0);
}

/// A white-space character before the next token changes nothing about it: in
/// particular the `\r` of a Windows line ending is skipped like the `\n` after it.
pub proof fn law_white_space_is_skipped(s: Seq<char>, i: int)
    requires
        0 <= i < s.len(),
        is_white_space(s[i]),
    ensures
        next_spec(s, i) == next_spec(s, i + 1),
{
}

/// A carriage return is white space: the lexer skips it between tokens.
pub proof fn law_carriage_return_is_skipped(s: Seq<char>, i: int)
    requires
        0 <= i < s.len(),
        s[i] == '\r',
    ensures
        next_spec(s, i) == next_spec(s, i + 1),
{
}

} // verus!
