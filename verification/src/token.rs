//! Tokens of the supported Lua subset and their source positions.
use vstd::prelude::*;
use crate::text::{int_decimal, push_int_decimal, push_char, str_eq, chars_of};

verus! {

/// A token of the Lua subset, generic over how it holds text.
///
/// `Token` holds `String`s; `TokenModel` holds character sequences and is what
/// the contracts speak of.
///
/// - `LitFloat` is produced by the lexer and rejected later by the semantic
///   analysis on the AVR target; it keeps the literal as written (digits and one dot).
/// - `LitStr` exists only for intrinsic arguments such as `pinMode(p, "OUTPUT")`.
/// - Hardware intrinsics arrive as `Ident`; the semantic analysis tells them apart.
/// - `Unknown(c)` keeps an unrecognised character for error messages.
#[derive(Debug, Clone, PartialEq)]
pub enum TokenOf<S> {
    KwIf,
    KwThen,
    KwElse,
    KwElseif,
    KwEnd,
    KwWhile,
    KwDo,
    KwFor,
    KwLocal,
    KwFunction,
    KwReturn,
    KwTrue,
    KwFalse,
    KwNil,
    KwAnd,
    KwOr,
    KwNot,
    OpPlus,
    OpMinus,
    OpStar,
    OpSlash,
    OpPercent,
    OpEqEq,
    OpTildeEq,
    OpLt,
    OpLtEq,
    OpGt,
    OpGtEq,
    OpEq,
    /// Integer literal (never negative when produced by the lexer).
    LitInt(i32),
    /// Floating-point literal, as written in the source (for example `3.14` or `3.`).
    LitFloat(S),
    /// String literal, escapes already resolved.
    LitStr(S),
    /// Variable, function or intrinsic name.
    Ident(S),
    LParen,
    RParen,
    Comma,
    Semicolon,
    /// End of input; the lexer keeps returning it once the source is exhausted.
    Eof,
    /// A character that starts no token.
    Unknown(char),
}

/// A token as the library handles it.
pub type Token = TokenOf<String>;

/// A token with its text as character sequences: the mathematical model of `Token`.
pub type TokenModel = TokenOf<Seq<char>>;

impl View for TokenOf<String> {
    type V = TokenOf<Seq<char>>;

    open spec fn view(&self) -> TokenOf<Seq<char>> {
        match self {
            TokenOf::KwIf => TokenOf::KwIf,
            TokenOf::KwThen => TokenOf::KwThen,
            TokenOf::KwElse => TokenOf::KwElse,
            TokenOf::KwElseif => TokenOf::KwElseif,
            TokenOf::KwEnd => TokenOf::KwEnd,
            TokenOf::KwWhile => TokenOf::KwWhile,
            TokenOf::KwDo => TokenOf::KwDo,
            TokenOf::KwFor => TokenOf::KwFor,
            TokenOf::KwLocal => TokenOf::KwLocal,
            TokenOf::KwFunction => TokenOf::KwFunction,
            TokenOf::KwReturn => TokenOf::KwReturn,
            TokenOf::KwTrue => TokenOf::KwTrue,
            TokenOf::KwFalse => TokenOf::KwFalse,
            TokenOf::KwNil => TokenOf::KwNil,
            TokenOf::KwAnd => TokenOf::KwAnd,
            TokenOf::KwOr => TokenOf::KwOr,
            TokenOf::KwNot => TokenOf::KwNot,
            TokenOf::OpPlus => TokenOf::OpPlus,
            TokenOf::OpMinus => TokenOf::OpMinus,
            TokenOf::OpStar => TokenOf::OpStar,
            TokenOf::OpSlash => TokenOf::OpSlash,
            TokenOf::OpPercent => TokenOf::OpPercent,
            TokenOf::OpEqEq => TokenOf::OpEqEq,
            TokenOf::OpTildeEq => TokenOf::OpTildeEq,
            TokenOf::OpLt => TokenOf::OpLt,
            TokenOf::OpLtEq => TokenOf::OpLtEq,
            TokenOf::OpGt => TokenOf::OpGt,
            TokenOf::OpGtEq => TokenOf::OpGtEq,
            TokenOf::OpEq => TokenOf::OpEq,
            TokenOf::LParen => TokenOf::LParen,
            TokenOf::RParen => TokenOf::RParen,
            TokenOf::Comma => TokenOf::Comma,
            TokenOf::Semicolon => TokenOf::Semicolon,
            TokenOf::LitInt(n) => TokenOf::LitInt(*n),
            TokenOf::LitFloat(s) => TokenOf::LitFloat(s@),
            TokenOf::LitStr(s) => TokenOf::LitStr(s@),
            TokenOf::Ident(s) => TokenOf::Ident(s@),
            TokenOf::Eof => TokenOf::Eof,
            TokenOf::Unknown(c) => TokenOf::Unknown(*c),
        }
    }
}

/// A value with the line and column (both starting at 1) where it begins in the source.
#[derive(Debug, Clone, PartialEq)]
pub struct Spanned<T> {
    pub node: T,
    pub line: u32,
    pub col: u32,
}

/// A token with its position.
pub type SpannedToken = Spanned<Token>;

/// The model of a token with its position.
pub type SpannedModel = Spanned<TokenModel>;

impl<T: View> View for Spanned<T> {
    type V = Spanned<T::V>;

    open spec fn view(&self) -> Spanned<T::V> {
        Spanned { node: self.node@, line: self.line, col: self.col }
    }
}

/// The model of a sequence of tokens.
pub open spec fn tokens_view(ts: Seq<SpannedToken>) -> Seq<SpannedModel> {
    ts.map_values(|t: SpannedToken| t@)
}

/// Whether a token is one of the reserved words.
pub open spec fn is_keyword_model(t: TokenModel) -> bool {
    match t {
        TokenOf::KwIf => true,
        TokenOf::KwThen => true,
        TokenOf::KwElse => true,
        TokenOf::KwElseif => true,
        TokenOf::KwEnd => true,
        TokenOf::KwWhile => true,
        TokenOf::KwDo => true,
        TokenOf::KwFor => true,
        TokenOf::KwLocal => true,
        TokenOf::KwFunction => true,
        TokenOf::KwReturn => true,
        TokenOf::KwTrue => true,
        TokenOf::KwFalse => true,
        TokenOf::KwNil => true,
        TokenOf::KwAnd => true,
        TokenOf::KwOr => true,
        TokenOf::KwNot => true,
        _ => false,
    }
}

/// The reserved word spelled by `s`, if any.
pub open spec fn keyword_of(s: Seq<char>) -> Option<TokenModel> {
    if s == "if"@ {
        Some(TokenOf::KwIf)
    }     else if s == "then"@ {
        Some(TokenOf::KwThen)
    }     else if s == "else"@ {
        Some(TokenOf::KwElse)
    }     else if s == "elseif"@ {
        Some(TokenOf::KwElseif)
    }     else if s == "end"@ {
        Some(TokenOf::KwEnd)
    }     else if s == "while"@ {
        Some(TokenOf::KwWhile)
    }     else if s == "do"@ {
        Some(TokenOf::KwDo)
    }     else if s == "for"@ {
        Some(TokenOf::KwFor)
    }     else if s == "local"@ {
        Some(TokenOf::KwLocal)
    }     else if s == "function"@ {
        Some(TokenOf::KwFunction)
    }     else if s == "return"@ {
        Some(TokenOf::KwReturn)
    }     else if s == "true"@ {
        Some(TokenOf::KwTrue)
    }     else if s == "false"@ {
        Some(TokenOf::KwFalse)
    }     else if s == "nil"@ {
        Some(TokenOf::KwNil)
    }     else if s == "and"@ {
        Some(TokenOf::KwAnd)
    }     else if s == "or"@ {
        Some(TokenOf::KwOr)
    }     else if s == "not"@ {
        Some(TokenOf::KwNot)
    } else {
        None
    }
}

/// Canonical decimal text of a floating-point literal: leading zeros of the integer
/// part and trailing zeros of the fraction removed, and the dot dropped when no
/// fraction is left (`007.50` reads `7.5`, `3.` reads `3`, `0.0` reads `0`).
pub open spec fn float_text(t: Seq<char>) -> Seq<char> {
    let d = first_dot_from(t, 0);
    let a = skip_zeros_from(t, 0, d);
    let int_text = if a == d { seq!['0'] } else { t.subrange(a, d) };
    if d >= t.len() {
        int_text
    } else {
        let e = trim_zeros_back(t, d + 1, t.len() as int);
        if e == d + 1 { int_text } else { int_text + seq!['.'] + t.subrange(d + 1, e) }
    }
}

/// Index of the first `.` in `t` at or after `i`, or the length of `t` when there is none.
pub open spec fn first_dot_from(t: Seq<char>, i: int) -> int
    decreases t.len() - i,
{
    if i < 0 || i >= t.len() {
        t.len() as int
    } else if t[i] == '.' {
        i
    } else {
        first_dot_from(t, i + 1)
    }
}

/// The first index in `[i, end)` of `t` that does not hold `0`, or `end`.
pub open spec fn skip_zeros_from(t: Seq<char>, i: int, end: int) -> int
    decreases end - i,
{
    if i < end && 0 <= i < t.len() && t[i] == '0' {
        skip_zeros_from(t, i + 1, end)
    } else {
        i
    }
}

/// The end of `t[start..j]` once its trailing `0` characters are removed.
pub open spec fn trim_zeros_back(t: Seq<char>, start: int, j: int) -> int
    decreases j - start,
{
    if j > start && 0 < j <= t.len() && t[j - 1] == '0' {
        trim_zeros_back(t, start, j - 1)
    } else {
        j
    }
}

/// The canonical text of a floating-point literal (see `float_text`).
pub fn float_literal_text(s: &str) -> (r: String)
    ensures
        r@ == float_text(s@),
{
    let cs = chars_of(s);
    let n = cs.len();
    let mut d: usize = 0;
    while d < n && cs[d] != '.'
        invariant
            d <= n,
            n == cs@.len(),
            first_dot_from(cs@, d as int) == first_dot_from(cs@, 0),
        decreases n - d,
    {
        d = d + 1;
    }
    let mut a: usize = 0;
    while a < d && cs[a] == '0'
        invariant
            a <= d <= n,
            n == cs@.len(),
            skip_zeros_from(cs@, a as int, d as int) == skip_zeros_from(cs@, 0, d as int),
        decreases d - a,
    {
        a = a + 1;
    }
    let mut out = String::new();
    if a == d {
        push_char(&mut out, '0');
    } else {
        let mut k: usize = a;
        while k < d
            invariant
                a <= k <= d <= n,
                n == cs@.len(),
                out@ == cs@.subrange(a as int, k as int),
            decreases d - k,
        {
            push_char(&mut out, cs[k]);
            k = k + 1;
            assert(out@ =~= cs@.subrange(a as int, k as int));
        }
    }
    assert(out@ =~= (if a == d { seq!['0'] } else { cs@.subrange(a as int, d as int) }));
    if d < n {
        let mut e: usize = n;
        while e > d + 1 && cs[e - 1] == '0'
            invariant
                d + 1 <= e <= n,
                n == cs@.len(),
                trim_zeros_back(cs@, d + 1, e as int) == trim_zeros_back(cs@, d + 1, n as int),
            decreases e,
        {
            e = e - 1;
        }
        if e > d + 1 {
            let ghost int_text = out@;
            push_char(&mut out, '.');
            let mut k: usize = d + 1;
            while k < e
                invariant
                    d + 1 <= k <= e <= n,
                    n == cs@.len(),
                    out@ == int_text + seq!['.'] + cs@.subrange(d + 1, k as int),
                decreases e - k,
            {
                push_char(&mut out, cs[k]);
                k = k + 1;
                assert(out@ =~= int_text + seq!['.'] + cs@.subrange(d + 1, k as int));
            }
        }
    }
    out
}

/// How a token is written back as text (used in error messages).
pub open spec fn token_text(t: TokenModel) -> Seq<char> {
    match t {
        TokenOf::KwIf => "if"@,
        TokenOf::KwThen => "then"@,
        TokenOf::KwElse => "else"@,
        TokenOf::KwElseif => "elseif"@,
        TokenOf::KwEnd => "end"@,
        TokenOf::KwWhile => "while"@,
        TokenOf::KwDo => "do"@,
        TokenOf::KwFor => "for"@,
        TokenOf::KwLocal => "local"@,
        TokenOf::KwFunction => "function"@,
        TokenOf::KwReturn => "return"@,
        TokenOf::KwTrue => "true"@,
        TokenOf::KwFalse => "false"@,
        TokenOf::KwNil => "nil"@,
        TokenOf::KwAnd => "and"@,
        TokenOf::KwOr => "or"@,
        TokenOf::KwNot => "not"@,
        TokenOf::OpPlus => "+"@,
        TokenOf::OpMinus => "-"@,
        TokenOf::OpStar => "*"@,
        TokenOf::OpSlash => "/"@,
        TokenOf::OpPercent => "%"@,
        TokenOf::OpEqEq => "=="@,
        TokenOf::OpTildeEq => "~="@,
        TokenOf::OpLt => "<"@,
        TokenOf::OpLtEq => "<="@,
        TokenOf::OpGt => ">"@,
        TokenOf::OpGtEq => ">="@,
        TokenOf::OpEq => "="@,
        TokenOf::LParen => "("@,
        TokenOf::RParen => ")"@,
        TokenOf::Comma => ","@,
        TokenOf::Semicolon => ";"@,
        TokenOf::LitInt(n) => int_decimal(n as int),
        TokenOf::LitFloat(s) => float_text(s),
        TokenOf::LitStr(s) => seq!['"'] + s + seq!['"'],
        TokenOf::Ident(s) => s,
        TokenOf::Eof => "<EOF>"@,
        TokenOf::Unknown(c) => "<unknown '"@ + seq![c] + "'>"@,
    }
}

impl TokenOf<String> {
    /// Whether this token is a reserved word.
    pub fn is_keyword(&self) -> (r: bool)
        ensures
            r == is_keyword_model(self@),
    {
        match self {
            TokenOf::KwIf => true,
            TokenOf::KwThen => true,
            TokenOf::KwElse => true,
            TokenOf::KwElseif => true,
            TokenOf::KwEnd => true,
            TokenOf::KwWhile => true,
            TokenOf::KwDo => true,
            TokenOf::KwFor => true,
            TokenOf::KwLocal => true,
            TokenOf::KwFunction => true,
            TokenOf::KwReturn => true,
            TokenOf::KwTrue => true,
            TokenOf::KwFalse => true,
            TokenOf::KwNil => true,
            TokenOf::KwAnd => true,
            TokenOf::KwOr => true,
            TokenOf::KwNot => true,
            _ => false,
        }
    }

    /// The reserved word spelled by `s`, if any.
    pub fn from_keyword(s: &str) -> (r: Option<Token>)
        ensures
            r matches Some(t) ==> keyword_of(s@) == Some(t@),
            r is None ==> keyword_of(s@) is None,
    {
        if str_eq(s, "if") {
            Some(TokenOf::KwIf)
        }         else if str_eq(s, "then") {
            Some(TokenOf::KwThen)
        }         else if str_eq(s, "else") {
            Some(TokenOf::KwElse)
        }         else if str_eq(s, "elseif") {
            Some(TokenOf::KwElseif)
        }         else if str_eq(s, "end") {
            Some(TokenOf::KwEnd)
        }         else if str_eq(s, "while") {
            Some(TokenOf::KwWhile)
        }         else if str_eq(s, "do") {
            Some(TokenOf::KwDo)
        }         else if str_eq(s, "for") {
            Some(TokenOf::KwFor)
        }         else if str_eq(s, "local") {
            Some(TokenOf::KwLocal)
        }         else if str_eq(s, "function") {
            Some(TokenOf::KwFunction)
        }         else if str_eq(s, "return") {
            Some(TokenOf::KwReturn)
        }         else if str_eq(s, "true") {
            Some(TokenOf::KwTrue)
        }         else if str_eq(s, "false") {
            Some(TokenOf::KwFalse)
        }         else if str_eq(s, "nil") {
            Some(TokenOf::KwNil)
        }         else if str_eq(s, "and") {
            Some(TokenOf::KwAnd)
        }         else if str_eq(s, "or") {
            Some(TokenOf::KwOr)
        }         else if str_eq(s, "not") {
            Some(TokenOf::KwNot)
        } else {
            None
        }
    }

    /// The token written back as text: the reserved word or operator itself, the
    /// decimal value of an integer, the canonical text of a float, a string literal
    /// between quotes, `<EOF>`, or `<unknown 'c'>`.
    pub fn to_display_string(&self) -> (r: String)
        ensures
            r@ == token_text(self@),
    {
        match self {
            TokenOf::KwIf => String::from_str("if"),
            TokenOf::KwThen => String::from_str("then"),
            TokenOf::KwElse => String::from_str("else"),
            TokenOf::KwElseif => String::from_str("elseif"),
            TokenOf::KwEnd => String::from_str("end"),
            TokenOf::KwWhile => String::from_str("while"),
            TokenOf::KwDo => String::from_str("do"),
            TokenOf::KwFor => String::from_str("for"),
            TokenOf::KwLocal => String::from_str("local"),
            TokenOf::KwFunction => String::from_str("function"),
            TokenOf::KwReturn => String::from_str("return"),
            TokenOf::KwTrue => String::from_str("true"),
            TokenOf::KwFalse => String::from_str("false"),
            TokenOf::KwNil => String::from_str("nil"),
            TokenOf::KwAnd => String::from_str("and"),
            TokenOf::KwOr => String::from_str("or"),
            TokenOf::KwNot => String::from_str("not"),
            TokenOf::OpPlus => String::from_str("+"),
            TokenOf::OpMinus => String::from_str("-"),
            TokenOf::OpStar => String::from_str("*"),
            TokenOf::OpSlash => String::from_str("/"),
            TokenOf::OpPercent => String::from_str("%"),
            TokenOf::OpEqEq => String::from_str("=="),
            TokenOf::OpTildeEq => String::from_str("~="),
            TokenOf::OpLt => String::from_str("<"),
            TokenOf::OpLtEq => String::from_str("<="),
            TokenOf::OpGt => String::from_str(">"),
            TokenOf::OpGtEq => String::from_str(">="),
            TokenOf::OpEq => String::from_str("="),
            TokenOf::LParen => String::from_str("("),
            TokenOf::RParen => String::from_str(")"),
            TokenOf::Comma => String::from_str(","),
            TokenOf::Semicolon => String::from_str(";"),
            TokenOf::LitInt(n) => {
                let mut out = String::new();
                push_int_decimal(&mut out, *n as i64);
                out
            },
            TokenOf::LitFloat(s) => float_literal_text(s.as_str()),
            TokenOf::LitStr(s) => {
                let mut out = String::new();
                push_char(&mut out, '"');
                out.append(s.as_str());
                push_char(&mut out, '"');
                assert(out@ =~= seq!['"'] + s@ + seq!['"']);
                out
            },
            TokenOf::Ident(s) => s.clone(),
            TokenOf::Eof => String::from_str("<EOF>"),
            TokenOf::Unknown(c) => {
                let mut out = String::from_str("<unknown '");
                push_char(&mut out, *c);
                out.append("'>");
                out
            },
        }
    }
}

/// A reserved word read back from its own text is that reserved word.
pub proof fn law_keyword_text_roundtrip(t: TokenModel)
    requires
        is_keyword_model(t),
    ensures
        keyword_of(token_text(t)) == Some(t),
{
    reveal_strlit("if");
    reveal_strlit("then");
    reveal_strlit("else");
    reveal_strlit("elseif");
    reveal_strlit("end");
    reveal_strlit("while");
    reveal_strlit("do");
    reveal_strlit("for");
    reveal_strlit("local");
    reveal_strlit("function");
    reveal_strlit("return");
    reveal_strlit("true");
    reveal_strlit("false");
    reveal_strlit("nil");
    reveal_strlit("and");
    reveal_strlit("or");
    reveal_strlit("not");
    let text = token_text(t);
    match t {
        TokenOf::KwIf => {
        },
        TokenOf::KwThen => {
            assert(text.len() != "if"@.len());
        },
        TokenOf::KwElse => {
            assert(text.len() != "if"@.len());
            assert(text[0] != "then"@[0]);
        },
        TokenOf::KwElseif => {
            assert(text.len() != "if"@.len());
            assert(text.len() != "then"@.len());
            assert(text.len() != "else"@.len());
        },
        TokenOf::KwEnd => {
            assert(text.len() != "if"@.len());
            assert(text.len() != "then"@.len());
            assert(text.len() != "else"@.len());
            assert(text.len() != "elseif"@.len());
        },
        TokenOf::KwWhile => {
            assert(text.len() != "if"@.len());
            assert(text.len() != "then"@.len());
            assert(text.len() != "else"@.len());
            assert(text.len() != "elseif"@.len());
            assert(text.len() != "end"@.len());
        },
        TokenOf::KwDo => {
            assert(text[0] != "if"@[0]);
            assert(text.len() != "then"@.len());
            assert(text.len() != "else"@.len());
            assert(text.len() != "elseif"@.len());
            assert(text.len() != "end"@.len());
            assert(text.len() != "while"@.len());
        },
        TokenOf::KwFor => {
            assert(text.len() != "if"@.len());
            assert(text.len() != "then"@.len());
            assert(text.len() != "else"@.len());
            assert(text.len() != "elseif"@.len());
            assert(text[0] != "end"@[0]);
            assert(text.len() != "while"@.len());
            assert(text.len() != "do"@.len());
        },
        TokenOf::KwLocal => {
            assert(text.len() != "if"@.len());
            assert(text.len() != "then"@.len());
            assert(text.len() != "else"@.len());
            assert(text.len() != "elseif"@.len());
            assert(text.len() != "end"@.len());
            assert(text[0] != "while"@[0]);
            assert(text.len() != "do"@.len());
            assert(text.len() != "for"@.len());
        },
        TokenOf::KwFunction => {
            assert(text.len() != "if"@.len());
            assert(text.len() != "then"@.len());
            assert(text.len() != "else"@.len());
            assert(text.len() != "elseif"@.len());
            assert(text.len() != "end"@.len());
            assert(text.len() != "while"@.len());
            assert(text.len() != "do"@.len());
            assert(text.len() != "for"@.len());
            assert(text.len() != "local"@.len());
        },
        TokenOf::KwReturn => {
            assert(text.len() != "if"@.len());
            assert(text.len() != "then"@.len());
            assert(text.len() != "else"@.len());
            assert(text[0] != "elseif"@[0]);
            assert(text.len() != "end"@.len());
            assert(text.len() != "while"@.len());
            assert(text.len() != "do"@.len());
            assert(text.len() != "for"@.len());
            assert(text.len() != "local"@.len());
            assert(text.len() != "function"@.len());
        },
        TokenOf::KwTrue => {
            assert(text.len() != "if"@.len());
            assert(text[1] != "then"@[1]);
            assert(text[0] != "else"@[0]);
            assert(text.len() != "elseif"@.len());
            assert(text.len() != "end"@.len());
            assert(text.len() != "while"@.len());
            assert(text.len() != "do"@.len());
            assert(text.len() != "for"@.len());
            assert(text.len() != "local"@.len());
            assert(text.len() != "function"@.len());
            assert(text.len() != "return"@.len());
        },
        TokenOf::KwFalse => {
            assert(text.len() != "if"@.len());
            assert(text.len() != "then"@.len());
            assert(text.len() != "else"@.len());
            assert(text.len() != "elseif"@.len());
            assert(text.len() != "end"@.len());
            assert(text[0] != "while"@[0]);
            assert(text.len() != "do"@.len());
            assert(text.len() != "for"@.len());
            assert(text[0] != "local"@[0]);
            assert(text.len() != "function"@.len());
            assert(text.len() != "return"@.len());
            assert(text.len() != "true"@.len());
        },
        TokenOf::KwNil => {
            assert(text.len() != "if"@.len());
            assert(text.len() != "then"@.len());
            assert(text.len() != "else"@.len());
            assert(text.len() != "elseif"@.len());
            assert(text[0] != "end"@[0]);
            assert(text.len() != "while"@.len());
            assert(text.len() != "do"@.len());
            assert(text[0] != "for"@[0]);
            assert(text.len() != "local"@.len());
            assert(text.len() != "function"@.len());
            assert(text.len() != "return"@.len());
            assert(text.len() != "true"@.len());
            assert(text.len() != "false"@.len());
        },
        TokenOf::KwAnd => {
            assert(text.len() != "if"@.len());
            assert(text.len() != "then"@.len());
            assert(text.len() != "else"@.len());
            assert(text.len() != "elseif"@.len());
            assert(text[0] != "end"@[0]);
            assert(text.len() != "while"@.len());
            assert(text.len() != "do"@.len());
            assert(text[0] != "for"@[0]);
            assert(text.len() != "local"@.len());
            assert(text.len() != "function"@.len());
            assert(text.len() != "return"@.len());
            assert(text.len() != "true"@.len());
            assert(text.len() != "false"@.len());
            assert(text[0] != "nil"@[0]);
        },
        TokenOf::KwOr => {
            assert(text[0] != "if"@[0]);
            assert(text.len() != "then"@.len());
            assert(text.len() != "else"@.len());
            assert(text.len() != "elseif"@.len());
            assert(text.len() != "end"@.len());
            assert(text.len() != "while"@.len());
            assert(text[0] != "do"@[0]);
            assert(text.len() != "for"@.len());
            assert(text.len() != "local"@.len());
            assert(text.len() != "function"@.len());
            assert(text.len() != "return"@.len());
            assert(text.len() != "true"@.len());
            assert(text.len() != "false"@.len());
            assert(text.len() != "nil"@.len());
            assert(text.len() != "and"@.len());
        },
        TokenOf::KwNot => {
            assert(text.len() != "if"@.len());
            assert(text.len() != "then"@.len());
            assert(text.len() != "else"@.len());
            assert(text.len() != "elseif"@.len());
            assert(text[0] != "end"@[0]);
            assert(text.len() != "while"@.len());
            assert(text.len() != "do"@.len());
            assert(text[0] != "for"@[0]);
            assert(text.len() != "local"@.len());
            assert(text.len() != "function"@.len());
            assert(text.len() != "return"@.len());
            assert(text.len() != "true"@.len());
            assert(text.len() != "false"@.len());
            assert(text[1] != "nil"@[1]);
            assert(text[0] != "and"@[0]);
            assert(text.len() != "or"@.len());
        },
        _ => {},
    }
}

/// What `keyword_of` recognises is a reserved word, spelled exactly by the text.
pub proof fn law_keyword_of_is_keyword(s: Seq<char>)
    ensures
        keyword_of(s) matches Some(t) ==> is_keyword_model(t) && token_text(t) == s,
{
}

} // verus!
