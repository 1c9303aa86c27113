//! The lexical layer of the parser: source characters to tokens.
//!
//! The token stream is specified by `sp_lex`, a recursive scan over the
//! character sequence; the executable lexer is proved to return exactly the
//! specified tokens, or the specified error position.

use vstd::prelude::*;
use crate::num::{Num, NumV, is_digit, digit_val, sp_parse_dec, parse_dec_chars};
use crate::strutil::{is_space, is_space_exec, chars_to_string, str_is};

verus! {

/// A lexical token kind.
pub enum TokKind {
    /// A decimal number literal.
    Num(Num),
    /// A string literal, escapes resolved and quotes stripped.
    Str(String),
    /// An identifier or keyword other than `true` / `false`.
    Ident(String),
    /// A boolean literal.
    Bool(bool),
    LParen,
    RParen,
    LBracket,
    RBracket,
    LBrace,
    RBrace,
    Comma,
    Semi,
    Colon,
    Equals,
    DotDot,
    Plus,
    Minus,
    Star,
    Slash,
    Caret,
    Bang,
    Lt,
    Gt,
    Le,
    Ge,
    EqEq,
    Ne,
}

/// Model of a token kind.
pub enum TokKindV {
    Num(NumV),
    Str(Seq<char>),
    Ident(Seq<char>),
    Bool(bool),
    LParen,
    RParen,
    LBracket,
    RBracket,
    LBrace,
    RBrace,
    Comma,
    Semi,
    Colon,
    Equals,
    DotDot,
    Plus,
    Minus,
    Star,
    Slash,
    Caret,
    Bang,
    Lt,
    Gt,
    Le,
    Ge,
    EqEq,
    Ne,
}

impl View for TokKind {
    type V = TokKindV;

    open spec fn view(&self) -> TokKindV {
        match self {
            TokKind::Num(n) => TokKindV::Num(n@),
            TokKind::Str(s) => TokKindV::Str(s@),
            TokKind::Ident(s) => TokKindV::Ident(s@),
            TokKind::Bool(b) => TokKindV::Bool(*b),
            TokKind::LParen => TokKindV::LParen,
            TokKind::RParen => TokKindV::RParen,
            TokKind::LBracket => TokKindV::LBracket,
            TokKind::RBracket => TokKindV::RBracket,
            TokKind::LBrace => TokKindV::LBrace,
            TokKind::RBrace => TokKindV::RBrace,
            TokKind::Comma => TokKindV::Comma,
            TokKind::Semi => TokKindV::Semi,
            TokKind::Colon => TokKindV::Colon,
            TokKind::Equals => TokKindV::Equals,
            TokKind::DotDot => TokKindV::DotDot,
            TokKind::Plus => TokKindV::Plus,
            TokKind::Minus => TokKindV::Minus,
            TokKind::Star => TokKindV::Star,
            TokKind::Slash => TokKindV::Slash,
            TokKind::Caret => TokKindV::Caret,
            TokKind::Bang => TokKindV::Bang,
            TokKind::Lt => TokKindV::Lt,
            TokKind::Gt => TokKindV::Gt,
            TokKind::Le => TokKindV::Le,
            TokKind::Ge => TokKindV::Ge,
            TokKind::EqEq => TokKindV::EqEq,
            TokKind::Ne => TokKindV::Ne,
        }
    }
}

/// A token together with the source position of its first character.
pub struct Token {
    pub kind: TokKind,
    pub at: usize,
}

/// Model of a token.
pub struct TokV {
    pub kind: TokKindV,
    pub at: nat,
}

impl View for Token {
    type V = TokV;

    open spec fn view(&self) -> TokV {
        TokV { kind: self.kind@, at: self.at as nat }
    }
}

/// Models of a token sequence.
pub open spec fn tok_views(s: Seq<Token>) -> Seq<TokV> {
    s.map_values(|t: Token| t@)
}

/// Every number literal among the tokens is within the representable range.
pub open spec fn tok_kind_wf(k: TokKindV) -> bool {
    match k {
        TokKindV::Num(n) => crate::num::num_wf(n),
        _ => true,
    }
}

/// Well-formedness of a token sequence.
pub open spec fn toks_wf(ts: Seq<TokV>) -> bool {
    forall|i: int| 0 <= i < ts.len() ==> tok_kind_wf(#[trigger] ts[i].kind)
}

/// A character that may begin an identifier.
pub open spec fn is_ident_start(c: char) -> bool {
    ('a' <= c && c <= 'z') || ('A' <= c && c <= 'Z') || c == '_'
}

/// A character that may continue an identifier.
pub open spec fn is_ident_char(c: char) -> bool {
    is_ident_start(c) || is_digit(c)
}

/// A hexadecimal digit.
pub open spec fn is_hex(c: char) -> bool {
    is_digit(c) || ('a' <= c && c <= 'f') || ('A' <= c && c <= 'F')
}

/// Value of a hexadecimal digit.
pub open spec fn hex_val(c: char) -> nat {
    if is_digit(c) {
        digit_val(c)
    } else if 'a' <= c && c <= 'f' {
        (c as int - 'a' as int + 10) as nat
    } else {
        (c as int - 'A' as int + 10) as nat
    }
}

/// A Unicode scalar value (a code point that is not a surrogate).
pub open spec fn valid_scalar(v: nat) -> bool {
    v < 0xD800 || (0xE000 <= v && v < 0x110000)
}

/// End of the digit run starting at `i`.
pub open spec fn sp_digits_end(s: Seq<char>, i: nat) -> nat
    decreases s.len() - i,
{
    if i < s.len() && is_digit(s[i as int]) {
        sp_digits_end(s, (i + 1) as nat)
    } else {
        i
    }
}

/// End of the identifier-character run starting at `i`.
pub open spec fn sp_ident_end(s: Seq<char>, i: nat) -> nat
    decreases s.len() - i,
{
    if i < s.len() && is_ident_char(s[i as int]) {
        sp_ident_end(s, (i + 1) as nat)
    } else {
        i
    }
}

/// A digit run never ends before it starts.
pub proof fn lemma_digits_end_ge(s: Seq<char>, i: nat)
    ensures
        sp_digits_end(s, i) >= i,
    decreases s.len() - i,
{
    if i < s.len() && is_digit(s[i as int]) {
        lemma_digits_end_ge(s, (i + 1) as nat);
    }
}

/// An identifier run never ends before it starts.
pub proof fn lemma_ident_end_ge(s: Seq<char>, i: nat)
    ensures
        sp_ident_end(s, i) >= i,
    decreases s.len() - i,
{
    if i < s.len() && is_ident_char(s[i as int]) {
        lemma_ident_end_ge(s, (i + 1) as nat);
    }
}

/// End of the number literal starting at the digit at `i`: the digit run,
/// and a fractional part when a dot followed by a digit comes next.
pub open spec fn sp_num_end(s: Seq<char>, i: nat) -> nat {
    let j = sp_digits_end(s, i);
    if j < s.len() && s[j as int] == '.' && j + 1 < s.len() && is_digit(s[j as int + 1]) {
        sp_digits_end(s, (j + 2) as nat)
    } else {
        j
    }
}

/// Scan a string literal body from `j` (just after the opening quote): the
/// resolved content and the position after the closing quote, or `None` for
/// an unterminated literal.  A backslash introduces `\xHH` (two hex digits,
/// a code point below 256) or `\uHHHH` (four hex digits naming a Unicode
/// scalar); any other character, the backslash included, stands for itself.
pub open spec fn sp_scan_str(s: Seq<char>, j: nat) -> Option<(Seq<char>, nat)>
    decreases s.len() - j,
{
    if j >= s.len() {
        None
    } else if s[j as int] == '"' {
        Some((Seq::empty(), (j + 1) as nat))
    } else if s[j as int] == '\\' && j + 4 <= s.len() && s[j as int + 1] == 'x' && is_hex(
        s[j as int + 2],
    ) && is_hex(s[j as int + 3]) {
        let v = hex_val(s[j as int + 2]) * 16 + hex_val(s[j as int + 3]);
        match sp_scan_str(s, (j + 4) as nat) {
            Some((rest, e)) => Some((seq![v as char] + rest, e)),
            None => None,
        }
    } else if s[j as int] == '\\' && j + 6 <= s.len() && s[j as int + 1] == 'u' && is_hex(
        s[j as int + 2],
    ) && is_hex(s[j as int + 3]) && is_hex(s[j as int + 4]) && is_hex(s[j as int + 5])
        && valid_scalar(
        ((hex_val(s[j as int + 2]) * 16 + hex_val(s[j as int + 3])) * 16 + hex_val(
            s[j as int + 4],
        )) * 16 + hex_val(s[j as int + 5]),
    ) {
        let v = ((hex_val(s[j as int + 2]) * 16 + hex_val(s[j as int + 3])) * 16 + hex_val(
            s[j as int + 4],
        )) * 16 + hex_val(s[j as int + 5]);
        match sp_scan_str(s, (j + 6) as nat) {
            Some((rest, e)) => Some((seq![v as char] + rest, e)),
            None => None,
        }
    } else {
        match sp_scan_str(s, (j + 1) as nat) {
            Some((rest, e)) => Some((seq![s[j as int]] + rest, e)),
            None => None,
        }
    }
}

/// The token starting at the non-space position `i`: its kind and the count
/// of characters it occupies beyond the first, or `None` when no token of
/// the language starts here.
pub open spec fn sp_scan_token(s: Seq<char>, i: nat) -> Option<(TokKindV, nat)> {
    let c = s[i as int];
    if is_digit(c) {
        let e = sp_num_end(s, i);
        match sp_parse_dec(s.subrange(i as int, e as int)) {
            Some(n) => Some((TokKindV::Num(n), (e - i - 1) as nat)),
            None => None,
        }
    } else if is_ident_start(c) {
        let e = sp_ident_end(s, i);
        let w = s.subrange(i as int, e as int);
        if w == "true"@ {
            Some((TokKindV::Bool(true), (e - i - 1) as nat))
        } else if w == "false"@ {
            Some((TokKindV::Bool(false), (e - i - 1) as nat))
        } else {
            Some((TokKindV::Ident(w), (e - i - 1) as nat))
        }
    } else if c == '"' {
        match sp_scan_str(s, (i + 1) as nat) {
            Some((content, e)) => Some((TokKindV::Str(content), (e - i - 1) as nat)),
            None => None,
        }
    } else if c == '<' {
        if i + 1 < s.len() && s[i as int + 1] == '=' {
            Some((TokKindV::Le, 1))
        } else {
            Some((TokKindV::Lt, 0))
        }
    } else if c == '>' {
        if i + 1 < s.len() && s[i as int + 1] == '=' {
            Some((TokKindV::Ge, 1))
        } else {
            Some((TokKindV::Gt, 0))
        }
    } else if c == '=' {
        if i + 1 < s.len() && s[i as int + 1] == '=' {
            Some((TokKindV::EqEq, 1))
        } else {
            Some((TokKindV::Equals, 0))
        }
    } else if c == '!' {
        if i + 1 < s.len() && s[i as int + 1] == '=' {
            Some((TokKindV::Ne, 1))
        } else {
            Some((TokKindV::Bang, 0))
        }
    } else if c == '.' {
        if i + 1 < s.len() && s[i as int + 1] == '.' {
            Some((TokKindV::DotDot, 1))
        } else {
            None
        }
    } else if c == '+' {
        Some((TokKindV::Plus, 0))
    } else if c == '-' {
        Some((TokKindV::Minus, 0))
    } else if c == '*' {
        Some((TokKindV::Star, 0))
    } else if c == '/' {
        Some((TokKindV::Slash, 0))
    } else if c == '^' {
        Some((TokKindV::Caret, 0))
    } else if c == '(' {
        Some((TokKindV::LParen, 0))
    } else if c == ')' {
        Some((TokKindV::RParen, 0))
    } else if c == '[' {
        Some((TokKindV::LBracket, 0))
    } else if c == ']' {
        Some((TokKindV::RBracket, 0))
    } else if c == '{' {
        Some((TokKindV::LBrace, 0))
    } else if c == '}' {
        Some((TokKindV::RBrace, 0))
    } else if c == ',' {
        Some((TokKindV::Comma, 0))
    } else if c == ';' {
        Some((TokKindV::Semi, 0))
    } else if c == ':' {
        Some((TokKindV::Colon, 0))
    } else {
        None
    }
}

/// Tokens of the source from position `i` on: whitespace is skipped, and a
/// character at which no token starts is the error position.
pub open spec fn sp_lex_all(s: Seq<char>, i: nat) -> Result<Seq<TokV>, nat>
    decreases s.len() - i,
{
    if i >= s.len() {
        Ok(Seq::empty())
    } else if is_space(s[i as int]) {
        sp_lex_all(s, (i + 1) as nat)
    } else {
        match sp_scan_token(s, i) {
            None => Err(i),
            Some((k, extra)) => {
                let nx = if i + 1 + extra <= s.len() {
                    (i + 1 + extra) as nat
                } else {
                    s.len()
                };
                match sp_lex_all(s, nx) {
                    Ok(ts) => Ok(seq![TokV { kind: k, at: i }] + ts),
                    Err(p) => Err(p),
                }
            },
        }
    }
}

/// Tokens of the whole source, or the first position no token starts at.
pub open spec fn sp_lex(s: Seq<char>) -> Result<Seq<TokV>, nat> {
    sp_lex_all(s, 0)
}

/// A partial token list joined with the tokens still to come.
pub open spec fn lex_join(pre: Seq<TokV>, rest: Result<Seq<TokV>, nat>) -> Result<
    Seq<TokV>,
    nat,
> {
    match rest {
        Ok(ts) => Ok(pre + ts),
        Err(p) => Err(p),
    }
}

/// Executable test for identifier-start characters.
fn is_ident_start_exec(c: char) -> (r: bool)
    ensures
        r == is_ident_start(c),
{
    ('a' <= c && c <= 'z') || ('A' <= c && c <= 'Z') || c == '_'
}

/// Executable test for identifier characters.
fn is_ident_char_exec(c: char) -> (r: bool)
    ensures
        r == is_ident_char(c),
{
    is_ident_start_exec(c) || ('0' <= c && c <= '9')
}

/// Executable test for hexadecimal digits.
fn is_hex_exec(c: char) -> (r: bool)
    ensures
        r == is_hex(c),
{
    ('0' <= c && c <= '9') || ('a' <= c && c <= 'f') || ('A' <= c && c <= 'F')
}

/// Executable value of a hexadecimal digit.
fn hex_val_exec(c: char) -> (r: u32)
    requires
        is_hex(c),
    ensures
        r as nat == hex_val(c),
        r < 16,
{
    if '0' <= c && c <= '9' {
        (c as u32) - ('0' as u32)
    } else if 'a' <= c && c <= 'f' {
        (c as u32) - ('a' as u32) + 10
    } else {
        (c as u32) - ('A' as u32) + 10
    }
}

/// Relies on `char::from_u32`: for a Unicode scalar value it returns the
/// character with that code point (`None` is only for surrogates and values
/// beyond the character range, which the precondition excludes).
#[verifier::external_body]
fn char_of_code(v: u32) -> (r: char)
    requires
        valid_scalar(v as nat),
    ensures
        r as nat == v as nat,
{
    char::from_u32(v).unwrap()
}

/// End of the digit run starting at `i`.
#[verifier::loop_isolation(false)]
fn digits_end(cs: &Vec<char>, i: usize) -> (r: usize)
    requires
        i <= cs@.len(),
    ensures
        r as nat == sp_digits_end(cs@, i as nat),
        i <= r <= cs@.len(),
{
    let mut j: usize = i;
    while j < cs.len() && '0' <= cs[j] && cs[j] <= '9'
        invariant
            i <= j <= cs@.len(),
            sp_digits_end(cs@, i as nat) == sp_digits_end(cs@, j as nat),
        decreases cs@.len() - j,
    {
        j = j + 1;
    }
    j
}

/// End of the identifier run starting at `i`.
#[verifier::loop_isolation(false)]
fn ident_end(cs: &Vec<char>, i: usize) -> (r: usize)
    requires
        i <= cs@.len(),
    ensures
        r as nat == sp_ident_end(cs@, i as nat),
        i <= r <= cs@.len(),
{
    let mut j: usize = i;
    while j < cs.len() && is_ident_char_exec(cs[j])
        invariant
            i <= j <= cs@.len(),
            sp_ident_end(cs@, i as nat) == sp_ident_end(cs@, j as nat),
        decreases cs@.len() - j,
    {
        j = j + 1;
    }
    j
}

/// Copy the characters `cs[lo..hi]`.
#[verifier::loop_isolation(false)]
fn copy_span(cs: &Vec<char>, lo: usize, hi: usize) -> (r: Vec<char>)
    requires
        lo <= hi <= cs@.len(),
    ensures
        r@ == cs@.subrange(lo as int, hi as int),
{
    let mut r: Vec<char> = Vec::new();
    let mut j: usize = lo;
    while j < hi
        invariant
            lo <= j <= hi,
            r@ == cs@.subrange(lo as int, j as int),
        decreases hi - j,
    {
        r.push(cs[j]);
        j = j + 1;
        proof {
            assert(r@ =~= cs@.subrange(lo as int, j as int));
        }
    }
    r
}

/// Scan a string literal body, as `sp_scan_str` describes.
#[verifier::loop_isolation(false)]
fn scan_str(cs: &Vec<char>, start: usize) -> (r: Option<(Vec<char>, usize)>)
    requires
        start <= cs@.len(),
    ensures
        (match r {
            Some((content, e)) => sp_scan_str(cs@, start as nat) == Some((content@, e as nat))
                && start < e <= cs@.len(),
            None => sp_scan_str(cs@, start as nat) is None,
        }),
{
    let mut content: Vec<char> = Vec::new();
    let mut j: usize = start;
    loop
        invariant
            start <= j <= cs@.len(),
            sp_scan_str(cs@, start as nat) == (match sp_scan_str(cs@, j as nat) {
                Some((rest, e)) => Some::<(Seq<char>, nat)>((content@ + rest, e)),
                None => None::<(Seq<char>, nat)>,
            }),
        decreases cs@.len() - j,
    {
        if j >= cs.len() {
            return None;
        }
        let c = cs[j];
        if c == '"' {
            proof {
                assert(content@ + Seq::<char>::empty() =~= content@);
            }
            return Some((content, j + 1));
        }
        if c == '\\' && cs.len() - j >= 4 && cs[j + 1] == 'x' && is_hex_exec(cs[j + 2])
            && is_hex_exec(cs[j + 3]) {
            let v: u32 = hex_val_exec(cs[j + 2]) * 16 + hex_val_exec(cs[j + 3]);
            let ch: char = (v as u8) as char;
            let ghost prev = content@;
            content.push(ch);
            proof {
                assert(ch as nat == v as nat);
                assert forall|rest: Seq<char>| prev + (seq![ch] + rest) =~= content@ + rest by {}
            }
            j = j + 4;
        } else if c == '\\' && cs.len() - j >= 6 && cs[j + 1] == 'u' && is_hex_exec(cs[j + 2])
            && is_hex_exec(cs[j + 3]) && is_hex_exec(cs[j + 4]) && is_hex_exec(cs[j + 5]) && ({
            let v: u32 = ((hex_val_exec(cs[j + 2]) * 16 + hex_val_exec(cs[j + 3])) * 16
                + hex_val_exec(cs[j + 4])) * 16 + hex_val_exec(cs[j + 5]);
            v < 0xD800 || v >= 0xE000
        }) {
            let v: u32 = ((hex_val_exec(cs[j + 2]) * 16 + hex_val_exec(cs[j + 3])) * 16
                + hex_val_exec(cs[j + 4])) * 16 + hex_val_exec(cs[j + 5]);
            let ch: char = char_of_code(v);
            let ghost prev = content@;
            content.push(ch);
            proof {
                assert forall|rest: Seq<char>| prev + (seq![ch] + rest) =~= content@ + rest by {}
            }
            j = j + 6;
        } else {
            let ghost prev = content@;
            content.push(c);
            proof {
                assert forall|rest: Seq<char>| prev + (seq![c] + rest) =~= content@ + rest by {}
            }
            j = j + 1;
        }
    }
}

/// Scan one token at the non-space position `i`, as `sp_scan_token`
/// describes; the second component is the position just after the token.
fn scan_token(cs: &Vec<char>, i: usize) -> (r: Option<(TokKind, usize)>)
    requires
        i < cs@.len(),
    ensures
        (match r {
            Some((k, nx)) => sp_scan_token(cs@, i as nat) == Some((k@, (nx - i - 1) as nat))
                && i < nx <= cs@.len() && tok_kind_wf(k@),
            None => sp_scan_token(cs@, i as nat) is None,
        }),
{
    let n = cs.len();
    proof {
        assert(i < n);
    }
    let c = cs[i];
    if '0' <= c && c <= '9' {
        let d1 = digits_end(cs, i);
        let e: usize = if d1 < cs.len() && cs[d1] == '.' && d1 + 1 < cs.len() && '0' <= cs[d1 + 1]
            && cs[d1 + 1] <= '9' {
            digits_end(cs, d1 + 2)
        } else {
            d1
        };
        proof {
            lemma_digits_end_ge(cs@, (i + 1) as nat);
            assert(e as nat == sp_num_end(cs@, i as nat));
            assert(sp_digits_end(cs@, i as nat) >= i + 1);
        }
        let span = copy_span(cs, i, e);
        match parse_dec_chars(&span) {
            Some(n) => Some((TokKind::Num(n), e)),
            None => None,
        }
    } else if is_ident_start_exec(c) {
        let e = ident_end(cs, i);
        proof {
            lemma_ident_end_ge(cs@, (i + 1) as nat);
            assert(sp_ident_end(cs@, i as nat) >= i + 1);
        }
        let span = copy_span(cs, i, e);
        let w = chars_to_string(&span);
        if str_is(&w, "true") {
            Some((TokKind::Bool(true), e))
        } else if str_is(&w, "false") {
            Some((TokKind::Bool(false), e))
        } else {
            Some((TokKind::Ident(w), e))
        }
    } else if c == '"' {
        match scan_str(cs, i + 1) {
            Some((content, e)) => Some((TokKind::Str(chars_to_string(&content)), e)),
            None => None,
        }
    } else if c == '<' {
        if i + 1 < cs.len() && cs[i + 1] == '=' {
            Some((TokKind::Le, i + 2))
        } else {
            Some((TokKind::Lt, i + 1))
        }
    } else if c == '>' {
        if i + 1 < cs.len() && cs[i + 1] == '=' {
            Some((TokKind::Ge, i + 2))
        } else {
            Some((TokKind::Gt, i + 1))
        }
    } else if c == '=' {
        if i + 1 < cs.len() && cs[i + 1] == '=' {
            Some((TokKind::EqEq, i + 2))
        } else {
            Some((TokKind::Equals, i + 1))
        }
    } else if c == '!' {
        if i + 1 < cs.len() && cs[i + 1] == '=' {
            Some((TokKind::Ne, i + 2))
        } else {
            Some((TokKind::Bang, i + 1))
        }
    } else if c == '.' {
        if i + 1 < cs.len() && cs[i + 1] == '.' {
            Some((TokKind::DotDot, i + 2))
        } else {
            None
        }
    } else if c == '+' {
        Some((TokKind::Plus, i + 1))
    } else if c == '-' {
        Some((TokKind::Minus, i + 1))
    } else if c == '*' {
        Some((TokKind::Star, i + 1))
    } else if c == '/' {
        Some((TokKind::Slash, i + 1))
    } else if c == '^' {
        Some((TokKind::Caret, i + 1))
    } else if c == '(' {
        Some((TokKind::LParen, i + 1))
    } else if c == ')' {
        Some((TokKind::RParen, i + 1))
    } else if c == '[' {
        Some((TokKind::LBracket, i + 1))
    } else if c == ']' {
        Some((TokKind::RBracket, i + 1))
    } else if c == '{' {
        Some((TokKind::LBrace, i + 1))
    } else if c == '}' {
        Some((TokKind::RBrace, i + 1))
    } else if c == ',' {
        Some((TokKind::Comma, i + 1))
    } else if c == ';' {
        Some((TokKind::Semi, i + 1))
    } else if c == ':' {
        Some((TokKind::Colon, i + 1))
    } else {
        None
    }
}

/// Lex the whole source, as `sp_lex` describes.  At most one token is
/// produced per source character.
#[verifier::loop_isolation(false)]
pub fn lex_chars(cs: &Vec<char>) -> (r: Result<Vec<Token>, usize>)
    ensures
        (match r {
            Ok(ts) => sp_lex(cs@) == Ok::<Seq<TokV>, nat>(tok_views(ts@)) && toks_wf(tok_views(ts@))
                && ts@.len() <= cs@.len(),
            Err(p) => sp_lex(cs@) == Err::<Seq<TokV>, nat>(p as nat),
        }),
{
    let mut out: Vec<Token> = Vec::new();
    let mut i: usize = 0;
    while i < cs.len()
        invariant
            i <= cs@.len(),
            out@.len() <= i,
            toks_wf(tok_views(out@)),
            sp_lex(cs@) == lex_join(tok_views(out@), sp_lex_all(cs@, i as nat)),
        decreases cs@.len() - i,
    {
        let c = cs[i];
        if is_space_exec(c) {
            i = i + 1;
        } else {
            match scan_token(cs, i) {
                None => {
                    return Err(i);
                },
                Some((k, nx)) => {
                    let ghost prev = tok_views(out@);
                    let ghost tv = TokV { kind: k@, at: i as nat };
                    out.push(Token { kind: k, at: i });
                    proof {
                        assert(tok_views(out@) =~= prev.push(tv));
                        match sp_lex_all(cs@, nx as nat) {
                            Ok(ts) => {
                                assert(prev + (seq![tv] + ts) =~= tok_views(out@) + ts);
                            },
                            Err(_) => {},
                        }
                    }
                    i = nx;
                },
            }
        }
    }
    proof {
        assert(sp_lex_all(cs@, i as nat) == Ok::<Seq<TokV>, nat>(Seq::empty()));
        assert(tok_views(out@) + Seq::<TokV>::empty() =~= tok_views(out@));
    }
    Ok(out)
}

} // verus!
