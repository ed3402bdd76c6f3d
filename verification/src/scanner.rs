//! The lexer: scans raw source text into an ordered sequence of classified
//! tokens, collecting lexical errors without stopping, and always appending
//! an end-of-file token.
//!
//! The behaviour of the scan is stated by `spec_scan_tokens`, a recursive
//! specification that walks the source one token at a time; `scan_tokens` is
//! proved to return exactly what that specification says.

use vstd::prelude::*;
use crate::keywords::keyword_kind;
use crate::keywords::lookup_keyword;
use crate::tokens::SpecToken;
use crate::tokens::SpecValue;
use crate::tokens::Token;
use crate::tokens::TokenType;
use crate::tokens::Value;

verus! {

/// A lexical error, recorded during the scan without stopping it.
#[derive(Debug, PartialEq)]
pub enum LexError {
    /// A string literal still open when the end of the source was reached,
    /// reported at the line where scanning stopped.
    UnterminatedString { line: usize },
    /// A character outside the language's alphabet, reported with its line.
    UnexpectedCharacter { line: usize, ch: char },
}

/// The mathematical model of a `LexError`.
pub ghost enum SpecLexError {
    UnterminatedString { line: int },
    UnexpectedCharacter { line: int, ch: char },
}

impl View for LexError {
    type V = SpecLexError;

    open spec fn view(&self) -> SpecLexError {
        match self {
            LexError::UnterminatedString { line } => SpecLexError::UnterminatedString {
                line: *line as int,
            },
            LexError::UnexpectedCharacter { line, ch } => SpecLexError::UnexpectedCharacter {
                line: *line as int,
                ch: *ch,
            },
        }
    }
}

// ---------------------------------------------------------------------------
// Character classes (ASCII only, as the language defines them).
// ---------------------------------------------------------------------------

/// An ASCII decimal digit.
pub open spec fn is_digit(c: char) -> bool {
    48 <= c as u32 <= 57
}

/// An ASCII letter or underscore: what may start an identifier.
pub open spec fn is_alpha(c: char) -> bool {
    (65 <= c as u32 <= 90) || (97 <= c as u32 <= 122) || c == '_'
}

/// A letter, digit or underscore: what may continue an identifier.
pub open spec fn is_alnum(c: char) -> bool {
    is_alpha(c) || is_digit(c)
}

fn digit_char(c: char) -> (r: bool)
    ensures
        r == is_digit(c),
{
    let u = c as u32;
    48 <= u && u <= 57
}

fn alpha_char(c: char) -> (r: bool)
    ensures
        r == is_alpha(c),
{
    let u = c as u32;
    (65 <= u && u <= 90) || (97 <= u && u <= 122) || c == '_'
}

fn alnum_char(c: char) -> (r: bool)
    ensures
        r == is_alnum(c),
{
    alpha_char(c) || digit_char(c)
}

// ---------------------------------------------------------------------------
// Maximal runs: where a digit run, an identifier run, a line comment or a
// string body ends.
// ---------------------------------------------------------------------------

/// The end of the maximal run of digits starting at `i`: the first position
/// at or after `i` holding no digit, or the end of the source.
pub open spec fn digits_end(s: Seq<char>, i: int) -> int
    decreases s.len() - i,
{
    if 0 <= i < s.len() && is_digit(s[i]) {
        digits_end(s, i + 1)
    } else {
        i
    }
}

/// The end of the maximal run of identifier characters starting at `i`.
pub open spec fn ident_end(s: Seq<char>, i: int) -> int
    decreases s.len() - i,
{
    if 0 <= i < s.len() && is_alnum(s[i]) {
        ident_end(s, i + 1)
    } else {
        i
    }
}

/// Where a line comment whose body starts at `i` ends: the position of the
/// next newline (left unconsumed), or the end of the source.
pub open spec fn comment_end(s: Seq<char>, i: int) -> int
    decreases s.len() - i,
{
    if 0 <= i < s.len() && s[i] != '\n' {
        comment_end(s, i + 1)
    } else {
        i
    }
}

/// Scanning a string body from position `i` on line `line`: returns the
/// position of the closing quote (or the end of the source when there is
/// none) and the line counter after the embedded newlines.
pub open spec fn string_end(s: Seq<char>, i: int, line: int) -> (int, int)
    decreases s.len() - i,
{
    if 0 <= i < s.len() && s[i] != '"' {
        string_end(s, i + 1, if s[i] == '\n' { line + 1 } else { line })
    } else {
        (i, line)
    }
}

proof fn lemma_digits_end_bounds(s: Seq<char>, i: int)
    requires
        0 <= i <= s.len(),
    ensures
        i <= digits_end(s, i) <= s.len(),
        forall|m: int| i <= m < digits_end(s, i) ==> is_digit(s[m]),
        digits_end(s, i) < s.len() ==> !is_digit(s[digits_end(s, i)]),
    decreases s.len() - i,
{
    if i < s.len() && is_digit(s[i]) {
        lemma_digits_end_bounds(s, i + 1);
    }
}

proof fn lemma_ident_end_bounds(s: Seq<char>, i: int)
    requires
        0 <= i <= s.len(),
    ensures
        i <= ident_end(s, i) <= s.len(),
    decreases s.len() - i,
{
    if i < s.len() && is_alnum(s[i]) {
        lemma_ident_end_bounds(s, i + 1);
    }
}

/// The first position at or after `from` holding no digit.
fn find_digits_end(source: &str, from: usize) -> (j: usize)
    requires
        from <= source@.len(),
    ensures
        j == digits_end(source@, from as int),
        from <= j <= source@.len(),
    decreases source@.len() - from,
{
    let len: usize = source.unicode_len();
    let mut j: usize = from;
    while j < len && digit_char(source.get_char(j))
        invariant
            from <= j <= len,
            len == source@.len(),
            digits_end(source@, from as int) == digits_end(source@, j as int),
        decreases len - j,
    {
        j += 1;
    }
    j
}

/// The first position at or after `from` holding no identifier character.
fn find_ident_end(source: &str, from: usize) -> (j: usize)
    requires
        from <= source@.len(),
    ensures
        j == ident_end(source@, from as int),
        from <= j <= source@.len(),
{
    let len: usize = source.unicode_len();
    let mut j: usize = from;
    while j < len && alnum_char(source.get_char(j))
        invariant
            from <= j <= len,
            len == source@.len(),
            ident_end(source@, from as int) == ident_end(source@, j as int),
        decreases len - j,
    {
        j += 1;
    }
    j
}

/// The position of the next newline at or after `from`, or the end of the
/// source.
fn find_comment_end(source: &str, from: usize) -> (j: usize)
    requires
        from <= source@.len(),
    ensures
        j == comment_end(source@, from as int),
        from <= j <= source@.len(),
{
    let len: usize = source.unicode_len();
    let mut j: usize = from;
    while j < len && source.get_char(j) != '\n'
        invariant
            from <= j <= len,
            len == source@.len(),
            comment_end(source@, from as int) == comment_end(source@, j as int),
        decreases len - j,
    {
        j += 1;
    }
    j
}

/// Walks a string body from `from`, counting embedded newlines: returns the
/// position of the closing quote (or the end of the source) and the updated
/// line counter.
fn scan_string_body(source: &str, from: usize, line: usize) -> (r: (usize, usize))
    requires
        from <= source@.len(),
        source@.len() < usize::MAX,
        line <= from,
    ensures
        r.0 == string_end(source@, from as int, line as int).0,
        r.1 == string_end(source@, from as int, line as int).1,
        from <= r.0 <= source@.len(),
        line <= r.1 <= line + (r.0 - from),
{
    let len: usize = source.unicode_len();
    let mut j: usize = from;
    let mut l: usize = line;
    while j < len && source.get_char(j) != '"'
        invariant
            from <= j <= len,
            len == source@.len() < usize::MAX,
            line <= l,
            l - line <= j - from,
            l <= j,
            string_end(source@, from as int, line as int) == string_end(
                source@,
                j as int,
                l as int,
            ),
        decreases len - j,
    {
        if source.get_char(j) == '\n' {
            l += 1;
        }
        j += 1;
    }
    (j, l)
}

// ---------------------------------------------------------------------------
// Canonical form of a numeric literal.
// ---------------------------------------------------------------------------

/// Drops leading zeros from a digit run, keeping at least one digit.
pub open spec fn strip_leading_zeros(s: Seq<char>) -> Seq<char>
    decreases s.len(),
{
    if s.len() >= 2 && s[0] == '0' {
        strip_leading_zeros(s.subrange(1, s.len() as int))
    } else {
        s
    }
}

/// Drops trailing zeros from a digit run; a run of zeros only becomes empty.
pub open spec fn strip_trailing_zeros(s: Seq<char>) -> Seq<char>
    decreases s.len(),
{
    if s.len() >= 1 && s[s.len() - 1] == '0' {
        strip_trailing_zeros(s.subrange(0, s.len() - 1))
    } else {
        s
    }
}

/// The canonical decimal text of a number lexeme (digits, optionally a dot
/// and more digits): leading zeros leave the integer part, trailing zeros
/// leave the fractional part, and a fractional part of zeros drops out with
/// its dot, so `1.50` reads back as `1.5` and `1.0` as `1`.
pub open spec fn canon_number(s: Seq<char>) -> Seq<char> {
    let d = digits_end(s, 0);
    let ip = strip_leading_zeros(s.subrange(0, d));
    if d < s.len() {
        let fp = strip_trailing_zeros(s.subrange(d + 1, s.len() as int));
        if fp.len() == 0 {
            ip
        } else {
            ip + seq!['.'] + fp
        }
    } else {
        ip
    }
}

proof fn lemma_digits_end_exact(s: Seq<char>, a: int, b: int)
    requires
        0 <= a <= b <= s.len(),
        forall|m: int| a <= m < b ==> is_digit(s[m]),
        b < s.len() ==> !is_digit(s[b]),
    ensures
        digits_end(s, a) == b,
    decreases b - a,
{
    if a < b {
        lemma_digits_end_exact(s, a + 1, b);
    }
}

/// Builds the canonical decimal text of the number lexeme that spans
/// `[i, k)` of the source, whose integer digits span `[i, j)`.
fn number_literal_text(source: &str, i: usize, j: usize, k: usize) -> (r: String)
    requires
        i < j <= k <= source@.len(),
        forall|m: int| i <= m < j ==> is_digit(source@[m]),
        j < k ==> source@[j as int] == '.' && j + 1 < k,
        forall|m: int| j < m < k ==> is_digit(source@[m]),
    ensures
        r@ == canon_number(source@.subrange(i as int, k as int)),
{
    let ghost s = source@;
    let ghost lex = s.subrange(i as int, k as int);
    proof {
        assert forall|m: int| 0 <= m < j - i implies is_digit(lex[m]) by {
            assert(lex[m] == s[i + m]);
        }
        if j < k {
            assert(lex[j - i] == s[j as int]);
            assert(!is_digit('.'));
        }
        lemma_digits_end_exact(lex, 0, j - i);
        assert(lex.subrange(0, j - i) =~= s.subrange(i as int, j as int));
    }
    // Integer part: strip leading zeros, keeping at least one digit.
    let mut a: usize = i;
    while a + 1 < j && source.get_char(a) == '0'
        invariant
            i <= a < j <= source@.len(),
            s == source@,
            strip_leading_zeros(s.subrange(i as int, j as int)) == strip_leading_zeros(
                s.subrange(a as int, j as int),
            ),
        decreases j - a,
    {
        proof {
            assert(s.subrange(a as int, j as int).subrange(1, j - a) =~= s.subrange(
                a + 1,
                j as int,
            ));
        }
        a += 1;
    }
    let ghost ip = strip_leading_zeros(s.subrange(i as int, j as int));
    proof {
        assert(ip == s.subrange(a as int, j as int));
    }
    let int_part = source.substring_char(a, j);
    if j == k {
        int_part.to_owned()
    } else {
        // Fractional part: strip trailing zeros.
        let mut b: usize = k;
        while b > j + 1 && source.get_char(b - 1) == '0'
            invariant
                j + 1 <= b <= k <= source@.len(),
                s == source@,
                strip_trailing_zeros(s.subrange(j + 1, k as int)) == strip_trailing_zeros(
                    s.subrange(j + 1, b as int),
                ),
            decreases b,
        {
            proof {
                assert(s.subrange(j + 1, b as int).subrange(0, b - 1 - (j + 1)) =~= s.subrange(
                    j + 1,
                    b - 1,
                ));
                assert(s.subrange(j + 1, b as int)[b - 1 - (j + 1)] == s[b - 1]);
            }
            b -= 1;
        }
        let ghost fp = strip_trailing_zeros(s.subrange(j + 1, k as int));
        proof {
            assert(lex.subrange(j - i + 1, lex.len() as int) =~= s.subrange(j + 1, k as int));
            if b == j + 1 {
                assert(s.subrange(j + 1, b as int).len() == 0);
                assert(fp.len() == 0);
            } else {
                assert(s.subrange(j + 1, b as int)[b - (j + 1) - 1] == s[b - 1]);
                assert(fp == s.subrange(j + 1, b as int));
            }
        }
        if b == j + 1 {
            int_part.to_owned()
        } else {
            let mut r = int_part.to_owned();
            r.append(".");
            let frac = source.substring_char(j + 1, b);
            r.append(frac);
            proof {
                reveal_strlit(".");
                assert("."@ =~= seq!['.']);
                assert(r@ == ip + seq!['.'] + fp);
            }
            r
        }
    }
}

// ---------------------------------------------------------------------------
// One scanning step: classify the character at `i` and emit at most one
// token or one error.
// ---------------------------------------------------------------------------

/// What one scanning step did: where the cursor and the line counter stand
/// afterwards, and the token or error it emitted, if any.
pub ghost struct SpecStep {
    pub next: int,
    pub line: int,
    pub token: Option<SpecToken>,
    pub error: Option<SpecLexError>,
}

/// Clamps a step's target position into `(i, s.len()]`, so that every step
/// makes progress; on the positions the scanner actually reaches it is the
/// identity.
pub open spec fn step_to(s: Seq<char>, i: int, j: int) -> int {
    if j <= i {
        i + 1
    } else if j > s.len() {
        s.len() as int
    } else {
        j
    }
}

/// A single-character token at `i`.
pub open spec fn simple_step(s: Seq<char>, i: int, line: int, ty: TokenType) -> SpecStep {
    SpecStep {
        next: i + 1,
        line,
        token: Some(
            SpecToken { ty, lexeme: s.subrange(i, i + 1), literal: SpecValue::Nil, line },
        ),
        error: None,
    }
}

/// An operator at `i` that takes a second character when it is `=`.
pub open spec fn operator_step(
    s: Seq<char>,
    i: int,
    line: int,
    one: TokenType,
    two: TokenType,
) -> SpecStep {
    if i + 1 < s.len() && s[i + 1] == '=' {
        SpecStep {
            next: i + 2,
            line,
            token: Some(
                SpecToken { ty: two, lexeme: s.subrange(i, i + 2), literal: SpecValue::Nil, line },
            ),
            error: None,
        }
    } else {
        simple_step(s, i, line, one)
    }
}

/// A string literal opened at `i`: embedded newlines advance the line
/// counter, but the token keeps the line of its first character, the opening
/// quote; an unterminated literal is an error at the line where scanning
/// stopped; the lexeme keeps the quotes, the literal value drops them.
pub open spec fn string_step(s: Seq<char>, i: int, line: int) -> SpecStep {
    let q = string_end(s, i + 1, line).0;
    let l2 = string_end(s, i + 1, line).1;
    if q >= s.len() {
        SpecStep {
            next: step_to(s, i, q),
            line: l2,
            token: None,
            error: Some(SpecLexError::UnterminatedString { line: l2 }),
        }
    } else {
        SpecStep {
            next: step_to(s, i, q + 1),
            line: l2,
            token: Some(
                SpecToken {
                    ty: TokenType::STRING,
                    lexeme: s.subrange(i, step_to(s, i, q + 1)),
                    literal: SpecValue::Text(s.subrange(i + 1, q)),
                    line,
                },
            ),
            error: None,
        }
    }
}

/// A number at `i`: a maximal digit run, optionally one dot followed by a
/// further maximal digit run (a trailing dot stays out); the literal value is
/// the lexeme's canonical decimal text.
pub open spec fn number_step(s: Seq<char>, i: int, line: int) -> SpecStep {
    let j = digits_end(s, i);
    let k = if j < s.len() && s[j] == '.' && j + 1 < s.len() && is_digit(s[j + 1]) {
        digits_end(s, j + 1)
    } else {
        j
    };
    let e = step_to(s, i, k);
    SpecStep {
        next: e,
        line,
        token: Some(
            SpecToken {
                ty: TokenType::NUMBER,
                lexeme: s.subrange(i, e),
                literal: SpecValue::Numeric(canon_number(s.subrange(i, e))),
                line,
            },
        ),
        error: None,
    }
}

/// An identifier or keyword at `i`: a maximal run of letters, digits and
/// underscores, classified by the keyword table.
pub open spec fn ident_step(s: Seq<char>, i: int, line: int) -> SpecStep {
    let e = step_to(s, i, ident_end(s, i));
    SpecStep {
        next: e,
        line,
        token: Some(
            SpecToken {
                ty: keyword_kind(s.subrange(i, e)),
                lexeme: s.subrange(i, e),
                literal: SpecValue::Nil,
                line,
            },
        ),
        error: None,
    }
}

/// One scanning step at position `i` on line `line`: the whole
/// classification of the next character, as section-by-section as the scan
/// loop performs it.
pub open spec fn spec_step(s: Seq<char>, i: int, line: int) -> SpecStep
    recommends
        0 <= i < s.len(),
{
    let c = s[i];
    if c == '(' {
        simple_step(s, i, line, TokenType::LEFTPAREN)
    } else if c == ')' {
        simple_step(s, i, line, TokenType::RIGHTPAREN)
    } else if c == '{' {
        simple_step(s, i, line, TokenType::LEFTBRACE)
    } else if c == '}' {
        simple_step(s, i, line, TokenType::RIGHTBRACE)
    } else if c == ',' {
        simple_step(s, i, line, TokenType::COMMA)
    } else if c == '.' {
        simple_step(s, i, line, TokenType::DOT)
    } else if c == '-' {
        simple_step(s, i, line, TokenType::MINUS)
    } else if c == '+' {
        simple_step(s, i, line, TokenType::PLUS)
    } else if c == ';' {
        simple_step(s, i, line, TokenType::SEMICOLON)
    } else if c == '*' {
        simple_step(s, i, line, TokenType::STAR)
    } else if c == '/' {
        if i + 1 < s.len() && s[i + 1] == '/' {
            // A line comment: consumed through the end of the line, emitting
            // nothing; the newline itself is left for the next step.
            SpecStep { next: step_to(s, i, comment_end(s, i + 2)), line, token: None, error: None }
        } else {
            simple_step(s, i, line, TokenType::SLASH)
        }
    } else if c == '!' {
        operator_step(s, i, line, TokenType::BANG, TokenType::BANGEQUAL)
    } else if c == '=' {
        operator_step(s, i, line, TokenType::EQUAL, TokenType::EQUALEQUAL)
    } else if c == '>' {
        operator_step(s, i, line, TokenType::GREATER, TokenType::GREATEREQUAL)
    } else if c == '<' {
        operator_step(s, i, line, TokenType::LESS, TokenType::LESSEQUAL)
    } else if c == '\n' {
        SpecStep { next: i + 1, line: line + 1, token: None, error: None }
    } else if c == ' ' || c == '\t' || c == '\r' {
        SpecStep { next: i + 1, line, token: None, error: None }
    } else if c == '"' {
        string_step(s, i, line)
    } else if is_digit(c) {
        number_step(s, i, line)
    } else if is_alpha(c) {
        ident_step(s, i, line)
    } else {
        SpecStep {
            next: i + 1,
            line,
            token: None,
            error: Some(SpecLexError::UnexpectedCharacter { line, ch: c }),
        }
    }
}

/// What one executable scanning step hands back.
struct ScanStep {
    next: usize,
    line: usize,
    token: Option<Token>,
    error: Option<LexError>,
}

pub open spec fn opt_token_view(o: Option<Token>) -> Option<SpecToken> {
    match o {
        Some(t) => Some(t@),
        None => None,
    }
}

pub open spec fn opt_error_view(o: Option<LexError>) -> Option<SpecLexError> {
    match o {
        Some(e) => Some(e@),
        None => None,
    }
}

spec fn step_matches(st: ScanStep, sp: SpecStep) -> bool {
    &&& st.next == sp.next
    &&& st.line == sp.line
    &&& opt_token_view(st.token) == sp.token
    &&& opt_error_view(st.error) == sp.error
}

fn simple_token(source: &str, i: usize, line: usize, ty: TokenType) -> (st: ScanStep)
    requires
        i < source@.len(),
        source@.len() < usize::MAX,
    ensures
        step_matches(st, simple_step(source@, i as int, line as int, ty)),
{
    let lex = source.substring_char(i, i + 1).to_owned();
    ScanStep {
        next: i + 1,
        line,
        token: Some(Token { token_type: ty, lexeme: lex, literal: Value::Nil, line }),
        error: None,
    }
}

fn operator_token(source: &str, i: usize, line: usize, one: TokenType, two: TokenType) -> (st:
    ScanStep)
    requires
        i < source@.len(),
        source@.len() < usize::MAX,
    ensures
        step_matches(st, operator_step(source@, i as int, line as int, one, two)),
{
    let len: usize = source.unicode_len();
    if i + 1 < len && source.get_char(i + 1) == '=' {
        let lex = source.substring_char(i, i + 2).to_owned();
        ScanStep {
            next: i + 2,
            line,
            token: Some(Token { token_type: two, lexeme: lex, literal: Value::Nil, line }),
            error: None,
        }
    } else {
        simple_token(source, i, line, one)
    }
}

/// Performs one scanning step: classifies the character at `i` exactly as
/// `spec_step` states it.
fn scan_step(source: &str, i: usize, line: usize) -> (st: ScanStep)
    requires
        i < source@.len(),
        source@.len() < usize::MAX,
        line <= i + 1,
    ensures
        step_matches(st, spec_step(source@, i as int, line as int)),
        i < st.next <= source@.len(),
        line <= st.line <= line + (st.next - i),
{
    let ghost s = source@;
    let len: usize = source.unicode_len();
    let c = source.get_char(i);
    if c == '(' {
        simple_token(source, i, line, TokenType::LEFTPAREN)
    } else if c == ')' {
        simple_token(source, i, line, TokenType::RIGHTPAREN)
    } else if c == '{' {
        simple_token(source, i, line, TokenType::LEFTBRACE)
    } else if c == '}' {
        simple_token(source, i, line, TokenType::RIGHTBRACE)
    } else if c == ',' {
        simple_token(source, i, line, TokenType::COMMA)
    } else if c == '.' {
        simple_token(source, i, line, TokenType::DOT)
    } else if c == '-' {
        simple_token(source, i, line, TokenType::MINUS)
    } else if c == '+' {
        simple_token(source, i, line, TokenType::PLUS)
    } else if c == ';' {
        simple_token(source, i, line, TokenType::SEMICOLON)
    } else if c == '*' {
        simple_token(source, i, line, TokenType::STAR)
    } else if c == '/' {
        if i + 1 < len && source.get_char(i + 1) == '/' {
            let j = find_comment_end(source, i + 2);
            ScanStep { next: j, line, token: None, error: None }
        } else {
            simple_token(source, i, line, TokenType::SLASH)
        }
    } else if c == '!' {
        operator_token(source, i, line, TokenType::BANG, TokenType::BANGEQUAL)
    } else if c == '=' {
        operator_token(source, i, line, TokenType::EQUAL, TokenType::EQUALEQUAL)
    } else if c == '>' {
        operator_token(source, i, line, TokenType::GREATER, TokenType::GREATEREQUAL)
    } else if c == '<' {
        operator_token(source, i, line, TokenType::LESS, TokenType::LESSEQUAL)
    } else if c == '\n' {
        ScanStep { next: i + 1, line: line + 1, token: None, error: None }
    } else if c == ' ' || c == '\t' || c == '\r' {
        ScanStep { next: i + 1, line, token: None, error: None }
    } else if c == '"' {
        let (q, l2) = scan_string_body(source, i + 1, line);
        if q >= len {
            ScanStep {
                next: q,
                line: l2,
                token: None,
                error: Some(LexError::UnterminatedString { line: l2 }),
            }
        } else {
            let lex = source.substring_char(i, q + 1).to_owned();
            let val = source.substring_char(i + 1, q).to_owned();
            ScanStep {
                next: q + 1,
                line: l2,
                token: Some(
                    Token {
                        token_type: TokenType::STRING,
                        lexeme: lex,
                        literal: Value::Text(val),
                        line,
                    },
                ),
                error: None,
            }
        }
    } else if digit_char(c) {
        let j = find_digits_end(source, i);
        proof {
            assert(digits_end(s, i as int) == digits_end(s, i + 1));
            lemma_digits_end_bounds(s, i as int);
            lemma_digits_end_bounds(s, i + 1);
        }
        let mut k = j;
        if j < len && source.get_char(j) == '.' && j + 1 < len && digit_char(
            source.get_char(j + 1),
        ) {
            k = find_digits_end(source, j + 1);
            proof {
                assert(digits_end(s, j + 1) == digits_end(s, j + 2));
                lemma_digits_end_bounds(s, j + 1);
                lemma_digits_end_bounds(s, j + 2);
            }
        }
        let lex = source.substring_char(i, k).to_owned();
        let lit = number_literal_text(source, i, j, k);
        ScanStep {
            next: k,
            line,
            token: Some(
                Token {
                    token_type: TokenType::NUMBER,
                    lexeme: lex,
                    literal: Value::Numeric(lit),
                    line,
                },
            ),
            error: None,
        }
    } else if alpha_char(c) {
        let j = find_ident_end(source, i);
        proof {
            assert(ident_end(s, i as int) == ident_end(s, i + 1));
            lemma_ident_end_bounds(s, i as int);
            lemma_ident_end_bounds(s, i + 1);
        }
        let slice = source.substring_char(i, j);
        let ty = lookup_keyword(slice);
        let lex = slice.to_owned();
        ScanStep {
            next: j,
            line,
            token: Some(Token { token_type: ty, lexeme: lex, literal: Value::Nil, line }),
            error: None,
        }
    } else {
        ScanStep {
            next: i + 1,
            line,
            token: None,
            error: Some(LexError::UnexpectedCharacter { line, ch: c }),
        }
    }
}

// ---------------------------------------------------------------------------
// The whole scan.
// ---------------------------------------------------------------------------

/// What a whole scan produces: the emitted tokens and recorded errors in
/// order, and the line counter when the scan stopped.
pub ghost struct ScanOut {
    pub tokens: Seq<SpecToken>,
    pub errors: Seq<SpecLexError>,
    pub line: int,
}

pub open spec fn opt_to_seq<T>(o: Option<T>) -> Seq<T> {
    match o {
        Some(x) => seq![x],
        None => Seq::empty(),
    }
}

/// Scanning the source from position `i` on line `line` to the end: one step
/// after another, collecting tokens and errors in order.
pub open spec fn spec_scan(s: Seq<char>, i: int, line: int) -> ScanOut
    decreases s.len() - i,
{
    if !(0 <= i < s.len()) {
        ScanOut { tokens: Seq::empty(), errors: Seq::empty(), line }
    } else {
        let st = spec_step(s, i, line);
        let rest = spec_scan(s, st.next, st.line);
        ScanOut {
            tokens: opt_to_seq(st.token) + rest.tokens,
            errors: opt_to_seq(st.error) + rest.errors,
            line: rest.line,
        }
    }
}

/// The end-of-file token: empty lexeme, no literal, the line where the scan
/// stopped.
pub open spec fn spec_eof(line: int) -> SpecToken {
    SpecToken { ty: TokenType::EOF, lexeme: Seq::empty(), literal: SpecValue::Nil, line }
}

/// The full result of scanning a source text: the scan from the start on
/// line 1, with the end-of-file token appended last.
pub open spec fn spec_scan_tokens(s: Seq<char>) -> ScanOut {
    let out = spec_scan(s, 0, 1);
    ScanOut { tokens: out.tokens.push(spec_eof(out.line)), errors: out.errors, line: out.line }
}

/// The views of a sequence of tokens.
pub open spec fn tokens_view(ts: Seq<Token>) -> Seq<SpecToken> {
    ts.map_values(|t: Token| t@)
}

/// The views of a sequence of lexical errors.
pub open spec fn errors_view(es: Seq<LexError>) -> Seq<SpecLexError> {
    es.map_values(|e: LexError| e@)
}

proof fn lemma_tokens_view_push(ts: Seq<Token>, t: Token)
    ensures
        tokens_view(ts.push(t)) == tokens_view(ts).push(t@),
{
    assert(tokens_view(ts.push(t)) =~= tokens_view(ts).push(t@));
}

proof fn lemma_errors_view_push(es: Seq<LexError>, e: LexError)
    ensures
        errors_view(es.push(e)) == errors_view(es).push(e@),
{
    assert(errors_view(es.push(e)) =~= errors_view(es).push(e@));
}

/// Scans a whole source text into its token sequence.
///
/// On success the tokens are exactly what `spec_scan_tokens` states, the
/// end-of-file marker included; when any lexical error was recorded during
/// the pass, the result is instead the full list of those errors, in source
/// order. The scan itself never stops early. The one demand on the caller
/// is a machine limit: the source's character count must stay below the
/// address-space bound, which any string held in memory satisfies.
pub fn scan_tokens(source: &str) -> (r: Result<Vec<Token>, Vec<LexError>>)
    requires
        source@.len() < usize::MAX,
    ensures
        ({
            let out = spec_scan_tokens(source@);
            match r {
                Ok(tokens) => out.errors.len() == 0 && tokens_view(tokens@) == out.tokens,
                Err(errors) => out.errors.len() > 0 && errors_view(errors@) == out.errors,
            }
        }),
{
    let ghost s = source@;
    let len: usize = source.unicode_len();
    let mut tokens: Vec<Token> = Vec::new();
    let mut errors: Vec<LexError> = Vec::new();
    let mut i: usize = 0;
    let mut line: usize = 1;
    while i < len
        invariant
            len == s.len() < usize::MAX,
            s == source@,
            i <= len,
            1 <= line,
            line <= i + 1,
            spec_scan(s, 0, 1).tokens == tokens_view(tokens@) + spec_scan(
                s,
                i as int,
                line as int,
            ).tokens,
            spec_scan(s, 0, 1).errors == errors_view(errors@) + spec_scan(
                s,
                i as int,
                line as int,
            ).errors,
            spec_scan(s, 0, 1).line == spec_scan(s, i as int, line as int).line,
        decreases len - i,
    {
        let ghost i0 = i as int;
        let ghost l0 = line as int;
        let ghost old_tokens = tokens@;
        let ghost old_errors = errors@;
        let st = scan_step(source, i, line);
        let ghost sp = spec_step(s, i0, l0);
        let ghost rest = spec_scan(s, sp.next, sp.line);
        proof {
            assert(spec_scan(s, i0, l0).tokens == opt_to_seq(sp.token) + rest.tokens);
            assert(spec_scan(s, i0, l0).errors == opt_to_seq(sp.error) + rest.errors);
        }
        match st.token {
            Some(t) => {
                tokens.push(t);
                proof {
                    lemma_tokens_view_push(old_tokens, t);
                    assert(opt_to_seq(sp.token) =~= seq![t@]);
                    assert(tokens_view(old_tokens) + (seq![t@] + rest.tokens) =~= tokens_view(
                        tokens@,
                    ) + rest.tokens);
                }
            },
            None => {
                proof {
                    assert(opt_to_seq(sp.token) + rest.tokens =~= rest.tokens);
                }
            },
        }
        match st.error {
            Some(e) => {
                errors.push(e);
                proof {
                    lemma_errors_view_push(old_errors, e);
                    assert(opt_to_seq(sp.error) =~= seq![e@]);
                    assert(errors_view(old_errors) + (seq![e@] + rest.errors) =~= errors_view(
                        errors@,
                    ) + rest.errors);
                }
            },
            None => {
                proof {
                    assert(opt_to_seq(sp.error) + rest.errors =~= rest.errors);
                }
            },
        }
        i = st.next;
        line = st.line;
    }
    proof {
        assert(spec_scan(s, i as int, line as int).tokens =~= Seq::<SpecToken>::empty());
        assert(spec_scan(s, i as int, line as int).errors =~= Seq::<SpecLexError>::empty());
        assert(spec_scan(s, 0, 1).tokens =~= tokens_view(tokens@));
        assert(spec_scan(s, 0, 1).errors =~= errors_view(errors@));
    }
    let eof = Token {
        token_type: TokenType::EOF,
        lexeme: String::new(),
        literal: Value::Nil,
        line,
    };
    proof {
        assert(eof@ == spec_eof(line as int));
        lemma_tokens_view_push(tokens@, eof);
    }
    tokens.push(eof);
    if errors.len() == 0 {
        Ok(tokens)
    } else {
        Err(errors)
    }
}

/// Every scan ends with the end-of-file marker: whatever the source text,
/// the stated token sequence is non-empty and its last token has kind `EOF`
/// and an empty lexeme.
pub proof fn lemma_scan_ends_with_eof(s: Seq<char>)
    ensures
        spec_scan_tokens(s).tokens.len() >= 1,
        spec_scan_tokens(s).tokens.last().ty == TokenType::EOF,
        spec_scan_tokens(s).tokens.last().lexeme == Seq::<char>::empty(),
{
}

/// What a successful scan hands back is what the parser asks for: the token
/// sequence is never empty, and its last token is the end-of-file marker,
/// with an empty lexeme.
pub proof fn lemma_scan_result_feeds_parse(s: Seq<char>, ts: Seq<Token>)
    requires
        tokens_view(ts) == spec_scan_tokens(s).tokens,
    ensures
        ts.len() >= 1,
        ts.last().token_type == TokenType::EOF,
        ts.last().lexeme@ == Seq::<char>::empty(),
{
    lemma_scan_ends_with_eof(s);
    assert(ts.last()@ == tokens_view(ts).last());
}

} // verus!
