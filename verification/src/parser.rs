//! The parser: precedence-climbing recursive descent with one-token
//! lookahead, turning a token sequence into a single expression tree.
//!
//! The grammar, lowest to highest precedence, each binary level folding
//! left-associatively:
//!
//! ```text
//! expression     := equality
//! equality       := comparison ( ( "!=" | "==" ) comparison )*
//! comparison     := addition ( ( ">" | ">=" | "<" | "<=" ) addition )*
//! addition       := multiplication ( ( "-" | "+" ) multiplication )*
//! multiplication := unary ( ( "/" | "*" ) unary )*
//! unary          := ( "!" | "-" ) unary | primary
//! primary        := NUMBER | STRING | "true" | "false" | "nil" | "(" expression ")"
//! ```
//!
//! An unmatched, non-parenthesized token in `primary` yields a Nil literal
//! without consuming it, rather than failing; a missing closing parenthesis
//! is the one fatal parse error.
//!
//! The behaviour is stated by the `sp_*` specification functions, one per
//! grammar rule, each returning the parsed expression and the position of
//! the first unread token; the executable parser is proved to match them.

use vstd::prelude::*;
use crate::expression::Expr;
use crate::expression::SpecExpr;
use crate::scanner::tokens_view;
use crate::tokens::SpecToken;
use crate::tokens::SpecValue;
use crate::tokens::Token;
use crate::tokens::TokenType;
use crate::tokens::Value;

verus! {

/// The fatal parse error: a required closing parenthesis was absent,
/// reported at the line of the token found in its place.
#[derive(Debug, PartialEq)]
pub enum ParseError {
    UnclosedGroup { line: usize },
}

/// The mathematical model of a `ParseError`.
pub ghost enum SpecParseError {
    UnclosedGroup { line: int },
}

impl View for ParseError {
    type V = SpecParseError;

    open spec fn view(&self) -> SpecParseError {
        match self {
            ParseError::UnclosedGroup { line } => SpecParseError::UnclosedGroup {
                line: *line as int,
            },
        }
    }
}

/// Clamps a sub-parse's resulting position into `[lo, len]`; on the
/// positions the parser actually reaches it is the identity.
pub open spec fn pos_from(len: int, lo: int, j: int) -> int {
    if j < lo {
        lo
    } else if j > len {
        len
    } else {
        j
    }
}

/// `expression := equality`.
pub open spec fn sp_expression(t: Seq<SpecToken>, i: int) -> Result<
    (SpecExpr, int),
    SpecParseError,
>
    decreases t.len() - i, 7int,
{
    sp_equality(t, i)
}

/// `equality := comparison ( ( "!=" | "==" ) comparison )*`.
pub open spec fn sp_equality(t: Seq<SpecToken>, i: int) -> Result<
    (SpecExpr, int),
    SpecParseError,
>
    decreases t.len() - i, 6int,
{
    if 0 <= i <= t.len() {
        match sp_comparison(t, i) {
            Ok((expr, j)) => sp_equality_more(t, pos_from(t.len() as int, i, j), expr),
            Err(e) => Err(e),
        }
    } else {
        Ok((SpecExpr::Literal(SpecValue::Nil), i))
    }
}

/// The left-deepening fold of `equality`: while the current token is one of
/// the level's operators, consume it, parse one more operand, and fold.
pub open spec fn sp_equality_more(t: Seq<SpecToken>, i: int, left: SpecExpr) -> Result<
    (SpecExpr, int),
    SpecParseError,
>
    decreases t.len() - i, 0int,
{
    if 0 <= i < t.len() && (t[i].ty == TokenType::BANGEQUAL || t[i].ty == TokenType::EQUALEQUAL) {
        match sp_comparison(t, i + 1) {
            Ok((right, j)) => sp_equality_more(
                t,
                pos_from(t.len() as int, i + 1, j),
                SpecExpr::Binary(Box::new(left), t[i], Box::new(right)),
            ),
            Err(e) => Err(e),
        }
    } else {
        Ok((left, i))
    }
}

/// `comparison := addition ( ( ">" | ">=" | "<" | "<=" ) addition )*`.
pub open spec fn sp_comparison(t: Seq<SpecToken>, i: int) -> Result<
    (SpecExpr, int),
    SpecParseError,
>
    decreases t.len() - i, 5int,
{
    if 0 <= i <= t.len() {
        match sp_addition(t, i) {
            Ok((expr, j)) => sp_comparison_more(t, pos_from(t.len() as int, i, j), expr),
            Err(e) => Err(e),
        }
    } else {
        Ok((SpecExpr::Literal(SpecValue::Nil), i))
    }
}

/// The left-deepening fold of `comparison`.
pub open spec fn sp_comparison_more(t: Seq<SpecToken>, i: int, left: SpecExpr) -> Result<
    (SpecExpr, int),
    SpecParseError,
>
    decreases t.len() - i, 0int,
{
    if 0 <= i < t.len() && (t[i].ty == TokenType::GREATER || t[i].ty == TokenType::GREATEREQUAL
        || t[i].ty == TokenType::LESS || t[i].ty == TokenType::LESSEQUAL) {
        match sp_addition(t, i + 1) {
            Ok((right, j)) => sp_comparison_more(
                t,
                pos_from(t.len() as int, i + 1, j),
                SpecExpr::Binary(Box::new(left), t[i], Box::new(right)),
            ),
            Err(e) => Err(e),
        }
    } else {
        Ok((left, i))
    }
}

/// `addition := multiplication ( ( "-" | "+" ) multiplication )*`.
pub open spec fn sp_addition(t: Seq<SpecToken>, i: int) -> Result<
    (SpecExpr, int),
    SpecParseError,
>
    decreases t.len() - i, 4int,
{
    if 0 <= i <= t.len() {
        match sp_multiplication(t, i) {
            Ok((expr, j)) => sp_addition_more(t, pos_from(t.len() as int, i, j), expr),
            Err(e) => Err(e),
        }
    } else {
        Ok((SpecExpr::Literal(SpecValue::Nil), i))
    }
}

/// The left-deepening fold of `addition`.
pub open spec fn sp_addition_more(t: Seq<SpecToken>, i: int, left: SpecExpr) -> Result<
    (SpecExpr, int),
    SpecParseError,
>
    decreases t.len() - i, 0int,
{
    if 0 <= i < t.len() && (t[i].ty == TokenType::MINUS || t[i].ty == TokenType::PLUS) {
        match sp_multiplication(t, i + 1) {
            Ok((right, j)) => sp_addition_more(
                t,
                pos_from(t.len() as int, i + 1, j),
                SpecExpr::Binary(Box::new(left), t[i], Box::new(right)),
            ),
            Err(e) => Err(e),
        }
    } else {
        Ok((left, i))
    }
}

/// `multiplication := unary ( ( "/" | "*" ) unary )*`.
pub open spec fn sp_multiplication(t: Seq<SpecToken>, i: int) -> Result<
    (SpecExpr, int),
    SpecParseError,
>
    decreases t.len() - i, 3int,
{
    if 0 <= i <= t.len() {
        match sp_unary(t, i) {
            Ok((expr, j)) => sp_multiplication_more(t, pos_from(t.len() as int, i, j), expr),
            Err(e) => Err(e),
        }
    } else {
        Ok((SpecExpr::Literal(SpecValue::Nil), i))
    }
}

/// The left-deepening fold of `multiplication`.
pub open spec fn sp_multiplication_more(t: Seq<SpecToken>, i: int, left: SpecExpr) -> Result<
    (SpecExpr, int),
    SpecParseError,
>
    decreases t.len() - i, 0int,
{
    if 0 <= i < t.len() && (t[i].ty == TokenType::SLASH || t[i].ty == TokenType::STAR) {
        match sp_unary(t, i + 1) {
            Ok((right, j)) => sp_multiplication_more(
                t,
                pos_from(t.len() as int, i + 1, j),
                SpecExpr::Binary(Box::new(left), t[i], Box::new(right)),
            ),
            Err(e) => Err(e),
        }
    } else {
        Ok((left, i))
    }
}

/// `unary := ( "!" | "-" ) unary | primary`: prefix operators nest
/// right-recursively.
pub open spec fn sp_unary(t: Seq<SpecToken>, i: int) -> Result<(SpecExpr, int), SpecParseError>
    decreases t.len() - i, 2int,
{
    if 0 <= i < t.len() && (t[i].ty == TokenType::BANG || t[i].ty == TokenType::MINUS) {
        match sp_unary(t, i + 1) {
            Ok((operand, j)) => Ok(
                (
                    SpecExpr::Unary(t[i], Box::new(operand)),
                    pos_from(t.len() as int, i + 1, j),
                ),
            ),
            Err(e) => Err(e),
        }
    } else {
        sp_primary(t, i)
    }
}

/// `primary`: a literal, a keyword literal, or a parenthesized expression.
/// An unmatched token yields a Nil literal without being consumed; a missing
/// closing parenthesis is the fatal parse error.
pub open spec fn sp_primary(t: Seq<SpecToken>, i: int) -> Result<(SpecExpr, int), SpecParseError>
    decreases t.len() - i, 1int,
{
    if 0 <= i < t.len() {
        let tok = t[i];
        if tok.ty == TokenType::FALSE {
            Ok((SpecExpr::Literal(SpecValue::Boolean(false)), i + 1))
        } else if tok.ty == TokenType::TRUE {
            Ok((SpecExpr::Literal(SpecValue::Boolean(true)), i + 1))
        } else if tok.ty == TokenType::NIL {
            Ok((SpecExpr::Literal(SpecValue::Nil), i + 1))
        } else if tok.ty == TokenType::NUMBER || tok.ty == TokenType::STRING {
            Ok((SpecExpr::Literal(tok.literal), i + 1))
        } else if tok.ty == TokenType::LEFTPAREN {
            match sp_expression(t, i + 1) {
                Ok((inner, j)) => {
                    let p = pos_from(t.len() as int, i + 1, j);
                    if p < t.len() && t[p].ty == TokenType::RIGHTPAREN {
                        Ok((SpecExpr::Grouping(Box::new(inner)), p + 1))
                    } else {
                        Err(
                            SpecParseError::UnclosedGroup {
                                line: if p < t.len() {
                                    t[p].line
                                } else {
                                    1
                                },
                            },
                        )
                    }
                },
                Err(e) => Err(e),
            }
        } else {
            Ok((SpecExpr::Literal(SpecValue::Nil), i))
        }
    } else {
        Ok((SpecExpr::Literal(SpecValue::Nil), i))
    }
}

/// Parsing a whole token sequence: one expression parsed from the front;
/// whatever follows it before the end-of-file marker is left unread.
pub open spec fn sp_parse(t: Seq<SpecToken>) -> Result<SpecExpr, SpecParseError> {
    match sp_expression(t, 0) {
        Ok((expr, j)) => Ok(expr),
        Err(e) => Err(e),
    }
}

// ---------------------------------------------------------------------------
// The executable parser.
// ---------------------------------------------------------------------------

/// An executable parse result matches a stated one when it carries the same
/// expression and leaves the cursor where the statement says, or fails with
/// the stated error.
spec fn res_matches(
    r: Result<Expr, ParseError>,
    cur: int,
    sp: Result<(SpecExpr, int), SpecParseError>,
) -> bool {
    match r {
        Ok(e) => sp matches Ok(p) && p.0 == e@ && p.1 == cur,
        Err(pe) => sp matches Err(se) && se == pe@,
    }
}

/// The parser's internal state: the token sequence, read only, and the
/// cursor of the next unread token.
struct Parser {
    tokens: Vec<Token>,
    current: usize,
}

impl Parser {
    /// The views of the tokens being parsed.
    spec fn toks(&self) -> Seq<SpecToken> {
        tokens_view(self.tokens@)
    }

    /// Well-formed state: a non-empty token sequence ending in the
    /// end-of-file marker, with the cursor inside it.
    spec fn wf(&self) -> bool {
        &&& self.tokens@.len() >= 1
        &&& self.toks().last().ty == TokenType::EOF
        &&& self.current < self.tokens@.len()
    }

    fn new(tokens: Vec<Token>) -> (p: Parser)
        requires
            tokens@.len() >= 1,
            tokens@.last().token_type == TokenType::EOF,
        ensures
            p.wf(),
            p.tokens == tokens,
            p.current == 0,
    {
        let p = Parser { tokens, current: 0 };
        proof {
            assert(p.toks().last() == p.tokens@.last()@);
        }
        p
    }

    fn peek(&self) -> (t: Token)
        requires
            self.wf(),
        ensures
            t@ == self.toks()[self.current as int],
    {
        let t = self.tokens[self.current].clone();
        proof {
            assert(self.toks()[self.current as int] == self.tokens@[self.current as int]@);
        }
        t
    }

    fn previous(&self) -> (t: Token)
        requires
            self.wf(),
            self.current >= 1,
        ensures
            t@ == self.toks()[self.current - 1],
    {
        let t = self.tokens[self.current - 1].clone();
        proof {
            assert(self.toks()[self.current - 1] == self.tokens@[self.current - 1]@);
        }
        t
    }

    fn is_at_end(&self) -> (r: bool)
        requires
            self.wf(),
        ensures
            r == (self.toks()[self.current as int].ty == TokenType::EOF),
    {
        let t = self.peek();
        t.token_type == TokenType::EOF
    }

    /// True exactly when the current token has the wanted kind and the end
    /// of the sequence has not been reached.
    fn check(&self, ty: TokenType) -> (r: bool)
        requires
            self.wf(),
        ensures
            r == (self.toks()[self.current as int].ty != TokenType::EOF
                && self.toks()[self.current as int].ty == ty),
    {
        if self.is_at_end() {
            false
        } else {
            let t = self.peek();
            t.token_type == ty
        }
    }

    /// Consumes and returns the current token; never moves past the
    /// end-of-file marker.
    fn advance(&mut self) -> (t: Token)
        requires
            old(self).wf(),
            old(self).toks()[old(self).current as int].ty != TokenType::EOF,
        ensures
            final(self).wf(),
            final(self).tokens == old(self).tokens,
            final(self).current == old(self).current + 1,
            t@ == old(self).toks()[old(self).current as int],
    {
        proof {
            assert(old(self).toks().len() == old(self).tokens@.len());
            assert(old(self).toks().last() == old(self).toks()[old(self).tokens@.len() - 1]);
            assert(old(self).current < old(self).tokens@.len() - 1);
        }
        // the sequence length fits in usize, so the cursor can step
        let _n = self.tokens.len();
        if !self.is_at_end() {
            self.current = self.current + 1;
        }
        self.previous()
    }

    /// Consumes the current token when it has the required kind; a mismatch
    /// is the fatal unclosed-group error, reported at the current token's
    /// line.
    fn consume_token(&mut self, ty: TokenType) -> (r: Result<Token, ParseError>)
        requires
            old(self).wf(),
            ty != TokenType::EOF,
        ensures
            final(self).wf(),
            final(self).tokens == old(self).tokens,
            ({
                let ct = old(self).toks()[old(self).current as int];
                if ct.ty == ty {
                    r matches Ok(t) && t@ == ct && final(self).current == old(self).current + 1
                } else {
                    r matches Err(pe) && pe@ == SpecParseError::UnclosedGroup { line: ct.line }
                        && final(self).current == old(self).current
                }
            }),
    {
        if self.check(ty) {
            Ok(self.advance())
        } else {
            let t = self.peek();
            Err(ParseError::UnclosedGroup { line: t.line })
        }
    }

    fn parse(&mut self) -> (r: Result<Expr, ParseError>)
        requires
            old(self).wf(),
        ensures
            final(self).wf(),
            res_matches(
                r,
                final(self).current as int,
                sp_expression(old(self).toks(), old(self).current as int),
            ),
        decreases old(self).tokens@.len() - old(self).current, 8int,
    {
        self.expression()
    }

    fn expression(&mut self) -> (r: Result<Expr, ParseError>)
        requires
            old(self).wf(),
        ensures
            final(self).wf(),
            final(self).tokens == old(self).tokens,
            old(self).current <= final(self).current,
            res_matches(
                r,
                final(self).current as int,
                sp_expression(old(self).toks(), old(self).current as int),
            ),
        decreases old(self).tokens@.len() - old(self).current, 7int,
    {
        self.equality()
    }

    #[verifier::loop_isolation(false)]
    fn equality(&mut self) -> (r: Result<Expr, ParseError>)
        requires
            old(self).wf(),
        ensures
            final(self).wf(),
            final(self).tokens == old(self).tokens,
            old(self).current <= final(self).current,
            res_matches(
                r,
                final(self).current as int,
                sp_equality(old(self).toks(), old(self).current as int),
            ),
        decreases old(self).tokens@.len() - old(self).current, 6int,
    {
        let ghost toks0 = self.tokens;
        let ghost t = self.toks();
        let ghost c0 = self.current as int;
        let mut expr = match self.comparison() {
            Ok(e) => e,
            Err(pe) => {
                return Err(pe);
            },
        };
        loop
            invariant
                self.wf(),
                self.tokens == toks0,
                t == self.toks(),
                c0 <= self.current,
                sp_equality(t, c0) == sp_equality_more(t, self.current as int, expr@),
            decreases self.tokens@.len() - self.current,
        {
            if !(self.check(TokenType::BANGEQUAL) || self.check(TokenType::EQUALEQUAL)) {
                return Ok(expr);
            }
            let operator = self.advance();
            let right = match self.comparison() {
                Ok(e) => e,
                Err(pe) => {
                    return Err(pe);
                },
            };
            expr = Expr::Binary(Box::new(expr), operator, Box::new(right));
        }
    }

    #[verifier::loop_isolation(false)]
    fn comparison(&mut self) -> (r: Result<Expr, ParseError>)
        requires
            old(self).wf(),
        ensures
            final(self).wf(),
            final(self).tokens == old(self).tokens,
            old(self).current <= final(self).current,
            res_matches(
                r,
                final(self).current as int,
                sp_comparison(old(self).toks(), old(self).current as int),
            ),
        decreases old(self).tokens@.len() - old(self).current, 5int,
    {
        let ghost toks0 = self.tokens;
        let ghost t = self.toks();
        let ghost c0 = self.current as int;
        let mut expr = match self.addition() {
            Ok(e) => e,
            Err(pe) => {
                return Err(pe);
            },
        };
        loop
            invariant
                self.wf(),
                self.tokens == toks0,
                t == self.toks(),
                c0 <= self.current,
                sp_comparison(t, c0) == sp_comparison_more(t, self.current as int, expr@),
            decreases self.tokens@.len() - self.current,
        {
            if !(self.check(TokenType::GREATER) || self.check(TokenType::GREATEREQUAL)
                || self.check(TokenType::LESS) || self.check(TokenType::LESSEQUAL)) {
                return Ok(expr);
            }
            let operator = self.advance();
            let right = match self.addition() {
                Ok(e) => e,
                Err(pe) => {
                    return Err(pe);
                },
            };
            expr = Expr::Binary(Box::new(expr), operator, Box::new(right));
        }
    }

    #[verifier::loop_isolation(false)]
    fn addition(&mut self) -> (r: Result<Expr, ParseError>)
        requires
            old(self).wf(),
        ensures
            final(self).wf(),
            final(self).tokens == old(self).tokens,
            old(self).current <= final(self).current,
            res_matches(
                r,
                final(self).current as int,
                sp_addition(old(self).toks(), old(self).current as int),
            ),
        decreases old(self).tokens@.len() - old(self).current, 4int,
    {
        let ghost toks0 = self.tokens;
        let ghost t = self.toks();
        let ghost c0 = self.current as int;
        let mut expr = match self.multiplication() {
            Ok(e) => e,
            Err(pe) => {
                return Err(pe);
            },
        };
        loop
            invariant
                self.wf(),
                self.tokens == toks0,
                t == self.toks(),
                c0 <= self.current,
                sp_addition(t, c0) == sp_addition_more(t, self.current as int, expr@),
            decreases self.tokens@.len() - self.current,
        {
            if !(self.check(TokenType::MINUS) || self.check(TokenType::PLUS)) {
                return Ok(expr);
            }
            let operator = self.advance();
            let right = match self.multiplication() {
                Ok(e) => e,
                Err(pe) => {
                    return Err(pe);
                },
            };
            expr = Expr::Binary(Box::new(expr), operator, Box::new(right));
        }
    }

    #[verifier::loop_isolation(false)]
    fn multiplication(&mut self) -> (r: Result<Expr, ParseError>)
        requires
            old(self).wf(),
        ensures
            final(self).wf(),
            final(self).tokens == old(self).tokens,
            old(self).current <= final(self).current,
            res_matches(
                r,
                final(self).current as int,
                sp_multiplication(old(self).toks(), old(self).current as int),
            ),
        decreases old(self).tokens@.len() - old(self).current, 3int,
    {
        let ghost toks0 = self.tokens;
        let ghost t = self.toks();
        let ghost c0 = self.current as int;
        let mut expr = match self.unary() {
            Ok(e) => e,
            Err(pe) => {
                return Err(pe);
            },
        };
        loop
            invariant
                self.wf(),
                self.tokens == toks0,
                t == self.toks(),
                c0 <= self.current,
                sp_multiplication(t, c0) == sp_multiplication_more(t, self.current as int, expr@),
            decreases self.tokens@.len() - self.current,
        {
            if !(self.check(TokenType::SLASH) || self.check(TokenType::STAR)) {
                return Ok(expr);
            }
            let operator = self.advance();
            let right = match self.unary() {
                Ok(e) => e,
                Err(pe) => {
                    return Err(pe);
                },
            };
            expr = Expr::Binary(Box::new(expr), operator, Box::new(right));
        }
    }

    fn unary(&mut self) -> (r: Result<Expr, ParseError>)
        requires
            old(self).wf(),
        ensures
            final(self).wf(),
            final(self).tokens == old(self).tokens,
            old(self).current <= final(self).current,
            res_matches(
                r,
                final(self).current as int,
                sp_unary(old(self).toks(), old(self).current as int),
            ),
        decreases old(self).tokens@.len() - old(self).current, 2int,
    {
        if self.check(TokenType::BANG) || self.check(TokenType::MINUS) {
            let operator = self.advance();
            match self.unary() {
                Ok(operand) => Ok(Expr::Unary(operator, Box::new(operand))),
                Err(pe) => Err(pe),
            }
        } else {
            self.primary()
        }
    }

    fn primary(&mut self) -> (r: Result<Expr, ParseError>)
        requires
            old(self).wf(),
        ensures
            final(self).wf(),
            final(self).tokens == old(self).tokens,
            old(self).current <= final(self).current,
            res_matches(
                r,
                final(self).current as int,
                sp_primary(old(self).toks(), old(self).current as int),
            ),
        decreases old(self).tokens@.len() - old(self).current, 1int,
    {
        if self.check(TokenType::FALSE) {
            self.advance();
            return Ok(Expr::Literal(Value::Boolean(false)));
        }
        if self.check(TokenType::TRUE) {
            self.advance();
            return Ok(Expr::Literal(Value::Boolean(true)));
        }
        if self.check(TokenType::NIL) {
            self.advance();
            return Ok(Expr::Literal(Value::Nil));
        }
        if self.check(TokenType::NUMBER) || self.check(TokenType::STRING) {
            let tok = self.advance();
            return Ok(Expr::Literal(tok.literal));
        }
        if self.check(TokenType::LEFTPAREN) {
            self.advance();
            let inner = match self.expression() {
                Ok(e) => e,
                Err(pe) => {
                    return Err(pe);
                },
            };
            match self.consume_token(TokenType::RIGHTPAREN) {
                Ok(_) => Ok(Expr::Grouping(Box::new(inner))),
                Err(pe) => Err(pe),
            }
        } else {
            Ok(Expr::Literal(Value::Nil))
        }
    }
}

/// Parses a token sequence — non-empty and terminated by the end-of-file
/// marker, as the scanner always produces it — into one expression tree:
/// exactly the tree that `sp_parse` states, or the unclosed-group error it
/// states.
pub fn parse(tokens: Vec<Token>) -> (r: Result<Expr, ParseError>)
    requires
        tokens@.len() >= 1,
        tokens@.last().token_type == TokenType::EOF,
    ensures
        match r {
            Ok(e) => sp_parse(tokens_view(tokens@)) matches Ok(se) && se == e@,
            Err(pe) => sp_parse(tokens_view(tokens@)) matches Err(se) && se == pe@,
        },
{
    let mut parser = Parser::new(tokens);
    parser.parse()
}

} // verus!
