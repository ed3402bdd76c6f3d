//! The keyword table: the fixed mapping from reserved identifier spellings to
//! their token kinds. An identifier outside the table keeps kind
//! `IDENTIFIER`.

use vstd::prelude::*;
use crate::tokens::TokenType;

verus! {

/// The kind the keyword table assigns to an identifier spelling: one of the
/// sixteen reserved words maps to its own kind, anything else stays an
/// identifier.
pub open spec fn keyword_kind(s: Seq<char>) -> TokenType {
    if s == "and"@ {
        TokenType::AND
    } else if s == "class"@ {
        TokenType::CLASS
    } else if s == "else"@ {
        TokenType::ELSE
    } else if s == "false"@ {
        TokenType::FALSE
    } else if s == "for"@ {
        TokenType::FOR
    } else if s == "fun"@ {
        TokenType::FUN
    } else if s == "if"@ {
        TokenType::IF
    } else if s == "nil"@ {
        TokenType::NIL
    } else if s == "or"@ {
        TokenType::OR
    } else if s == "print"@ {
        TokenType::PRINT
    } else if s == "return"@ {
        TokenType::RETURN
    } else if s == "super"@ {
        TokenType::SUPER
    } else if s == "this"@ {
        TokenType::THIS
    } else if s == "true"@ {
        TokenType::TRUE
    } else if s == "var"@ {
        TokenType::VAR
    } else if s == "while"@ {
        TokenType::WHILE
    } else {
        TokenType::IDENTIFIER
    }
}

/// Character-by-character string equality, proved equivalent to equality of
/// the two views.
fn str_eq(a: &str, b: &str) -> (r: bool)
    ensures
        r == (a@ == b@),
{
    let alen: usize = a.unicode_len();
    let blen: usize = b.unicode_len();
    if alen != blen {
        return false;
    }
    let mut i: usize = 0;
    while i < alen
        invariant
            alen == a@.len(),
            blen == b@.len(),
            alen == blen,
            i <= alen,
            forall|k: int| 0 <= k < i ==> a@[k] == b@[k],
        decreases alen - i,
    {
        if a.get_char(i) != b.get_char(i) {
            return false;
        }
        i += 1;
    }
    proof {
        assert(a@ =~= b@);
    }
    true
}

/// Looks an identifier spelling up in the keyword table.
pub fn lookup_keyword(text: &str) -> (t: TokenType)
    ensures
        t == keyword_kind(text@),
{
    if str_eq(text, "and") {
        TokenType::AND
    } else if str_eq(text, "class") {
        TokenType::CLASS
    } else if str_eq(text, "else") {
        TokenType::ELSE
    } else if str_eq(text, "false") {
        TokenType::FALSE
    } else if str_eq(text, "for") {
        TokenType::FOR
    } else if str_eq(text, "fun") {
        TokenType::FUN
    } else if str_eq(text, "if") {
        TokenType::IF
    } else if str_eq(text, "nil") {
        TokenType::NIL
    } else if str_eq(text, "or") {
        TokenType::OR
    } else if str_eq(text, "print") {
        TokenType::PRINT
    } else if str_eq(text, "return") {
        TokenType::RETURN
    } else if str_eq(text, "super") {
        TokenType::SUPER
    } else if str_eq(text, "this") {
        TokenType::THIS
    } else if str_eq(text, "true") {
        TokenType::TRUE
    } else if str_eq(text, "var") {
        TokenType::VAR
    } else if str_eq(text, "while") {
        TokenType::WHILE
    } else {
        TokenType::IDENTIFIER
    }
}

} // verus!
