//! The expression tree and its printer: the AST node type and a read-only
//! tree walk that renders any expression in a canonical parenthesized form.

use vstd::prelude::*;
use crate::tokens::SpecToken;
use crate::tokens::SpecValue;
use crate::tokens::Token;
use crate::tokens::Value;

verus! {

/// One expression: a strict ownership tree built in a single parse call and
/// immutable thereafter.
#[derive(Debug, PartialOrd, PartialEq)]
pub enum Expr {
    /// A binary operation: left operand, operator token, right operand.
    Binary(Box<Expr>, Token, Box<Expr>),
    /// A parenthesized sub-expression.
    Grouping(Box<Expr>),
    /// A leaf literal.
    Literal(Value),
    /// A prefix operation: operator token and operand.
    Unary(Token, Box<Expr>),
}

/// The mathematical model of an expression tree.
pub ghost enum SpecExpr {
    Binary(Box<SpecExpr>, SpecToken, Box<SpecExpr>),
    Grouping(Box<SpecExpr>),
    Literal(SpecValue),
    Unary(SpecToken, Box<SpecExpr>),
}

/// The model of an expression tree: the same shape over token and value
/// views.
pub open spec fn expr_view(e: Expr) -> SpecExpr
    decreases e,
{
    match e {
        Expr::Binary(l, op, r) => SpecExpr::Binary(
            Box::new(expr_view(*l)),
            op@,
            Box::new(expr_view(*r)),
        ),
        Expr::Grouping(inner) => SpecExpr::Grouping(Box::new(expr_view(*inner))),
        Expr::Literal(v) => SpecExpr::Literal(v@),
        Expr::Unary(op, r) => SpecExpr::Unary(op@, Box::new(expr_view(*r))),
    }
}

impl View for Expr {
    type V = SpecExpr;

    open spec fn view(&self) -> SpecExpr {
        expr_view(*self)
    }
}

// ---------------------------------------------------------------------------
// The canonical text of a rendered tree.
// ---------------------------------------------------------------------------

/// The canonical text of a literal value: text verbatim, a number as its
/// canonical decimal text, `true`/`false`, and `Nil` for the absent value.
pub open spec fn spec_value_text(v: SpecValue) -> Seq<char> {
    match v {
        SpecValue::Text(t) => t,
        SpecValue::Numeric(d) => d,
        SpecValue::Boolean(b) => if b {
            "true"@
        } else {
            "false"@
        },
        SpecValue::Nil => "Nil"@,
    }
}

/// Already-rendered parts joined by single spaces.
pub open spec fn spec_join_spaced(parts: Seq<Seq<char>>) -> Seq<char>
    decreases parts.len(),
{
    if parts.len() == 0 {
        Seq::empty()
    } else if parts.len() == 1 {
        parts[0]
    } else {
        spec_join_spaced(parts.drop_last()) + seq![' '] + parts.last()
    }
}

/// A parenthesized group: `(`, the group's name, a space, the parts joined
/// by spaces, `)`.
pub open spec fn spec_parenthesize(name: Seq<char>, parts: Seq<Seq<char>>) -> Seq<char> {
    seq!['('] + name + seq![' '] + spec_join_spaced(parts) + seq![')']
}

/// The canonical rendering of an expression tree: binary and unary nodes as
/// `(<operator-lexeme> <child> ...)`, a grouping as `(group <child>)`, a
/// literal as its canonical text.
pub open spec fn spec_render(e: SpecExpr) -> Seq<char>
    decreases e,
{
    match e {
        SpecExpr::Binary(l, op, r) => spec_parenthesize(
            op.lexeme,
            seq![spec_render(*l), spec_render(*r)],
        ),
        SpecExpr::Grouping(inner) => spec_parenthesize("group"@, seq![spec_render(*inner)]),
        SpecExpr::Literal(v) => spec_value_text(v),
        SpecExpr::Unary(op, r) => spec_parenthesize(op.lexeme, seq![spec_render(*r)]),
    }
}

impl Value {
    /// The canonical text of this literal value.
    pub fn render(&self) -> (r: String)
        ensures
            r@ == spec_value_text(self@),
    {
        match self {
            Value::Text(t) => t.clone(),
            Value::Numeric(d) => d.clone(),
            Value::Boolean(b) => if *b {
                "true".to_owned()
            } else {
                "false".to_owned()
            },
            Value::Nil => "Nil".to_owned(),
        }
    }
}

// ---------------------------------------------------------------------------
// The printer.
// ---------------------------------------------------------------------------

/// A traversal over expression trees.
pub trait Visitor<R> {
    fn visit_expr(&mut self, expr: &Expr) -> R;
}

/// The tree-walking renderer: a visitor producing the canonical text.
pub struct AstPrinter {}

impl Visitor<String> for AstPrinter {
    fn visit_expr(&mut self, expr: &Expr) -> (r: String)
        ensures
            r@ == spec_render(expr@),
    {
        self.render(expr)
    }
}

impl AstPrinter {
    /// Renders an expression tree in its canonical parenthesized form. The
    /// tree is only read, and the text is a function of the tree alone, so
    /// rendering the same tree again gives the same text.
    pub fn render(&mut self, expr: &Expr) -> (r: String)
        ensures
            r@ == spec_render(expr@),
        decreases *expr,
    {
        match expr {
            Expr::Binary(left, operator, right) => {
                let ls = self.render(&**left);
                let rs = self.render(&**right);
                let mut parts: Vec<String> = Vec::new();
                parts.push(ls);
                parts.push(rs);
                let r = self.parenthesize(operator.lexeme.as_str(), &parts);
                proof {
                    assert(parts@.map_values(|p: String| p@) =~= seq![
                        spec_render((**left)@),
                        spec_render((**right)@),
                    ]);
                }
                r
            },
            Expr::Grouping(inner) => {
                let s = self.render(&**inner);
                let mut parts: Vec<String> = Vec::new();
                parts.push(s);
                let r = self.parenthesize("group", &parts);
                proof {
                    assert(parts@.map_values(|p: String| p@) =~= seq![spec_render((**inner)@)]);
                }
                r
            },
            Expr::Literal(value) => value.render(),
            Expr::Unary(operator, right) => {
                let s = self.render(&**right);
                let mut parts: Vec<String> = Vec::new();
                parts.push(s);
                let r = self.parenthesize(operator.lexeme.as_str(), &parts);
                proof {
                    assert(parts@.map_values(|p: String| p@) =~= seq![spec_render((**right)@)]);
                }
                r
            },
        }
    }

    /// Wraps already-rendered parts: an opening parenthesis, the group's
    /// name, a space, the parts joined by single spaces, and a closing
    /// parenthesis.
    fn parenthesize(&mut self, name: &str, parts: &Vec<String>) -> (r: String)
        ensures
            r@ == spec_parenthesize(name@, parts@.map_values(|p: String| p@)),
    {
        let ghost all = parts@.map_values(|p: String| p@);
        let mut buf = String::new();
        buf.append("(");
        buf.append(name);
        buf.append(" ");
        proof {
            reveal_strlit("(");
            reveal_strlit(" ");
            assert("("@ =~= seq!['(']);
            assert(" "@ =~= seq![' ']);
            assert(all.take(0) =~= Seq::<Seq<char>>::empty());
            assert(buf@ =~= seq!['('] + name@ + seq![' '] + spec_join_spaced(all.take(0)));
        }
        let mut index: usize = 0;
        while index < parts.len()
            invariant
                index <= parts@.len(),
                all == parts@.map_values(|p: String| p@),
                buf@ == seq!['('] + name@ + seq![' '] + spec_join_spaced(all.take(index as int)),
        decreases parts@.len() - index,
        {
            if index > 0 {
                buf.append(" ");
            }
            buf.append(parts[index].as_str());
            proof {
                reveal_strlit(" ");
                assert(" "@ =~= seq![' ']);
                assert(all.take(index + 1).drop_last() =~= all.take(index as int));
                assert(all.take(index + 1).last() == all[index as int]);
                if index == 0 {
                    assert(spec_join_spaced(all.take(1)) == all[0]);
                    assert(buf@ =~= seq!['('] + name@ + seq![' '] + spec_join_spaced(
                        all.take(index + 1),
                    ));
                } else {
                    assert(spec_join_spaced(all.take(index + 1)) == spec_join_spaced(
                        all.take(index as int),
                    ) + seq![' '] + all[index as int]);
                    assert(buf@ =~= seq!['('] + name@ + seq![' '] + spec_join_spaced(
                        all.take(index + 1),
                    ));
                }
            }
            index += 1;
        }
        buf.append(")");
        proof {
            reveal_strlit(")");
            assert(")"@ =~= seq![')']);
            assert(all.take(all.len() as int) =~= all);
            assert(buf@ =~= spec_parenthesize(name@, all));
        }
        buf
    }
}

/// Rendering is deterministic: the canonical text is a function of the tree
/// alone, so two renderings of the same tree are identical.
pub proof fn lemma_render_deterministic(e: SpecExpr, first: Seq<char>, second: Seq<char>)
    requires
        first == spec_render(e),
        second == spec_render(e),
    ensures
        first == second,
{
}

} // verus!
