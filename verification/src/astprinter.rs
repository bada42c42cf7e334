//! A printer of expression trees: infix notation with every node that is
//! not a literal between parentheses, so that the text can be scanned and
//! parsed again.

use vstd::prelude::*;
use vstd::pervasive::unreached;
use crate::expr::{Expr, SpecExpr};
use crate::value::{renders, SpecValue, Value};

verus! {

/// `(inner)`.
pub open spec fn grouped_text(inner: Seq<char>) -> Seq<char> {
    seq!['('] + inner + seq![')']
}

/// `(operator operand)`, the operator directly before its operand.
pub open spec fn unary_text(operator: Seq<char>, operand: Seq<char>) -> Seq<char> {
    seq!['('] + operator + operand + seq![')']
}

/// `(left operator right)`, with one space on each side of the operator.
pub open spec fn binary_text(left: Seq<char>, operator: Seq<char>, right: Seq<char>) -> Seq<
    char,
> {
    seq!['('] + left + seq![' '] + operator + seq![' '] + right + seq![')']
}

/// `out` is `(inner)`.
pub open spec fn is_grouped(out: Seq<char>, inner: Seq<char>) -> bool {
    out == grouped_text(inner)
}

/// `out` is `(operator operand)`.
pub open spec fn is_unary(out: Seq<char>, operator: Seq<char>, operand: Seq<char>) -> bool {
    out == unary_text(operator, operand)
}

/// `out` is `(left operator right)`.
pub open spec fn is_binary(
    out: Seq<char>,
    left: Seq<char>,
    operator: Seq<char>,
    right: Seq<char>,
) -> bool {
    out == binary_text(left, operator, right)
}

/// The text between double quotes.
pub open spec fn quoted(text: Seq<char>) -> Seq<char> {
    seq!['"'] + text + seq!['"']
}

/// `out` is a printed form of a literal value: a number as rendered, text
/// between double quotes, a boolean as `true` or `false`, `Null` as `nil`.
pub open spec fn literal_text<R: Fn(u64) -> String>(
    value: SpecValue,
    render: R,
    out: Seq<char>,
) -> bool {
    match value {
        SpecValue::Number(bits) => renders(render, bits, out),
        SpecValue::Str(s) => out == quoted(s),
        SpecValue::Bool(b) => out == if b {
            seq!['t', 'r', 'u', 'e']
        } else {
            seq!['f', 'a', 'l', 's', 'e']
        },
        SpecValue::Null => out == seq!['n', 'i', 'l'],
    }
}

/// `out` is a printed form of `expr`, in infix notation: a literal as
/// `literal_text` says, a grouping as `(inner)`, a unary node as `(operator
/// operand)` and a binary node as `(left operator right)`, each operator
/// written as the lexeme of its token.
pub open spec fn prints<R: Fn(u64) -> String>(expr: SpecExpr, render: R, out: Seq<char>) -> bool
    decreases expr,
{
    match expr {
        SpecExpr::Literal { value } => literal_text(value, render, out),
        SpecExpr::Grouping { expression } => exists|inner: Seq<char>|
            prints(*expression, render, inner) && #[trigger] is_grouped(out, inner),
        SpecExpr::Unary { operator, right } => exists|operand: Seq<char>|
            prints(*right, render, operand) && #[trigger] is_unary(out, operator.lexeme, operand),
        SpecExpr::Binary { left, operator, right } => exists|l: Seq<char>, r: Seq<char>|
            prints(*left, render, l) && prints(*right, render, r) && #[trigger] is_binary(
                out,
                l,
                operator.lexeme,
                r,
            ),
    }
}

/// Prints expression trees.
pub struct AstPrinter<'a, R> {
    /// Writes a number as decimal text.
    pub render: &'a R,
}

impl<'a, R: Fn(u64) -> String> AstPrinter<'a, R> {
    /// The rendering function accepts every number.
    pub open spec fn wf(&self) -> bool {
        forall|bits: u64| self.render.requires((bits,))
    }

    /// The printed form of the expression.
    pub fn print(&mut self, expr: &Expr) -> (out: String)
        requires
            old(self).wf(),
        ensures
            prints(expr@, *old(self).render, out@),
            *final(self) == *old(self),
        decreases expr, 1nat,
    {
        match expr {
            Expr::Binary { .. } => self.visit_binary(expr),
            Expr::Grouping { .. } => self.visit_grouping(expr),
            Expr::Literal { .. } => self.visit_literal(expr),
            Expr::Unary { .. } => self.visit_unary(expr),
        }
    }

    fn visit_binary(&mut self, expr: &Expr) -> (out: String)
        requires
            old(self).wf(),
            expr is Binary,
        ensures
            prints(expr@, *old(self).render, out@),
            *final(self) == *old(self),
        decreases expr, 0nat,
    {
        match expr {
            Expr::Binary { left, operator, right } => {
                let mut inner = self.print(&**left);
                let ghost l = inner@;
                inner.append(" ");
                inner.append(operator.lexeme.as_str());
                inner.append(" ");
                let second = self.print(&**right);
                inner.append(second.as_str());
                let out = self.parenthesize(inner.as_str());
                proof {
                    reveal_strlit(" ");
                    assert(is_binary(out@, l, operator@.lexeme, second@)) by {
                        assert(out@ =~= binary_text(l, operator@.lexeme, second@));
                    }
                }
                out
            },
            _ => unreached(),
        }
    }

    fn visit_grouping(&mut self, expr: &Expr) -> (out: String)
        requires
            old(self).wf(),
            expr is Grouping,
        ensures
            prints(expr@, *old(self).render, out@),
            *final(self) == *old(self),
        decreases expr, 0nat,
    {
        match expr {
            Expr::Grouping { expression } => {
                let inner = self.print(&**expression);
                let out = self.parenthesize(inner.as_str());
                assert(is_grouped(out@, inner@));
                out
            },
            _ => unreached(),
        }
    }

    fn visit_literal(&mut self, expr: &Expr) -> (out: String)
        requires
            old(self).wf(),
            expr is Literal,
        ensures
            prints(expr@, *old(self).render, out@),
            *final(self) == *old(self),
    {
        proof {
            reveal_strlit("\"");
            reveal_strlit("true");
            reveal_strlit("false");
            reveal_strlit("nil");
        }
        match expr {
            Expr::Literal { value } => match value {
                Value::Number(n) => (self.render)(*n),
                Value::Str(s) => {
                    let mut out = String::from_str("\"");
                    out.append(s.as_str());
                    out.append("\"");
                    assert(out@ =~= quoted(s@));
                    out
                },
                Value::Bool(b) => {
                    let out = if *b {
                        String::from_str("true")
                    } else {
                        String::from_str("false")
                    };
                    assert(*b ==> out@ =~= seq!['t', 'r', 'u', 'e']);
                    assert(!*b ==> out@ =~= seq!['f', 'a', 'l', 's', 'e']);
                    out
                },
                Value::Null => {
                    let out = String::from_str("nil");
                    assert(out@ =~= seq!['n', 'i', 'l']);
                    out
                },
            },
            _ => unreached(),
        }
    }

    fn visit_unary(&mut self, expr: &Expr) -> (out: String)
        requires
            old(self).wf(),
            expr is Unary,
        ensures
            prints(expr@, *old(self).render, out@),
            *final(self) == *old(self),
        decreases expr, 0nat,
    {
        match expr {
            Expr::Unary { operator, right } => {
                let operand = self.print(&**right);
                let mut inner = operator.lexeme.clone();
                inner.append(operand.as_str());
                let out = self.parenthesize(inner.as_str());
                assert(is_unary(out@, operator@.lexeme, operand@)) by {
                    assert(out@ =~= unary_text(operator@.lexeme, operand@));
                }
                out
            },
            _ => unreached(),
        }
    }

    /// The text between parentheses.
    fn parenthesize(&mut self, inner: &str) -> (out: String)
        ensures
            out@ == grouped_text(inner@),
            *final(self) == *old(self),
    {
        let mut builder = String::from_str("(");
        builder.append(inner);
        builder.append(")");
        proof {
            reveal_strlit("(");
            reveal_strlit(")");
            assert(builder@ =~= grouped_text(inner@));
        }
        builder
    }
}

} // verus!
