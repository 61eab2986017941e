//! The parsed form of a filter.

use vstd::prelude::*;

verus! {

/// A parsed filter.
#[derive(Debug, PartialEq, Eq)]
pub enum Expr {
    /// `attributes.{attr} = "{value}"`, or the same with `!=`.
    Compare {
        /// The attribute's key.
        attr: String,
        /// Which of the two comparisons.
        op: CompareOp,
        /// The value compared with.
        value: String,
    },
    /// `attributes:{attr}`: the message has the attribute, whatever its value.
    HasAttr {
        /// The attribute's key.
        attr: String,
    },
    /// `hasPrefix(attributes.{attr}, "{prefix}")`.
    HasPrefix {
        /// The attribute's key.
        attr: String,
        /// What the attribute's value must start with.
        prefix: String,
    },
    /// `NOT`.
    Not(Box<Expr>),
    /// Operands joined by `AND`.
    And(Vec<Expr>),
    /// Operands joined by `OR`.
    Or(Vec<Expr>),
}

/// The comparison of an [`Expr::Compare`].
#[derive(Debug, Clone, Copy, PartialEq, Eq, Structural)]
pub enum CompareOp {
    /// `=`
    Eq,
    /// `!=`
    Ne,
}

/// What an [`Expr`] says.
pub enum ExprView {
    Compare { attr: Seq<char>, op: CompareOp, value: Seq<char> },
    HasAttr { attr: Seq<char> },
    HasPrefix { attr: Seq<char>, prefix: Seq<char> },
    Not(Box<ExprView>),
    And(Seq<ExprView>),
    Or(Seq<ExprView>),
}

/// What an expression says.
pub open spec fn expr_view(e: Expr) -> ExprView
    decreases e,
{
    match e {
        Expr::Compare { attr, op, value } => ExprView::Compare { attr: attr@, op, value: value@ },
        Expr::HasAttr { attr } => ExprView::HasAttr { attr: attr@ },
        Expr::HasPrefix { attr, prefix } => ExprView::HasPrefix { attr: attr@, prefix: prefix@ },
        Expr::Not(inner) => ExprView::Not(Box::new(expr_view(*inner))),
        Expr::And(operands) => ExprView::And(exprs_view(operands@)),
        Expr::Or(operands) => ExprView::Or(exprs_view(operands@)),
    }
}

/// What a sequence of expressions says.
pub open spec fn exprs_view(s: Seq<Expr>) -> Seq<ExprView>
    decreases s,
{
    if s.len() == 0 {
        Seq::empty()
    } else {
        exprs_view(s.subrange(0, s.len() - 1)).push(expr_view(s[s.len() - 1]))
    }
}

/// What a sequence of expressions says, position by position.
pub proof fn lemma_exprs_view(s: Seq<Expr>)
    ensures
        exprs_view(s).len() == s.len(),
        forall|i: int| 0 <= i < s.len() ==> #[trigger] exprs_view(s)[i] == expr_view(s[i]),
    decreases s.len(),
{
    if s.len() > 0 {
        let init = s.subrange(0, s.len() - 1);
        lemma_exprs_view(init);
        assert forall|i: int| 0 <= i < s.len() implies #[trigger] exprs_view(s)[i] == expr_view(
            s[i],
        ) by {
            if i < init.len() {
                assert(exprs_view(init)[i] == expr_view(init[i]));
            }
        }
    }
}

impl View for Expr {
    type V = ExprView;

    open spec fn view(&self) -> ExprView {
        expr_view(*self)
    }
}

} // verus!
