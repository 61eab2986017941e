//! Evaluates a filter on a message's attributes.

use crate::filter::ast;
use crate::filter::ast::{CompareOp, Expr, ExprView};
use crate::string_map;
use crate::string_map::{Entries, StringMap};
use crate::text;
use vstd::prelude::*;

verus! {

/// Whether a message with these attributes satisfies the filter. A comparison, `!=` too, is false
/// when the attribute is absent.
pub open spec fn satisfies(e: ExprView, attrs: Entries) -> bool
    decreases e,
{
    match e {
        ExprView::Compare { attr, op, value } => match string_map::lookup(attrs, attr) {
            Some(actual) => match op {
                CompareOp::Eq => actual == value,
                CompareOp::Ne => actual != value,
            },
            None => false,
        },
        ExprView::HasAttr { attr } => string_map::has_key(attrs, attr),
        ExprView::HasPrefix { attr, prefix } => match string_map::lookup(attrs, attr) {
            Some(actual) => text::has_prefix(actual, prefix),
            None => false,
        },
        ExprView::Not(inner) => !satisfies(*inner, attrs),
        ExprView::And(operands) => forall|i: int|
            0 <= i < operands.len() ==> satisfies(#[trigger] operands[i], attrs),
        ExprView::Or(operands) => exists|i: int|
            0 <= i < operands.len() && satisfies(#[trigger] operands[i], attrs),
    }
}

impl Expr {
    /// Whether a message with the attributes `attrs` satisfies this filter.
    pub fn matches(&self, attrs: &StringMap) -> (r: bool)
        ensures
            r == satisfies(self@, attrs@),
        decreases self,
    {
        match self {
            Expr::Compare { attr, op, value } => match attrs.get(attr.as_str()) {
                None => false,
                Some(actual) => match op {
                    CompareOp::Eq => text::str_equal(actual.as_str(), value.as_str()),
                    CompareOp::Ne => !text::str_equal(actual.as_str(), value.as_str()),
                },
            },
            Expr::HasAttr { attr } => attrs.contains_key(attr.as_str()),
            Expr::HasPrefix { attr, prefix } => match attrs.get(attr.as_str()) {
                None => false,
                Some(actual) => text::str_has_prefix(actual.as_str(), prefix.as_str()),
            },
            Expr::Not(inner) => {
                let r = inner.matches(attrs);
                assert(self@ == ExprView::Not(Box::new(inner@)));
                !r
            },
            Expr::And(operands) => {
                let ghost views = ast::exprs_view(operands@);
                proof {
                    ast::lemma_exprs_view(operands@);
                    assert(self@ == ExprView::And(views));
                }
                let mut i: usize = 0;
                while i < operands.len()
                    invariant
                        i <= operands.len(),
                        views.len() == operands@.len(),
                        self@ == ExprView::And(views),
                        *self == Expr::And(*operands),
                        forall|k: int|
                            0 <= k < operands@.len() ==> #[trigger] views[k] == operands@[k]@,
                        forall|k: int| 0 <= k < i ==> satisfies(#[trigger] views[k], attrs@),
                    decreases operands.len() - i,
                {
                    if !operands[i].matches(attrs) {
                        proof {
                            law_and(views, attrs@);
                            assert(!satisfies(views[i as int], attrs@));
                        }
                        return false;
                    }
                    assert(satisfies(views[i as int], attrs@));
                    i = i + 1;
                }
                true
            },
            Expr::Or(operands) => {
                let ghost views = ast::exprs_view(operands@);
                proof {
                    ast::lemma_exprs_view(operands@);
                    assert(self@ == ExprView::Or(views));
                }
                let mut i: usize = 0;
                while i < operands.len()
                    invariant
                        i <= operands.len(),
                        views.len() == operands@.len(),
                        self@ == ExprView::Or(views),
                        *self == Expr::Or(*operands),
                        forall|k: int|
                            0 <= k < operands@.len() ==> #[trigger] views[k] == operands@[k]@,
                        forall|k: int| 0 <= k < i ==> !satisfies(#[trigger] views[k], attrs@),
                    decreases operands.len() - i,
                {
                    if operands[i].matches(attrs) {
                        proof {
                            law_or(views, attrs@);
                            assert(satisfies(views[i as int], attrs@));
                        }
                        return true;
                    }
                    assert(!satisfies(views[i as int], attrs@));
                    i = i + 1;
                }
                false
            },
        }
    }
}

/// Both comparisons are false when the attribute is absent.
pub proof fn law_absent_attribute_compares_false(
    attr: Seq<char>,
    op: CompareOp,
    value: Seq<char>,
    attrs: Entries,
)
    requires
        !string_map::has_key(attrs, attr),
    ensures
        !satisfies(ExprView::Compare { attr, op, value }, attrs),
{
}

/// A comparison by `=` needs the attribute with that value, one by `!=` the attribute with another
/// value; `attributes:` needs the attribute with any value, and `hasPrefix` with a value that goes
/// on from the prefix.
pub proof fn law_tests(attr: Seq<char>, value: Seq<char>, attrs: Entries)
    requires
        string_map::keys_increase(attrs),
    ensures
        satisfies(ExprView::Compare { attr, op: CompareOp::Eq, value }, attrs) <==> attrs.contains(
            (attr, value),
        ),
        satisfies(ExprView::Compare { attr, op: CompareOp::Ne, value }, attrs) <==> exists|
            other: Seq<char>,
        |
            other != value && #[trigger] attrs.contains((attr, other)),
        satisfies(ExprView::HasAttr { attr }, attrs) <==> exists|other: Seq<char>| #[trigger]
            attrs.contains((attr, other)),
        satisfies(ExprView::HasPrefix { attr, prefix: value }, attrs) <==> exists|rest: Seq<char>|
            attrs.contains((attr, #[trigger] (value + rest))),
{
    let found = string_map::lookup(attrs, attr);
    if found is Some {
        let i = string_map::key_index(attrs, attr);
        assert(attrs[i] == (attr, found->0));
        assert(attrs.contains((attr, found->0)));
        if text::has_prefix(found->0, value) {
            let rest = found->0.skip(value.len() as int);
            assert(value + rest =~= found->0);
        }
    }
    assert forall|other: Seq<char>| #[trigger] attrs.contains((attr, other)) implies found
        == Some(other) by {
        let i = choose|i: int| 0 <= i < attrs.len() && attrs[i] == (attr, other);
        string_map::lemma_lookup_at(attrs, i);
    }
    assert forall|rest: Seq<char>|
        attrs.contains((attr, #[trigger] (value + rest))) implies text::has_prefix(
        found->0,
        value,
    ) by {
        assert((value + rest).take(value.len() as int) =~= value);
    }
}

/// `NOT` takes the opposite.
pub proof fn law_not(e: ExprView, attrs: Entries)
    ensures
        satisfies(ExprView::Not(Box::new(e)), attrs) == !satisfies(e, attrs),
{
    reveal_with_fuel(satisfies, 2);
}

/// `AND` needs every operand.
pub proof fn law_and(operands: Seq<ExprView>, attrs: Entries)
    ensures
        satisfies(ExprView::And(operands), attrs) <==> (forall|i: int|
            0 <= i < operands.len() ==> satisfies(#[trigger] operands[i], attrs)),
{
    reveal_with_fuel(satisfies, 3);
    let e = ExprView::And(operands);
    if satisfies(e, attrs) {
        assert forall|i: int| 0 <= i < operands.len() implies satisfies(
            #[trigger] operands[i],
            attrs,
        ) by {
            assert(e->And_0[i] == operands[i]);
        }
    }
}

/// `OR` needs one operand.
pub proof fn law_or(operands: Seq<ExprView>, attrs: Entries)
    ensures
        satisfies(ExprView::Or(operands), attrs) <==> (exists|i: int|
            0 <= i < operands.len() && satisfies(#[trigger] operands[i], attrs)),
{
    reveal_with_fuel(satisfies, 3);
    let e = ExprView::Or(operands);
    if exists|i: int| 0 <= i < operands.len() && satisfies(#[trigger] operands[i], attrs) {
        let i = choose|i: int| 0 <= i < operands.len() && satisfies(#[trigger] operands[i], attrs);
        lemma_one_operand(operands, attrs, i);
    }
}

proof fn lemma_one_operand(operands: Seq<ExprView>, attrs: Entries, i: int)
    requires
        0 <= i < operands.len(),
        satisfies(operands[i], attrs),
    ensures
        satisfies(ExprView::Or(operands), attrs),
{
    reveal_with_fuel(satisfies, 3);
    let e = ExprView::Or(operands);
    assert(e->Or_0 == operands);
    assert(satisfies(e->Or_0[i], attrs));
}

} // verus!
