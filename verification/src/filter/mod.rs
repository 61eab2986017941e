//! Subscription filters: which messages a subscription wants, by their attributes.

use crate::error::Error;
use crate::filter::ast::{Expr, ExprView};
use crate::string_map::StringMap;
use crate::text;
use vstd::prelude::*;

pub mod ast;
pub mod eval;
pub mod language;
pub mod parser;

verus! {

/// A filter that is ready to be evaluated. Where there is no filter, there is no value of this
/// type.
#[derive(Debug, PartialEq, Eq)]
pub struct CompiledFilter {
    expr: Expr,
}

impl View for CompiledFilter {
    type V = ExprView;

    closed spec fn view(&self) -> ExprView {
        self.expr@
    }
}

impl CompiledFilter {
    /// Whether a message with the attributes `attrs` satisfies this filter.
    pub fn matches(&self, attrs: &StringMap) -> (r: bool)
        ensures
            r == eval::satisfies(self@, attrs@),
    {
        self.expr.matches(attrs)
    }
}

/// What an optional filter says.
pub open spec fn opt_filter(f: Option<CompiledFilter>) -> Option<ExprView> {
    match f {
        Some(c) => Some(c@),
        None => None,
    }
}

/// The filter that a text stands for: none for a blank text, nor for one that is not a filter.
pub open spec fn compiled(filter: Seq<char>) -> Option<ExprView> {
    if text::is_blank(filter) || parser::filter_error(filter) is Some {
        None
    } else {
        parser::filter_expr(filter)
    }
}

/// Compiles the text of a filter. A blank text is no filter, which every message satisfies; any
/// other text that does not parse is an error.
pub fn compile(filter: &str) -> (r: Result<Option<CompiledFilter>, Error>)
    ensures
        if text::is_blank(filter@) {
            r is Ok && r->Ok_0 is None
        } else {
            match parser::filter_error(filter@) {
                Some(e) => r is Err && r->Err_0@ == e,
                None => r is Ok && r->Ok_0 is Some && opt_filter(r->Ok_0) == compiled(filter@),
            }
        },
{
    if text::blank(filter) {
        return Ok(None);
    }
    match parser::parse(filter) {
        Ok(expr) => Ok(Some(CompiledFilter { expr })),
        Err(e) => Err(e),
    }
}

} // verus!
