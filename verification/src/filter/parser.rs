//! Parses the text of a filter.
//!
//! ```text
//! filter     = expr end
//! expr       = unary ( ("AND" unary)+ | ("OR" unary)+ )?
//! unary      = "NOT"? primary
//! primary    = attribute ("=" | "!=") string
//!            | "attributes:" key
//!            | "hasPrefix" "(" attribute "," string ")"
//!            | "(" expr ")"
//! attribute  = "attributes." key
//! key        = identifier | string
//! identifier = [A-Za-z_] [A-Za-z0-9_-]*
//! string     = '"' ( [^"\] | '\"' | '\\' | '\n' | '\t' | '\u' hex hex hex hex )* '"'
//! ```
//!
//! White space may stand between any two of these, but not inside an attribute, an
//! `attributes:` test, an identifier or a string. `AND` and `OR` do not mix without parentheses.

use crate::error;
use crate::error::{invalid, Error, ErrorView};
use crate::filter::ast;
use crate::filter::ast::{CompareOp, Expr, ExprView};
use crate::limits::MAX_FILTER_CHARS;
use crate::names;
use crate::text;
use vstd::prelude::*;
use vstd::string::*;

verus! {

/// `char::from_u32` gives the character with a code point, and nothing for a number that is not
/// the code point of a character: a surrogate, or one above `0x10FFFF`.
pub assume_specification [char::from_u32] (i: u32) -> (r: Option<char>)
    ensures
        match r {
            Some(c) => c as u32 == i,
            None => 0xd800 <= i <= 0xdfff || i > 0x10_ffff,
        },
;

/// White space between the parts of a filter.
pub open spec fn is_space(c: char) -> bool {
    c == ' ' || c == '\t' || c == '\n' || c == '\r'
}

/// The first position from `p` on that holds no white space.
pub open spec fn skip_space(s: Seq<char>, p: int) -> int
    decreases s.len() - p,
{
    if 0 <= p < s.len() && is_space(s[p]) {
        skip_space(s, p + 1)
    } else {
        p
    }
}

/// `word` stands at position `p`.
pub open spec fn word_at(s: Seq<char>, p: int, word: Seq<char>) -> bool {
    0 <= p && p + word.len() <= s.len() && s.subrange(p, p + word.len()) == word
}

/// A character that an identifier starts with.
pub open spec fn starts_identifier(c: char) -> bool {
    names::is_letter(c) || c == '_'
}

/// A character of an identifier.
pub open spec fn continues_identifier(c: char) -> bool {
    names::is_letter(c) || ('0' <= c && c <= '9') || c == '_' || c == '-'
}

/// The end of the run of identifier characters from `p` on.
pub open spec fn identifier_end(s: Seq<char>, p: int) -> int
    decreases s.len() - p,
{
    if 0 <= p < s.len() && continues_identifier(s[p]) {
        identifier_end(s, p + 1)
    } else {
        p
    }
}

/// The identifier at `p` and where it ends, or where the text is wrong. So for all that follow.
pub open spec fn identifier_at(s: Seq<char>, p: int) -> Result<(Seq<char>, int), int> {
    if 0 <= p < s.len() && starts_identifier(s[p]) {
        let q = identifier_end(s, p + 1);
        Ok((s.subrange(p, q), q))
    } else {
        Err(p)
    }
}

/// The value of a hexadecimal digit.
pub open spec fn hex_value(c: char) -> Option<nat> {
    if '0' <= c && c <= '9' {
        Some((c as nat - '0' as nat) as nat)
    } else if 'a' <= c && c <= 'f' {
        Some((c as nat - 'a' as nat + 10) as nat)
    } else if 'A' <= c && c <= 'F' {
        Some((c as nat - 'A' as nat + 10) as nat)
    } else {
        None
    }
}

/// The character whose code point the four hexadecimal digits at `p` give.
pub open spec fn unicode_at(s: Seq<char>, p: int) -> Option<char> {
    if 0 <= p && p + 4 <= s.len() {
        match (hex_value(s[p]), hex_value(s[p + 1]), hex_value(s[p + 2]), hex_value(s[p + 3])) {
            (Some(a), Some(b), Some(c), Some(d)) => {
                let code = a * 4096 + b * 256 + c * 16 + d;
                if 0xd800 <= code <= 0xdfff {
                    None
                } else {
                    Some((code as u32) as char)
                }
            },
            _ => None,
        }
    } else {
        None
    }
}

/// The character that the escape at `p`, behind a backslash, stands for, and where it ends.
pub open spec fn escape_at(s: Seq<char>, p: int) -> Option<(char, int)> {
    if 0 <= p < s.len() {
        if s[p] == '"' {
            Some(('"', p + 1))
        } else if s[p] == '\\' {
            Some(('\\', p + 1))
        } else if s[p] == 'n' {
            Some(('\n', p + 1))
        } else if s[p] == 't' {
            Some(('\t', p + 1))
        } else if s[p] == 'u' {
            match unicode_at(s, p + 1) {
                Some(c) => Some((c, p + 5)),
                None => None,
            }
        } else {
            None
        }
    } else {
        None
    }
}

/// The rest of a string from `p` on, behind `start`, and the position behind its closing quote.
pub open spec fn string_rest(s: Seq<char>, p: int, start: Seq<char>) -> Result<
    (Seq<char>, int),
    int,
>
    decreases s.len() - p,
{
    if p < 0 || p >= s.len() {
        Err(p)
    } else if s[p] == '"' {
        Ok((start, p + 1))
    } else if s[p] == '\\' {
        match escape_at(s, p + 1) {
            Some((c, q)) => if q > p {
                string_rest(s, q, start.push(c))
            } else {
                Err(p)
            },
            None => Err(p),
        }
    } else {
        string_rest(s, p + 1, start.push(s[p]))
    }
}

/// The string at `p`, without quotes and escapes, and where it ends.
pub open spec fn string_at(s: Seq<char>, p: int) -> Result<(Seq<char>, int), int> {
    if 0 <= p < s.len() && s[p] == '"' {
        string_rest(s, p + 1, Seq::empty())
    } else {
        Err(p)
    }
}

/// The attribute key at `p` and where it ends.
pub open spec fn key_at(s: Seq<char>, p: int) -> Result<(Seq<char>, int), int> {
    match identifier_at(s, p) {
        Ok(r) => Ok(r),
        Err(_) => string_at(s, p),
    }
}

/// The attribute `attributes.{key}` at `p` and where it ends.
pub open spec fn attribute_at(s: Seq<char>, p: int) -> Result<(Seq<char>, int), int> {
    if word_at(s, p, "attributes."@) {
        key_at(s, p + 11)
    } else {
        Err(p)
    }
}

/// The comparison operator at `p` and where it ends.
pub open spec fn operator_at(s: Seq<char>, p: int) -> Result<(CompareOp, int), int> {
    if word_at(s, p, "="@) {
        Ok((CompareOp::Eq, p + 1))
    } else if word_at(s, p, "!="@) {
        Ok((CompareOp::Ne, p + 2))
    } else {
        Err(p)
    }
}

/// The comparison at `p` and where it ends.
pub open spec fn comparison_at(s: Seq<char>, p: int) -> Result<(ExprView, int), int> {
    match attribute_at(s, p) {
        Ok((attr, q)) => match operator_at(s, skip_space(s, q)) {
            Ok((op, r)) => match string_at(s, skip_space(s, r)) {
                Ok((value, end)) => Ok((ExprView::Compare { attr, op, value }, end)),
                Err(at) => Err(at),
            },
            Err(at) => Err(at),
        },
        Err(at) => Err(at),
    }
}

/// The `attributes:` test at `p` and where it ends.
pub open spec fn presence_at(s: Seq<char>, p: int) -> Result<(ExprView, int), int> {
    match key_at(s, p + 11) {
        Ok((attr, q)) => Ok((ExprView::HasAttr { attr }, q)),
        Err(at) => Err(at),
    }
}

/// The `hasPrefix` call at `p` and where it ends.
pub open spec fn function_at(s: Seq<char>, p: int) -> Result<(ExprView, int), int> {
    let open = skip_space(s, p + 9);
    if word_at(s, open, "("@) {
        match attribute_at(s, skip_space(s, open + 1)) {
            Ok((attr, q)) => {
                let comma = skip_space(s, q);
                if word_at(s, comma, ","@) {
                    match string_at(s, skip_space(s, comma + 1)) {
                        Ok((prefix, r)) => {
                            let close = skip_space(s, r);
                            if word_at(s, close, ")"@) {
                                Ok((ExprView::HasPrefix { attr, prefix }, close + 1))
                            } else {
                                Err(close)
                            }
                        },
                        Err(at) => Err(at),
                    }
                } else {
                    Err(comma)
                }
            },
            Err(at) => Err(at),
        }
    } else {
        Err(open)
    }
}

/// The expression at `p` and where it ends.
pub open spec fn expr_at(s: Seq<char>, p: int) -> Result<(ExprView, int), int>
    decreases s.len() - p, 4int,
{
    if p < 0 || p > s.len() {
        Err(p)
    } else {
        match unary_at(s, p) {
            Err(at) => Err(at),
            Ok((first, q)) => {
                let a = skip_space(s, q);
                if q <= p || q > s.len() {
                    Err(p)
                } else if word_at(s, a, "AND"@) {
                    match chain_at(s, q, true, seq![first]) {
                        Ok((operands, end)) => Ok((ExprView::And(operands), end)),
                        Err(at) => Err(at),
                    }
                } else if word_at(s, a, "OR"@) {
                    match chain_at(s, q, false, seq![first]) {
                        Ok((operands, end)) => Ok((ExprView::Or(operands), end)),
                        Err(at) => Err(at),
                    }
                } else {
                    Ok((first, q))
                }
            },
        }
    }
}

/// The word that joins the operands of a chain.
pub open spec fn chain_word(conjunction: bool) -> Seq<char> {
    if conjunction {
        "AND"@
    } else {
        "OR"@
    }
}

/// The length of the word that joins the operands of a chain.
pub open spec fn chain_word_len(conjunction: bool) -> int {
    if conjunction {
        3
    } else {
        2
    }
}

/// The operands of a chain from `p` on, behind those in `operands`, and where the chain ends.
pub open spec fn chain_at(
    s: Seq<char>,
    p: int,
    conjunction: bool,
    operands: Seq<ExprView>,
) -> Result<(Seq<ExprView>, int), int>
    decreases s.len() - p, 3int,
{
    if p < 0 || p > s.len() {
        Err(p)
    } else {
        let a = skip_space(s, p);
        let behind = a + chain_word_len(conjunction);
        if word_at(s, a, chain_word(conjunction)) && p < behind && behind <= s.len() {
            match unary_at(s, behind) {
                Err(at) => Err(at),
                Ok((operand, q)) => if q <= p || q > s.len() {
                    Err(p)
                } else {
                    chain_at(s, q, conjunction, operands.push(operand))
                },
            }
        } else {
            Ok((operands, p))
        }
    }
}

/// The operand at `p`, with or without `NOT`, and where it ends.
pub open spec fn unary_at(s: Seq<char>, p: int) -> Result<(ExprView, int), int>
    decreases s.len() - p, 2int,
{
    let a = skip_space(s, p);
    if a < p || a > s.len() {
        Err(p)
    } else if word_at(s, a, "NOT"@) {
        let b = skip_space(s, a + 3);
        if b <= a || b > s.len() {
            Err(a)
        } else {
            match primary_at(s, b) {
                Ok((inner, q)) => Ok((ExprView::Not(Box::new(inner)), q)),
                Err(at) => Err(at),
            }
        }
    } else {
        primary_at(s, a)
    }
}

/// The innermost expression at `p`, or one in parentheses, and where it ends.
pub open spec fn primary_at(s: Seq<char>, p: int) -> Result<(ExprView, int), int>
    decreases s.len() - p, 1int,
{
    if word_at(s, p, "attributes."@) {
        comparison_at(s, p)
    } else if word_at(s, p, "attributes:"@) {
        presence_at(s, p)
    } else if word_at(s, p, "hasPrefix"@) {
        function_at(s, p)
    } else if 0 <= p < s.len() && s[p] == '(' {
        match expr_at(s, p + 1) {
            Ok((inner, q)) => {
                let close = skip_space(s, q);
                if word_at(s, close, ")"@) {
                    Ok((inner, close + 1))
                } else {
                    Err(close)
                }
            },
            Err(at) => Err(at),
        }
    } else {
        Err(p)
    }
}

/// The expression that a whole text is, or the position where parsing stops.
pub open spec fn parsed(s: Seq<char>) -> Result<ExprView, int> {
    match expr_at(s, 0) {
        Ok((e, q)) => if skip_space(s, q) == s.len() {
            Ok(e)
        } else {
            Err(skip_space(s, q))
        },
        Err(at) => Err(at),
    }
}

/// The expression that a whole text is, if it is one.
pub open spec fn filter_expr(s: Seq<char>) -> Option<ExprView> {
    match parsed(s) {
        Ok(e) => Some(e),
        Err(_) => None,
    }
}

/// The text for a position where parsing stops. Characters are counted from 1.
pub open spec fn syntax_error(at: int) -> Seq<char> {
    "syntax error: at character "@ + text::dec((at + 1) as nat)
}

/// What is wrong with the text of a filter, if anything is.
pub open spec fn filter_error(s: Seq<char>) -> Option<ErrorView> {
    if s.len() > MAX_FILTER_CHARS {
        Some(error::invalid_argument("filter"@, "filter exceeds the 256-character limit"@))
    } else {
        match parsed(s) {
            Ok(_) => None,
            Err(at) => Some(error::invalid_argument("filter"@, syntax_error(at))),
        }
    }
}

proof fn lemma_skip_space(s: Seq<char>, p: int)
    requires
        0 <= p <= s.len(),
    ensures
        p <= skip_space(s, p) <= s.len(),
    decreases s.len() - p,
{
    if p < s.len() && is_space(s[p]) {
        lemma_skip_space(s, p + 1);
    }
}

/// A parsed text and where it ends, or where the text is wrong.
pub open spec fn text_result(r: Result<(String, usize), usize>) -> Result<(Seq<char>, int), int> {
    match r {
        Ok((t, q)) => Ok((t@, q as int)),
        Err(at) => Err(at as int),
    }
}

/// A parsed expression and where it ends, or where the text is wrong.
pub open spec fn expr_result(r: Result<(Expr, usize), usize>) -> Result<(ExprView, int), int> {
    match r {
        Ok((e, q)) => Ok((e@, q as int)),
        Err(at) => Err(at as int),
    }
}

fn space_end(s: &Vec<char>, p: usize) -> (q: usize)
    requires
        p <= s.len(),
    ensures
        q == skip_space(s@, p as int),
        p <= q <= s.len(),
{
    let mut q: usize = p;
    while q < s.len() && (s[q] == ' ' || s[q] == '\t' || s[q] == '\n' || s[q] == '\r')
        invariant
            p <= q <= s.len(),
            skip_space(s@, p as int) == skip_space(s@, q as int),
        decreases s.len() - q,
    {
        q = q + 1;
    }
    q
}

fn has_word(s: &Vec<char>, p: usize, word: &str) -> (r: bool)
    requires
        p <= s.len(),
    ensures
        r == word_at(s@, p as int, word@),
{
    let chars = text::chars_of(word);
    if chars.len() > s.len() - p {
        return false;
    }
    let mut i: usize = 0;
    while i < chars.len()
        invariant
            i <= chars.len(),
            chars.len() <= s.len() - p,
            p <= s.len(),
            chars@ == word@,
            forall|j: int| 0 <= j < i ==> s@[p + j] == word@[j],
        decreases chars.len() - i,
    {
        if s[p + i] != chars[i] {
            assert(s@.subrange(p as int, p + word@.len())[i as int] != word@[i as int]);
            return false;
        }
        i = i + 1;
    }
    assert(s@.subrange(p as int, p + word@.len()) =~= word@);
    true
}

fn parse_identifier(s: &Vec<char>, p: usize) -> (r: Result<(String, usize), usize>)
    ensures
        text_result(r) == identifier_at(s@, p as int),
        r matches Ok((_, q)) ==> p < q <= s.len(),
{
    if p >= s.len() {
        return Err(p);
    }
    let c = s[p];
    if !(('a' <= c && c <= 'z') || ('A' <= c && c <= 'Z') || c == '_') {
        return Err(p);
    }
    let mut q: usize = p + 1;
    while q < s.len() && (('a' <= s[q] && s[q] <= 'z') || ('A' <= s[q] && s[q] <= 'Z') || ('0'
        <= s[q] && s[q] <= '9') || s[q] == '_' || s[q] == '-')
        invariant
            p < q <= s.len(),
            identifier_end(s@, p + 1) == identifier_end(s@, q as int),
        decreases s.len() - q,
    {
        q = q + 1;
    }
    Ok((text::text_of(s, p, q), q))
}

fn hex_digit(c: char) -> (r: Option<u32>)
    ensures
        match r {
            Some(v) => hex_value(c) == Some(v as nat) && v < 16,
            None => hex_value(c) is None,
        },
{
    if '0' <= c && c <= '9' {
        Some(c as u32 - '0' as u32)
    } else if 'a' <= c && c <= 'f' {
        Some(c as u32 - 'a' as u32 + 10)
    } else if 'A' <= c && c <= 'F' {
        Some(c as u32 - 'A' as u32 + 10)
    } else {
        None
    }
}

fn parse_unicode(s: &Vec<char>, p: usize) -> (r: Option<char>)
    requires
        p <= s.len(),
    ensures
        r == unicode_at(s@, p as int),
{
    if s.len() - p < 4 {
        return None;
    }
    let a = hex_digit(s[p]);
    let b = hex_digit(s[p + 1]);
    let c = hex_digit(s[p + 2]);
    let d = hex_digit(s[p + 3]);
    match (a, b, c, d) {
        (Some(a), Some(b), Some(c), Some(d)) => {
            let code: u32 = a * 4096 + b * 256 + c * 16 + d;
            match char::from_u32(code) {
                Some(found) => {
                    proof {
                        vstd::utf8::char_is_scalar(found);
                        vstd::utf8::char_u32_cast(found, code);
                    }
                    Some(found)
                },
                None => None,
            }
        },
        _ => None,
    }
}

fn parse_escape(s: &Vec<char>, p: usize) -> (r: Option<(char, usize)>)
    requires
        p <= s.len(),
    ensures
        match r {
            Some((c, q)) => escape_at(s@, p as int) == Some((c, q as int)) && p < q <= s.len(),
            None => escape_at(s@, p as int) is None,
        },
{
    if p >= s.len() {
        return None;
    }
    let c = s[p];
    if c == '"' {
        Some(('"', p + 1))
    } else if c == '\\' {
        Some(('\\', p + 1))
    } else if c == 'n' {
        Some(('\n', p + 1))
    } else if c == 't' {
        Some(('\t', p + 1))
    } else if c == 'u' {
        match parse_unicode(s, p + 1) {
            Some(u) => Some((u, p + 5)),
            None => None,
        }
    } else {
        None
    }
}

fn parse_string(s: &Vec<char>, p: usize) -> (r: Result<(String, usize), usize>)
    ensures
        text_result(r) == string_at(s@, p as int),
        r matches Ok((_, q)) ==> p < q <= s.len(),
        r matches Err(at) ==> at == p || at <= s.len(),
{
    if p >= s.len() || s[p] != '"' {
        return Err(p);
    }
    let mut out = String::new();
    let mut q: usize = p + 1;
    assert(out@ =~= Seq::<char>::empty());
    while q < s.len()
        invariant
            p < q <= s.len(),
            string_at(s@, p as int) == string_rest(s@, q as int, out@),
        decreases s.len() - q,
    {
        let c = s[q];
        if c == '"' {
            return Ok((out, q + 1));
        } else if c == '\\' {
            match parse_escape(s, q + 1) {
                Some((e, next)) => {
                    out.push(e);
                    q = next;
                },
                None => {
                    return Err(q);
                },
            }
        } else {
            out.push(c);
            q = q + 1;
        }
    }
    Err(q)
}

fn parse_key(s: &Vec<char>, p: usize) -> (r: Result<(String, usize), usize>)
    ensures
        text_result(r) == key_at(s@, p as int),
        r matches Ok((_, q)) ==> p < q <= s.len(),
        r matches Err(at) ==> at == p || at <= s.len(),
{
    match parse_identifier(s, p) {
        Ok(found) => Ok(found),
        Err(_) => parse_string(s, p),
    }
}

fn parse_attribute(s: &Vec<char>, p: usize) -> (r: Result<(String, usize), usize>)
    requires
        p <= s.len(),
    ensures
        text_result(r) == attribute_at(s@, p as int),
        r matches Ok((_, q)) ==> p < q <= s.len(),
        r matches Err(at) ==> at <= s.len(),
{
    proof {
        reveal_strlit("attributes.");
    }
    if has_word(s, p, "attributes.") {
        parse_key(s, p + 11)
    } else {
        Err(p)
    }
}

fn parse_operator(s: &Vec<char>, p: usize) -> (r: Result<(CompareOp, usize), usize>)
    requires
        p <= s.len(),
    ensures
        match r {
            Ok((op, q)) => operator_at(s@, p as int) == Ok::<_, int>((op, q as int)) && p < q
                <= s.len(),
            Err(at) => operator_at(s@, p as int) == Err::<(CompareOp, int), int>(at as int)
                && at <= s.len(),
        },
{
    proof {
        reveal_strlit("=");
        reveal_strlit("!=");
    }
    if has_word(s, p, "=") {
        Ok((CompareOp::Eq, p + 1))
    } else if has_word(s, p, "!=") {
        Ok((CompareOp::Ne, p + 2))
    } else {
        Err(p)
    }
}

fn parse_comparison(s: &Vec<char>, p: usize) -> (r: Result<(Expr, usize), usize>)
    requires
        p <= s.len(),
    ensures
        expr_result(r) == comparison_at(s@, p as int),
        r matches Ok((_, q)) ==> p < q <= s.len(),
        r matches Err(at) ==> at <= s.len(),
{
    match parse_attribute(s, p) {
        Ok((attr, q)) => match parse_operator(s, space_end(s, q)) {
            Ok((op, r)) => match parse_string(s, space_end(s, r)) {
                Ok((value, end)) => Ok((Expr::Compare { attr, op, value }, end)),
                Err(at) => Err(at),
            },
            Err(at) => Err(at),
        },
        Err(at) => Err(at),
    }
}

fn parse_function(s: &Vec<char>, p: usize) -> (r: Result<(Expr, usize), usize>)
    requires
        p <= s.len(),
        word_at(s@, p as int, "hasPrefix"@),
    ensures
        expr_result(r) == function_at(s@, p as int),
        r matches Ok((_, q)) ==> p < q <= s.len(),
        r matches Err(at) ==> at <= s.len(),
{
    proof {
        reveal_strlit("hasPrefix");
        reveal_strlit("(");
        reveal_strlit(",");
        reveal_strlit(")");
    }
    let open: usize = space_end(s, p + 9);
    if !has_word(s, open, "(") {
        return Err(open);
    }
    match parse_attribute(s, space_end(s, open + 1)) {
        Ok((attr, q)) => {
            let comma: usize = space_end(s, q);
            if !has_word(s, comma, ",") {
                return Err(comma);
            }
            match parse_string(s, space_end(s, comma + 1)) {
                Ok((prefix, r)) => {
                    let close: usize = space_end(s, r);
                    if has_word(s, close, ")") {
                        Ok((Expr::HasPrefix { attr, prefix }, close + 1))
                    } else {
                        Err(close)
                    }
                },
                Err(at) => Err(at),
            }
        },
        Err(at) => Err(at),
    }
}

fn parse_expr(s: &Vec<char>, p: usize) -> (r: Result<(Expr, usize), usize>)
    requires
        p <= s.len(),
    ensures
        expr_result(r) == expr_at(s@, p as int),
        r matches Ok((_, q)) ==> p < q <= s.len(),
        r matches Err(at) ==> at <= s.len(),
    decreases s.len() - p, 4int,
{
    let (first, q) = match parse_unary(s, p) {
        Ok(found) => found,
        Err(at) => {
            return Err(at);
        },
    };
    let a: usize = space_end(s, q);
    let conjunction = has_word(s, a, "AND");
    if !conjunction && !has_word(s, a, "OR") {
        return Ok((first, q));
    }
    let ghost first_view = first@;
    let mut operands: Vec<Expr> = Vec::new();
    operands.push(first);
    proof {
        assert(ast::exprs_view(operands@) =~= seq![first_view]) by {
            ast::lemma_exprs_view(operands@);
        }
    }
    match parse_chain(s, q, conjunction, operands) {
        Ok((operands, end)) => if conjunction {
            Ok((Expr::And(operands), end))
        } else {
            Ok((Expr::Or(operands), end))
        },
        Err(at) => Err(at),
    }
}

fn parse_chain(s: &Vec<char>, p: usize, conjunction: bool, operands: Vec<Expr>) -> (r: Result<
    (Vec<Expr>, usize),
    usize,
>)
    requires
        p <= s.len(),
    ensures
        match r {
            Ok((all, q)) => {
                &&& chain_at(s@, p as int, conjunction, ast::exprs_view(operands@)) == Ok::<_, int>(
                    (ast::exprs_view(all@), q as int),
                )
                &&& p <= q <= s.len()
            },
            Err(at) => {
                &&& chain_at(s@, p as int, conjunction, ast::exprs_view(operands@)) == Err::<
                    (Seq<ExprView>, int),
                    int,
                >(at as int)
                &&& at <= s.len()
            },
        },
    decreases s.len() - p, 3int,
{
    let a: usize = space_end(s, p);
    let found = if conjunction {
        has_word(s, a, "AND")
    } else {
        has_word(s, a, "OR")
    };
    proof {
        reveal_strlit("AND");
        reveal_strlit("OR");
    }
    if !found {
        return Ok((operands, p));
    }
    let behind: usize = if conjunction {
        a + 3
    } else {
        a + 2
    };
    match parse_unary(s, behind) {
        Err(at) => Err(at),
        Ok((operand, q)) => {
            let ghost before = operands@;
            let ghost view = operand@;
            let mut more = operands;
            more.push(operand);
            proof {
                assert(more@.subrange(0, more@.len() - 1) =~= before);
                assert(ast::exprs_view(more@) =~= ast::exprs_view(before).push(view));
            }
            parse_chain(s, q, conjunction, more)
        },
    }
}

fn parse_unary(s: &Vec<char>, p: usize) -> (r: Result<(Expr, usize), usize>)
    requires
        p <= s.len(),
    ensures
        expr_result(r) == unary_at(s@, p as int),
        r matches Ok((_, q)) ==> p < q <= s.len(),
        r matches Err(at) ==> at <= s.len(),
    decreases s.len() - p, 2int,
{
    let a: usize = space_end(s, p);
    proof {
        reveal_strlit("NOT");
    }
    if has_word(s, a, "NOT") {
        let b: usize = space_end(s, a + 3);
        match parse_primary(s, b) {
            Ok((inner, q)) => Ok((Expr::Not(Box::new(inner)), q)),
            Err(at) => Err(at),
        }
    } else {
        parse_primary(s, a)
    }
}

fn parse_primary(s: &Vec<char>, p: usize) -> (r: Result<(Expr, usize), usize>)
    requires
        p <= s.len(),
    ensures
        expr_result(r) == primary_at(s@, p as int),
        r matches Ok((_, q)) ==> p < q <= s.len(),
        r matches Err(at) ==> at <= s.len(),
    decreases s.len() - p, 1int,
{
    proof {
        reveal_strlit("attributes:");
        reveal_strlit(")");
    }
    if has_word(s, p, "attributes.") {
        return parse_comparison(s, p);
    }
    if has_word(s, p, "attributes:") {
        return match parse_key(s, p + 11) {
            Ok((attr, q)) => Ok((Expr::HasAttr { attr }, q)),
            Err(at) => Err(at),
        };
    }
    if has_word(s, p, "hasPrefix") {
        return parse_function(s, p);
    }
    if p < s.len() && s[p] == '(' {
        match parse_expr(s, p + 1) {
            Ok((inner, q)) => {
                let close: usize = space_end(s, q);
                if has_word(s, close, ")") {
                    Ok((inner, close + 1))
                } else {
                    Err(close)
                }
            },
            Err(at) => Err(at),
        }
    } else {
        Err(p)
    }
}

fn stopped(at: usize) -> (e: Error)
    requires
        at < usize::MAX,
    ensures
        e@ == error::invalid_argument("filter"@, syntax_error(at as int)),
{
    let place = text::u64_text(at as u64 + 1);
    invalid("filter", text::cat2("syntax error: at character ", place.as_str()))
}

/// Parses the text of a filter. An empty or blank text is not a filter.
pub fn parse(input: &str) -> (r: Result<Expr, Error>)
    ensures
        match filter_error(input@) {
            Some(e) => r is Err && r->Err_0@ == e,
            None => r is Ok && filter_expr(input@) == Some(r->Ok_0@),
        },
{
    let s = text::chars_of(input);
    if s.len() > MAX_FILTER_CHARS {
        return Err(invalid("filter", String::from_str("filter exceeds the 256-character limit")));
    }
    match parse_expr(&s, 0) {
        Ok((e, q)) => {
            let end: usize = space_end(&s, q);
            if end == s.len() {
                Ok(e)
            } else {
                Err(stopped(end))
            }
        },
        Err(at) => Err(stopped(at)),
    }
}

} // verus!
