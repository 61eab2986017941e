//! The language of filters: how a filter is written, and what it then says. Parsing a text gives what
//! a way of writing it says, exactly when there is one.

use crate::filter::ast::{CompareOp, ExprView};
use crate::filter::eval;
use crate::filter::parser;
use crate::string_map::Entries;
use vstd::prelude::*;

verus! {

/// One character of a string, as it is written.
pub enum Part {
    /// Itself.
    Plain(char),
    /// `\"`
    Quote,
    /// `\\`
    Backslash,
    /// `\n`
    Newline,
    /// `\t`
    Tab,
    /// `\u` and four hexadecimal digits.
    Unicode(char, char, char, char),
}

/// The key of an attribute, as it is written.
pub enum Key {
    /// An identifier.
    Word(Seq<char>),
    /// A string.
    Quoted(Seq<Part>),
}

/// A part of a filter, as it is written, with all white space.
pub enum Syntax {
    /// `attributes.key = "value"`, or with `!=`.
    Compare { key: Key, before: Seq<char>, unequal: bool, after: Seq<char>, value: Seq<Part> },
    /// `attributes:key`
    Has { key: Key },
    /// `hasPrefix(attributes.key, "value")`
    Prefix {
        open: Seq<char>,
        inside: Seq<char>,
        key: Key,
        before: Seq<char>,
        after: Seq<char>,
        value: Seq<Part>,
        close: Seq<char>,
    },
    /// `(filter)`
    Group { inner: Box<Syntax>, close: Seq<char> },
    /// One of these, with or without `NOT`.
    Operand { lead: Seq<char>, not: Option<Seq<char>>, of: Box<Syntax> },
    /// Operands joined by `AND` or by `OR`.
    Chain { conjunction: bool, operands: Seq<Syntax>, gaps: Seq<Seq<char>> },
}

/// The value of a hexadecimal digit.
pub open spec fn digit(c: char) -> Option<nat> {
    if 48 <= c as nat <= 57 {
        Some((c as nat - 48) as nat)
    } else if 97 <= c as nat <= 102 {
        Some((c as nat - 87) as nat)
    } else if 65 <= c as nat <= 70 {
        Some((c as nat - 55) as nat)
    } else {
        None
    }
}

/// The number that four hexadecimal digits give.
pub open spec fn number(a: char, b: char, c: char, d: char) -> nat {
    (digit(a)->0) * 4096 + (digit(b)->0) * 256 + (digit(c)->0) * 16 + (digit(d)->0)
}

/// A character can be written so.
pub open spec fn part_ok(p: Part) -> bool {
    match p {
        Part::Plain(c) => c != '"' && c != '\\',
        Part::Unicode(a, b, c, d) => {
            &&& digit(a) is Some
            &&& digit(b) is Some
            &&& digit(c) is Some
            &&& digit(d) is Some
            &&& !(0xd800 <= number(a, b, c, d) <= 0xdfff)
        },
        _ => true,
    }
}

/// How a character is written.
pub open spec fn part_text(p: Part) -> Seq<char> {
    match p {
        Part::Plain(c) => seq![c],
        Part::Quote => seq!['\\', '"'],
        Part::Backslash => seq!['\\', '\\'],
        Part::Newline => seq!['\\', 'n'],
        Part::Tab => seq!['\\', 't'],
        Part::Unicode(a, b, c, d) => seq!['\\', 'u', a, b, c, d],
    }
}

/// The character that is written so.
pub open spec fn part_char(p: Part) -> char {
    match p {
        Part::Plain(c) => c,
        Part::Quote => '"',
        Part::Backslash => '\\',
        Part::Newline => '\n',
        Part::Tab => '\t',
        Part::Unicode(a, b, c, d) => (number(a, b, c, d) as u32) as char,
    }
}

/// The characters of a string can be written so.
pub open spec fn parts_ok(parts: Seq<Part>) -> bool {
    forall|i: int| 0 <= i < parts.len() ==> part_ok(#[trigger] parts[i])
}

/// How the characters of a string are written.
pub open spec fn parts_text(parts: Seq<Part>) -> Seq<char>
    decreases parts.len(),
{
    if parts.len() == 0 {
        Seq::empty()
    } else {
        part_text(parts[0]) + parts_text(parts.drop_first())
    }
}

/// The string that is written so.
pub open spec fn parts_value(parts: Seq<Part>) -> Seq<char> {
    Seq::new(parts.len(), |i: int| part_char(parts[i]))
}

/// How a string is written.
pub open spec fn quoted(parts: Seq<Part>) -> Seq<char> {
    seq!['"'] + (parts_text(parts) + seq!['"'])
}

/// A character that an identifier can start with.
pub open spec fn starts_word(c: char) -> bool {
    ('a' <= c && c <= 'z') || ('A' <= c && c <= 'Z') || c == '_'
}

/// A character that an identifier can hold.
pub open spec fn in_word(c: char) -> bool {
    starts_word(c) || ('0' <= c && c <= '9') || c == '-'
}

/// A key can be written so.
pub open spec fn key_ok(key: Key) -> bool {
    match key {
        Key::Word(w) => {
            &&& w.len() > 0
            &&& starts_word(w[0])
            &&& forall|i: int| 0 <= i < w.len() ==> in_word(#[trigger] w[i])
        },
        Key::Quoted(parts) => parts_ok(parts),
    }
}

/// How a key is written.
pub open spec fn key_text(key: Key) -> Seq<char> {
    match key {
        Key::Word(w) => w,
        Key::Quoted(parts) => quoted(parts),
    }
}

/// The key that is written so.
pub open spec fn key_value(key: Key) -> Seq<char> {
    match key {
        Key::Word(w) => w,
        Key::Quoted(parts) => parts_value(parts),
    }
}

/// White space, or nothing.
pub open spec fn is_gap(gap: Seq<char>) -> bool {
    forall|i: int|
        0 <= i < gap.len() ==> {
            ||| #[trigger] gap[i] == ' '
            ||| gap[i] == '\t'
            ||| gap[i] == '\n'
            ||| gap[i] == '\r'
        }
}

/// A filter ends in an identifier, which what follows must be parted from.
pub open spec fn ends_in_word(x: Syntax) -> bool {
    x matches Syntax::Operand { of, .. } && *of matches Syntax::Has { key } && key is Word
}

/// A filter can be written so.
pub open spec fn syntax_ok(x: Syntax) -> bool
    decreases x, 0nat,
{
    match x {
        Syntax::Compare { key, before, unequal, after, value } => {
            &&& key_ok(key)
            &&& is_gap(before)
            &&& is_gap(after)
            &&& parts_ok(value)
        },
        Syntax::Has { key } => key_ok(key),
        Syntax::Prefix { open, inside, key, before, after, value, close } => {
            &&& is_gap(open)
            &&& is_gap(inside)
            &&& key_ok(key)
            &&& is_gap(before)
            &&& is_gap(after)
            &&& parts_ok(value)
            &&& is_gap(close)
        },
        Syntax::Group { inner, close } => {
            &&& *inner is Operand || *inner is Chain
            &&& syntax_ok(*inner)
            &&& is_gap(close)
        },
        Syntax::Operand { lead, not, of } => {
            &&& is_gap(lead)
            &&& not matches Some(gap) ==> is_gap(gap)
            &&& !(*of is Operand) && !(*of is Chain)
            &&& syntax_ok(*of)
        },
        Syntax::Chain { conjunction, operands, gaps } => {
            &&& operands.len() >= 2
            &&& gaps.len() == operands.len() - 1
            &&& operands_ok(operands, operands.len())
            &&& forall|i: int| 0 <= i < gaps.len() ==> is_gap(#[trigger] gaps[i])
            &&& forall|i: int|
                0 <= i < gaps.len() && ends_in_word(operands[i]) ==> (#[trigger] gaps[i]).len() > 0
        },
    }
}

/// The first `n` operands can be written so.
pub open spec fn operands_ok(operands: Seq<Syntax>, n: nat) -> bool
    decreases operands, n,
{
    if n == 0 || n > operands.len() {
        n == 0
    } else {
        &&& operands_ok(operands, (n - 1) as nat)
        &&& operands[n - 1] is Operand
        &&& syntax_ok(operands[n - 1])
    }
}

/// `AND` or `OR`.
pub open spec fn joint(conjunction: bool) -> Seq<char> {
    if conjunction {
        seq!['A', 'N', 'D']
    } else {
        seq!['O', 'R']
    }
}

/// How a filter is written.
pub open spec fn syntax_text(x: Syntax) -> Seq<char>
    decreases x, 0nat,
{
    match x {
        Syntax::Compare { key, before, unequal, after, value } => "attributes."@ + (key_text(key) + (
        before + ((if unequal {
            seq!['!', '=']
        } else {
            seq!['=']
        }) + (after + quoted(value))))),
        Syntax::Has { key } => "attributes:"@ + key_text(key),
        Syntax::Prefix { open, inside, key, before, after, value, close } => "hasPrefix"@ + (open
            + (seq!['('] + (inside + ("attributes."@ + (key_text(key) + (before + (seq![','] + (
        after + (quoted(value) + (close + seq![')'])))))))))),
        Syntax::Group { inner, close } => seq!['('] + (syntax_text(*inner) + (close + seq![')'])),
        Syntax::Operand { lead, not, of } => match not {
            Some(gap) => lead + (seq!['N', 'O', 'T'] + (gap + syntax_text(*of))),
            None => lead + syntax_text(*of),
        },
        Syntax::Chain { conjunction, operands, gaps } => chain_text(
            conjunction,
            operands,
            gaps,
            operands.len(),
        ),
    }
}

/// How the first `n` operands of a chain are written.
pub open spec fn chain_text(
    conjunction: bool,
    operands: Seq<Syntax>,
    gaps: Seq<Seq<char>>,
    n: nat,
) -> Seq<char>
    decreases operands, n,
{
    if n == 0 || n > operands.len() {
        Seq::empty()
    } else if n == 1 {
        syntax_text(operands[0])
    } else {
        chain_text(conjunction, operands, gaps, (n - 1) as nat) + (gaps[n - 2] + (joint(conjunction)
            + syntax_text(operands[n - 1])))
    }
}

/// What a filter that is written so says.
pub open spec fn meaning(x: Syntax) -> ExprView
    decreases x, 0nat,
{
    match x {
        Syntax::Compare { key, before, unequal, after, value } => ExprView::Compare {
            attr: key_value(key),
            op: if unequal {
                CompareOp::Ne
            } else {
                CompareOp::Eq
            },
            value: parts_value(value),
        },
        Syntax::Has { key } => ExprView::HasAttr { attr: key_value(key) },
        Syntax::Prefix { open, inside, key, before, after, value, close } => ExprView::HasPrefix {
            attr: key_value(key),
            prefix: parts_value(value),
        },
        Syntax::Group { inner, close } => meaning(*inner),
        Syntax::Operand { lead, not, of } => match not {
            Some(_) => ExprView::Not(Box::new(meaning(*of))),
            None => meaning(*of),
        },
        Syntax::Chain { conjunction, operands, gaps } => if conjunction {
            ExprView::And(meanings(operands, operands.len()))
        } else {
            ExprView::Or(meanings(operands, operands.len()))
        },
    }
}

/// What the first `n` operands say.
pub open spec fn meanings(operands: Seq<Syntax>, n: nat) -> Seq<ExprView>
    decreases operands, n,
{
    if n == 0 || n > operands.len() {
        Seq::empty()
    } else {
        meanings(operands, (n - 1) as nat).push(meaning(operands[n - 1]))
    }
}

proof fn lemma_word_parts(s: Seq<char>, p: int, a: Seq<char>, b: Seq<char>)
    requires
        parser::word_at(s, p, a + b),
    ensures
        parser::word_at(s, p, a),
        parser::word_at(s, p + a.len(), b),
        forall|i: int| 0 <= i < a.len() ==> s[p + i] == #[trigger] a[i],
{
    let all = s.subrange(p, p + (a + b).len());
    assert(s.subrange(p, p + a.len()) =~= all.take(a.len() as int));
    assert((a + b).take(a.len() as int) =~= a);
    assert(s.subrange(p + a.len(), p + a.len() + b.len()) =~= all.skip(a.len() as int));
    assert((a + b).skip(a.len() as int) =~= b);
    assert forall|i: int| 0 <= i < a.len() implies s[p + i] == #[trigger] a[i] by {
        assert(all[i] == (a + b)[i]);
    }
}

proof fn lemma_word_chars(s: Seq<char>, p: int, a: Seq<char>)
    ensures
        parser::word_at(s, p, a) <==> 0 <= p && p + a.len() <= s.len() && forall|i: int|
            0 <= i < a.len() ==> s[p + i] == #[trigger] a[i],
{
    if parser::word_at(s, p, a) {
        let all = s.subrange(p, p + a.len());
        assert forall|i: int| 0 <= i < a.len() implies s[p + i] == #[trigger] a[i] by {
            assert(all[i] == a[i]);
        }
    }
    if 0 <= p && p + a.len() <= s.len() && forall|i: int|
        0 <= i < a.len() ==> s[p + i] == #[trigger] a[i] {
        assert(s.subrange(p, p + a.len()) =~= a);
    }
}

proof fn lemma_gap(s: Seq<char>, p: int, gap: Seq<char>)
    requires
        parser::word_at(s, p, gap),
        is_gap(gap),
        p + gap.len() < s.len() ==> !parser::is_space(s[p + gap.len()]),
    ensures
        parser::skip_space(s, p) == p + gap.len(),
    decreases gap.len(),
{
    lemma_word_chars(s, p, gap);
    if gap.len() > 0 {
        let rest = gap.drop_first();
        assert(gap[0] == s[p + 0]);
        assert forall|i: int| 0 <= i < rest.len() implies s[p + 1 + i] == #[trigger] rest[i] by {
            assert(rest[i] == gap[i + 1]);
        }
        lemma_word_chars(s, p + 1, rest);
        lemma_gap(s, p + 1, rest);
    }
}

proof fn lemma_hex(c: char)
    ensures
        parser::hex_value(c) == digit(c),
{
}

proof fn lemma_string_rest(s: Seq<char>, p: int, start: Seq<char>, parts: Seq<Part>)
    requires
        parts_ok(parts),
        parser::word_at(s, p, parts_text(parts) + seq!['"']),
    ensures
        parser::string_rest(s, p, start) == Ok::<_, int>(
            (start + parts_value(parts), p + parts_text(parts).len() + 1),
        ),
    decreases parts.len(),
{
    if parts.len() == 0 {
        assert(parts_text(parts) + seq!['"'] =~= seq!['"']);
        lemma_word_chars(s, p, seq!['"']);
        assert(s[p + 0] == seq!['"'][0]);
        assert(start + parts_value(parts) =~= start);
    } else {
        let first = part_text(parts[0]);
        let rest = parts.drop_first();
        let c = part_char(parts[0]);
        assert(part_ok(parts[0]));
        assert(parts_text(parts) + seq!['"'] =~= first + (parts_text(rest) + seq!['"']));
        lemma_word_parts(s, p, first, parts_text(rest) + seq!['"']);
        assert forall|i: int| 0 <= i < rest.len() implies part_ok(#[trigger] rest[i]) by {
            assert(rest[i] == parts[i + 1]);
        }
        lemma_string_rest(s, p + first.len(), start.push(c), rest);
        assert(start.push(c) + parts_value(rest) =~= start + parts_value(parts)) by {
            assert forall|i: int| 0 <= i < rest.len() implies parts_value(rest)[i]
                == parts_value(parts)[i + 1] by {
                assert(rest[i] == parts[i + 1]);
            }
        }
        assert(s[p + 0] == first[0]);
        match parts[0] {
            Part::Plain(_) => {},
            Part::Unicode(a, b, d, e) => {
                assert(s[p + 1] == first[1]);
                assert(s[p + 2] == first[2]);
                assert(s[p + 3] == first[3]);
                assert(s[p + 4] == first[4]);
                assert(s[p + 5] == first[5]);
                lemma_hex(a);
                lemma_hex(b);
                lemma_hex(d);
                lemma_hex(e);
                assert(parser::unicode_at(s, p + 2) == Some(c));
                assert(parser::escape_at(s, p + 1) == Some((c, p + 6)));
            },
            _ => {
                assert(s[p + 1] == first[1]);
                assert(parser::escape_at(s, p + 1) == Some((c, p + 2)));
            },
        }
    }
}

proof fn lemma_string(s: Seq<char>, p: int, parts: Seq<Part>)
    requires
        parts_ok(parts),
        parser::word_at(s, p, quoted(parts)),
    ensures
        parser::string_at(s, p) == Ok::<_, int>((parts_value(parts), p + quoted(parts).len())),
        s[p] == '"',
{
    lemma_word_parts(s, p, seq!['"'], parts_text(parts) + seq!['"']);
    assert(s[p + 0] == seq!['"'][0]);
    lemma_string_rest(s, p + 1, Seq::empty(), parts);
    assert(Seq::<char>::empty() + parts_value(parts) =~= parts_value(parts));
}

proof fn lemma_identifier_end(s: Seq<char>, p: int, q: int)
    requires
        0 <= p <= q <= s.len(),
        forall|i: int| p <= i < q ==> in_word(#[trigger] s[i]),
        q < s.len() ==> !in_word(s[q]),
    ensures
        parser::identifier_end(s, p) == q,
    decreases q - p,
{
    if p < q {
        assert(in_word(s[p]));
        lemma_identifier_end(s, p + 1, q);
    }
}

proof fn lemma_key(s: Seq<char>, p: int, key: Key)
    requires
        key_ok(key),
        parser::word_at(s, p, key_text(key)),
        key is Word && p + key_text(key).len() < s.len() ==> !in_word(s[p + key_text(key).len()]),
    ensures
        parser::key_at(s, p) == Ok::<_, int>((key_value(key), p + key_text(key).len())),
{
    match key {
        Key::Word(w) => {
            lemma_word_chars(s, p, w);
            assert(s[p + 0] == w[0]);
            assert forall|i: int| p + 1 <= i < p + w.len() implies in_word(#[trigger] s[i]) by {
                assert(s[p + (i - p)] == w[i - p]);
            }
            lemma_identifier_end(s, p + 1, p + w.len());
        },
        Key::Quoted(parts) => {
            lemma_string(s, p, parts);
        },
    }
}

proof fn lemma_attribute(s: Seq<char>, p: int, key: Key, rest: Seq<char>)
    requires
        key_ok(key),
        parser::word_at(s, p, "attributes."@ + (key_text(key) + rest)),
        rest.len() > 0,
        !in_word(rest[0]),
    ensures
        parser::attribute_at(s, p) == Ok::<_, int>((key_value(key), p + 11 + key_text(key).len())),
        parser::word_at(s, p + 11 + key_text(key).len(), rest),
{
    reveal_strlit("attributes.");
    lemma_word_parts(s, p, "attributes."@, key_text(key) + rest);
    lemma_word_parts(s, p + 11, key_text(key), rest);
    lemma_word_chars(s, p + 11 + key_text(key).len(), rest);
    assert(s[p + 11 + key_text(key).len() + 0] == rest[0]);
    lemma_key(s, p + 11, key);
}

proof fn lemma_gap_then(s: Seq<char>, p: int, gap: Seq<char>, rest: Seq<char>)
    requires
        is_gap(gap),
        parser::word_at(s, p, gap + rest),
        rest.len() > 0,
        !parser::is_space(rest[0]),
    ensures
        parser::skip_space(s, p) == p + gap.len(),
        parser::word_at(s, p + gap.len(), rest),
        s[p + gap.len()] == rest[0],
{
    lemma_word_parts(s, p, gap, rest);
    lemma_word_chars(s, p + gap.len(), rest);
    assert(s[p + gap.len() + 0] == rest[0]);
    lemma_gap(s, p, gap);
}

proof fn lemma_compare(s: Seq<char>, p: int, x: Syntax)
    requires
        x is Compare,
        syntax_ok(x),
        parser::word_at(s, p, syntax_text(x)),
    ensures
        parser::primary_at(s, p) == Ok::<_, int>((meaning(x), p + syntax_text(x).len())),
{
    if let Syntax::Compare { key, before, unequal, after, value } = x {
        let op = if unequal {
            seq!['!', '=']
        } else {
            seq!['=']
        };
        let tail = after + quoted(value);
        let rest = before + (op + tail);
        assert(rest[0] == if before.len() > 0 {
            before[0]
        } else {
            op[0]
        });
        reveal_strlit("attributes.");
        reveal_strlit("=");
        reveal_strlit("!=");
        lemma_attribute(s, p, key, rest);
        lemma_word_parts(s, p, "attributes."@, key_text(key) + rest);
        let q = p + 11 + key_text(key).len();
        assert((op + tail)[0] == op[0]);
        lemma_gap_then(s, q, before, op + tail);
        let r = q + before.len();
        lemma_word_parts(s, r, op, tail);
        assert(quoted(value)[0] == '"');
        lemma_gap_then(s, r + op.len(), after, quoted(value));
        lemma_string(s, r + op.len() + after.len(), value);
        if unequal {
            assert("!="@ =~= op);
            lemma_word_chars(s, r, "="@);
            assert("="@[0] != s[r + 0]);
        } else {
            assert("="@ =~= op);
        }
        assert(parser::comparison_at(s, p) == Ok::<_, int>(
            (meaning(x), p + syntax_text(x).len()),
        ));
    }
}

proof fn lemma_has(s: Seq<char>, p: int, x: Syntax)
    requires
        x matches Syntax::Has { key } && (key is Word && p + syntax_text(x).len() < s.len()
            ==> !in_word(s[p + syntax_text(x).len()])),
        syntax_ok(x),
        parser::word_at(s, p, syntax_text(x)),
    ensures
        parser::primary_at(s, p) == Ok::<_, int>((meaning(x), p + syntax_text(x).len())),
{
    if let Syntax::Has { key } = x {
        reveal_strlit("attributes.");
        reveal_strlit("attributes:");
        lemma_word_parts(s, p, "attributes:"@, key_text(key));
        lemma_word_chars(s, p, "attributes."@);
        assert("attributes:"@[10] == s[p + 10]);
        assert("attributes."@[10] != s[p + 10]);
        lemma_key(s, p + 11, key);
    }
}

proof fn lemma_prefix(s: Seq<char>, p: int, x: Syntax)
    requires
        x is Prefix,
        syntax_ok(x),
        parser::word_at(s, p, syntax_text(x)),
    ensures
        parser::primary_at(s, p) == Ok::<_, int>((meaning(x), p + syntax_text(x).len())),
{
    if let Syntax::Prefix { open, inside, key, before, after, value, close } = x {
        reveal_strlit("attributes.");
        reveal_strlit("attributes:");
        reveal_strlit("hasPrefix");
        reveal_strlit("(");
        reveal_strlit(")");
        reveal_strlit(",");
        let e = close + seq![')'];
        let d = quoted(value) + e;
        let c = before + (seq![','] + (after + d));
        let b = "attributes."@ + (key_text(key) + c);
        let a = seq!['('] + (inside + b);
        lemma_word_parts(s, p, "hasPrefix"@, open + a);
        lemma_word_chars(s, p, "attributes."@);
        lemma_word_chars(s, p, "attributes:"@);
        assert("hasPrefix"@[0] == s[p + 0]);
        assert("attributes."@[0] != s[p + 0]);
        assert("attributes:"@[0] != s[p + 0]);
        assert(a[0] == '(');
        lemma_gap_then(s, p + 9, open, a);
        let at = p + 9 + open.len();
        assert("("@ =~= seq!['(']);
        lemma_word_parts(s, at, seq!['('], inside + b);
        assert(b[0] == 'a');
        lemma_gap_then(s, at + 1, inside, b);
        let from = at + 1 + inside.len();
        assert(c[0] == if before.len() > 0 {
            before[0]
        } else {
            ','
        });
        lemma_attribute(s, from, key, c);
        let q = from + 11 + key_text(key).len();
        let rest = seq![','] + (after + d);
        assert(rest[0] == ',');
        lemma_gap_then(s, q, before, rest);
        let comma = q + before.len();
        assert(","@ =~= seq![',']);
        lemma_word_parts(s, comma, seq![','], after + d);
        assert(d[0] == '"');
        lemma_gap_then(s, comma + 1, after, d);
        let r = comma + 1 + after.len();
        lemma_word_parts(s, r, quoted(value), e);
        lemma_string(s, r, value);
        assert(seq![')'][0] == ')');
        lemma_gap_then(s, r + quoted(value).len(), close, seq![')']);
        assert(")"@ =~= seq![')']);
        assert(parser::function_at(s, p) == Ok::<_, int>((meaning(x), p + syntax_text(x).len())));
    }
}

/// Behind a position stands nothing but white space, or then a closing parenthesis.
spec fn closes(s: Seq<char>, p: int) -> bool {
    let a = parser::skip_space(s, p);
    0 <= p <= a <= s.len() && (a == s.len() || s[a] == ')')
}

proof fn lemma_closes(s: Seq<char>, p: int)
    requires
        closes(s, p),
    ensures
        p < s.len() ==> !in_word(s[p]),
        !parser::word_at(s, parser::skip_space(s, p), "AND"@),
        !parser::word_at(s, parser::skip_space(s, p), "OR"@),
{
    reveal_strlit("AND");
    reveal_strlit("OR");
    let a = parser::skip_space(s, p);
    lemma_word_chars(s, a, "AND"@);
    lemma_word_chars(s, a, "OR"@);
    if a < s.len() {
        assert("AND"@[0] != s[a + 0]);
        assert("OR"@[0] != s[a + 0]);
    }
}

/// The first character of what is written.
proof fn lemma_first_char(x: Syntax)
    requires
        syntax_ok(x),
        !(x is Operand),
        !(x is Chain),
    ensures
        syntax_text(x).len() > 0,
        syntax_text(x)[0] == 'a' || syntax_text(x)[0] == 'h' || syntax_text(x)[0] == '(',
{
    reveal_strlit("attributes.");
    reveal_strlit("attributes:");
    reveal_strlit("hasPrefix");
}

proof fn lemma_primary(s: Seq<char>, p: int, x: Syntax)
    requires
        !(x is Operand),
        !(x is Chain),
        syntax_ok(x),
        parser::word_at(s, p, syntax_text(x)),
        x matches Syntax::Has { key } && key is Word && p + syntax_text(x).len() < s.len()
            ==> !in_word(s[p + syntax_text(x).len()]),
    ensures
        parser::primary_at(s, p) == Ok::<_, int>((meaning(x), p + syntax_text(x).len())),
    decreases x, 1nat,
{
    match x {
        Syntax::Compare { .. } => {
            lemma_compare(s, p, x);
        },
        Syntax::Has { .. } => {
            lemma_has(s, p, x);
        },
        Syntax::Prefix { .. } => {
            lemma_prefix(s, p, x);
        },
        Syntax::Group { inner, close } => {
            reveal_strlit("attributes.");
            reveal_strlit("attributes:");
            reveal_strlit("hasPrefix");
            reveal_strlit(")");
            let t = syntax_text(*inner);
            lemma_word_parts(s, p, seq!['('], t + (close + seq![')']));
            assert(s[p + 0] == seq!['('][0]);
            lemma_word_chars(s, p, "attributes."@);
            lemma_word_chars(s, p, "attributes:"@);
            lemma_word_chars(s, p, "hasPrefix"@);
            assert("attributes."@[0] != s[p + 0]);
            assert("attributes:"@[0] != s[p + 0]);
            assert("hasPrefix"@[0] != s[p + 0]);
            lemma_word_parts(s, p + 1, t, close + seq![')']);
            let q = p + 1 + t.len();
            assert(seq![')'][0] == ')');
            lemma_gap_then(s, q, close, seq![')']);
            assert(")"@ =~= seq![')']);
            lemma_expr(s, p + 1, *inner);
        },
        _ => {},
    }
}

proof fn lemma_operand(s: Seq<char>, p: int, x: Syntax)
    requires
        x is Operand,
        syntax_ok(x),
        parser::word_at(s, p, syntax_text(x)),
        ends_in_word(x) && p + syntax_text(x).len() < s.len() ==> !in_word(
            s[p + syntax_text(x).len()],
        ),
    ensures
        parser::unary_at(s, p) == Ok::<_, int>((meaning(x), p + syntax_text(x).len())),
        syntax_text(x).len() > 0,
    decreases x, 0nat,
{
    if let Syntax::Operand { lead, not, of } = x {
        reveal_strlit("NOT");
        lemma_first_char(*of);
        let t = syntax_text(*of);
        match not {
            Some(gap) => {
                let word = seq!['N', 'O', 'T'];
                let rest = word + (gap + t);
                assert(rest[0] == 'N');
                lemma_gap_then(s, p, lead, rest);
                let a = p + lead.len();
                lemma_word_parts(s, a, word, gap + t);
                assert("NOT"@ =~= word);
                lemma_gap_then(s, a + 3, gap, t);
                lemma_primary(s, a + 3 + gap.len(), *of);
            },
            None => {
                lemma_gap_then(s, p, lead, t);
                lemma_word_chars(s, p + lead.len(), "NOT"@);
                assert("NOT"@[0] != s[p + lead.len() + 0]);
                lemma_primary(s, p + lead.len(), *of);
            },
        }
    }
}

proof fn lemma_operands_ok(operands: Seq<Syntax>, n: nat, i: int)
    requires
        operands_ok(operands, n),
        0 <= i < n,
    ensures
        n <= operands.len(),
        operands[i] is Operand,
        syntax_ok(operands[i]),
        operands_ok(operands, i as nat),
    decreases n,
{
    if i < n - 1 {
        lemma_operands_ok(operands, (n - 1) as nat, i);
    }
}

/// Where the first `n` operands of a chain end.
spec fn chain_end(
    p: int,
    conjunction: bool,
    operands: Seq<Syntax>,
    gaps: Seq<Seq<char>>,
    n: nat,
) -> int {
    p + chain_text(conjunction, operands, gaps, n).len()
}

proof fn lemma_chain_text(
    s: Seq<char>,
    p: int,
    conjunction: bool,
    operands: Seq<Syntax>,
    gaps: Seq<Seq<char>>,
    m: nat,
    n: nat,
)
    requires
        1 <= m <= n <= operands.len(),
        parser::word_at(s, p, chain_text(conjunction, operands, gaps, n)),
    ensures
        parser::word_at(s, p, chain_text(conjunction, operands, gaps, m)),
        m < n ==> parser::word_at(
            s,
            chain_end(p, conjunction, operands, gaps, m),
            gaps[m - 1] + (joint(conjunction) + syntax_text(operands[m as int])),
        ),
    decreases n,
{
    if m < n {
        let before = chain_text(conjunction, operands, gaps, (n - 1) as nat);
        let last = gaps[n - 2] + (joint(conjunction) + syntax_text(operands[n - 1]));
        lemma_word_parts(s, p, before, last);
        lemma_chain_text(s, p, conjunction, operands, gaps, m, (n - 1) as nat);
    }
}

proof fn lemma_chain(
    s: Seq<char>,
    p: int,
    conjunction: bool,
    operands: Seq<Syntax>,
    gaps: Seq<Seq<char>>,
    n: nat,
)
    requires
        syntax_ok(Syntax::Chain { conjunction, operands, gaps }),
        1 <= n <= operands.len(),
        parser::word_at(s, p, chain_text(conjunction, operands, gaps, operands.len())),
        closes(s, chain_end(p, conjunction, operands, gaps, operands.len())),
    ensures
        parser::chain_at(
            s,
            chain_end(p, conjunction, operands, gaps, n),
            conjunction,
            meanings(operands, n),
        ) == Ok::<_, int>(
            (
                meanings(operands, operands.len()),
                chain_end(p, conjunction, operands, gaps, operands.len()),
            ),
        ),
        n < operands.len() ==> parser::word_at(
            s,
            parser::skip_space(s, chain_end(p, conjunction, operands, gaps, n)),
            parser::chain_word(conjunction),
        ),
    decreases operands, operands.len() - n,
{
    reveal_strlit("AND");
    reveal_strlit("OR");
    let here = chain_end(p, conjunction, operands, gaps, n);
    let word = joint(conjunction);
    assert(parser::chain_word(conjunction) =~= word);
    assert(operands_ok(operands, operands.len())) by {
        reveal_with_fuel(syntax_ok, 2);
    }
    lemma_chain_text(s, p, conjunction, operands, gaps, n, operands.len());
    lemma_word_chars(s, p, chain_text(conjunction, operands, gaps, n));
    if n == operands.len() {
        lemma_closes(s, here);
    } else {
        let x = operands[n as int];
        let t = syntax_text(x);
        let gap = gaps[n - 1];
        lemma_operands_ok(operands, operands.len(), n as int);
        assert(is_gap(gap));
        assert((word + t)[0] == word[0]);
        lemma_gap_then(s, here, gap, word + t);
        let behind = here + gap.len() + word.len();
        lemma_word_parts(s, here + gap.len(), word, t);
        let next = chain_end(p, conjunction, operands, gaps, n + 1);
        assert(next == behind + t.len());
        if n + 1 < operands.len() {
            lemma_chain_text(s, p, conjunction, operands, gaps, n + 1, operands.len());
            let after = gaps[n as int] + (word + syntax_text(operands[(n + 1) as int]));
            lemma_word_chars(s, next, after);
            assert(s[next + 0] == after[0]);
            assert(is_gap(gaps[n as int]));
            if ends_in_word(x) {
                assert(gaps[n as int].len() > 0);
                assert(after[0] == gaps[n as int][0]);
            }
        } else {
            lemma_closes(s, next);
        }
        lemma_operand(s, behind, x);
        lemma_chain(s, p, conjunction, operands, gaps, n + 1);
        lemma_word_chars(s, behind, t);
    }
}

proof fn lemma_joined(
    s: Seq<char>,
    p: int,
    conjunction: bool,
    first: ExprView,
    q: int,
    all: Seq<ExprView>,
    end: int,
)
    requires
        0 <= p < q <= s.len(),
        parser::unary_at(s, p) == Ok::<_, int>((first, q)),
        parser::word_at(s, parser::skip_space(s, q), parser::chain_word(conjunction)),
        parser::chain_at(s, q, conjunction, seq![first]) == Ok::<_, int>((all, end)),
    ensures
        parser::expr_at(s, p) == Ok::<_, int>(
            (
                if conjunction {
                    ExprView::And(all)
                } else {
                    ExprView::Or(all)
                },
                end,
            ),
        ),
{
    reveal_strlit("AND");
    reveal_strlit("OR");
    let a = parser::skip_space(s, q);
    if !conjunction {
        lemma_word_chars(s, a, "AND"@);
        lemma_word_chars(s, a, "OR"@);
        assert("OR"@[0] == s[a + 0]);
        assert("AND"@[0] != "OR"@[0]);
    }
}

#[verifier::spinoff_prover]
#[verifier::rlimit(30)]
proof fn lemma_expr(s: Seq<char>, p: int, x: Syntax)
    requires
        x is Operand || x is Chain,
        syntax_ok(x),
        parser::word_at(s, p, syntax_text(x)),
        closes(s, p + syntax_text(x).len()),
    ensures
        parser::expr_at(s, p) == Ok::<_, int>((meaning(x), p + syntax_text(x).len())),
    decreases x, 1nat,
{
    lemma_closes(s, p + syntax_text(x).len());
    match x {
        Syntax::Operand { .. } => {
            lemma_operand(s, p, x);
        },
        Syntax::Chain { conjunction, operands, gaps } => {
            reveal_strlit("AND");
            reveal_strlit("OR");
            let first = operands[0];
            let word = joint(conjunction);
            lemma_operands_ok(operands, operands.len(), 0);
            lemma_chain_text(s, p, conjunction, operands, gaps, 1, operands.len());
            let q = p + syntax_text(first).len();
            assert(q == chain_end(p, conjunction, operands, gaps, 1));
            let after = gaps[0] + (word + syntax_text(operands[1]));
            lemma_word_chars(s, q, after);
            assert(s[q + 0] == after[0]);
            assert(is_gap(gaps[0]));
            if ends_in_word(first) {
                assert(after[0] == gaps[0][0]);
            }
            lemma_operand(s, p, first);
            lemma_chain(s, p, conjunction, operands, gaps, 1);
            assert(meanings(operands, 1) =~= seq![meaning(first)]) by {
                reveal_with_fuel(meanings, 2);
            }
            lemma_word_chars(s, p, syntax_text(first));
            lemma_joined(
                s,
                p,
                conjunction,
                meaning(first),
                q,
                meanings(operands, operands.len()),
                p + syntax_text(x).len(),
            );
        },
        _ => {},
    }
}

proof fn lemma_join(s: Seq<char>, p: int, a: Seq<char>, b: Seq<char>)
    requires
        parser::word_at(s, p, a),
        parser::word_at(s, p + a.len(), b),
    ensures
        parser::word_at(s, p, a + b),
{
    lemma_word_chars(s, p, a);
    lemma_word_chars(s, p + a.len(), b);
    assert forall|i: int| 0 <= i < (a + b).len() implies s[p + i] == #[trigger] (a + b)[i] by {
        if i < a.len() {
            assert(s[p + i] == a[i]);
        } else {
            assert(s[p + a.len() + (i - a.len())] == b[i - a.len()]);
        }
    }
    lemma_word_chars(s, p, a + b);
}

proof fn lemma_char(s: Seq<char>, p: int, c: char)
    requires
        0 <= p < s.len(),
        s[p] == c,
    ensures
        parser::word_at(s, p, seq![c]),
{
    assert(s.subrange(p, p + 1) =~= seq![c]);
}

/// The white space from a position on.
proof fn gap_at(s: Seq<char>, p: int) -> (gap: Seq<char>)
    requires
        0 <= p <= s.len(),
    ensures
        is_gap(gap),
        parser::word_at(s, p, gap),
        parser::skip_space(s, p) == p + gap.len(),
    decreases s.len() - p,
{
    if p < s.len() && parser::is_space(s[p]) {
        let rest = gap_at(s, p + 1);
        lemma_char(s, p, s[p]);
        lemma_join(s, p, seq![s[p]], rest);
        let gap = seq![s[p]] + rest;
        assert forall|i: int| 0 <= i < gap.len() implies {
            ||| #[trigger] gap[i] == ' '
            ||| gap[i] == '\t'
            ||| gap[i] == '\n'
            ||| gap[i] == '\r'
        } by {
            if i > 0 {
                assert(gap[i] == rest[i - 1]);
            }
        }
        gap
    } else {
        assert(s.subrange(p, p) =~= Seq::<char>::empty());
        Seq::empty()
    }
}

proof fn one_more(
    s: Seq<char>,
    p: int,
    part: Part,
    rest: Seq<Part>,
    start: Seq<char>,
) -> (parts: Seq<Part>)
    requires
        part_ok(part),
        parts_ok(rest),
        parser::word_at(s, p, part_text(part)),
        parser::word_at(s, p + part_text(part).len(), parts_text(rest) + seq!['"']),
    ensures
        parts_ok(parts),
        parser::word_at(s, p, parts_text(parts) + seq!['"']),
        parts_text(parts).len() == part_text(part).len() + parts_text(rest).len(),
        start.push(part_char(part)) + parts_value(rest) == start + parts_value(parts),
{
    let all = seq![part] + rest;
    assert forall|i: int| 0 <= i < all.len() implies part_ok(#[trigger] all[i]) by {
        if i > 0 {
            assert(all[i] == rest[i - 1]);
        }
    }
    assert(all.drop_first() =~= rest);
    lemma_join(s, p, part_text(part), parts_text(rest) + seq!['"']);
    assert(part_text(part) + (parts_text(rest) + seq!['"']) =~= parts_text(all) + seq!['"']);
    assert(start.push(part_char(part)) + parts_value(rest) =~= start + parts_value(all));
    all
}

/// The character that is written at a position, and the step that reads it.
proof fn part_at(s: Seq<char>, p: int, start: Seq<char>) -> (part: Part)
    requires
        0 <= p < s.len(),
        s[p] != '"',
        parser::string_rest(s, p, start) is Ok,
    ensures
        part_ok(part),
        parser::word_at(s, p, part_text(part)),
        part_text(part).len() > 0,
        parser::string_rest(s, p, start) == parser::string_rest(
            s,
            p + part_text(part).len(),
            start.push(part_char(part)),
        ),
{
    let found = if s[p] == '\\' {
        if s[p + 1] == '"' {
            Part::Quote
        } else if s[p + 1] == '\\' {
            Part::Backslash
        } else if s[p + 1] == 'n' {
            Part::Newline
        } else if s[p + 1] == 't' {
            Part::Tab
        } else {
            Part::Unicode(s[p + 2], s[p + 3], s[p + 4], s[p + 5])
        }
    } else {
        Part::Plain(s[p])
    };
    let t = part_text(found);
    if found is Unicode {
        lemma_hex(s[p + 2]);
        lemma_hex(s[p + 3]);
        lemma_hex(s[p + 4]);
        lemma_hex(s[p + 5]);
    }
    assert forall|i: int| 0 <= i < t.len() implies s[p + i] == #[trigger] t[i] by {}
    lemma_word_chars(s, p, t);
    found
}

/// How the string is written whose rest was read.
proof fn parts_at(s: Seq<char>, p: int, start: Seq<char>) -> (parts: Seq<Part>)
    requires
        0 <= p,
        parser::string_rest(s, p, start) is Ok,
    ensures
        parts_ok(parts),
        parser::word_at(s, p, parts_text(parts) + seq!['"']),
        parser::string_rest(s, p, start) == Ok::<_, int>(
            (start + parts_value(parts), p + parts_text(parts).len() + 1),
        ),
    decreases s.len() - p,
{
    if s[p] == '"' {
        let none = Seq::<Part>::empty();
        lemma_char(s, p, '"');
        assert(parts_text(none) + seq!['"'] =~= seq!['"']);
        assert(start + parts_value(none) =~= start);
        none
    } else {
        let part = part_at(s, p, start);
        lemma_word_chars(s, p, part_text(part));
        let rest = parts_at(s, p + part_text(part).len(), start.push(part_char(part)));
        one_more(s, p, part, rest, start)
    }
}

/// How the string at a position is written.
proof fn string_parts(s: Seq<char>, p: int) -> (parts: Seq<Part>)
    requires
        parser::string_at(s, p) is Ok,
    ensures
        parts_ok(parts),
        parser::word_at(s, p, quoted(parts)),
        parser::string_at(s, p) == Ok::<_, int>((parts_value(parts), p + quoted(parts).len())),
{
    let parts = parts_at(s, p + 1, Seq::empty());
    lemma_char(s, p, '"');
    lemma_join(s, p, seq!['"'], parts_text(parts) + seq!['"']);
    assert(Seq::<char>::empty() + parts_value(parts) =~= parts_value(parts));
    parts
}

proof fn lemma_identifier_run(s: Seq<char>, p: int)
    requires
        0 <= p <= s.len(),
    ensures
        p <= parser::identifier_end(s, p) <= s.len(),
        forall|i: int| p <= i < parser::identifier_end(s, p) ==> in_word(#[trigger] s[i]),
        parser::identifier_end(s, p) < s.len() ==> !in_word(s[parser::identifier_end(s, p)]),
    decreases s.len() - p,
{
    if p < s.len() && parser::continues_identifier(s[p]) {
        lemma_identifier_run(s, p + 1);
    }
}

/// How the key at a position is written.
proof fn key_written(s: Seq<char>, p: int) -> (key: Key)
    requires
        parser::key_at(s, p) is Ok,
    ensures
        key_ok(key),
        parser::word_at(s, p, key_text(key)),
        parser::key_at(s, p) == Ok::<_, int>((key_value(key), p + key_text(key).len())),
        key is Word && p + key_text(key).len() < s.len() ==> !in_word(s[p + key_text(key).len()]),
{
    if parser::identifier_at(s, p) is Ok {
        lemma_identifier_run(s, p + 1);
        let q = parser::identifier_end(s, p + 1);
        let w = s.subrange(p, q);
        assert forall|i: int| 0 <= i < w.len() implies in_word(#[trigger] w[i]) by {
            assert(w[i] == s[p + i]);
        }
        Key::Word(w)
    } else {
        Key::Quoted(string_parts(s, p))
    }
}

/// How the comparison at a position is written.
proof fn compare_written(s: Seq<char>, p: int) -> (x: Syntax)
    requires
        parser::comparison_at(s, p) is Ok,
    ensures
        x is Compare,
        syntax_ok(x),
        parser::word_at(s, p, syntax_text(x)),
        parser::comparison_at(s, p) == Ok::<_, int>((meaning(x), p + syntax_text(x).len())),
{
    reveal_strlit("attributes.");
    reveal_strlit("=");
    reveal_strlit("!=");
    let key = key_written(s, p + 11);
    let q = p + 11 + key_text(key).len();
    lemma_word_chars(s, p + 11, key_text(key));
    let before = gap_at(s, q);
    let r = q + before.len();
    let unequal = !parser::word_at(s, r, "="@);
    let op = if unequal {
        seq!['!', '=']
    } else {
        seq!['=']
    };
    assert("="@ =~= seq!['=']);
    assert("!="@ =~= seq!['!', '=']);
    lemma_word_chars(s, r, op);
    let after = gap_at(s, r + op.len());
    let value = string_parts(s, r + op.len() + after.len());
    lemma_join(s, r + op.len(), after, quoted(value));
    lemma_join(s, r, op, after + quoted(value));
    lemma_join(s, q, before, op + (after + quoted(value)));
    lemma_join(s, p + 11, key_text(key), before + (op + (after + quoted(value))));
    lemma_join(
        s,
        p,
        "attributes."@,
        key_text(key) + (before + (op + (after + quoted(value)))),
    );
    Syntax::Compare { key, before, unequal, after, value }
}

/// How the `hasPrefix` call at a position is written.
proof fn prefix_written(s: Seq<char>, p: int) -> (x: Syntax)
    requires
        parser::word_at(s, p, "hasPrefix"@),
        parser::function_at(s, p) is Ok,
    ensures
        x is Prefix,
        syntax_ok(x),
        parser::word_at(s, p, syntax_text(x)),
        parser::function_at(s, p) == Ok::<_, int>((meaning(x), p + syntax_text(x).len())),
{
    reveal_strlit("attributes.");
    reveal_strlit("hasPrefix");
    reveal_strlit("(");
    reveal_strlit(")");
    reveal_strlit(",");
    assert("("@ =~= seq!['(']);
    assert(")"@ =~= seq![')']);
    assert(","@ =~= seq![',']);
    let open = gap_at(s, p + 9);
    let at = p + 9 + open.len();
    let inside = gap_at(s, at + 1);
    let from = at + 1 + inside.len();
    let key = key_written(s, from + 11);
    let q = from + 11 + key_text(key).len();
    lemma_word_chars(s, from + 11, key_text(key));
    let before = gap_at(s, q);
    let comma = q + before.len();
    let after = gap_at(s, comma + 1);
    let r = comma + 1 + after.len();
    let value = string_parts(s, r);
    lemma_word_chars(s, r, quoted(value));
    let end = r + quoted(value).len();
    let close = gap_at(s, end);
    let e = close + seq![')'];
    let d = quoted(value) + e;
    let c = before + (seq![','] + (after + d));
    let b = "attributes."@ + (key_text(key) + c);
    lemma_join(s, end, close, seq![')']);
    lemma_join(s, r, quoted(value), e);
    lemma_join(s, comma + 1, after, d);
    lemma_join(s, comma, seq![','], after + d);
    lemma_join(s, q, before, seq![','] + (after + d));
    lemma_join(s, from + 11, key_text(key), c);
    lemma_join(s, from, "attributes."@, key_text(key) + c);
    lemma_join(s, at + 1, inside, b);
    lemma_join(s, at, seq!['('], inside + b);
    lemma_join(s, p + 9, open, seq!['('] + (inside + b));
    lemma_join(s, p, "hasPrefix"@, open + (seq!['('] + (inside + b)));
    Syntax::Prefix { open, inside, key, before, after, value, close }
}

/// A part of a filter stands at a position, up to another.
spec fn is_written(s: Seq<char>, p: int, x: Syntax, e: ExprView, q: int) -> bool {
    &&& syntax_ok(x)
    &&& parser::word_at(s, p, syntax_text(x))
    &&& meaning(x) == e
    &&& q == p + syntax_text(x).len()
}

proof fn primary_written(s: Seq<char>, p: int) -> (x: Syntax)
    requires
        parser::primary_at(s, p) is Ok,
    ensures
        !(x is Operand),
        !(x is Chain),
        is_written(s, p, x, (parser::primary_at(s, p)->Ok_0).0, (parser::primary_at(s, p)->Ok_0).1),
        x matches Syntax::Has { key } && key is Word && p + syntax_text(x).len() < s.len()
            ==> !in_word(s[p + syntax_text(x).len()]),
        0 <= p,
        (parser::primary_at(s, p)->Ok_0).1 <= s.len(),
    decreases s.len() - p, 1int,
{
    reveal_strlit("attributes:");
    if parser::word_at(s, p, "attributes."@) {
        let x = compare_written(s, p);
        lemma_word_chars(s, p, syntax_text(x));
        x
    } else if parser::word_at(s, p, "attributes:"@) {
        let key = key_written(s, p + 11);
        lemma_join(s, p, "attributes:"@, key_text(key));
        let x = Syntax::Has { key };
        lemma_word_chars(s, p, syntax_text(x));
        x
    } else if parser::word_at(s, p, "hasPrefix"@) {
        let x = prefix_written(s, p);
        lemma_word_chars(s, p, syntax_text(x));
        x
    } else {
        reveal_strlit(")");
        let inner = expr_written(s, p + 1);
        let t = syntax_text(inner);
        let q = p + 1 + t.len();
        let close = gap_at(s, q);
        assert(")"@ =~= seq![')']);
        lemma_join(s, q, close, seq![')']);
        lemma_join(s, p + 1, t, close + seq![')']);
        lemma_char(s, p, '(');
        lemma_join(s, p, seq!['('], t + (close + seq![')']));
        let x = Syntax::Group { inner: Box::new(inner), close };
        lemma_word_chars(s, p, syntax_text(x));
        x
    }
}

proof fn operand_written(s: Seq<char>, p: int) -> (x: Syntax)
    requires
        0 <= p <= s.len(),
        parser::unary_at(s, p) is Ok,
    ensures
        x is Operand,
        is_written(s, p, x, (parser::unary_at(s, p)->Ok_0).0, (parser::unary_at(s, p)->Ok_0).1),
        ends_in_word(x) && p + syntax_text(x).len() < s.len() ==> !in_word(
            s[p + syntax_text(x).len()],
        ),
        p < (parser::unary_at(s, p)->Ok_0).1 <= s.len(),
    decreases s.len() - p, 2int,
{
    reveal_strlit("NOT");
    let lead = gap_at(s, p);
    let a = p + lead.len();
    if parser::word_at(s, a, "NOT"@) {
        let word = seq!['N', 'O', 'T'];
        assert("NOT"@ =~= word);
        let gap = gap_at(s, a + 3);
        let of = primary_written(s, a + 3 + gap.len());
        lemma_first_char(of);
        lemma_join(s, a + 3, gap, syntax_text(of));
        lemma_join(s, a, word, gap + syntax_text(of));
        lemma_join(s, p, lead, word + (gap + syntax_text(of)));
        Syntax::Operand { lead, not: Some(gap), of: Box::new(of) }
    } else {
        let of = primary_written(s, a);
        lemma_first_char(of);
        lemma_join(s, p, lead, syntax_text(of));
        Syntax::Operand { lead, not: None, of: Box::new(of) }
    }
}

proof fn lemma_same_start(
    conjunction: bool,
    a: Seq<Syntax>,
    b: Seq<Syntax>,
    c: Seq<Seq<char>>,
    d: Seq<Seq<char>>,
    n: nat,
)
    requires
        n <= a.len(),
        n <= b.len(),
        forall|i: int| 0 <= i < n ==> #[trigger] a[i] == b[i],
        n <= c.len() + 1,
        n <= d.len() + 1,
        forall|i: int| 0 <= i < n - 1 ==> #[trigger] c[i] == d[i],
    ensures
        chain_text(conjunction, a, c, n) == chain_text(conjunction, b, d, n),
        meanings(a, n) == meanings(b, n),
        operands_ok(a, n) == operands_ok(b, n),
    decreases n,
{
    if n > 0 {
        lemma_same_start(conjunction, a, b, c, d, (n - 1) as nat);
        assert(a[n - 1] == b[n - 1]);
        if n > 1 {
            assert(c[n - 2] == d[n - 2]);
        }
    }
}

/// A chain of one or more operands was read from `p` on, up to `q`.
spec fn is_chain(
    s: Seq<char>,
    p: int,
    conjunction: bool,
    operands: Seq<Syntax>,
    gaps: Seq<Seq<char>>,
    q: int,
) -> bool {
    &&& operands.len() >= 1
    &&& gaps.len() == operands.len() - 1
    &&& operands_ok(operands, operands.len())
    &&& forall|i: int| 0 <= i < gaps.len() ==> is_gap(#[trigger] gaps[i])
    &&& forall|i: int|
        0 <= i < gaps.len() && ends_in_word(operands[i]) ==> (#[trigger] gaps[i]).len() > 0
    &&& parser::word_at(s, p, chain_text(conjunction, operands, gaps, operands.len()))
    &&& q == p + chain_text(conjunction, operands, gaps, operands.len()).len()
    &&& ends_in_word(operands.last()) && q < s.len() ==> !in_word(s[q])
}

proof fn chain_written(
    s: Seq<char>,
    p: int,
    conjunction: bool,
    operands: Seq<Syntax>,
    gaps: Seq<Seq<char>>,
    at: int,
) -> (r: (Seq<Syntax>, Seq<Seq<char>>))
    requires
        0 <= at <= s.len(),
        is_chain(s, p, conjunction, operands, gaps, at),
        parser::chain_at(s, at, conjunction, meanings(operands, operands.len())) is Ok,
    ensures
        ({
            let end = parser::chain_at(
                s,
                at,
                conjunction,
                meanings(operands, operands.len()),
            )->Ok_0;
            &&& is_chain(s, p, conjunction, r.0, r.1, end.1)
            &&& meanings(r.0, r.0.len()) == end.0
            &&& r.0.len() >= operands.len()
            &&& parser::word_at(s, parser::skip_space(s, at), parser::chain_word(conjunction))
                ==> r.0.len() > operands.len()
            &&& at <= end.1 <= s.len()
        }),
    decreases s.len() - at, 3int,
{
    reveal_strlit("AND");
    reveal_strlit("OR");
    let word = joint(conjunction);
    assert(parser::chain_word(conjunction) =~= word);
    let gap = gap_at(s, at);
    let a = at + gap.len();
    if parser::word_at(s, a, word) {
        let x = operand_written(s, a + word.len());
        let t = syntax_text(x);
        let more = operands.push(x);
        let wider = gaps.push(gap);
        lemma_same_start(conjunction, operands, more, gaps, wider, operands.len());
        lemma_join(s, a, word, t);
        lemma_join(s, at, gap, word + t);
        lemma_join(
            s,
            p,
            chain_text(conjunction, operands, gaps, operands.len()),
            gap + (word + t),
        );
        let q = a + word.len() + t.len();
        assert(more.last() == x);
        assert(more[operands.len() as int] == x);
        assert(wider[operands.len() - 1] == gap);
        lemma_word_chars(s, a, word);
        assert(s[a + 0] == word[0]);
        assert forall|i: int| 0 <= i < wider.len() implies is_gap(#[trigger] wider[i]) by {
            if i < gaps.len() {
                assert(wider[i] == gaps[i]);
            }
        }
        assert forall|i: int| 0 <= i < wider.len() && ends_in_word(more[i]) implies (
        #[trigger] wider[i]).len() > 0 by {
            if i < gaps.len() {
                assert(wider[i] == gaps[i]);
                assert(more[i] == operands[i]);
            } else {
                assert(more[i] == operands.last());
            }
        }
        assert(is_chain(s, p, conjunction, more, wider, q));
        assert(meanings(more, more.len()) =~= meanings(operands, operands.len()).push(meaning(x)));
        chain_written(s, p, conjunction, more, wider, q)
    } else {
        (operands, gaps)
    }
}

proof fn expr_written(s: Seq<char>, p: int) -> (x: Syntax)
    requires
        parser::expr_at(s, p) is Ok,
    ensures
        x is Operand || x is Chain,
        is_written(s, p, x, (parser::expr_at(s, p)->Ok_0).0, (parser::expr_at(s, p)->Ok_0).1),
        0 <= p < (parser::expr_at(s, p)->Ok_0).1 <= s.len(),
    decreases s.len() - p, 4int,
{
    let first = operand_written(s, p);
    let q = p + syntax_text(first).len();
    let a = parser::skip_space(s, q);
    let conjunction = parser::word_at(s, a, "AND"@);
    if conjunction || parser::word_at(s, a, "OR"@) {
        let operands = seq![first];
        let gaps = Seq::<Seq<char>>::empty();
        reveal_with_fuel(operands_ok, 2);
        reveal_with_fuel(meanings, 2);
        assert(meanings(operands, 1) =~= seq![meaning(first)]);
        assert(is_chain(s, p, conjunction, operands, gaps, q));
        let (all, between) = chain_written(s, p, conjunction, operands, gaps, q);
        Syntax::Chain { conjunction, operands: all, gaps: between }
    } else {
        first
    }
}

/// A text is a way of writing a filter that says `e`.
pub open spec fn writes(s: Seq<char>, e: ExprView) -> bool {
    exists|x: Syntax, trail: Seq<char>| #[trigger] is_text_of(s, x, trail) && meaning(x) == e
}

/// A text is a filter, written so, and white space behind it.
pub open spec fn is_text_of(s: Seq<char>, x: Syntax, trail: Seq<char>) -> bool {
    &&& x is Operand || x is Chain
    &&& syntax_ok(x)
    &&& is_gap(trail)
    &&& s == syntax_text(x) + trail
}

/// Parsing a text gives what it says, if it is a way of writing a filter, and fails if it is none.
/// The language is thus exactly that of [`Syntax`]: a chain of any length has all its operands, in
/// order; a chain of two kinds of joints, or anything left over, is no filter; and no text says two
/// things.
pub proof fn law_filter_language(s: Seq<char>, e: ExprView)
    ensures
        parser::parsed(s) == Ok::<ExprView, int>(e) <==> writes(s, e),
        parser::parsed(s) is Err <==> forall|f: ExprView| !writes(s, f),
{
    assert forall|f: ExprView| writes(s, f) implies parser::parsed(s) == Ok::<ExprView, int>(
        f,
    ) by {
        let (x, trail) = choose|x: Syntax, trail: Seq<char>| #[trigger]
            is_text_of(s, x, trail) && meaning(x) == f;
        let n = syntax_text(x).len() as int;
        assert(s.subrange(0, s.len() as int) =~= s);
        lemma_word_parts(s, 0, syntax_text(x), trail);
        lemma_gap(s, n, trail);
        lemma_expr(s, 0, x);
    }
    if parser::parsed(s) is Ok {
        let x = expr_written(s, 0);
        let q = syntax_text(x).len() as int;
        let trail = gap_at(s, q);
        lemma_join(s, 0, syntax_text(x), trail);
        assert(s.subrange(0, s.len() as int) =~= s);
        assert(is_text_of(s, x, trail));
        assert(writes(s, parser::parsed(s)->Ok_0));
    }
}

/// Texts in parentheses, joined by `AND` or by `OR`.
pub open spec fn joined(conjunction: bool, texts: Seq<Seq<char>>, n: nat) -> Seq<char>
    decreases n,
{
    if n == 0 {
        Seq::empty()
    } else if n == 1 {
        "("@ + texts[0] + ")"@
    } else {
        joined(conjunction, texts, (n - 1) as nat) + (if conjunction {
            " AND "@
        } else {
            " OR "@
        }) + ("("@ + texts[n - 1] + ")"@)
    }
}

proof fn plain_group_of(t: Seq<char>, e: ExprView) -> (x: Syntax)
    requires
        writes(t, e),
    ensures
        x is Group,
        syntax_ok(x),
        meaning(x) == e,
        syntax_text(x) == "("@ + t + ")"@,
{
    reveal_strlit("(");
    reveal_strlit(")");
    let (inner, close) = choose|x: Syntax, trail: Seq<char>| #[trigger]
        is_text_of(t, x, trail) && meaning(x) == e;
    let of = Syntax::Group { inner: Box::new(inner), close };
    assert(syntax_ok(of));
    assert("("@ =~= seq!['(']);
    assert(")"@ =~= seq![')']);
    assert(syntax_text(of) =~= "("@ + t + ")"@);
    assert(meaning(of) == e);
    of
}

proof fn group_of(t: Seq<char>, e: ExprView, lead: Seq<char>) -> (x: Syntax)
    requires
        writes(t, e),
        is_gap(lead),
    ensures
        x is Operand,
        syntax_ok(x),
        !ends_in_word(x),
        meaning(x) == e,
        syntax_text(x) == lead + ("("@ + t + ")"@),
{
    let of = plain_group_of(t, e);
    let operand = Syntax::Operand { lead, not: None, of: Box::new(of) };
    assert(syntax_ok(operand));
    operand
}

proof fn joined_written(
    conjunction: bool,
    texts: Seq<Seq<char>>,
    exprs: Seq<ExprView>,
    n: nat,
) -> (r: (Seq<Syntax>, Seq<Seq<char>>))
    requires
        1 <= n <= texts.len(),
        texts.len() == exprs.len(),
        forall|i: int| 0 <= i < texts.len() ==> writes(#[trigger] texts[i], exprs[i]),
    ensures
        r.0.len() == n,
        r.1.len() == n - 1,
        operands_ok(r.0, n),
        forall|i: int| 0 <= i < n ==> !ends_in_word(#[trigger] r.0[i]),
        forall|i: int| 0 <= i < n - 1 ==> is_gap(#[trigger] r.1[i]),
        chain_text(conjunction, r.0, r.1, n) == joined(conjunction, texts, n),
        meanings(r.0, n) == exprs.take(n as int),
    decreases n,
{
    reveal_with_fuel(operands_ok, 2);
    reveal_with_fuel(meanings, 2);
    assert(writes(texts[n - 1], exprs[n - 1]));
    if n == 1 {
        let none = Seq::<char>::empty();
        let x = group_of(texts[0], exprs[0], none);
        let operands = seq![x];
        let gaps = Seq::<Seq<char>>::empty();
        assert(none + ("("@ + texts[0] + ")"@) =~= "("@ + texts[0] + ")"@);
        assert(meanings(operands, 1) =~= exprs.take(1));
        (operands, gaps)
    } else {
        let m = (n - 1) as nat;
        let (before, between) = joined_written(conjunction, texts, exprs, m);
        let space = seq![' '];
        assert(is_gap(space));
        let x = group_of(texts[n - 1], exprs[n - 1], space);
        let operands = before.push(x);
        let gaps = between.push(space);
        lemma_same_start(conjunction, before, operands, between, gaps, m);
        reveal_strlit(" AND ");
        reveal_strlit(" OR ");
        let word = if conjunction {
            " AND "@
        } else {
            " OR "@
        };
        assert(word =~= space + (joint(conjunction) + space));
        let t = "("@ + texts[n - 1] + ")"@;
        assert(chain_text(conjunction, operands, gaps, n) == chain_text(
            conjunction,
            operands,
            gaps,
            m,
        ) + (space + (joint(conjunction) + (space + t))));
        assert(chain_text(conjunction, operands, gaps, n) =~= joined(conjunction, texts, n));
        assert(meanings(operands, n) =~= exprs.take(n as int));
        assert forall|i: int| 0 <= i < n - 1 implies is_gap(#[trigger] gaps[i]) by {
            if i < n - 2 {
                assert(gaps[i] == between[i]);
            }
        }
        assert forall|i: int| 0 <= i < n implies !ends_in_word(#[trigger] operands[i]) by {
            if i < n - 1 {
                assert(operands[i] == before[i]);
            }
        }
        (operands, gaps)
    }
}

/// Filters in parentheses that are joined by `AND` (by `OR`) are a filter, however many there are: it
/// has exactly them as operands, in order, and a message satisfies it exactly when it satisfies all
/// (one) of them.
pub proof fn law_joined_filters(
    conjunction: bool,
    texts: Seq<Seq<char>>,
    exprs: Seq<ExprView>,
    attrs: Entries,
)
    requires
        texts.len() >= 2,
        texts.len() == exprs.len(),
        forall|i: int|
            0 <= i < texts.len() ==> parser::parsed(#[trigger] texts[i]) == Ok::<ExprView, int>(
                exprs[i],
            ),
    ensures
        ({
            let whole = parser::parsed(joined(conjunction, texts, texts.len()));
            &&& whole == Ok::<ExprView, int>(
                if conjunction {
                    ExprView::And(exprs)
                } else {
                    ExprView::Or(exprs)
                },
            )
            &&& conjunction ==> (eval::satisfies(whole->Ok_0, attrs) <==> forall|i: int|
                0 <= i < exprs.len() ==> eval::satisfies(#[trigger] exprs[i], attrs))
            &&& !conjunction ==> (eval::satisfies(whole->Ok_0, attrs) <==> exists|i: int|
                0 <= i < exprs.len() && eval::satisfies(#[trigger] exprs[i], attrs))
        }),
{
    assert forall|i: int| 0 <= i < texts.len() implies writes(#[trigger] texts[i], exprs[i]) by {
        law_filter_language(texts[i], exprs[i]);
    }
    let n = texts.len();
    let (operands, gaps) = joined_written(conjunction, texts, exprs, n);
    assert(exprs.take(n as int) =~= exprs);
    let x = Syntax::Chain { conjunction, operands, gaps };
    let none = Seq::<char>::empty();
    let s = joined(conjunction, texts, n);
    assert(syntax_ok(x));
    assert(s + none =~= s);
    assert(is_text_of(s, x, none));
    law_filter_language(s, meaning(x));
    eval::law_and(exprs, attrs);
    eval::law_or(exprs, attrs);
}

proof fn lemma_negation_written(t: Seq<char>, e: ExprView)
    requires
        writes(t, e),
    ensures
        writes("NOT ("@ + t + ")"@, ExprView::Not(Box::new(e))),
{
    let none = Seq::<char>::empty();
    let space = seq![' '];
    assert(is_gap(space));
    let of = plain_group_of(t, e);
    let x = Syntax::Operand { lead: none, not: Some(space), of: Box::new(of) };
    reveal_strlit("NOT (");
    reveal_strlit("(");
    let s = "NOT ("@ + t + ")"@;
    assert(syntax_ok(x));
    assert(syntax_text(x) + none =~= s);
    assert(is_text_of(s, x, none));
    assert(meaning(x) == ExprView::Not(Box::new(e)));
}

/// `NOT` before a filter in parentheses takes the opposite of it.
pub proof fn law_negated_filter(t: Seq<char>, e: ExprView, attrs: Entries)
    requires
        parser::parsed(t) == Ok::<ExprView, int>(e),
    ensures
        ({
            let whole = parser::parsed("NOT ("@ + t + ")"@);
            &&& whole is Ok
            &&& eval::satisfies(whole->Ok_0, attrs) == !eval::satisfies(e, attrs)
        }),
{
    law_filter_language(t, e);
    let s = "NOT ("@ + t + ")"@;
    let not = ExprView::Not(Box::new(e));
    lemma_negation_written(t, e);
    law_filter_language(s, not);
    eval::law_not(e, attrs);
}

} // verus!
