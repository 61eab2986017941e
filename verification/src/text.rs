//! Text helpers: decimal numerals, concatenation, character access and byte-wise ordering.

use vstd::prelude::*;
use vstd::string::*;
use vstd::utf8::*;

verus! {

/// `String::push` appends one character at the end of the text.
pub assume_specification [String::push] (s: &mut String, c: char)
    ensures
        final(s)@ == old(s)@.push(c),
;

/// The character of a decimal digit.
pub open spec fn digit_char(d: nat) -> char {
    if d == 0 {
        '0'
    } else if d == 1 {
        '1'
    } else if d == 2 {
        '2'
    } else if d == 3 {
        '3'
    } else if d == 4 {
        '4'
    } else if d == 5 {
        '5'
    } else if d == 6 {
        '6'
    } else if d == 7 {
        '7'
    } else if d == 8 {
        '8'
    } else {
        '9'
    }
}

/// The decimal numeral of a natural number, without leading zeros.
pub open spec fn dec(n: nat) -> Seq<char>
    decreases n,
{
    if n < 10 {
        seq![digit_char(n)]
    } else {
        dec(n / 10).push(digit_char(n % 10))
    }
}

/// The decimal numeral of an integer, with a leading `-` when it is negative.
pub open spec fn dec_int(n: int) -> Seq<char> {
    if n < 0 {
        seq!['-'] + dec((-n) as nat)
    } else {
        dec(n as nat)
    }
}

fn digit(d: u64) -> (c: char)
    requires
        d < 10,
    ensures
        c == digit_char(d as nat),
{
    if d == 0 {
        '0'
    } else if d == 1 {
        '1'
    } else if d == 2 {
        '2'
    } else if d == 3 {
        '3'
    } else if d == 4 {
        '4'
    } else if d == 5 {
        '5'
    } else if d == 6 {
        '6'
    } else if d == 7 {
        '7'
    } else if d == 8 {
        '8'
    } else {
        '9'
    }
}

/// Writes `n` in decimal.
pub fn u64_text(n: u64) -> (s: String)
    ensures
        s@ == dec(n as nat),
    decreases n,
{
    if n < 10 {
        let mut s = String::new();
        s.push(digit(n));
        assert(s@ =~= seq![digit_char(n as nat)]);
        s
    } else {
        let mut s = u64_text(n / 10);
        s.push(digit(n % 10));
        s
    }
}

/// Writes `n` in decimal.
pub fn usize_text(n: usize) -> (s: String)
    ensures
        s@ == dec(n as nat),
{
    u64_text(n as u64)
}

/// Writes `n` in decimal.
pub fn i64_text(n: i64) -> (s: String)
    ensures
        s@ == dec_int(n as int),
{
    if n >= 0 {
        u64_text(n as u64)
    } else {
        let magnitude: u64 = if n == i64::MIN {
            9_223_372_036_854_775_808
        } else {
            (-n) as u64
        };
        let digits = u64_text(magnitude);
        let mut s = String::new();
        s.push('-');
        s.append(digits.as_str());
        assert(s@ =~= seq!['-'] + dec((-(n as int)) as nat));
        s
    }
}

/// Joins two texts.
pub fn cat2(a: &str, b: &str) -> (s: String)
    ensures
        s@ == a@ + b@,
{
    let mut s = String::from_str(a);
    s.append(b);
    s
}

/// Joins three texts.
pub fn cat3(a: &str, b: &str, c: &str) -> (s: String)
    ensures
        s@ == a@ + b@ + c@,
{
    let mut s = cat2(a, b);
    s.append(c);
    s
}

/// Joins four texts.
pub fn cat4(a: &str, b: &str, c: &str, d: &str) -> (s: String)
    ensures
        s@ == a@ + b@ + c@ + d@,
{
    let mut s = cat3(a, b, c);
    s.append(d);
    s
}

/// Joins five texts.
pub fn cat5(a: &str, b: &str, c: &str, d: &str, e: &str) -> (s: String)
    ensures
        s@ == a@ + b@ + c@ + d@ + e@,
{
    let mut s = cat4(a, b, c, d);
    s.append(e);
    s
}

/// The characters of a text.
pub fn chars_of(s: &str) -> (v: Vec<char>)
    ensures
        v@ == s@,
{
    let mut v: Vec<char> = Vec::new();
    for c in it: s.chars()
        invariant
            v@ == s@.take(it.index() as int),
            it.seq() == s@,
    {
        v.push(c);
        assert(s@.take(it.index() + 1) =~= s@.take(it.index() as int).push(c));
    }
    assert(s@.take(s@.len() as int) =~= s@);
    v
}

/// The text made of `chars[from..to]`.
pub fn text_of(chars: &Vec<char>, from: usize, to: usize) -> (s: String)
    requires
        from <= to <= chars.len(),
    ensures
        s@ == chars@.subrange(from as int, to as int),
{
    let mut s = String::new();
    let mut i: usize = from;
    while i < to
        invariant
            from <= i <= to <= chars.len(),
            s@ == chars@.subrange(from as int, i as int),
        decreases to - i,
    {
        s.push(chars[i]);
        i = i + 1;
        assert(chars@.subrange(from as int, i as int) =~= chars@.subrange(
            from as int,
            i - 1,
        ).push(chars[i - 1]));
    }
    s
}

/// Two texts with the same UTF-8 encoding are equal.
pub proof fn lemma_utf8_injective(a: Seq<char>, b: Seq<char>)
    ensures
        encode_utf8(a) == encode_utf8(b) ==> a == b,
{
    encode_utf8_decode_utf8(a);
    encode_utf8_decode_utf8(b);
}

/// Whether two byte sequences are the same.
pub fn bytes_equal(a: &[u8], b: &[u8]) -> (r: bool)
    ensures
        r == (a@ == b@),
{
    if a.len() != b.len() {
        return false;
    }
    let mut i: usize = 0;
    while i < a.len()
        invariant
            i <= a.len(),
            a.len() == b.len(),
            forall|j: int| 0 <= j < i ==> a@[j] == b@[j],
        decreases a.len() - i,
    {
        if a[i] != b[i] {
            return false;
        }
        i = i + 1;
    }
    assert(a@ =~= b@);
    true
}

/// Whether two texts are the same.
pub fn str_equal(a: &str, b: &str) -> (r: bool)
    ensures
        r == (a@ == b@),
{
    proof {
        lemma_utf8_injective(a@, b@);
    }
    bytes_equal(a.as_bytes(), b.as_bytes())
}

/// Whether `prefix` is the start of `s`.
pub open spec fn has_prefix<T>(s: Seq<T>, prefix: Seq<T>) -> bool {
    prefix.len() <= s.len() && s.take(prefix.len() as int) == prefix
}

/// A text starts with another exactly when its encoding starts with that of the other.
pub proof fn law_utf8_prefix(s: Seq<char>, prefix: Seq<char>)
    ensures
        has_prefix(encode_utf8(s), encode_utf8(prefix)) <==> has_prefix(s, prefix),
    decreases prefix.len(),
{
    let a = encode_utf8(s);
    let p = encode_utf8(prefix);
    if prefix.len() == 0 {
        assert(a.take(0) =~= p);
        assert(s.take(0) =~= prefix);
    } else {
        vstd::utf8::encode_utf8_first_scalar(prefix);
        let n = vstd::utf8::encode_scalar(prefix[0] as u32).len() as int;
        assert(p.len() >= n >= 1);
        if s.len() > 0 {
            vstd::utf8::encode_utf8_first_scalar(s);
            let rest = s.drop_first();
            let more = prefix.drop_first();
            law_utf8_prefix(rest, more);
            if has_prefix(a, p) {
                let start = a.take(p.len() as int);
                assert(forall|i: int| 0 <= i < p.len() ==> #[trigger] p[i] == a[i]) by {
                    assert(forall|i: int| 0 <= i < p.len() ==> #[trigger] start[i] == a[i]);
                }
                assert(s[0] as u32 == prefix[0] as u32);
                vstd::utf8::char_u32_cast(s[0], s[0] as u32);
                vstd::utf8::char_u32_cast(prefix[0], prefix[0] as u32);
                assert(s[0] == prefix[0]);
                let b = encode_utf8(rest);
                let q = encode_utf8(more);
                assert(b.take(q.len() as int) =~= q) by {
                    assert forall|i: int| 0 <= i < q.len() implies b[i] == q[i] by {
                        assert(p[n + i] == a[n + i]);
                    }
                }
            }
            if s[0] == prefix[0] && has_prefix(rest, more) {
                let b = encode_utf8(rest);
                let q = encode_utf8(more);
                assert(a.take(p.len() as int) =~= p) by {
                    assert forall|i: int| 0 <= i < p.len() implies a[i] == p[i] by {
                        if i >= n {
                            assert(b.take(q.len() as int)[i - n] == q[i - n]);
                        }
                    }
                }
            }
            assert(has_prefix(s, prefix) <==> s[0] == prefix[0] && has_prefix(rest, more)) by {
                if has_prefix(s, prefix) {
                    assert(s.take(prefix.len() as int)[0] == prefix[0]);
                    assert(rest.take(more.len() as int) =~= s.take(
                        prefix.len() as int,
                    ).drop_first());
                }
                if s[0] == prefix[0] && has_prefix(rest, more) {
                    assert forall|i: int| 0 <= i < prefix.len() implies s[i] == prefix[i] by {
                        if i > 0 {
                            assert(rest.take(more.len() as int)[i - 1] == more[i - 1]);
                        }
                    }
                    assert(s.take(prefix.len() as int) =~= prefix);
                }
            }
        }
    }
}

/// Whether `prefix` is the start of `s`.
pub fn bytes_have_prefix(s: &[u8], prefix: &[u8]) -> (r: bool)
    ensures
        r == has_prefix(s@, prefix@),
{
    if prefix.len() > s.len() {
        return false;
    }
    let mut i: usize = 0;
    while i < prefix.len()
        invariant
            i <= prefix.len() <= s.len(),
            forall|j: int| 0 <= j < i ==> s@[j] == prefix@[j],
        decreases prefix.len() - i,
    {
        if s[i] != prefix[i] {
            assert(s@.take(prefix@.len() as int)[i as int] != prefix@[i as int]);
            return false;
        }
        i = i + 1;
    }
    assert(s@.take(prefix@.len() as int) =~= prefix@);
    true
}

/// Whether `prefix` is the start of `s`.
pub fn chars_have_prefix(s: &Vec<char>, prefix: &Vec<char>) -> (r: bool)
    ensures
        r == has_prefix(s@, prefix@),
{
    if prefix.len() > s.len() {
        return false;
    }
    let mut i: usize = 0;
    while i < prefix.len()
        invariant
            i <= prefix.len() <= s.len(),
            forall|j: int| 0 <= j < i ==> s@[j] == prefix@[j],
        decreases prefix.len() - i,
    {
        if s[i] != prefix[i] {
            assert(s@.take(prefix@.len() as int)[i as int] != prefix@[i as int]);
            return false;
        }
        i = i + 1;
    }
    assert(s@.take(prefix@.len() as int) =~= prefix@);
    true
}

/// Whether the text `s` starts with the text `prefix`.
pub fn str_has_prefix(s: &str, prefix: &str) -> (r: bool)
    ensures
        r == has_prefix(s@, prefix@),
{
    chars_have_prefix(&chars_of(s), &chars_of(prefix))
}

/// The rest of `s` behind `prefix`, when `s` starts with it.
pub fn strip_prefix(s: &str, prefix: &str) -> (r: Option<String>)
    ensures
        match r {
            Some(rest) => has_prefix(s@, prefix@) && rest@ == s@.skip(prefix@.len() as int),
            None => !has_prefix(s@, prefix@),
        },
{
    let chars = chars_of(s);
    let head = chars_of(prefix);
    if chars_have_prefix(&chars, &head) {
        Some(text_of(&chars, head.len(), chars.len()))
    } else {
        None
    }
}

/// `a` and `b` agree before position `i`, and there `a` ends or holds the smaller byte.
pub open spec fn smaller_at(a: Seq<u8>, b: Seq<u8>, i: int) -> bool {
    &&& 0 <= i <= a.len()
    &&& i < b.len()
    &&& forall|j: int| 0 <= j < i ==> a[j] == b[j]
    &&& (i == a.len() || a[i] < b[i])
}

/// The byte-wise lexicographic order.
pub open spec fn bytes_lt(a: Seq<u8>, b: Seq<u8>) -> bool {
    exists|i: int| #[trigger] smaller_at(a, b, i)
}

/// Whether `a` comes before `b`, byte by byte.
pub fn bytes_before(a: &[u8], b: &[u8]) -> (r: bool)
    ensures
        r == bytes_lt(a@, b@),
{
    let mut i: usize = 0;
    while i < a.len() && i < b.len()
        invariant
            i <= a.len(),
            i <= b.len(),
            forall|j: int| 0 <= j < i ==> a@[j] == b@[j],
        decreases a.len() - i,
    {
        if a[i] < b[i] {
            assert(smaller_at(a@, b@, i as int));
            return true;
        }
        if b[i] < a[i] {
            assert(!bytes_lt(a@, b@)) by {
                if bytes_lt(a@, b@) {
                    let k = choose|k: int| #[trigger] smaller_at(a@, b@, k);
                    assert(a@[i as int] != b@[i as int]);
                }
            }
            return false;
        }
        i = i + 1;
    }
    if i < b.len() {
        assert(smaller_at(a@, b@, i as int));
        true
    } else {
        assert(!bytes_lt(a@, b@)) by {
            if bytes_lt(a@, b@) {
                let k = choose|k: int| #[trigger] smaller_at(a@, b@, k);
                assert(k < b@.len());
            }
        }
        false
    }
}

/// Nothing comes before itself.
pub proof fn lemma_bytes_lt_irreflexive(a: Seq<u8>)
    ensures
        !bytes_lt(a, a),
{
}

/// The byte-wise order is transitive.
pub proof fn lemma_bytes_lt_transitive(a: Seq<u8>, b: Seq<u8>, c: Seq<u8>)
    requires
        bytes_lt(a, b),
        bytes_lt(b, c),
    ensures
        bytes_lt(a, c),
{
    let i = choose|i: int| #[trigger] smaller_at(a, b, i);
    let j = choose|j: int| #[trigger] smaller_at(b, c, j);
    if i <= j {
        assert(smaller_at(a, c, i));
    } else {
        assert(smaller_at(a, c, j));
    }
}

/// Of two byte sequences one comes first, or they are the same.
pub proof fn lemma_bytes_lt_total(a: Seq<u8>, b: Seq<u8>)
    ensures
        bytes_lt(a, b) || bytes_lt(b, a) || a == b,
{
    lemma_first_difference(a, b, 0);
}

proof fn lemma_first_difference(a: Seq<u8>, b: Seq<u8>, i: int)
    requires
        0 <= i <= a.len(),
        i <= b.len(),
        forall|j: int| 0 <= j < i ==> a[j] == b[j],
    ensures
        bytes_lt(a, b) || bytes_lt(b, a) || a == b,
    decreases a.len() - i,
{
    if i < a.len() && i < b.len() && a[i] == b[i] {
        lemma_first_difference(a, b, i + 1);
    } else if i == a.len() && i == b.len() {
        assert(a =~= b);
    } else if i == a.len() || (i < b.len() && a[i] < b[i]) {
        assert(smaller_at(a, b, i));
    } else {
        assert(smaller_at(b, a, i));
    }
}

/// Of two sequences, never both come before the other.
pub proof fn lemma_bytes_lt_asymmetric(a: Seq<u8>, b: Seq<u8>)
    requires
        bytes_lt(a, b),
    ensures
        !bytes_lt(b, a),
        a != b,
{
    if bytes_lt(b, a) {
        lemma_bytes_lt_transitive(a, b, a);
        lemma_bytes_lt_irreflexive(a);
    }
    if a == b {
        lemma_bytes_lt_irreflexive(a);
    }
}

/// The order of two texts by their UTF-8 bytes.
pub open spec fn text_lt(a: Seq<char>, b: Seq<char>) -> bool {
    bytes_lt(encode_utf8(a), encode_utf8(b))
}

/// Whether the text `a` comes before the text `b`, byte by byte.
pub fn str_before(a: &str, b: &str) -> (r: bool)
    ensures
        r == text_lt(a@, b@),
{
    bytes_before(a.as_bytes(), b.as_bytes())
}

/// The characters with the Unicode `White_Space` property.
pub open spec fn is_white_space(c: char) -> bool {
    let u = c as u32;
    ||| 0x9 <= u <= 0xd
    ||| u == 0x20
    ||| u == 0x85
    ||| u == 0xa0
    ||| u == 0x1680
    ||| 0x2000 <= u <= 0x200a
    ||| u == 0x2028
    ||| u == 0x2029
    ||| u == 0x202f
    ||| u == 0x205f
    ||| u == 0x3000
}

/// Whether every character of a text is white space.
pub open spec fn is_blank(s: Seq<char>) -> bool {
    forall|i: int| 0 <= i < s.len() ==> is_white_space(#[trigger] s[i])
}

fn white_space(c: char) -> (r: bool)
    ensures
        r == is_white_space(c),
{
    let u: u32 = c as u32;
    (0x9 <= u && u <= 0xd) || u == 0x20 || u == 0x85 || u == 0xa0 || u == 0x1680 || (0x2000 <= u
        && u <= 0x200a) || u == 0x2028 || u == 0x2029 || u == 0x202f || u == 0x205f || u == 0x3000
}

/// Whether a text holds nothing but white space.
pub fn blank(s: &str) -> (r: bool)
    ensures
        r == is_blank(s@),
{
    let chars = chars_of(s);
    let mut i: usize = 0;
    while i < chars.len()
        invariant
            i <= chars.len(),
            chars@ == s@,
            forall|j: int| 0 <= j < i ==> is_white_space(#[trigger] s@[j]),
        decreases chars.len() - i,
    {
        if !white_space(chars[i]) {
            assert(!is_white_space(s@[i as int]));
            return false;
        }
        i = i + 1;
    }
    true
}

/// The parts of a text between its slashes.
pub open spec fn segments(s: Seq<char>) -> Seq<Seq<char>>
    decreases s.len(),
{
    if s.len() == 0 {
        seq![Seq::empty()]
    } else {
        let head = segments(s.drop_last());
        if s.last() == '/' {
            head.push(Seq::empty())
        } else {
            head.drop_last().push(head.last().push(s.last()))
        }
    }
}

/// Parts joined with slashes.
pub open spec fn join_segments(parts: Seq<Seq<char>>) -> Seq<char>
    decreases parts.len(),
{
    if parts.len() == 0 {
        Seq::empty()
    } else if parts.len() == 1 {
        parts[0]
    } else {
        join_segments(parts.drop_last()).push('/') + parts.last()
    }
}

/// A text without a slash.
pub open spec fn no_slash(s: Seq<char>) -> bool {
    forall|i: int| 0 <= i < s.len() ==> #[trigger] s[i] != '/'
}

/// A text has at least one part, and joining the parts gives it back.
pub proof fn lemma_join_segments(s: Seq<char>)
    ensures
        segments(s).len() >= 1,
        join_segments(segments(s)) == s,
    decreases s.len(),
{
    if s.len() > 0 {
        let init = s.drop_last();
        let head = segments(init);
        lemma_join_segments(init);
        assert(init.push(s.last()) =~= s);
        if s.last() == '/' {
            assert(segments(s).drop_last() =~= head);
            assert(join_segments(segments(s)) =~= init.push('/'));
        } else {
            let last = head.last().push(s.last());
            assert(segments(s).drop_last() =~= head.drop_last());
            assert(segments(s).last() == last);
            if head.len() == 1 {
                assert(join_segments(segments(s)) =~= s);
            } else {
                let front = join_segments(head.drop_last()).push('/');
                assert(init =~= front + head.last());
                assert(join_segments(segments(s)) =~= front + last);
                assert(front + last =~= s);
            }
        }
    } else {
        assert(join_segments(segments(s)) =~= s);
    }
}

/// A text without a slash is its own only part.
pub proof fn lemma_segments_of_plain(s: Seq<char>)
    requires
        no_slash(s),
    ensures
        segments(s) == seq![s],
    decreases s.len(),
{
    if s.len() > 0 {
        let init = s.drop_last();
        assert forall|i: int| 0 <= i < init.len() implies #[trigger] init[i] != '/' by {
            assert(init[i] == s[i]);
        }
        lemma_segments_of_plain(init);
        assert(s[s.len() - 1] != '/');
        assert(init.push(s.last()) =~= s);
        assert(segments(s) =~= seq![s]);
    } else {
        assert(s =~= Seq::empty());
        assert(segments(s) =~= seq![s]);
    }
}

/// The parts of two texts joined by a slash are the parts of the one and of the other.
pub proof fn lemma_segments_concat(a: Seq<char>, b: Seq<char>)
    ensures
        segments(a.push('/') + b) == segments(a) + segments(b),
    decreases b.len(),
{
    let whole = a.push('/') + b;
    lemma_join_segments(b);
    if b.len() == 0 {
        assert(whole =~= a.push('/'));
        assert(a.push('/').drop_last() =~= a);
        assert(segments(whole) =~= segments(a) + segments(b));
    } else {
        let init = b.drop_last();
        lemma_segments_concat(a, init);
        lemma_join_segments(init);
        assert(whole.drop_last() =~= a.push('/') + init);
        assert(whole.last() == b.last());
        let head = segments(a) + segments(init);
        if b.last() == '/' {
            assert(segments(whole) =~= segments(a) + segments(b));
        } else {
            assert(head.last() == segments(init).last());
            assert(head.drop_last() =~= segments(a) + segments(init).drop_last());
            assert(segments(whole) =~= segments(a) + segments(b));
        }
    }
}

/// The texts in a vector of strings.
pub open spec fn texts(v: Seq<String>) -> Seq<Seq<char>> {
    v.map_values(|s: String| s@)
}

/// Splits a text at its slashes.
pub fn split_slashes(s: &str) -> (parts: Vec<String>)
    ensures
        texts(parts@) == segments(s@),
        parts.len() >= 1,
{
    let chars = chars_of(s);
    let mut parts: Vec<String> = Vec::new();
    let mut current = String::new();
    let mut i: usize = 0;
    assert(chars@.take(0) =~= Seq::<char>::empty());
    assert(texts(parts@).push(current@) =~= segments(chars@.take(0)));
    while i < chars.len()
        invariant
            i <= chars.len(),
            texts(parts@).push(current@) == segments(chars@.take(i as int)),
        decreases chars.len() - i,
    {
        let c = chars[i];
        let ghost head = segments(chars@.take(i as int));
        assert(chars@.take(i + 1).drop_last() =~= chars@.take(i as int));
        assert(head.last() == current@);
        assert(head.drop_last() =~= texts(parts@));
        if c == '/' {
            let ghost before = texts(parts@);
            let ghost done = current@;
            parts.push(current);
            current = String::new();
            assert(texts(parts@) =~= before.push(done));
        } else {
            current.push(c);
        }
        i = i + 1;
    }
    assert(chars@.take(i as int) =~= s@);
    let ghost before = texts(parts@);
    let ghost done = current@;
    parts.push(current);
    assert(texts(parts@) =~= before.push(done));
    parts
}

/// How Rust's debug formatting shows the text `s`, in double quotes with escapes.
pub uninterp spec fn debug_text(s: Seq<char>) -> Seq<char>;

/// Formats `s` with the `{:?}` of `format!`: in double quotes, with quotes, backslashes and
/// characters that do not print escaped. The result is a function of `s` and is named, not spelled
/// out.
#[verifier::external_body]
pub(crate) fn quoted(s: &str) -> (r: String)
    ensures
        r@ == debug_text(s@),
{
    format!("{s:?}")
}

/// Reads bytes as text. Calls `core::str::from_utf8`, of which the contract claims that it returns
/// the text that is encoded as these bytes, and an error exactly for bytes that are not UTF-8.
#[verifier::external_body]
pub(crate) fn utf8_text(bytes: &[u8]) -> (r: Option<&str>)
    ensures
        match r {
            Some(s) => vstd::utf8::encode_utf8(s@) == bytes@,
            None => !vstd::utf8::valid_utf8(bytes@),
        },
{
    core::str::from_utf8(bytes).ok()
}

/// The text that some bytes encode, if they encode any.
pub open spec fn text_in(bytes: Seq<u8>) -> Option<Seq<char>> {
    if vstd::utf8::valid_utf8(bytes) {
        Some(vstd::utf8::decode_utf8(bytes))
    } else {
        None
    }
}

/// The text that some bytes encode, if they encode any.
pub fn text_from(bytes: &[u8]) -> (r: Option<String>)
    ensures
        match r {
            Some(s) => text_in(bytes@) == Some(s@),
            None => text_in(bytes@) is None,
        },
{
    match utf8_text(bytes) {
        Some(s) => {
            proof {
                vstd::utf8::encode_utf8_valid_utf8(s@);
                vstd::utf8::encode_utf8_decode_utf8(s@);
            }
            Some(String::from_str(s))
        },
        None => None,
    }
}

} // verus!
