//! Lists of named resources: sorted by name, handed out page by page.

use crate::text;
use vstd::prelude::*;
use vstd::string::*;
use vstd::utf8::*;

verus! {

/// A resource with a name.
pub trait Named: View + Sized {
    /// The name in what a value holds.
    spec fn name_of(v: Self::V) -> Seq<char>;

    /// The name.
    fn name_text(&self) -> (r: &str)
        ensures
            r@ == Self::name_of(self@),
    ;
}

/// What some values hold.
pub open spec fn views<T: View>(s: Seq<T>) -> Seq<T::V> {
    s.map_values(|t: T| t@)
}

/// Position of the first value whose name comes after `name`.
pub open spec fn place_of<T: Named>(s: Seq<T::V>, name: Seq<char>) -> int
    decreases s.len(),
{
    if s.len() == 0 || text::text_lt(name, T::name_of(s[0])) {
        0
    } else {
        1 + place_of::<T>(s.skip(1), name)
    }
}

/// The values sorted by name; those with one name stay in order.
pub open spec fn sorted_by_name<T: Named>(s: Seq<T::V>) -> Seq<T::V>
    decreases s.len(),
{
    if s.len() == 0 {
        Seq::empty()
    } else {
        let rest = sorted_by_name::<T>(s.drop_last());
        rest.insert(place_of::<T>(rest, T::name_of(s.last())), s.last())
    }
}

/// Where a page starts: behind every name up to the token, at the start when there is none.
pub open spec fn page_start<T: Named>(s: Seq<T::V>, token: Option<Seq<char>>) -> int {
    match token {
        Some(t) => place_of::<T>(s, t),
        None => 0,
    }
}

/// Where a page ends.
pub open spec fn page_end<T: Named>(
    s: Seq<T::V>,
    page_size: nat,
    token: Option<Seq<char>>,
) -> int {
    let start = page_start::<T>(s, token);
    if start + page_size < s.len() {
        start + page_size
    } else {
        s.len() as int
    }
}

/// A page of a sorted list.
pub open spec fn page<T: Named>(s: Seq<T::V>, page_size: nat, token: Option<Seq<char>>) -> Seq<
    T::V,
> {
    s.subrange(page_start::<T>(s, token), page_end::<T>(s, page_size, token))
}

/// The token for the next page: the last name of this one, when more follows.
pub open spec fn next_token<T: Named>(
    s: Seq<T::V>,
    page_size: nat,
    token: Option<Seq<char>>,
) -> Option<Seq<char>> {
    let this = page::<T>(s, page_size, token);
    if page_end::<T>(s, page_size, token) < s.len() && this.len() > 0 {
        Some(T::name_of(this.last()))
    } else {
        None
    }
}

/// The text of an optional token.
pub open spec fn opt_str(token: Option<&str>) -> Option<Seq<char>> {
    match token {
        Some(t) => Some(t@),
        None => None,
    }
}

/// The text of an optional token.
pub open spec fn opt_string(token: Option<String>) -> Option<Seq<char>> {
    match token {
        Some(t) => Some(t@),
        None => None,
    }
}

/// The names of a list come in strictly increasing order.
pub open spec fn names_increase<T: Named>(s: Seq<T::V>) -> bool {
    forall|i: int, j: int|
        0 <= i < j < s.len() ==> #[trigger] text::text_lt(T::name_of(s[i]), T::name_of(s[j]))
}

pub(crate) proof fn lemma_place_of<T: Named>(s: Seq<T::V>, name: Seq<char>)
    ensures
        0 <= place_of::<T>(s, name) <= s.len(),
        forall|i: int|
            0 <= i < place_of::<T>(s, name) ==> !text::text_lt(name, T::name_of(#[trigger] s[i])),
        place_of::<T>(s, name) < s.len() ==> text::text_lt(
            name,
            T::name_of(s[place_of::<T>(s, name)]),
        ),
    decreases s.len(),
{
    if s.len() > 0 && !text::text_lt(name, T::name_of(s[0])) {
        let rest = s.skip(1);
        lemma_place_of::<T>(rest, name);
        assert forall|i: int| 0 <= i < place_of::<T>(s, name) implies !text::text_lt(
            name,
            T::name_of(#[trigger] s[i]),
        ) by {
            if i > 0 {
                assert(s[i] == rest[i - 1]);
            }
        }
    }
}

/// Pages follow one another without gaps and without repetition: the page that a token asks for
/// starts where the page that gave the token ended.
pub proof fn law_pages_follow_each_other<T: Named>(
    s: Seq<T::V>,
    page_size: nat,
    token: Option<Seq<char>>,
)
    requires
        names_increase::<T>(s),
        next_token::<T>(s, page_size, token) is Some,
    ensures
        page_start::<T>(s, next_token::<T>(s, page_size, token)) == page_end::<T>(
            s,
            page_size,
            token,
        ),
{
    let end = page_end::<T>(s, page_size, token);
    let name = next_token::<T>(s, page_size, token)->0;
    if let Some(t) = token {
        lemma_place_of::<T>(s, t);
    }
    assert(name == T::name_of(s[end - 1]));
    let start = place_of::<T>(s, name);
    lemma_place_of::<T>(s, name);
    if start < end {
        if start < end - 1 {
            assert(text::text_lt(T::name_of(s[start]), T::name_of(s[end - 1])));
            crate::string_map::lemma_text_lt_total(T::name_of(s[start]), T::name_of(s[end - 1]));
        } else {
            crate::string_map::lemma_text_lt_total(name, name);
        }
    } else if start > end {
        assert(text::text_lt(T::name_of(s[end - 1]), T::name_of(s[end])));
    }
}

/// The first page starts at the start, and the last one ends at the end.
pub proof fn law_pages_cover_the_list<T: Named>(
    s: Seq<T::V>,
    page_size: nat,
    token: Option<Seq<char>>,
)
    requires
        page_size > 0,
    ensures
        page_start::<T>(s, None) == 0,
        next_token::<T>(s, page_size, token) is None ==> page_end::<T>(s, page_size, token)
            == s.len(),
        page::<T>(s, page_size, token).len() <= page_size,
{
    if let Some(t) = token {
        lemma_place_of::<T>(s, t);
    }
}

/// The token that asks for page `n` when the tokens are followed from the first page on, which needs
/// none; nothing when the pages end before.
pub open spec fn token_of_page<T: Named>(s: Seq<T::V>, page_size: nat, n: nat) -> Option<
    Option<Seq<char>>,
>
    decreases n,
{
    if n == 0 {
        Some(None)
    } else {
        match token_of_page::<T>(s, page_size, (n - 1) as nat) {
            Some(token) => match next_token::<T>(s, page_size, token) {
                Some(next) => Some(Some(next)),
                None => None,
            },
            None => None,
        }
    }
}

/// The values on the first `n` pages, in the order in which the tokens lead to them.
pub open spec fn first_pages<T: Named>(s: Seq<T::V>, page_size: nat, n: nat) -> Seq<T::V>
    decreases n,
{
    if n == 0 {
        Seq::empty()
    } else {
        let before = first_pages::<T>(s, page_size, (n - 1) as nat);
        match token_of_page::<T>(s, page_size, (n - 1) as nat) {
            Some(token) => before + page::<T>(s, page_size, token),
            None => before,
        }
    }
}

/// The smaller of two numbers.
pub open spec fn at_most(n: nat, limit: nat) -> int {
    if n < limit {
        n as int
    } else {
        limit as int
    }
}

/// Following the tokens from the first page on gives the list from its start, page by page, with
/// nothing left out and nothing twice. There is a first page, and another one exactly as long as
/// more of the list follows; a page gives no token exactly when it is the last, and then the pages
/// up to it are the whole list.
pub proof fn law_following_tokens_gives_the_list<T: Named>(
    s: Seq<T::V>,
    page_size: nat,
    n: nat,
)
    requires
        names_increase::<T>(s),
        page_size > 0,
    ensures
        token_of_page::<T>(s, page_size, n) is Some <==> n == 0 || n * page_size < s.len(),
        token_of_page::<T>(s, page_size, n) matches Some(token) ==> {
            &&& page_start::<T>(s, token) == n * page_size
            &&& page::<T>(s, page_size, token) == s.subrange(
                (n * page_size) as int,
                at_most((n + 1) * page_size, s.len()),
            )
            &&& next_token::<T>(s, page_size, token) is None <==> (n + 1) * page_size >= s.len()
            &&& next_token::<T>(s, page_size, token) is None ==> first_pages::<T>(
                s,
                page_size,
                n + 1,
            ) == s
        },
        token_of_page::<T>(s, page_size, n) is None ==> first_pages::<T>(s, page_size, n) == s,
        first_pages::<T>(s, page_size, n) == s.take(at_most(n * page_size, s.len())),
    decreases n,
{
    let here = n * page_size;
    assert((n + 1) * page_size == here + page_size) by (nonlinear_arith)
        requires
            here == n * page_size,
    ;
    let made = first_pages::<T>(s, page_size, n);
    if n == 0 {
        assert(here == 0) by (nonlinear_arith)
            requires
                n == 0,
                here == n * page_size,
        ;
        assert(made =~= s.take(0));
    } else {
        let m = (n - 1) as nat;
        let there = m * page_size;
        assert(here == there + page_size) by (nonlinear_arith)
            requires
                n == m + 1,
                here == n * page_size,
                there == m * page_size,
        ;
        assert(m == 0 ==> there == 0) by (nonlinear_arith)
            requires
                there == m * page_size,
        ;
        law_following_tokens_gives_the_list::<T>(s, page_size, m);
        match token_of_page::<T>(s, page_size, m) {
            Some(token) => {
                lemma_page_at::<T>(s, page_size, token, there);
                let part = page::<T>(s, page_size, token);
                assert(made == first_pages::<T>(s, page_size, m) + part);
                assert(made =~= s.take(at_most(here, s.len())));
            },
            None => {
                assert(made == first_pages::<T>(s, page_size, m));
                assert(made =~= s.take(at_most(here, s.len())));
            },
        }
    }
    match token_of_page::<T>(s, page_size, n) {
        Some(token) => {
            lemma_page_at::<T>(s, page_size, token, here);
            let this = page::<T>(s, page_size, token);
            assert(first_pages::<T>(s, page_size, n + 1) == made + this);
            if here + page_size >= s.len() {
                assert(made + this =~= s);
            }
        },
        None => {
            assert(made =~= s);
        },
    }
}

/// The page that starts at a place: what it holds, and where the next one starts.
proof fn lemma_page_at<T: Named>(
    s: Seq<T::V>,
    page_size: nat,
    token: Option<Seq<char>>,
    start: nat,
)
    requires
        names_increase::<T>(s),
        page_size > 0,
        page_start::<T>(s, token) == start <= s.len(),
    ensures
        page::<T>(s, page_size, token) == s.subrange(
            start as int,
            at_most(start + page_size, s.len()),
        ),
        match next_token::<T>(s, page_size, token) {
            Some(next) => {
                &&& start + page_size < s.len()
                &&& page_start::<T>(s, Some(next)) == start + page_size
            },
            None => start + page_size >= s.len(),
        },
{
    if next_token::<T>(s, page_size, token) is Some {
        law_pages_follow_each_other::<T>(s, page_size, token);
    }
}

/// No two values have one name.
pub open spec fn names_differ<T: Named>(s: Seq<T::V>) -> bool {
    forall|i: int, j: int|
        #![trigger s[i], s[j]]
        0 <= i < j < s.len() ==> T::name_of(s[i]) != T::name_of(s[j])
}

/// Sorting keeps all values and adds none.
pub proof fn law_sorting_keeps_the_values<T: Named>(s: Seq<T::V>)
    ensures
        sorted_by_name::<T>(s).len() == s.len(),
        forall|v: T::V| #[trigger] sorted_by_name::<T>(s).contains(v) <==> s.contains(v),
        names_differ::<T>(s) ==> names_differ::<T>(sorted_by_name::<T>(s)),
    decreases s.len(),
{
    let sorted = sorted_by_name::<T>(s);
    if s.len() > 0 {
        let init = s.drop_last();
        let rest = sorted_by_name::<T>(init);
        let last = s.last();
        let at = place_of::<T>(rest, T::name_of(last));
        law_sorting_keeps_the_values::<T>(init);
        lemma_place_of::<T>(rest, T::name_of(last));
        assert(sorted == rest.insert(at, last));
        assert forall|v: T::V| #[trigger] sorted.contains(v) <==> s.contains(v) by {
            if sorted.contains(v) {
                let i = choose|i: int| 0 <= i < sorted.len() && sorted[i] == v;
                if i == at {
                    assert(s[s.len() - 1] == v);
                } else {
                    let k = if i < at {
                        i
                    } else {
                        i - 1
                    };
                    assert(rest[k] == v);
                    assert(rest.contains(v));
                    let a = choose|a: int| 0 <= a < init.len() && init[a] == v;
                    assert(s[a] == v);
                }
            }
            if s.contains(v) {
                let a = choose|a: int| 0 <= a < s.len() && s[a] == v;
                if a == s.len() - 1 {
                    assert(sorted[at] == v);
                } else {
                    assert(init[a] == v);
                    assert(init.contains(v));
                    assert(rest.contains(v));
                    let k = choose|k: int| 0 <= k < rest.len() && rest[k] == v;
                    if k < at {
                        assert(sorted[k] == v);
                    } else {
                        assert(sorted[k + 1] == v);
                    }
                }
            }
        }
        if names_differ::<T>(s) {
            assert(names_differ::<T>(init)) by {
                assert forall|i: int, j: int|
                    #![trigger init[i], init[j]]
                    0 <= i < j < init.len() implies T::name_of(init[i]) != T::name_of(init[j]) by {
                    assert(init[i] == s[i] && init[j] == s[j]);
                }
            }
            assert forall|k: int| 0 <= k < rest.len() implies T::name_of(#[trigger] rest[k])
                != T::name_of(last) by {
                assert(rest.contains(rest[k]));
                let a = choose|a: int| 0 <= a < init.len() && init[a] == rest[k];
                assert(s[a] == rest[k] && s[s.len() - 1] == last);
            }
            assert forall|i: int, j: int|
                #![trigger sorted[i], sorted[j]]
                0 <= i < j < sorted.len() implies T::name_of(sorted[i]) != T::name_of(sorted[j]) by {
                let a = if i < at {
                    i
                } else {
                    i - 1
                };
                let b = if j < at {
                    j
                } else {
                    j - 1
                };
                if i == at {
                    assert(sorted[j] == rest[b]);
                } else if j == at {
                    assert(sorted[i] == rest[a]);
                } else {
                    assert(sorted[i] == rest[a] && sorted[j] == rest[b]);
                }
            }
        }
    }
}

/// A sorted list whose names all differ comes in the order of its names.
pub proof fn law_sorted_names_increase<T: Named>(s: Seq<T::V>)
    requires
        names_differ::<T>(s),
    ensures
        names_increase::<T>(sorted_by_name::<T>(s)),
    decreases s.len(),
{
    let sorted = sorted_by_name::<T>(s);
    if s.len() > 0 {
        let init = s.drop_last();
        let rest = sorted_by_name::<T>(init);
        let last = s.last();
        let name = T::name_of(last);
        let at = place_of::<T>(rest, name);
        assert forall|i: int, j: int|
            #![trigger init[i], init[j]]
            0 <= i < j < init.len() implies T::name_of(init[i]) != T::name_of(init[j]) by {
            assert(init[i] == s[i] && init[j] == s[j]);
        }
        law_sorted_names_increase::<T>(init);
        law_sorting_keeps_the_values::<T>(init);
        lemma_place_of::<T>(rest, name);
        assert forall|k: int| 0 <= k < at implies text::text_lt(
            T::name_of(#[trigger] rest[k]),
            name,
        ) by {
            assert(rest.contains(rest[k]));
            let a = choose|a: int| 0 <= a < init.len() && init[a] == rest[k];
            assert(s[a] == rest[k] && s[s.len() - 1] == last);
            crate::string_map::lemma_text_lt_total(T::name_of(rest[k]), name);
        }
        assert forall|k: int| at <= k < rest.len() implies text::text_lt(
            name,
            T::name_of(#[trigger] rest[k]),
        ) by {
            if k > at {
                assert(text::text_lt(T::name_of(rest[at]), T::name_of(rest[k])));
                text::lemma_bytes_lt_transitive(
                    encode_utf8(name),
                    encode_utf8(T::name_of(rest[at])),
                    encode_utf8(T::name_of(rest[k])),
                );
            }
        }
        assert forall|i: int, j: int| 0 <= i < j < sorted.len() implies #[trigger] text::text_lt(
            T::name_of(sorted[i]),
            T::name_of(sorted[j]),
        ) by {
            let a = if i < at {
                i
            } else {
                i - 1
            };
            let b = if j < at {
                j
            } else {
                j - 1
            };
            if i == at {
                assert(sorted[j] == rest[b]);
            } else if j == at {
                assert(sorted[i] == rest[a]);
            } else {
                assert(sorted[i] == rest[a] && sorted[j] == rest[b]);
                assert(text::text_lt(T::name_of(rest[a]), T::name_of(rest[b])));
            }
        }
    }
}

fn find_place<T: Named>(s: &Vec<T>, name: &str) -> (at: usize)
    ensures
        at == place_of::<T>(views(s@), name@),
        at <= s.len(),
{
    let mut i: usize = 0;
    assert(views(s@).skip(0) =~= views(s@));
    while i < s.len() && !text::str_before(name, s[i].name_text())
        invariant
            i <= s.len(),
            place_of::<T>(views(s@), name@) == i + place_of::<T>(
                views(s@).skip(i as int),
                name@,
            ),
        decreases s.len() - i,
    {
        assert(views(s@).skip(i as int).skip(1) =~= views(s@).skip(i + 1));
        assert(views(s@).skip(i as int)[0] == s@[i as int]@);
        i = i + 1;
    }
    proof {
        if i < s.len() {
            assert(views(s@).skip(i as int)[0] == s@[i as int]@);
        }
    }
    i
}

/// Adds a value to a list sorted by name.
pub fn insert_sorted<T: Named>(s: &mut Vec<T>, value: T)
    ensures
        views(final(s)@) == views(old(s)@).insert(
            place_of::<T>(views(old(s)@), T::name_of(value@)),
            value@,
        ),
{
    let at: usize = find_place(s, value.name_text());
    let ghost before = s@;
    let ghost item = value;
    s.insert(at, value);
    assert(views(s@) =~= views(before).insert(at as int, item@));
}

/// The page of a sorted list that a token asks for, and the token for the next one.
pub fn take_page<T: Named>(
    records: Vec<T>,
    page_size: usize,
    page_token: Option<&str>,
) -> (r: (Vec<T>, Option<String>))
    ensures
        views(r.0@) == page::<T>(views(records@), page_size as nat, opt_str(page_token)),
        opt_string(r.1) == next_token::<T>(
            views(records@),
            page_size as nat,
            opt_str(page_token),
        ),
{
    let total: usize = records.len();
    let ghost all = records@;
    let start: usize = match page_token {
        Some(token) => find_place(&records, token),
        None => 0,
    };
    let end: usize = if page_size < total - start {
        start + page_size
    } else {
        total
    };
    let mut rest = records;
    rest.truncate(end);
    let out: Vec<T> = rest.split_off(start);
    assert(out@ =~= all.subrange(start as int, end as int));
    assert(views(out@) =~= views(all).subrange(start as int, end as int));
    let token: Option<String> = if end < total && out.len() > 0 {
        Some(String::from_str(out[out.len() - 1].name_text()))
    } else {
        None
    };
    (out, token)
}

} // verus!
