//! Dates, and times as text.

use crate::delivery::dead_letter;
use crate::guarantees::numerals;
use crate::text;
use vstd::prelude::*;

verus! {

/// Days are counted from the first of January 1970, each date one more than the date before, over the
/// ends of months and of years; February has 29 days in every fourth year, but for full centuries
/// that are not divided by 400.
pub proof fn law_calendar(year: int, month: int, day: int)
    requires
        1 <= month <= 12,
    ensures
        dead_letter::day_number(1970, 1, 1) == 0,
        dead_letter::day_number(year, month, day + 1) == dead_letter::day_number(year, month, day)
            + 1,
        ({
            let length = if month == 2 {
                if year % 400 == 0 || (year % 4 == 0 && year % 100 != 0) {
                    29int
                } else {
                    28
                }
            } else if month == 4 || month == 6 || month == 9 || month == 11 {
                30
            } else {
                31
            };
            &&& dead_letter::is_date(year, month, day) <==> 1 <= day <= length
            &&& month < 12 ==> dead_letter::day_number(year, month + 1, 1)
                == dead_letter::day_number(year, month, length) + 1
            &&& month == 12 ==> dead_letter::day_number(year + 1, 1, 1)
                == dead_letter::day_number(year, month, length) + 1
        }),
{
    dead_letter::lemma_month_starts(1970);
    dead_letter::lemma_month_starts(year);
    dead_letter::lemma_month_starts(year + 1);
    dead_letter::lemma_year_length(year);
    assert(dead_letter::days_before_year(1970) == 719_162);
    if month < 12 {
        assert(dead_letter::days_before_month(year, month + 1) == dead_letter::days_before_month(
            year,
            month,
        ) + dead_letter::days_in_month(year, month));
    }
}

/// A number with leading zeros has so many digits at least, and its value.
pub proof fn law_padded(n: nat, width: nat)
    ensures
        numerals::value(dead_letter::padded(n, width)) == n,
        dead_letter::padded(n, width).len() >= width,
        text::dec(n).len() <= width ==> dead_letter::padded(n, width).len() == width,
{
    numerals::law_numeral(n);
    let digits = text::dec(n);
    if digits.len() < width {
        lemma_zeros((width - digits.len()) as nat, digits);
    }
}

proof fn lemma_zeros(k: nat, digits: Seq<char>)
    ensures
        numerals::value(dead_letter::zeros(k) + digits) == numerals::value(digits),
    decreases digits.len(), k,
{
    let all = dead_letter::zeros(k) + digits;
    if digits.len() == 0 {
        if k > 0 {
            assert(all.drop_last() =~= dead_letter::zeros((k - 1) as nat) + digits);
            lemma_zeros((k - 1) as nat, digits);
            assert(all.last() == '0');
        } else {
            assert(all =~= digits);
        }
    } else {
        assert(all.drop_last() =~= dead_letter::zeros(k) + digits.drop_last());
        assert(all.last() == digits.last());
        lemma_zeros(k, digits.drop_last());
    }
}

proof fn lemma_digits(n: nat)
    ensures
        n < 10 ==> text::dec(n).len() == 1,
        n < 100 ==> text::dec(n).len() <= 2,
        n < 1000 ==> text::dec(n).len() <= 3,
        n < 10_000 ==> text::dec(n).len() <= 4,
{
    reveal_with_fuel(text::dec, 5);
}

proof fn lemma_parts(
    a: Seq<char>,
    b: Seq<char>,
    c: Seq<char>,
    d: Seq<char>,
    e: Seq<char>,
    f: Seq<char>,
    g: Seq<char>,
)
    requires
        a.len() == 4,
        b.len() == 2,
        c.len() == 2,
        d.len() == 2,
        e.len() == 2,
        f.len() == 2,
        g.len() == 3,
    ensures
        ({
            let s = a + "-"@ + b + "-"@ + c + "T"@ + d + ":"@ + e + ":"@ + f + "."@ + g + "Z"@;
            &&& s.len() == 24
            &&& s.subrange(0, 4) == a
            &&& s.subrange(5, 7) == b
            &&& s.subrange(8, 10) == c
            &&& s.subrange(11, 13) == d
            &&& s.subrange(14, 16) == e
            &&& s.subrange(17, 19) == f
            &&& s.subrange(20, 23) == g
            &&& s[4] == '-'
            &&& s[7] == '-'
            &&& s[10] == 'T'
            &&& s[13] == ':'
            &&& s[16] == ':'
            &&& s[19] == '.'
            &&& s[23] == 'Z'
        }),
{
    reveal_strlit("-");
    reveal_strlit("T");
    reveal_strlit(":");
    reveal_strlit(".");
    reveal_strlit("Z");
    let s = a + "-"@ + b + "-"@ + c + "T"@ + d + ":"@ + e + ":"@ + f + "."@ + g + "Z"@;
    assert(s.subrange(0, 4) =~= a);
    assert(s.subrange(5, 7) =~= b);
    assert(s.subrange(8, 10) =~= c);
    assert(s.subrange(11, 13) =~= d);
    assert(s.subrange(14, 16) =~= e);
    assert(s.subrange(17, 19) =~= f);
    assert(s.subrange(20, 23) =~= g);
}

proof fn lemma_of_day(ms: int)
    ensures
        ({
            let of_day = ms / 1000 % 86_400;
            let h = of_day / 3600;
            let m = of_day % 3600 / 60;
            let s = of_day % 60;
            &&& 0 <= h < 24
            &&& 0 <= m < 60
            &&& 0 <= s < 60
            &&& ((h * 60 + m) * 60 + s) * 1000 + ms % 1000 == ms % 86_400_000
        }),
{
    let of_day = ms / 1000 % 86_400;
    assert(ms % 86_400_000 == of_day * 1000 + ms % 1000);
    assert(of_day == (of_day / 3600) * 3600 + (of_day % 3600 / 60) * 60 + of_day % 60);
}

/// A time is written as `YYYY-MM-DDTHH:MM:SS.mmmZ`: its parts are those of the date and of the time of
/// day, in UTC. The requirement leaves out years that do not have four digits.
pub proof fn law_time_text(ms: int, year: int, month: int, day: int)
    requires
        dead_letter::is_date_of(ms / 1000 / 86_400, year, month, day),
        0 <= year <= 9999,
    ensures
        ({
            let s = dead_letter::rfc3339_ms(ms);
            let v = |from: int, to: int| numerals::value(s.subrange(from, to));
            let of_day = ms % 86_400_000;
            &&& s.len() == 24
            &&& v(0, 4) == year
            &&& s[4] == '-'
            &&& v(5, 7) == month
            &&& s[7] == '-'
            &&& v(8, 10) == day
            &&& s[10] == 'T'
            &&& s[13] == ':'
            &&& s[16] == ':'
            &&& s[19] == '.'
            &&& s[23] == 'Z'
            &&& ((v(11, 13) * 60 + v(14, 16)) * 60 + v(17, 19)) * 1000 + v(20, 23) == of_day
            &&& v(14, 16) < 60
            &&& v(17, 19) < 60
            &&& v(20, 23) < 1000
        }),
{
    let secs = ms / 1000;
    let date = dead_letter::date_of(secs / 86_400);
    assert(dead_letter::is_date_of(secs / 86_400, date.0, date.1, date.2)) by {
        let t = (year, month, day);
        assert(dead_letter::is_date_of(secs / 86_400, t.0, t.1, t.2));
    }
    dead_letter::law_date_is_unique(secs / 86_400, date.0, date.1, date.2, year, month, day);
    let of_day = secs % 86_400;
    let a = dead_letter::padded(year as nat, 4);
    let b = dead_letter::padded(month as nat, 2);
    let c = dead_letter::padded(day as nat, 2);
    let d = dead_letter::padded((of_day / 3600) as nat, 2);
    let e = dead_letter::padded((of_day % 3600 / 60) as nat, 2);
    let f = dead_letter::padded((of_day % 60) as nat, 2);
    let g = dead_letter::padded((ms % 1000) as nat, 3);
    law_padded(year as nat, 4);
    law_padded(month as nat, 2);
    law_padded(day as nat, 2);
    law_padded((of_day / 3600) as nat, 2);
    law_padded((of_day % 3600 / 60) as nat, 2);
    law_padded((of_day % 60) as nat, 2);
    law_padded((ms % 1000) as nat, 3);
    lemma_digits(year as nat);
    lemma_digits(month as nat);
    lemma_digits(day as nat);
    lemma_digits((of_day / 3600) as nat);
    lemma_digits((of_day % 3600 / 60) as nat);
    lemma_digits((of_day % 60) as nat);
    lemma_digits((ms % 1000) as nat);
    let s = dead_letter::rfc3339_ms(ms);
    assert(s == a + "-"@ + b + "-"@ + c + "T"@ + d + ":"@ + e + ":"@ + f + "."@ + g + "Z"@);
    lemma_parts(a, b, c, d, e, f, g);
    lemma_of_day(ms);
}

} // verus!
