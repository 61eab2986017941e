//! Dead-lettering: when a message is given up on, and what is noted on it when it is forwarded.

use crate::string_map;
use crate::string_map::{Entries, StringMap};
use crate::text;
use vstd::prelude::*;
use vstd::string::*;

verus! {

/// A subscription's dead-letter configuration.
#[derive(Debug)]
pub struct DeadLetterPolicy {
    /// Where messages are forwarded to; `None` turns dead-lettering off.
    pub topic: Option<String>,
    /// After how many deliveries a message is forwarded.
    pub max_delivery_attempts: i32,
}

/// Attribute: how often the message was delivered when it was given up on.
pub const ATTR_DELIVERY_COUNT: &'static str = "CloudPubSubDeadLetterSourceDeliveryCount";

/// Attribute: the full name of the source subscription.
pub const ATTR_SUBSCRIPTION: &'static str = "CloudPubSubDeadLetterSourceSubscription";

/// Attribute: the project of the source subscription.
pub const ATTR_SUBSCRIPTION_PROJECT: &'static str =
    "CloudPubSubDeadLetterSourceSubscriptionProject";

/// Attribute: when the message was first published, RFC 3339 in UTC.
pub const ATTR_TOPIC_PUBLISH_TIME: &'static str = "CloudPubSubDeadLetterSourceTopicPublishTime";

/// Whether a message that was delivered `prior_attempts` times is given up on.
pub open spec fn dead_letter_due(
    prior_attempts: u32,
    has_topic: bool,
    max_delivery_attempts: i32,
) -> bool {
    has_topic && max_delivery_attempts > 0 && prior_attempts >= max_delivery_attempts
}

/// Whether a message that was delivered `prior_attempts` times is forwarded instead of being
/// delivered again: only with a topic to forward to and a positive threshold that is reached.
pub fn should_dead_letter(prior_attempts: u32, policy: &DeadLetterPolicy) -> (r: bool)
    ensures
        r == dead_letter_due(prior_attempts, policy.topic is Some, policy.max_delivery_attempts),
{
    policy.topic.is_some() && policy.max_delivery_attempts > 0 && prior_attempts
        >= policy.max_delivery_attempts as u32
}

/// The project in a full subscription name; empty when the name does not start with `projects/`.
pub open spec fn project_of(name: Seq<char>) -> Seq<char> {
    if text::has_prefix(name, "projects/"@) {
        text::segments(name.skip(9))[0]
    } else {
        Seq::empty()
    }
}

/// The attributes of a forwarded message.
pub open spec fn dead_letter_attributes(
    original: Entries,
    delivery_count: u32,
    subscription: Seq<char>,
    publish_ts_ms: i64,
) -> Entries {
    let a = string_map::entries_insert(
        original,
        ATTR_DELIVERY_COUNT@,
        text::dec(delivery_count as nat),
    );
    let b = string_map::entries_insert(a, ATTR_SUBSCRIPTION@, subscription);
    let c = string_map::entries_insert(b, ATTR_SUBSCRIPTION_PROJECT@, project_of(subscription));
    string_map::entries_insert(c, ATTR_TOPIC_PUBLISH_TIME@, rfc3339_ms(publish_ts_ms as int))
}

/// The original attributes with the four that tell where a forwarded message came from.
pub fn build_attributes(
    original: &StringMap,
    delivery_count: u32,
    source_subscription_full_name: &str,
    source_topic_publish_ts_ms: i64,
) -> (r: StringMap)
    ensures
        r@ == dead_letter_attributes(
            original@,
            delivery_count,
            source_subscription_full_name@,
            source_topic_publish_ts_ms,
        ),
{
    let mut attrs = original.clone();
    attrs.insert(String::from_str(ATTR_DELIVERY_COUNT), text::u64_text(delivery_count as u64));
    attrs.insert(
        String::from_str(ATTR_SUBSCRIPTION),
        String::from_str(source_subscription_full_name),
    );
    proof {
        reveal_strlit("projects/");
    }
    let project: String = match text::strip_prefix(source_subscription_full_name, "projects/") {
        Some(rest) => {
            let parts = text::split_slashes(rest.as_str());
            assert(text::texts(parts@)[0] == parts[0]@);
            parts[0].clone()
        },
        None => String::new(),
    };
    attrs.insert(String::from_str(ATTR_SUBSCRIPTION_PROJECT), project);
    attrs.insert(
        String::from_str(ATTR_TOPIC_PUBLISH_TIME),
        format_rfc3339_ms(source_topic_publish_ts_ms),
    );
    attrs
}

/// A leap year of the Gregorian calendar.
pub open spec fn is_leap(year: int) -> bool {
    year % 4 == 0 && (year % 100 != 0 || year % 400 == 0)
}

/// The days of a month.
pub open spec fn days_in_month(year: int, month: int) -> int {
    if month == 2 {
        if is_leap(year) {
            29
        } else {
            28
        }
    } else if month == 4 || month == 6 || month == 9 || month == 11 {
        30
    } else {
        31
    }
}

/// The days of a year before a month starts.
pub open spec fn days_before_month(year: int, month: int) -> int
    decreases month,
{
    if month <= 1 {
        0
    } else {
        days_before_month(year, month - 1) + days_in_month(year, month - 1)
    }
}

/// The days from the start of year 1 to the start of `year`.
pub open spec fn days_before_year(year: int) -> int {
    365 * (year - 1) + (year - 1) / 4 - (year - 1) / 100 + (year - 1) / 400
}

/// A date of the Gregorian calendar.
pub open spec fn is_date(year: int, month: int, day: int) -> bool {
    1 <= month <= 12 && 1 <= day <= days_in_month(year, month)
}

/// The days from 1970-01-01 to a date.
pub open spec fn day_number(year: int, month: int, day: int) -> int {
    days_before_year(year) + days_before_month(year, month) + day - 1 - 719_162
}

/// The date that is `days` days after 1970-01-01.
pub open spec fn is_date_of(days: int, year: int, month: int, day: int) -> bool {
    is_date(year, month, day) && day_number(year, month, day) == days
}

/// The date that is `days` days after 1970-01-01, as year, month and day.
pub open spec fn date_of(days: int) -> (int, int, int) {
    choose|t: (int, int, int)| #[trigger] is_date_of(days, t.0, t.1, t.2)
}

pub(crate) proof fn lemma_month_starts(year: int)
    ensures
        days_before_month(year, 1) == 0,
        days_before_month(year, 2) == 31,
        ({
            let feb = if is_leap(year) {
                29int
            } else {
                28
            };
            &&& days_before_month(year, 3) == 31 + feb
            &&& days_before_month(year, 4) == 62 + feb
            &&& days_before_month(year, 5) == 92 + feb
            &&& days_before_month(year, 6) == 123 + feb
            &&& days_before_month(year, 7) == 153 + feb
            &&& days_before_month(year, 8) == 184 + feb
            &&& days_before_month(year, 9) == 215 + feb
            &&& days_before_month(year, 10) == 245 + feb
            &&& days_before_month(year, 11) == 276 + feb
            &&& days_before_month(year, 12) == 306 + feb
        }),
{
    reveal_with_fuel(days_before_month, 13);
}

pub(crate) proof fn lemma_year_length(year: int)
    ensures
        days_before_year(year + 1) == days_before_year(year) + if is_leap(year) {
            366int
        } else {
            365
        },
{
    let before = year - 1;
    assert(year / 4 == before / 4 + if year % 4 == 0 {
        1int
    } else {
        0
    });
    assert(year / 100 == before / 100 + if year % 100 == 0 {
        1int
    } else {
        0
    });
    assert(year / 400 == before / 400 + if year % 400 == 0 {
        1int
    } else {
        0
    });
    assert(year % 100 == 0 ==> year % 4 == 0);
    assert(year % 400 == 0 ==> year % 100 == 0);
}

proof fn lemma_years_increase(a: int, b: int)
    requires
        a <= b,
    ensures
        days_before_year(a) + 365 * (b - a) <= days_before_year(b),
    decreases b - a,
{
    if a < b {
        lemma_years_increase(a, b - 1);
        lemma_year_length(b - 1);
    }
}

proof fn lemma_day_within_year(year: int, month: int, day: int)
    requires
        is_date(year, month, day),
    ensures
        days_before_year(year) <= day_number(year, month, day) + 719_162 < days_before_year(
            year + 1,
        ),
{
    lemma_month_starts(year);
    lemma_year_length(year);
}

/// A day has one date.
pub proof fn law_date_is_unique(days: int, y1: int, m1: int, d1: int, y2: int, m2: int, d2: int)
    requires
        is_date_of(days, y1, m1, d1),
        is_date_of(days, y2, m2, d2),
    ensures
        y1 == y2 && m1 == m2 && d1 == d2,
{
    lemma_day_within_year(y1, m1, d1);
    lemma_day_within_year(y2, m2, d2);
    if y1 < y2 {
        lemma_years_increase(y1 + 1, y2);
    } else if y2 < y1 {
        lemma_years_increase(y2 + 1, y1);
    } else {
        lemma_month_starts(y1);
    }
}

proof fn lemma_year_of_era(doe: int)
    requires
        0 <= doe < 146_097,
    ensures
        ({
            let yoe = (doe - doe / 1460 + doe / 36_524 - doe / 146_096) / 365;
            let doy = doe - (365 * yoe + yoe / 4 - yoe / 100);
            &&& 0 <= yoe < 400
            &&& 0 <= doy <= 365
            &&& doy == 365 ==> is_leap(yoe + 1)
        }),
{
    let a = doe / 1460;
    let b = doe / 36_524;
    let c = doe / 146_096;
    let yoe = (doe - a + b - c) / 365;
    let q4 = yoe / 4;
    let q100 = yoe / 100;
    assert(0 <= b <= 4);
    assert(0 <= c <= 1);
}

proof fn lemma_month_of_year(doy: int)
    requires
        0 <= doy <= 365,
    ensures
        ({
            let mp = (5 * doy + 2) / 153;
            let day = doy - (153 * mp + 2) / 5 + 1;
            let month = if mp < 10 {
                mp + 3
            } else {
                mp - 9
            };
            &&& 0 <= mp <= 11
            &&& 1 <= day <= 31
            &&& (month == 4 || month == 6 || month == 9 || month == 11) ==> day <= 30
            &&& month == 2 ==> day <= 29
            &&& month == 2 && day == 29 ==> doy == 365
            &&& mp < 10 ==> doy == (if mp == 0 {
                0int
            } else if mp == 1 {
                31
            } else if mp == 2 {
                61
            } else if mp == 3 {
                92
            } else if mp == 4 {
                122
            } else if mp == 5 {
                153
            } else if mp == 6 {
                184
            } else if mp == 7 {
                214
            } else if mp == 8 {
                245
            } else {
                275
            }) + day - 1
            &&& mp == 10 ==> doy == 306 + day - 1
            &&& mp == 11 ==> doy == 337 + day - 1
        }),
{
}

fn civil_from_days(days: i64) -> (r: (i64, u32, u32))
    requires
        -200_000_000_000 <= days <= 200_000_000_000,
    ensures
        is_date_of(days as int, r.0 as int, r.1 as int, r.2 as int),
{
    let z: i64 = days + 719_468;
    let era: i64 = if z >= 0 {
        z / 146_097
    } else {
        -((146_096 - z) / 146_097)
    };
    proof {
        assert(era == (z as int) / 146_097) by {
            if z < 0 {
                assert((146_096 - z) / 146_097 == -((z as int) / 146_097));
            }
        }
    }
    let doe: i64 = z - era * 146_097;
    let yoe: i64 = (doe - doe / 1460 + doe / 36_524 - doe / 146_096) / 365;
    proof {
        lemma_year_of_era(doe as int);
    }
    let y: i64 = yoe + era * 400;
    let doy: i64 = doe - (365 * yoe + yoe / 4 - yoe / 100);
    proof {
        lemma_month_of_year(doy as int);
    }
    let mp: i64 = (5 * doy + 2) / 153;
    let day: i64 = doy - (153 * mp + 2) / 5 + 1;
    let month: i64 = if mp < 10 {
        mp + 3
    } else {
        mp - 9
    };
    let year: i64 = if month <= 2 {
        y + 1
    } else {
        y
    };
    proof {
        lemma_date_of_parts(era as int, yoe as int, doy as int, mp as int, day as int);
    }
    (year, month as u32, day as u32)
}

proof fn lemma_date_of_parts(era: int, yoe: int, doy: int, mp: int, day: int)
    requires
        0 <= yoe < 400,
        0 <= doy <= 365,
        doy == 365 ==> is_leap(yoe + 1),
        mp == (5 * doy + 2) / 153,
        day == doy - (153 * mp + 2) / 5 + 1,
    ensures
        ({
            let month = if mp < 10 {
                mp + 3
            } else {
                mp - 9
            };
            let year = if month <= 2 {
                yoe + era * 400 + 1
            } else {
                yoe + era * 400
            };
            is_date_of(
                era * 146_097 + 365 * yoe + yoe / 4 - yoe / 100 + doy - 719_468,
                year,
                month,
                day,
            )
        }),
{
    lemma_month_of_year(doy);
    let month = if mp < 10 {
        mp + 3
    } else {
        mp - 9
    };
    let y = yoe + era * 400;
    let year = if month <= 2 {
        y + 1
    } else {
        y
    };
    lemma_month_starts(year);
    lemma_leap_in_era(era, yoe);
    lemma_leap_in_era(era, yoe + 1);
    lemma_year_length(y);
    lemma_year_start(era, yoe);
}

proof fn lemma_leap_in_era(era: int, yoe: int)
    ensures
        is_leap(yoe + era * 400) == is_leap(yoe),
{
    assert((yoe + era * 400) % 4 == yoe % 4);
    assert((yoe + era * 400) % 100 == yoe % 100);
    assert((yoe + era * 400) % 400 == yoe % 400);
}

proof fn lemma_year_start(era: int, yoe: int)
    requires
        0 <= yoe < 400,
    ensures
        days_before_year(yoe + era * 400) + (if is_leap(yoe) {
            366int
        } else {
            365
        }) == era * 146_097 + 365 * yoe + yoe / 4 - yoe / 100,
{
    lemma_leap_in_era(era, yoe);
    lemma_year_length(yoe + era * 400);
    assert((yoe + era * 400) / 4 == yoe / 4 + era * 100);
    assert((yoe + era * 400) / 100 == yoe / 100 + era * 4);
    assert((yoe + era * 400) / 400 == era);
}

/// A character, `n` times.
pub open spec fn zeros(n: nat) -> Seq<char> {
    Seq::new(n, |i: int| '0')
}

/// A natural number in decimal, with zeros in front up to `width` digits.
pub open spec fn padded(n: nat, width: nat) -> Seq<char> {
    let digits = text::dec(n);
    if digits.len() >= width {
        digits
    } else {
        zeros((width - digits.len()) as nat) + digits
    }
}

/// A year with at least four characters, the sign of a negative one included.
pub open spec fn year_text(year: int) -> Seq<char> {
    if year < 0 {
        seq!['-'] + padded((-year) as nat, 3)
    } else {
        padded(year as nat, 4)
    }
}

/// A time in milliseconds since the Unix epoch, as RFC 3339 in UTC with milliseconds.
pub open spec fn rfc3339_ms(ms: int) -> Seq<char> {
    let secs = ms / 1000;
    let date = date_of(secs / 86_400);
    let of_day = secs % 86_400;
    year_text(date.0) + "-"@ + padded(date.1 as nat, 2) + "-"@ + padded(date.2 as nat, 2) + "T"@
        + padded((of_day / 3600) as nat, 2) + ":"@ + padded((of_day % 3600 / 60) as nat, 2) + ":"@
        + padded((of_day % 60) as nat, 2) + "."@ + padded((ms % 1000) as nat, 3) + "Z"@
}

fn push_padded(out: &mut String, n: u64, width: usize)
    ensures
        final(out)@ == old(out)@ + padded(n as nat, width as nat),
{
    let digits = text::u64_text(n);
    let len: usize = digits.as_str().unicode_len();
    let ghost before = out@;
    let mut have: usize = len;
    assert(before + zeros(0) =~= before);
    while have < width
        invariant
            len <= have,
            have <= width || have == len,
            out@ == before + zeros((have - len) as nat),
        decreases width - have,
    {
        out.push('0');
        have = have + 1;
        assert(before + zeros((have - len) as nat) =~= (before + zeros(
            (have - len - 1) as nat,
        )).push('0'));
    }
    out.append(digits.as_str());
    proof {
        if len >= width {
            assert(have == len);
            assert(before + zeros(0) + digits@ =~= before + digits@);
        } else {
            assert(before + zeros((width - len) as nat) + digits@ =~= before + (zeros(
                (width - len) as nat,
            ) + digits@));
        }
    }
}

fn push_year(out: &mut String, year: i64)
    requires
        -1_000_000_000_000 <= year <= 1_000_000_000_000,
    ensures
        final(out)@ == old(out)@ + year_text(year as int),
{
    if year < 0 {
        out.push('-');
        let ghost signed = out@;
        push_padded(out, (-year) as u64, 3);
        assert(out@ =~= old(out)@ + (seq!['-'] + padded((-year) as nat, 3)));
    } else {
        push_padded(out, year as u64, 4);
    }
}

proof fn lemma_euclid(a: int, b: int, q: int, r: int)
    requires
        b > 0,
        a == q * b + r,
        0 <= r < b,
    ensures
        a / b == q,
        a % b == r,
{
    vstd::arithmetic::div_mod::lemma_fundamental_div_mod_converse(a, b, q, r);
}

fn div_floor(a: i64, b: i64) -> (r: (i64, i64))
    requires
        b == 1000 || b == 86_400,
    ensures
        r.0 == (a as int) / (b as int),
        r.1 == (a as int) % (b as int),
{
    if a >= 0 {
        (a / b, a % b)
    } else {
        let m: i64 = -(a + 1);
        let q: i64 = -1 - m / b;
        let rem: i64 = b - 1 - m % b;
        proof {
            vstd::arithmetic::div_mod::lemma_fundamental_div_mod(m as int, b as int);
            let k = (m as int) / (b as int);
            assert((-1 - k) * b == -b - b * k) by (nonlinear_arith);
            lemma_euclid(a as int, b as int, q as int, rem as int);
        }
        (q, rem)
    }
}

/// Writes a time in milliseconds since the Unix epoch as RFC 3339 in UTC with milliseconds.
pub fn format_rfc3339_ms(ms: i64) -> (s: String)
    ensures
        s@ == rfc3339_ms(ms as int),
{
    let (secs, millis) = div_floor(ms, 1000);
    let (days, of_day) = div_floor(secs, 86_400);
    let (year, month, day) = civil_from_days(days);
    proof {
        let t = date_of(days as int);
        assert(is_date_of(days as int, (year as int, month as int, day as int).0, month as int, day as int));
        law_date_is_unique(
            days as int,
            year as int,
            month as int,
            day as int,
            t.0,
            t.1,
            t.2,
        );
        lemma_year_range(days as int, year as int, month as int, day as int);
    }
    let mut s = String::new();
    push_year(&mut s, year);
    s.append("-");
    push_padded(&mut s, month as u64, 2);
    s.append("-");
    push_padded(&mut s, day as u64, 2);
    s.append("T");
    push_padded(&mut s, (of_day / 3600) as u64, 2);
    s.append(":");
    push_padded(&mut s, (of_day % 3600 / 60) as u64, 2);
    s.append(":");
    push_padded(&mut s, (of_day % 60) as u64, 2);
    s.append(".");
    push_padded(&mut s, millis as u64, 3);
    s.append("Z");
    assert(s@ =~= rfc3339_ms(ms as int));
    s
}

proof fn lemma_year_range(days: int, year: int, month: int, day: int)
    requires
        is_date_of(days, year, month, day),
        -200_000_000_000 <= days <= 200_000_000_000,
    ensures
        -1_000_000_000_000 <= year <= 1_000_000_000_000,
{
    lemma_day_within_year(year, month, day);
}

} // verus!
