//! Dates of the Gregorian calendar.

use vstd::prelude::*;
use vstd::string::*;
use crate::clock;
use crate::text;

verus! {

/// Whether a year has 366 days.
pub open spec fn leap(year: int) -> bool {
    year % 4 == 0 && (year % 100 != 0 || year % 400 == 0)
}

/// How many of the years before `year`, from year 0 on, have 366 days.
pub open spec fn leaps_before(year: int) -> int {
    (year + 3) / 4 - (year + 99) / 100 + (year + 399) / 400
}

/// The days of a month.
pub open spec fn month_days(year: int, month: int) -> int {
    if month == 2 {
        if leap(year) {
            29
        } else {
            28
        }
    } else if month == 4 || month == 6 || month == 9 || month == 11 {
        30
    } else {
        31
    }
}

/// The days of a year before a month.
pub open spec fn days_before_month(year: int, month: int) -> int
    decreases month,
{
    if month <= 1 {
        0
    } else {
        days_before_month(year, month - 1) + month_days(year, month - 1)
    }
}

/// Whether there is such a day.
pub open spec fn valid_date(year: int, month: int, day: int) -> bool {
    &&& year >= 0
    &&& 1 <= month <= 12
    &&& 1 <= day <= month_days(year, month)
}

/// The number of a day, counted from the first day of year 0.
pub open spec fn date_number(year: int, month: int, day: int) -> int {
    365 * year + leaps_before(year) + days_before_month(year, month) + (day - 1)
}

/// The number of the first day of 1970.
pub const EPOCH: u64 = 719528;

/// The days from the first of March of year 0 to the first of January 1970.
pub const MARCH_EPOCH: u64 = 719468;

/// Whether a date is the one that many days after the first of January 1970.
pub open spec fn is_date(days: int, year: int, month: int, day: int) -> bool {
    valid_date(year, month, day) && date_number(year, month, day) == days + EPOCH
}

/// The date that many days after the first of January 1970.
pub open spec fn date_of(days: int) -> (int, int, int) {
    choose|t: (int, int, int)| #[trigger] is_date(days, t.0, t.1, t.2)
}

proof fn lemma_months(year: int)
    ensures
        days_before_month(year, 1) == 0,
        days_before_month(year, 2) == 31,
        days_before_month(year, 3) == 59 + (if leap(year) {
            1int
        } else {
            0
        }),
        days_before_month(year, 4) == days_before_month(year, 3) + 31,
        days_before_month(year, 5) == days_before_month(year, 3) + 61,
        days_before_month(year, 6) == days_before_month(year, 3) + 92,
        days_before_month(year, 7) == days_before_month(year, 3) + 122,
        days_before_month(year, 8) == days_before_month(year, 3) + 153,
        days_before_month(year, 9) == days_before_month(year, 3) + 184,
        days_before_month(year, 10) == days_before_month(year, 3) + 214,
        days_before_month(year, 11) == days_before_month(year, 3) + 245,
        days_before_month(year, 12) == days_before_month(year, 3) + 275,
{
    reveal_with_fuel(days_before_month, 13);
}

proof fn lemma_fourth_century(y: int)
    ensures
        y % 400 == 0 ==> y % 100 == 0,
{
    if y % 400 == 0 {
        let q = y / 400;
        assert(y == (4 * q) * 100);
        vstd::arithmetic::div_mod::lemma_mod_multiples_basic(4 * q, 100);
    }
}

proof fn lemma_century(y: int)
    ensures
        y % 100 == 0 ==> y % 4 == 0,
{
    if y % 100 == 0 {
        let q = y / 100;
        assert(y == (25 * q) * 4);
        vstd::arithmetic::div_mod::lemma_mod_multiples_basic(25 * q, 4);
    }
}

#[verifier::spinoff_prover]
#[verifier::rlimit(40)]
proof fn lemma_year_starts(year: int)
    requires
        year >= 0,
    ensures
        leaps_before(year + 1) == leaps_before(year) + (if leap(year) {
            1int
        } else {
            0
        }),
{
    lemma_multiple_of_4(year);
    lemma_multiple_of_100(year);
    lemma_multiple_of_400(year);
    lemma_fourth_century(year);
    lemma_century(year);
}

#[verifier::spinoff_prover]
proof fn lemma_multiple_of_4(y: int)
    ensures
        (y + 4) / 4 == (y + 3) / 4 + (if y % 4 == 0 {
            1int
        } else {
            0
        }),
{
}

#[verifier::spinoff_prover]
proof fn lemma_multiple_of_100(y: int)
    ensures
        (y + 100) / 100 == (y + 99) / 100 + (if y % 100 == 0 {
            1int
        } else {
            0
        }),
{
}

#[verifier::spinoff_prover]
proof fn lemma_multiple_of_400(y: int)
    ensures
        (y + 400) / 400 == (y + 399) / 400 + (if y % 400 == 0 {
            1int
        } else {
            0
        }),
{
}

proof fn lemma_years_apart(a: int, b: int)
    requires
        0 <= a < b,
    ensures
        365 * a + leaps_before(a) + 365 + (if leap(a) {
            1int
        } else {
            0
        }) <= 365 * b + leaps_before(b),
    decreases b - a,
{
    lemma_year_starts(a);
    if a + 1 < b {
        lemma_years_apart(a + 1, b);
    }
}

proof fn lemma_day_in_year(year: int, month: int, day: int)
    requires
        valid_date(year, month, day),
    ensures
        0 <= days_before_month(year, month) + day - 1 < 365 + (if leap(year) {
            1int
        } else {
            0
        }),
{
    lemma_months(year);
}

/// Different days have different numbers.
pub proof fn law_dates_distinct(y1: int, m1: int, d1: int, y2: int, m2: int, d2: int)
    requires
        valid_date(y1, m1, d1),
        valid_date(y2, m2, d2),
        date_number(y1, m1, d1) == date_number(y2, m2, d2),
    ensures
        y1 == y2,
        m1 == m2,
        d1 == d2,
{
    lemma_day_in_year(y1, m1, d1);
    lemma_day_in_year(y2, m2, d2);
    if y1 < y2 {
        lemma_years_apart(y1, y2);
    }
    if y2 < y1 {
        lemma_years_apart(y2, y1);
    }
    lemma_months(y1);
}

/// The day after the last one of a month, and the day after another, have the next number.
pub proof fn law_days_follow(year: int, month: int, day: int)
    requires
        valid_date(year, month, day),
    ensures
        day < month_days(year, month) ==> date_number(year, month, day + 1) == date_number(
            year,
            month,
            day,
        ) + 1,
        day == month_days(year, month) && month < 12 ==> date_number(year, month + 1, 1)
            == date_number(year, month, day) + 1,
        day == month_days(year, month) && month == 12 ==> date_number(year + 1, 1, 1)
            == date_number(year, month, day) + 1,
{
    lemma_months(year);
    lemma_months(year + 1);
    lemma_year_starts(year);
}

/// The date that many days after the first of January 1970, as year, month and day.
pub fn days_to_ymd(days: u64) -> (date: (u64, u64, u64))
    requires
        days <= u64::MAX - MARCH_EPOCH,
    ensures
        is_date(days as int, date.0 as int, date.1 as int, date.2 as int),
        (date.0 as int, date.1 as int, date.2 as int) == date_of(days as int),
{
    // Years that start in March end with the leap day, and 400 of them are an era.
    let z: u64 = days + MARCH_EPOCH;
    let era: u64 = z / 146097;
    let doe: u64 = z % 146097;
    let century: u64 = if doe / 36524 < 3 {
        doe / 36524
    } else {
        3
    };
    let doc: u64 = doe - century * 36524;
    let four: u64 = doc / 1461;
    let dof: u64 = doc % 1461;
    let one: u64 = if dof / 365 < 3 {
        dof / 365
    } else {
        3
    };
    let doy: u64 = dof - one * 365;
    let start: u64 = era * 400 + century * 100 + four * 4 + one;
    let mp: u64 = (5 * doy + 2) / 153;
    let day: u64 = doy - (153 * mp + 2) / 5 + 1;
    let month: u64 = if mp < 10 {
        mp + 3
    } else {
        mp - 9
    };
    let year: u64 = if month <= 2 {
        start + 1
    } else {
        start
    };
    proof {
        lemma_shifted_year(
            z as int,
            era as int,
            century as int,
            four as int,
            dof as int,
            one as int,
            doy as int,
            start as int,
        );
        lemma_shifted_date(
            start as int,
            doy as int,
            mp as int,
            day as int,
            month as int,
            year as int,
        );
        let t = (year as int, month as int, day as int);
        assert(is_date(days as int, t.0, t.1, t.2));
        let u = date_of(days as int);
        law_dates_distinct(t.0, t.1, t.2, u.0, u.1, u.2);
    }
    (year, month, day)
}

/// The days before a year that starts in March.
spec fn march_days(y: int) -> int {
    365 * y + y / 4 - y / 100 + y / 400
}

#[verifier::spinoff_prover]
#[verifier::rlimit(40)]
proof fn lemma_shifted_year(
    z: int,
    era: int,
    century: int,
    four: int,
    dof: int,
    one: int,
    doy: int,
    y: int,
)
    requires
        z >= 0,
        era == z / 146097,
        century == if (z % 146097) / 36524 < 3 {
            (z % 146097) / 36524
        } else {
            3
        },
        four == (z % 146097 - century * 36524) / 1461,
        dof == (z % 146097 - century * 36524) % 1461,
        one == if dof / 365 < 3 {
            dof / 365
        } else {
            3
        },
        doy == dof - one * 365,
        y == era * 400 + century * 100 + four * 4 + one,
    ensures
        0 <= doy <= 365,
        march_days(y) + doy == z,
        doy == 365 ==> leap(y + 1),
{
    let doe = z % 146097;
    let doc = doe - century * 36524;
    assert(z == 146097 * era + doe);
    assert(0 <= doc <= 36524);
    assert(doc == 1461 * four + dof);
    assert(0 <= four <= 24);
    assert(0 <= one <= 3);
    assert(0 <= century <= 3);
    assert(y / 4 == 100 * era + 25 * century + four);
    assert(y / 100 == 4 * era + century);
    assert(y / 400 == era);
    if doy == 365 {
        assert(one == 3 && dof == 1460);
        assert((y + 1) % 4 == 0);
        if (y + 1) % 100 == 0 {
            assert(four == 24);
            assert(doc == 36524);
            assert(century == 3);
            assert((y + 1) % 400 == 0);
        }
    }
}

#[verifier::spinoff_prover]
#[verifier::rlimit(40)]
proof fn lemma_shifted_date(y: int, doy: int, mp: int, day: int, month: int, year: int)
    requires
        y >= 0,
        0 <= doy <= 365,
        doy == 365 ==> leap(y + 1),
        mp == (5 * doy + 2) / 153,
        day == doy - (153 * mp + 2) / 5 + 1,
        month == if mp < 10 {
            mp + 3
        } else {
            mp - 9
        },
        year == if month <= 2 {
            y + 1
        } else {
            y
        },
    ensures
        valid_date(year, month, day),
        date_number(year, month, day) == march_days(y) + doy + 60,
{
    lemma_month_of(doy, mp, day);
    lemma_leaps(y);
    lemma_month_starts(y, mp);
    if mp < 10 {
        lemma_year_starts(y);
    }
}

proof fn lemma_leaps(y: int)
    requires
        y >= 0,
    ensures
        365 * (y + 1) + leaps_before(y + 1) == march_days(y) + 366,
{
    assert((y + 4) / 4 == y / 4 + 1);
    assert((y + 100) / 100 == y / 100 + 1);
    assert((y + 400) / 400 == y / 400 + 1);
}

#[verifier::spinoff_prover]
#[verifier::rlimit(40)]
proof fn lemma_month_starts(y: int, mp: int)
    requires
        0 <= mp <= 11,
    ensures
        mp < 10 ==> days_before_month(y, mp + 3) == (153 * mp + 2) / 5 + 59 + (if leap(y) {
            1int
        } else {
            0
        }),
        mp >= 10 ==> days_before_month(y + 1, mp - 9) == (153 * mp + 2) / 5 - 306,
{
    lemma_months(y);
    lemma_months(y + 1);
    if mp == 0 {
    } else if mp == 1 {
    } else if mp == 2 {
    } else if mp == 3 {
    } else if mp == 4 {
    } else if mp == 5 {
    } else if mp == 6 {
    } else if mp == 7 {
    } else if mp == 8 {
    } else if mp == 9 {
    } else if mp == 10 {
    }
}

#[verifier::spinoff_prover]
#[verifier::rlimit(40)]
proof fn lemma_month_of(doy: int, mp: int, day: int)
    requires
        0 <= doy <= 365,
        mp == (5 * doy + 2) / 153,
        day == doy - (153 * mp + 2) / 5 + 1,
    ensures
        0 <= mp <= 11,
        day >= 1,
        mp == 0 ==> doy == day - 1 && day <= 31,
        mp == 1 ==> doy == 31 + day - 1 && day <= 30,
        mp == 2 ==> doy == 61 + day - 1 && day <= 31,
        mp == 3 ==> doy == 92 + day - 1 && day <= 30,
        mp == 4 ==> doy == 122 + day - 1 && day <= 31,
        mp == 5 ==> doy == 153 + day - 1 && day <= 31,
        mp == 6 ==> doy == 184 + day - 1 && day <= 30,
        mp == 7 ==> doy == 214 + day - 1 && day <= 31,
        mp == 8 ==> doy == 245 + day - 1 && day <= 30,
        mp == 9 ==> doy == 275 + day - 1 && day <= 31,
        mp == 10 ==> doy == 306 + day - 1 && day <= 31,
        mp == 11 ==> doy == 337 + day - 1 && day <= 29,
        mp == 11 && day == 29 ==> doy == 365,
{
}

/// A moment, in seconds since 1970 began, as RFC 3339 writes it.
pub open spec fn rfc3339_text(secs: u64) -> Seq<char> {
    let (year, month, day) = date_of((secs / 86400) as int);
    text::zero_padded(year as nat, 4) + "-"@ + text::zero_padded(month as nat, 2) + "-"@
        + text::zero_padded(day as nat, 2) + "T"@ + text::zero_padded(
        ((secs / 3600) % 24) as nat,
        2,
    ) + ":"@ + text::zero_padded(((secs / 60) % 60) as nat, 2) + ":"@ + text::zero_padded(
        (secs % 60) as nat,
        2,
    ) + "Z"@
}

/// A moment, in seconds since 1970 began, as RFC 3339 writes it.
pub fn rfc3339(secs: u64) -> (out: String)
    ensures
        out@ == rfc3339_text(secs),
{
    let (year, month, day) = days_to_ymd(secs / 86400);
    let mut out: String = String::new();
    text::push_zero_padded(&mut out, year, 4);
    out.append("-");
    text::push_zero_padded(&mut out, month, 2);
    out.append("-");
    text::push_zero_padded(&mut out, day, 2);
    out.append("T");
    text::push_zero_padded(&mut out, (secs / 3600) % 24, 2);
    out.append(":");
    text::push_zero_padded(&mut out, (secs / 60) % 60, 2);
    out.append(":");
    text::push_zero_padded(&mut out, secs % 60, 2);
    out.append("Z");
    assert(out@ =~= rfc3339_text(secs));
    out
}

#[verifier::spinoff_prover]
#[verifier::rlimit(40)]
proof fn lemma_date_of(days: int)
    requires
        days >= 0,
    ensures
        is_date(days, date_of(days).0, date_of(days).1, date_of(days).2),
{
    let z = days + MARCH_EPOCH;
    let era = z / 146097;
    let doe = z % 146097;
    let century = if doe / 36524 < 3 {
        doe / 36524
    } else {
        3
    };
    let doc = doe - century * 36524;
    let four = doc / 1461;
    let dof = doc % 1461;
    let one = if dof / 365 < 3 {
        dof / 365
    } else {
        3
    };
    let doy = dof - one * 365;
    let start = era * 400 + century * 100 + four * 4 + one;
    let mp = (5 * doy + 2) / 153;
    let day = doy - (153 * mp + 2) / 5 + 1;
    let month = if mp < 10 {
        mp + 3
    } else {
        mp - 9
    };
    let year = if month <= 2 {
        start + 1
    } else {
        start
    };
    lemma_shifted_year(z, era, century, four, dof, one, doy, start);
    lemma_shifted_date(start, doy, mp, day, month, year);
    let t = (year, month, day);
    assert(is_date(days, t.0, t.1, t.2));
}

/// Of two dates, the one with the smaller number comes first: by its year, in a year by its
/// month, and in a month by its day.
pub proof fn law_dates_ordered(y1: int, m1: int, d1: int, y2: int, m2: int, d2: int)
    requires
        valid_date(y1, m1, d1),
        valid_date(y2, m2, d2),
        date_number(y1, m1, d1) < date_number(y2, m2, d2),
    ensures
        y1 < y2 || (y1 == y2 && (m1 < m2 || (m1 == m2 && d1 < d2))),
{
    lemma_day_in_year(y1, m1, d1);
    lemma_day_in_year(y2, m2, d2);
    if y2 < y1 {
        lemma_years_apart(y2, y1);
    }
    lemma_months(y1);
}

/// The year of a moment, in seconds since 1970 began.
pub open spec fn year_of(secs: u64) -> int {
    date_of((secs / 86400) as int).0
}

/// The number in some places of a text.
pub open spec fn number_in(t: Seq<char>, from: int, to: int) -> int {
    text::digits_value(t.subrange(from, to)) as int
}

/// The parts of a moment: the year, the month, the day, the hour, the minute and the second.
spec fn parts(secs: u64) -> (int, int, int, int, int, int) {
    let (year, month, day) = date_of((secs / 86400) as int);
    (
        year,
        month,
        day,
        ((secs / 3600) % 24) as int,
        ((secs / 60) % 60) as int,
        (secs % 60) as int,
    )
}

/// A moment from the hour on.
spec fn time_text(h: int, m: int, s: int) -> Seq<char> {
    text::zero_padded(h as nat, 2) + (seq![':'] + (text::zero_padded(m as nat, 2) + (seq![':'] + (
    text::zero_padded(s as nat, 2) + seq!['Z']))))
}

/// A moment, grouped from the end.
spec fn moment_text(secs: u64) -> Seq<char> {
    let (year, month, day, h, m, s) = parts(secs);
    text::zero_padded(year as nat, 4) + (seq!['-'] + (text::zero_padded(month as nat, 2) + (seq![
        '-',
    ] + (text::zero_padded(day as nat, 2) + (seq!['T'] + time_text(h, m, s))))))
}

proof fn lemma_clock(s: int)
    requires
        s >= 0,
    ensures
        s == (s / 86400) * 86400 + 3600 * ((s / 3600) % 24) + 60 * ((s / 60) % 60) + s % 60,
{
    vstd::arithmetic::div_mod::lemma_div_denominator(s, 60, 60);
    vstd::arithmetic::div_mod::lemma_div_denominator(s, 3600, 24);
    let m = s / 60;
    let h = s / 3600;
    let d = s / 86400;
    assert(m / 60 == h);
    assert(h / 24 == d);
    assert(s == 60 * m + s % 60);
    assert(m == 60 * h + m % 60);
    assert(h == 24 * d + h % 24);
}

#[verifier::spinoff_prover]
#[verifier::rlimit(40)]
proof fn lemma_parts(secs: u64)
    requires
        year_of(secs) <= 9999,
    ensures
        ({
            let (year, month, day, h, m, s) = parts(secs);
            &&& is_date((secs / 86400) as int, year, month, day)
            &&& 0 <= year < 10000
            &&& 0 <= month < 100
            &&& 0 <= day < 100
            &&& 0 <= h < 24
            &&& 0 <= m < 60
            &&& 0 <= s < 60
            &&& secs == (secs / 86400) * 86400 + 3600 * h + 60 * m + s
        }),
{
    lemma_date_of((secs / 86400) as int);
    lemma_clock(secs as int);
}

#[verifier::spinoff_prover]
#[verifier::rlimit(40)]
proof fn lemma_moment_text(secs: u64)
    ensures
        rfc3339_text(secs) == moment_text(secs),
{
    reveal_strlit("-");
    reveal_strlit("T");
    reveal_strlit(":");
    reveal_strlit("Z");
    assert("-"@ =~= seq!['-']);
    assert("T"@ =~= seq!['T']);
    assert(":"@ =~= seq![':']);
    assert("Z"@ =~= seq!['Z']);
    assert(rfc3339_text(secs) =~= moment_text(secs));
}

/// Up to the year 9999 a moment takes 20 characters: its parts stand at fixed places, between
/// fixed signs, and the numbers at these places denote the moment.
#[verifier::spinoff_prover]
#[verifier::rlimit(40)]
pub proof fn law_time_has_form(secs: u64)
    requires
        year_of(secs) <= 9999,
    ensures
        ({
            let t = rfc3339_text(secs);
            &&& t.len() == 20
            &&& t[4] == '-' && t[7] == '-' && t[10] == 'T'
            &&& t[13] == ':' && t[16] == ':' && t[19] == 'Z'
            &&& text::all_digits(t.subrange(0, 4))
            &&& text::all_digits(t.subrange(5, 7))
            &&& text::all_digits(t.subrange(8, 10))
            &&& text::all_digits(t.subrange(11, 13))
            &&& text::all_digits(t.subrange(14, 16))
            &&& text::all_digits(t.subrange(17, 19))
            &&& is_date(
                (secs / 86400) as int,
                number_in(t, 0, 4),
                number_in(t, 5, 7),
                number_in(t, 8, 10),
            )
            &&& number_in(t, 11, 13) < 24
            &&& number_in(t, 14, 16) < 60
            &&& number_in(t, 17, 19) < 60
            &&& secs == (secs / 86400) * 86400 + 3600 * number_in(t, 11, 13) + 60 * number_in(
                t,
                14,
                16,
            ) + number_in(t, 17, 19)
        }),
{
    lemma_parts(secs);
    lemma_moment_text(secs);
    let (year, month, day, h, m, s) = parts(secs);
    text::lemma_zero_padded(year as nat, 4);
    text::lemma_zero_padded(month as nat, 2);
    text::lemma_zero_padded(day as nat, 2);
    text::lemma_zero_padded(h as nat, 2);
    text::lemma_zero_padded(m as nat, 2);
    text::lemma_zero_padded(s as nat, 2);
    let t = rfc3339_text(secs);
    assert(t.subrange(0, 4) =~= text::zero_padded(year as nat, 4));
    assert(t.subrange(5, 7) =~= text::zero_padded(month as nat, 2));
    assert(t.subrange(8, 10) =~= text::zero_padded(day as nat, 2));
    assert(t.subrange(11, 13) =~= text::zero_padded(h as nat, 2));
    assert(t.subrange(14, 16) =~= text::zero_padded(m as nat, 2));
    assert(t.subrange(17, 19) =~= text::zero_padded(s as nat, 2));
}

/// What follows a number decides where the numbers are equal.
proof fn lemma_field_order(a: int, b: int, width: nat, x: Seq<char>, y: Seq<char>)
    requires
        width == 2 && 0 <= a < 100 && 0 <= b < 100 || width == 4 && 0 <= a < 10000 && 0 <= b
            < 10000,
        a < b || (a == b && text::before(x, y)),
    ensures
        text::before(text::zero_padded(a as nat, width) + x, text::zero_padded(b as nat, width) + y),
{
    text::lemma_zero_padded(a as nat, width);
    text::lemma_zero_padded(b as nat, width);
    let p = text::zero_padded(a as nat, width);
    let q = text::zero_padded(b as nat, width);
    if a < b {
        text::lemma_digits_order(p, q);
    }
    text::lemma_before_concat(p, q, x, y);
}

/// A sign in front of two texts does not change their order.
proof fn lemma_sign_order(c: char, x: Seq<char>, y: Seq<char>)
    ensures
        text::before(x, y) ==> text::before(seq![c] + x, seq![c] + y),
{
    text::lemma_before_concat(seq![c], seq![c], x, y);
}

proof fn lemma_times_order(h1: int, m1: int, s1: int, h2: int, m2: int, s2: int)
    requires
        0 <= h1 < 24,
        0 <= m1 < 60,
        0 <= s1 < 60,
        0 <= h2 < 24,
        0 <= m2 < 60,
        0 <= s2 < 60,
        3600 * h1 + 60 * m1 + s1 < 3600 * h2 + 60 * m2 + s2,
    ensures
        text::before(time_text(h1, m1, s1), time_text(h2, m2, s2)),
{
    let z = seq!['Z'];
    let c1 = text::zero_padded(s1 as nat, 2) + z;
    let c2 = text::zero_padded(s2 as nat, 2) + z;
    let b1 = text::zero_padded(m1 as nat, 2) + (seq![':'] + c1);
    let b2 = text::zero_padded(m2 as nat, 2) + (seq![':'] + c2);
    if h1 == h2 {
        if m1 == m2 {
            lemma_field_order(s1, s2, 2, z, z);
            lemma_sign_order(':', c1, c2);
        }
        lemma_field_order(m1, m2, 2, seq![':'] + c1, seq![':'] + c2);
        lemma_sign_order(':', b1, b2);
    }
    lemma_field_order(h1, h2, 2, seq![':'] + b1, seq![':'] + b2);
}

/// Up to the year 9999 moments sort as texts in the order in which they come.
#[verifier::spinoff_prover]
#[verifier::rlimit(40)]
pub proof fn law_times_sort(a: u64, b: u64)
    requires
        a < b,
        year_of(b) <= 9999,
    ensures
        year_of(a) <= 9999,
        text::before(rfc3339_text(a), rfc3339_text(b)),
{
    let (y1, m1, d1, h1, i1, s1) = parts(a);
    let (y2, m2, d2, h2, i2, s2) = parts(b);
    let n1 = (a / 86400) as int;
    let n2 = (b / 86400) as int;
    lemma_date_of(n1);
    lemma_date_of(n2);
    if n1 < n2 {
        law_dates_ordered(y1, m1, d1, y2, m2, d2);
    } else {
        assert(n1 == n2);
    }
    lemma_parts(a);
    lemma_parts(b);
    lemma_moment_text(a);
    lemma_moment_text(b);
    let t1 = time_text(h1, i1, s1);
    let t2 = time_text(h2, i2, s2);
    let e1 = text::zero_padded(d1 as nat, 2) + (seq!['T'] + t1);
    let e2 = text::zero_padded(d2 as nat, 2) + (seq!['T'] + t2);
    let f1 = text::zero_padded(m1 as nat, 2) + (seq!['-'] + e1);
    let f2 = text::zero_padded(m2 as nat, 2) + (seq!['-'] + e2);
    if n1 == n2 {
        lemma_times_order(h1, i1, s1, h2, i2, s2);
        lemma_sign_order('T', t1, t2);
    }
    if y1 == y2 && m1 == m2 {
        lemma_field_order(d1, d2, 2, seq!['T'] + t1, seq!['T'] + t2);
        lemma_sign_order('-', e1, e2);
    }
    if y1 == y2 {
        lemma_field_order(m1, m2, 2, seq!['-'] + e1, seq!['-'] + e2);
        lemma_sign_order('-', f1, f2);
    }
    lemma_field_order(y1, y2, 4, seq!['-'] + f1, seq!['-'] + f2);
}

/// The date of a moment, as RFC 3339 writes it.
pub open spec fn date_text(secs: u64) -> Seq<char> {
    rfc3339_text(secs).take(10)
}

/// A date, grouped from the end.
spec fn day_text(year: int, month: int, day: int) -> Seq<char> {
    text::zero_padded(year as nat, 4) + (seq!['-'] + (text::zero_padded(month as nat, 2) + (seq![
        '-',
    ] + (text::zero_padded(day as nat, 2) + Seq::<char>::empty()))))
}

#[verifier::spinoff_prover]
#[verifier::rlimit(40)]
proof fn lemma_date_text(secs: u64)
    requires
        year_of(secs) <= 9999,
    ensures
        date_text(secs) == day_text(parts(secs).0, parts(secs).1, parts(secs).2),
        date_text(secs).len() == 10,
{
    lemma_parts(secs);
    lemma_moment_text(secs);
    let (year, month, day, h, m, s) = parts(secs);
    text::lemma_zero_padded(year as nat, 4);
    text::lemma_zero_padded(month as nat, 2);
    text::lemma_zero_padded(day as nat, 2);
    text::lemma_zero_padded(h as nat, 2);
    text::lemma_zero_padded(m as nat, 2);
    text::lemma_zero_padded(s as nat, 2);
    assert(rfc3339_text(secs).take(10) =~= day_text(year, month, day));
}

/// Up to the year 9999 the moments of a day have one date, and the dates of days sort as texts
/// in the order in which the days come.
#[verifier::spinoff_prover]
#[verifier::rlimit(40)]
pub proof fn law_dates_sort(a: u64, b: u64)
    requires
        year_of(a) <= 9999,
        year_of(b) <= 9999,
    ensures
        a / 86400 == b / 86400 ==> date_text(a) == date_text(b),
        a / 86400 < b / 86400 ==> text::before(date_text(a), date_text(b)),
{
    lemma_date_text(a);
    lemma_date_text(b);
    lemma_parts(a);
    lemma_parts(b);
    let (y1, m1, d1, h1, i1, s1) = parts(a);
    let (y2, m2, d2, h2, i2, s2) = parts(b);
    if a / 86400 < b / 86400 {
        law_dates_ordered(y1, m1, d1, y2, m2, d2);
        let z = Seq::<char>::empty();
        let e1 = text::zero_padded(d1 as nat, 2) + z;
        let e2 = text::zero_padded(d2 as nat, 2) + z;
        let f1 = text::zero_padded(m1 as nat, 2) + (seq!['-'] + e1);
        let f2 = text::zero_padded(m2 as nat, 2) + (seq!['-'] + e2);
        if y1 == y2 && m1 == m2 {
            lemma_field_order(d1, d2, 2, z, z);
            lemma_sign_order('-', e1, e2);
        }
        if y1 == y2 {
            lemma_field_order(m1, m2, 2, seq!['-'] + e1, seq!['-'] + e2);
            lemma_sign_order('-', f1, f2);
        }
        lemma_field_order(y1, y2, 4, seq!['-'] + f1, seq!['-'] + f2);
    }
}

/// The present moment, as RFC 3339 writes it.
pub fn now_rfc3339() -> (out: String)
    ensures
        exists|secs: u64| out@ == #[trigger] rfc3339_text(secs),
{
    let secs: u64 = clock::unix_seconds();
    rfc3339(secs)
}

/// The years that can be divided by four have a leap day, but for the centuries that cannot be
/// divided by four hundred; the months have the lengths that they have.
pub proof fn law_calendar(y: int)
    ensures
        leap(2000),
        !leap(1900),
        leap(2024),
        !leap(2023),
        leap(y) <==> y % 400 == 0 || (y % 4 == 0 && y % 100 != 0),
        month_days(y, 1) == 31,
        month_days(y, 2) == if leap(y) {
            29int
        } else {
            28
        },
        month_days(y, 3) == 31,
        month_days(y, 4) == 30,
        month_days(y, 5) == 31,
        month_days(y, 6) == 30,
        month_days(y, 7) == 31,
        month_days(y, 8) == 31,
        month_days(y, 9) == 30,
        month_days(y, 10) == 31,
        month_days(y, 11) == 30,
        month_days(y, 12) == 31,
        is_date(0, 1970, 1, 1),
{
    lemma_fourth_century(y);
    lemma_century(y);
    lemma_months(1970);
}

} // verus!
