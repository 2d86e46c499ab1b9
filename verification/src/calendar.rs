//! The proleptic Gregorian calendar: day numbers of dates, the date of a Unix
//! time stamp, and the `dd.mm.yyyy` text of a date.

use vstd::prelude::*;
use crate::text::{decimal, digit_char};

verus! {

/// `y` is a leap year (years before 1 counted on, with year 0 leap).
pub open spec fn is_leap_year(y: int) -> bool {
    (y % 4 == 0 && y % 100 != 0) || y % 400 == 0
}

/// The number of days of month `m` in year `y`.
pub open spec fn days_in_month(y: int, m: int) -> int {
    if m == 2 {
        if is_leap_year(y) { 29 } else { 28 }
    } else if m == 4 || m == 6 || m == 9 || m == 11 {
        30
    } else {
        31
    }
}

/// Day `d` of month `m` of year `y` exists.
pub open spec fn is_valid_date(y: int, m: int, d: int) -> bool {
    1 <= m <= 12 && 1 <= d <= days_in_month(y, m)
}

/// The days of the years before year `y`, counted from 0001-01-01.
pub open spec fn days_before_year(y: int) -> int {
    let x = y - 1;
    365 * x + x / 4 - x / 100 + x / 400
}

/// The days of year `y` before month `m`.
pub open spec fn days_before_month(y: int, m: int) -> int {
    let common: int = if m <= 1 { 0 }
        else if m == 2 { 31 }
        else if m == 3 { 59 }
        else if m == 4 { 90 }
        else if m == 5 { 120 }
        else if m == 6 { 151 }
        else if m == 7 { 181 }
        else if m == 8 { 212 }
        else if m == 9 { 243 }
        else if m == 10 { 273 }
        else if m == 11 { 304 }
        else { 334 };
    if m > 2 && is_leap_year(y) { common + 1 } else { common }
}

/// The day number of a date: 0001-01-01 is day 1, each later day one more.
pub open spec fn day_of_date(y: int, m: int, d: int) -> int {
    days_before_year(y) + days_before_month(y, m) + d
}

/// The day number of 1970-01-01.
pub open spec fn unix_epoch_day() -> int {
    719163
}

/// The day number of the UTC date of Unix time `secs`.
pub open spec fn utc_day(secs: int) -> int {
    secs / 86400 + unix_epoch_day()
}

/// `n` in two decimal digits (for `n < 100`).
pub open spec fn two_digits(n: int) -> Seq<char> {
    seq![digit_char((n / 10) as nat), digit_char((n % 10) as nat)]
}

/// `n` in decimal, zero-padded to at least four digits.
pub open spec fn four_digits(n: nat) -> Seq<char> {
    if n < 10 {
        seq!['0', '0', '0'] + decimal(n)
    } else if n < 100 {
        seq!['0', '0'] + decimal(n)
    } else if n < 1000 {
        seq!['0'] + decimal(n)
    } else {
        decimal(n)
    }
}

/// A year as chrono's `%Y` writes it: four digits for years 0 to 9999,
/// otherwise a sign and at least four digits.
pub open spec fn year_text(y: int) -> Seq<char> {
    if 0 <= y <= 9999 {
        four_digits(y as nat)
    } else if y < 0 {
        seq!['-'] + four_digits((-y) as nat)
    } else {
        seq!['+'] + four_digits(y as nat)
    }
}

/// A date as `dd.mm.yyyy` (`%d.%m.%Y`).
pub open spec fn date_text(y: int, m: int, d: int) -> Seq<char> {
    two_digits(d) + seq!['.'] + two_digits(m) + seq!['.'] + year_text(y)
}

/// `t` is a date `dd.mm.yyyy`: ten characters, dots at the third and sixth
/// place, decimal digits elsewhere.
pub open spec fn is_dotted_date(t: Seq<char>) -> bool {
    &&& t.len() == 10
    &&& t[2] == '.'
    &&& t[5] == '.'
    &&& forall|i: int| 0 <= i < 10 && i != 2 && i != 5 ==> '0' <= #[trigger] t[i] <= '9'
}

/// The date shown for Unix time `secs` in some time zone: a valid date at most
/// one day from the UTC date of `secs`, written `dd.mm.yyyy`.
pub open spec fn is_local_date_text(secs: int, t: Seq<char>) -> bool {
    exists|y: int, m: int, d: int|
        is_valid_date(y, m, d)
        && utc_day(secs) - 1 <= day_of_date(y, m, d) <= utc_day(secs) + 1
        && t == #[trigger] date_text(y, m, d)
}

/// The day number of the local date of Unix time `secs` in a time zone
/// `offset` seconds east of UTC.
pub open spec fn local_day(secs: int, offset: int) -> int {
    (secs + offset) / 86400 + unix_epoch_day()
}

/// `t` is the `dd.mm.yyyy` text of the valid date whose day number is `day`.
pub open spec fn is_text_of_day(t: Seq<char>, day: int) -> bool {
    exists|y: int, m: int, d: int|
        is_valid_date(y, m, d) && day_of_date(y, m, d) == day && t == #[trigger] date_text(y, m, d)
}

/// A local day lies at most one day from the UTC day when the offset is under a day.
pub proof fn lemma_local_day_near(secs: int, offset: int)
    requires
        -86400 < offset < 86400,
    ensures
        utc_day(secs) - 1 <= local_day(secs, offset) <= utc_day(secs) + 1,
{
    vstd::arithmetic::div_mod::lemma_fundamental_div_mod(secs, 86400);
    vstd::arithmetic::div_mod::lemma_fundamental_div_mod(secs + offset, 86400);
}

/// The text of a day, being the text of a date at most one day from the UTC
/// day of `secs`, is a local date text of `secs`.
pub proof fn lemma_text_of_local_day(secs: int, offset: int, t: Seq<char>)
    requires
        -86400 < offset < 86400,
        is_text_of_day(t, local_day(secs, offset)),
    ensures
        is_local_date_text(secs, t),
{
    lemma_local_day_near(secs, offset);
    let (y, m, d) = choose|y: int, m: int, d: int|
        is_valid_date(y, m, d) && day_of_date(y, m, d) == local_day(secs, offset) && t == #[trigger] date_text(y, m, d);
    assert(is_valid_date(y, m, d) && utc_day(secs) - 1 <= day_of_date(y, m, d) <= utc_day(secs) + 1
        && t == date_text(y, m, d));
}

proof fn lemma_decimal_shape(n: nat)
    ensures
        forall|i: int| 0 <= i < decimal(n).len() ==> '0' <= #[trigger] decimal(n)[i] <= '9',
        n < 10 ==> decimal(n).len() == 1,
        10 <= n < 100 ==> decimal(n).len() == 2,
        100 <= n < 1000 ==> decimal(n).len() == 3,
        1000 <= n < 10000 ==> decimal(n).len() == 4,
        1000 <= n ==> decimal(n).len() >= 4,
    decreases n,
{
    if n >= 10 {
        lemma_decimal_shape(n / 10);
        let p = decimal(n / 10);
        assert(decimal(n) == p.push(digit_char(n % 10)));
        assert forall|i: int| 0 <= i < decimal(n).len() implies '0' <= #[trigger] decimal(n)[i] <= '9' by {
            if i < p.len() {
                assert(decimal(n)[i] == p[i]);
            }
        }
    }
}

/// The text of a date has its dots at the third and sixth place and at least
/// ten characters; with a year from 0 to 9999 it is exactly `dd.mm.yyyy`.
pub proof fn lemma_date_text_shape(y: int, m: int, d: int)
    requires
        is_valid_date(y, m, d),
    ensures
        date_text(y, m, d).len() >= 10,
        date_text(y, m, d)[2] == '.',
        date_text(y, m, d)[5] == '.',
        0 <= y <= 9999 ==> is_dotted_date(date_text(y, m, d)),
{
    let yy: nat = if y < 0 { (-y) as nat } else { y as nat };
    lemma_decimal_shape(yy);
    let f = four_digits(yy);
    assert(f.len() >= 4);
    assert(forall|i: int| 0 <= i < f.len() ==> '0' <= #[trigger] f[i] <= '9') by {
        assert forall|i: int| 0 <= i < f.len() implies '0' <= #[trigger] f[i] <= '9' by {
            if yy < 10 {
                if i >= 3 { assert(f[i] == decimal(yy)[i - 3]); }
            } else if yy < 100 {
                if i >= 2 { assert(f[i] == decimal(yy)[i - 2]); }
            } else if yy < 1000 {
                if i >= 1 { assert(f[i] == decimal(yy)[i - 1]); }
            }
        }
    }
    let t = date_text(y, m, d);
    let yt = year_text(y);
    assert(yt.len() >= 4);
    assert(t.len() == 6 + yt.len());
    assert(t[2] == '.');
    assert(t[5] == '.');
    if 0 <= y <= 9999 {
        assert(yt == f);
        assert(yt.len() == 4);
        assert forall|i: int| 0 <= i < 10 && i != 2 && i != 5 implies '0' <= #[trigger] t[i] <= '9' by {
            if i >= 6 {
                assert(t[i] == yt[i - 6]);
            }
        }
    }
}

proof fn lemma_date_in_year(y: int, m: int, d: int)
    requires
        is_valid_date(y, m, d),
    ensures
        days_before_year(y) + 1 <= day_of_date(y, m, d) <= days_before_year(y) + 366,
{
}

/// A date whose day number lies from 0001-01-01 to 9999-12-31 has a year from 1 to 9999.
pub proof fn lemma_four_digit_years(y: int, m: int, d: int)
    requires
        is_valid_date(y, m, d),
        day_of_date(1, 1, 1) <= day_of_date(y, m, d) <= day_of_date(9999, 12, 31),
    ensures
        1 <= y <= 9999,
{
    lemma_date_in_year(y, m, d);
    let x = y - 1;
    assert(day_of_date(1, 1, 1) == 1);
    assert(day_of_date(9999, 12, 31) == 3652059);
    if y <= 0 {
        if x == -1 {
            assert(days_before_year(y) == -366);
        } else {
            assert(x / 4 * 4 <= x);
            assert(x / 100 * 100 > x - 100);
            assert(x / 400 * 400 <= x);
        }
    }
    if y >= 10000 {
        if x == 9999 {
            assert(days_before_year(y) == 3652059);
        } else {
            assert(x / 4 * 4 > x - 4);
            assert(x / 100 * 100 <= x);
            assert(x / 400 * 400 > x - 400);
        }
    }
}

} // verus!
