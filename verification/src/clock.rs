//! Time stamps: the current Unix time, date labels, and error messages of commands.

use vstd::prelude::*;
use crate::calendar::{
    date_text, day_of_date, is_dotted_date, is_local_date_text, is_text_of_day, is_valid_date, lemma_date_text_shape,
    lemma_four_digit_years, lemma_text_of_local_day, local_day, utc_day,
};

verus! {

#[verifier::external_type_specification]
#[verifier::external_body]
pub struct ExSystemTime(std::time::SystemTime);

#[verifier::external_type_specification]
#[verifier::external_body]
pub struct ExSystemTimeError(std::time::SystemTimeError);

/// `SystemTime::now`: the clock's current time; nothing is claimed of it.
pub assume_specification[ std::time::SystemTime::now ]() -> std::time::SystemTime;

/// `Duration::as_secs`: the whole seconds of a duration; nothing is claimed of it.
pub assume_specification[ core::time::Duration::as_secs ](d: &core::time::Duration) -> u64;

/// Calls `SystemTime::duration_since(UNIX_EPOCH)`: the time elapsed since the
/// Unix epoch, or an error when `t` lies before it. Nothing is claimed of the value.
#[verifier::external_body]
fn since_unix_epoch(t: &std::time::SystemTime) -> (r: Result<core::time::Duration, std::time::SystemTimeError>) {
    t.duration_since(std::time::UNIX_EPOCH)
}

/// The Unix time for a reading of the clock: the whole seconds since the epoch
/// (as `as i64` converts them), or 0 when the clock is before the epoch.
pub fn unix_seconds_of(since_epoch: Option<u64>) -> (r: i64)
    ensures
        r == match since_epoch {
            Some(s) => s as i64,
            None => 0i64,
        },
{
    match since_epoch {
        Some(s) => s as i64,
        None => 0,
    }
}

/// The current Unix time in seconds, 0 when the clock is before the epoch.
/// The clock's value is not known to the proof; `unix_seconds_of` states the conversion.
pub fn now_unix() -> i64 {
    let now = std::time::SystemTime::now();
    let since = match since_unix_epoch(&now) {
        Ok(d) => Some(d.as_secs()),
        Err(_) => None,
    };
    unix_seconds_of(since)
}

/// chrono represents the instant `secs`: its UTC date lies from -262143-01-01
/// to 262142-12-31, the years of chrono's `NaiveDate`.
pub open spec fn is_representable_timestamp(secs: int) -> bool {
    day_of_date(-262143, 1, 1) <= utc_day(secs) <= day_of_date(262142, 12, 31)
}

/// Calls `DateTime::<Utc>::from_timestamp(secs, 0)` and tells whether a date
/// came back. Claimed, from chrono's source: it does exactly when the day
/// `secs.div_euclid(86400) + 719163` (counted from 0001-01-01 as day 1) is a
/// date of `NaiveDate`'s years -262143..=262142.
#[verifier::external_body]
fn timestamp_in_range(secs: i64) -> (r: bool)
    ensures
        r == is_representable_timestamp(secs as int),
{
    chrono::DateTime::<chrono::Utc>::from_timestamp(secs, 0).is_some()
}

/// First second of 0001-01-02 UTC: from here on, the local date of every time
/// zone lies in year 1 or later.
pub const FIRST_FOUR_DIGIT_SECOND: i64 = -62_135_510_400;

/// Last second of 9999-12-30 UTC: up to here, the local date of every time
/// zone lies in year 9999 or earlier.
pub const LAST_FOUR_DIGIT_SECOND: i64 = 253_402_214_399;

/// Renders the local date of a Unix time stamp with chrono: the instant
/// `DateTime::<Utc>::from_timestamp(secs, 0)`, moved to the machine's time
/// zone (`with_timezone(&Local)`) and formatted with `layout`; also returns
/// that local time's offset east of UTC (`offset().local_minus_utc()`).
/// Claimed, for the layout `"%d.%m.%Y"` only (other layouts are not admitted):
/// the offset is under a day (`FixedOffset`'s range), and the text is
/// `date_text` of the date of the instant shifted by that offset, the date
/// chrono's `format` writes. Which offset the machine's time zone gives is not
/// claimed. chrono panics here only when the machine's time zone data cannot
/// be used.
#[verifier::external_body]
fn local_date_text(secs: i64, layout: &str) -> (r: (String, i32))
    requires
        is_representable_timestamp(secs as int),
        layout@ == "%d.%m.%Y"@,
    ensures
        -86400 < r.1 < 86400,
        is_text_of_day(r.0@, local_day(secs as int, r.1 as int)),
{
    match chrono::DateTime::<chrono::Utc>::from_timestamp(secs, 0) {
        Some(utc) => {
            let local = utc.with_timezone(&chrono::Local);
            (local.format(layout).to_string(), local.offset().local_minus_utc())
        },
        None => (String::new(), 0),
    }
}

/// The label of a Unix time stamp: the `dd.mm.yyyy` text of its date in a time
/// zone less than a day from UTC, or empty text when chrono cannot represent it.
pub open spec fn is_date_label(secs: int, t: Seq<char>) -> bool {
    if is_representable_timestamp(secs) {
        exists|offset: int| -86400 < offset < 86400 && is_text_of_day(t, #[trigger] local_day(secs, offset))
    } else {
        t.len() == 0
    }
}

/// The local date `dd.mm.yyyy` of a Unix time stamp together with the offset
/// (seconds east of UTC) of the machine's time zone at that instant, or `None`
/// when chrono cannot represent the time stamp. The label is the date of
/// `unix_seconds + offset`.
pub fn local_date_label(unix_seconds: i64) -> (r: Option<(String, i32)>)
    ensures
        r is Some <==> is_representable_timestamp(unix_seconds as int),
        r matches Some(p) ==> -86400 < p.1 < 86400
            && is_text_of_day(p.0@, (unix_seconds + p.1) / 86400 + 719163),
{
    if timestamp_in_range(unix_seconds) {
        Some(local_date_text(unix_seconds, "%d.%m.%Y"))
    } else {
        None
    }
}

/// The local date `dd.mm.yyyy` of a Unix time stamp, or empty text when chrono
/// cannot represent it.
pub fn format_timestamp(unix_seconds: i64) -> (s: String)
    ensures
        is_date_label(unix_seconds as int, s@),
        is_representable_timestamp(unix_seconds as int) ==> is_local_date_text(unix_seconds as int, s@),
        s@.len() == 0 <==> !is_representable_timestamp(unix_seconds as int),
        (unix_seconds <= -0x1_0000_0000_0000 || unix_seconds >= 0x1_0000_0000_0000) ==> s@.len() == 0,
        -0x100_0000_0000 <= unix_seconds <= 0x100_0000_0000 ==> s@.len() >= 10 && s@[2] == '.' && s@[5] == '.',
        FIRST_FOUR_DIGIT_SECOND <= unix_seconds <= LAST_FOUR_DIGIT_SECOND ==> is_dotted_date(s@),
{
    match local_date_label(unix_seconds) {
        Some(p) => {
            let (s, offset) = p;
            proof {
                let o = offset as int;
                assert(local_day(unix_seconds as int, o) == (unix_seconds + offset) / 86400 + 719163);
                lemma_text_of_local_day(unix_seconds as int, o, s@);
                assert(-86400 < o < 86400 && is_text_of_day(s@, local_day(unix_seconds as int, o)));
                let (y, m, d) = choose|y: int, m: int, d: int|
                    is_valid_date(y, m, d)
                    && utc_day(unix_seconds as int) - 1 <= day_of_date(y, m, d) <= utc_day(unix_seconds as int) + 1
                    && s@ == #[trigger] date_text(y, m, d);
                lemma_date_text_shape(y, m, d);
                if FIRST_FOUR_DIGIT_SECOND <= unix_seconds <= LAST_FOUR_DIGIT_SECOND {
                    assert(utc_day(FIRST_FOUR_DIGIT_SECOND as int) == 2);
                    assert(utc_day(LAST_FOUR_DIGIT_SECOND as int) == 3652058);
                    assert(utc_day(FIRST_FOUR_DIGIT_SECOND as int) <= utc_day(unix_seconds as int)) by {
                        vstd::arithmetic::div_mod::lemma_div_is_ordered(FIRST_FOUR_DIGIT_SECOND as int, unix_seconds as int, 86400);
                    }
                    assert(utc_day(unix_seconds as int) <= utc_day(LAST_FOUR_DIGIT_SECOND as int)) by {
                        vstd::arithmetic::div_mod::lemma_div_is_ordered(unix_seconds as int, LAST_FOUR_DIGIT_SECOND as int, 86400);
                    }
                    lemma_four_digit_years(y, m, d);
                }
                if -0x100_0000_0000 <= unix_seconds <= 0x100_0000_0000 {
                    lemma_representable_bounds(unix_seconds as int);
                }
            }
            s
        },
        None => {
            proof {
                lemma_representable_bounds(unix_seconds as int);
            }
            String::new()
        },
    }
}

/// A date label of a representable time stamp is the `dd.mm.yyyy` text of the
/// day of `secs + offset` for a time-zone offset under a day.
pub proof fn lemma_date_label_is_day_of_shifted_instant(secs: int, t: Seq<char>)
    requires
        is_representable_timestamp(secs),
        is_date_label(secs, t),
    ensures
        exists|offset: int, y: int, m: int, d: int|
            -86400 < offset < 86400
            && is_valid_date(y, m, d)
            && day_of_date(y, m, d) == (secs + offset) / 86400 + 719163
            && t == #[trigger] date_text(y, m, d) && #[trigger] local_day(secs, offset) == day_of_date(y, m, d),
{
    let o = choose|offset: int| -86400 < offset < 86400 && is_text_of_day(t, #[trigger] local_day(secs, offset));
    let (y, m, d) = choose|y: int, m: int, d: int|
        is_valid_date(y, m, d) && day_of_date(y, m, d) == local_day(secs, o) && t == #[trigger] date_text(y, m, d);
    assert(t == date_text(y, m, d) && local_day(secs, o) == day_of_date(y, m, d));
}

proof fn lemma_representable_bounds(secs: int)
    ensures
        -0x100_0000_0000 <= secs <= 0x100_0000_0000 ==> is_representable_timestamp(secs),
        (secs <= -0x1_0000_0000_0000 || secs >= 0x1_0000_0000_0000) ==> !is_representable_timestamp(secs),
{
    assert(day_of_date(-262143, 1, 1) == -95746129);
    assert(day_of_date(262142, 12, 31) == 95745399);
    if -0x100_0000_0000 <= secs <= 0x100_0000_0000 {
        vstd::arithmetic::div_mod::lemma_div_is_ordered(-0x100_0000_0000, secs, 86400);
        vstd::arithmetic::div_mod::lemma_div_is_ordered(secs, 0x100_0000_0000, 86400);
    }
    if secs <= -0x1_0000_0000_0000 {
        vstd::arithmetic::div_mod::lemma_div_is_ordered(secs, -0x1_0000_0000_0000, 86400);
    }
    if secs >= 0x1_0000_0000_0000 {
        vstd::arithmetic::div_mod::lemma_div_is_ordered(0x1_0000_0000_0000, secs, 86400);
    }
}

/// The message of a failed command: the user-facing text, a colon, and the cause.
pub fn command_error(op: &str, user_msg: &str, e: &str) -> (s: String)
    ensures
        s@ == user_msg@ + seq![':', ' '] + e@,
{
    proof {
        reveal_strlit(": ");
    }
    let mut s = String::from_str(user_msg);
    s.append(": ");
    s.append(e);
    s
}

} // verus!
