//! Time stamps as text, and the start of the local day.
//!
//! A time stamp counts milliseconds since the start of 1970 in UTC. How far local
//! time is ahead of UTC, in seconds, is looked up by the caller.
use vstd::prelude::*;

use crate::calendar::{
    date_of, lemma_date_texts_are_ordered, lemma_dates_follow_days, lemma_days_of_four_digit_years,
    lemma_every_day_has_one_date, Date,
};
use crate::number::{lemma_two_digits_are_ordered, two_digits};
use crate::text::{
    lemma_text_before_by_head, lemma_text_before_by_tail, lemma_text_before_is_strict, text_before,
};

verus! {

/// How a time stamp is shown.
pub const LAYOUT: &'static str = "%Y-%m-%d %H:%M:%S";

/// The first time stamp that can be shown: the start of the year -262143.
pub const EARLIEST_MS: i64 = -8_334_601_228_800_000;

/// The last time stamp that can be shown: the end of the year 262142.
pub const LATEST_MS: i64 = 8_210_266_876_799_999;

/// The milliseconds of a day.
pub const DAY_MS: i64 = 86_400_000;

/// A whole number of days that is more than any time stamp to be shown lies before 1970.
const MANY_DAYS_MS: i64 = 8_640_000_000_000_000;

/// Whether the time stamp can be shown.
pub open spec fn is_showable(timestamp_ms: i64) -> bool {
    EARLIEST_MS <= timestamp_ms <= LATEST_MS
}

/// Whether local time can be that far ahead of UTC: less than a day either way.
pub open spec fn is_offset(offset_secs: i32) -> bool {
    -86_400 < offset_secs < 86_400
}

/// The time stamp to show: the start of 1970 stands for one that cannot be shown.
pub open spec fn shown_ms(timestamp_ms: i64) -> i64 {
    if is_showable(timestamp_ms) {
        timestamp_ms
    } else {
        0
    }
}

/// The local time of a time stamp, in milliseconds on the local clock.
pub open spec fn local_ms(timestamp_ms: int, offset_secs: int) -> int {
    timestamp_ms + 1000 * offset_secs
}

/// The local day of a time stamp, counted from the first of 1970.
pub open spec fn local_day(timestamp_ms: int, offset_secs: int) -> int {
    local_ms(timestamp_ms, offset_secs) / (DAY_MS as int)
}

/// The whole seconds of the local day that have passed at a time stamp.
pub open spec fn second_of_day(timestamp_ms: int, offset_secs: int) -> int {
    local_ms(timestamp_ms, offset_secs) % (DAY_MS as int) / 1000
}

/// A time of day: hours, minutes and seconds in two digits each.
pub open spec fn clock_text(second: int) -> Seq<char> {
    two_digits(second / 3600) + ":"@ + two_digits(second / 60 % 60) + ":"@ + two_digits(second % 60)
}

/// A local date and the time of day.
pub open spec fn date_and_clock_text(timestamp_ms: int, offset_secs: int) -> Seq<char> {
    date_of(local_day(timestamp_ms, offset_secs)).text() + " "@ + clock_text(
        second_of_day(timestamp_ms, offset_secs),
    )
}

/// The text of a time stamp.
pub open spec fn time_text(timestamp_ms: i64, offset_secs: i32) -> Seq<char> {
    date_and_clock_text(shown_ms(timestamp_ms) as int, offset_secs as int)
}

/// When the local day of `now_ms` began, in milliseconds on the local clock.
pub open spec fn midnight_of(now_ms: int, offset_secs: int) -> int {
    local_day(now_ms, offset_secs) * DAY_MS
}

/// A time stamp that cannot be shown looks like the start of 1970.
pub proof fn lemma_unshowable_time_looks_like_the_epoch(timestamp_ms: i64, offset_secs: i32)
    requires
        !is_showable(timestamp_ms),
    ensures
        time_text(timestamp_ms, offset_secs) == time_text(0, offset_secs),
{
}

/// While local time keeps its distance from UTC, a time stamp is at or after the
/// start of today exactly if its local day is today or later.
pub proof fn lemma_today_is_a_local_day(timestamp_ms: int, now_ms: int, offset_secs: int)
    ensures
        timestamp_ms >= midnight_of(now_ms, offset_secs) - 1000 * offset_secs <==> local_day(
            timestamp_ms,
            offset_secs,
        ) >= local_day(now_ms, offset_secs),
        midnight_of(now_ms, offset_secs) - 1000 * offset_secs <= now_ms,
{
}

/// The start of a day is shown as midnight, on the date of that day.
pub proof fn lemma_day_starts_at_midnight(start_ms: i64, now_ms: int, offset_secs: i32)
    requires
        is_showable(start_ms),
        local_ms(start_ms as int, offset_secs as int) == midnight_of(now_ms, offset_secs as int),
    ensures
        time_text(start_ms, offset_secs) == date_of(local_day(now_ms, offset_secs as int)).text()
            + " 00:00:00"@,
{
    let day = local_day(now_ms, offset_secs as int);
    let local = local_ms(start_ms as int, offset_secs as int);
    assert(local == day * DAY_MS);
    assert(local_day(start_ms as int, offset_secs as int) == day);
    assert(second_of_day(start_ms as int, offset_secs as int) == 0);
    reveal_strlit(":");
    reveal_strlit(" ");
    reveal_strlit(" 00:00:00");
    assert(time_text(start_ms, offset_secs) =~= date_of(day).text() + " 00:00:00"@);
}

proof fn lemma_clock_fields(second: int)
    requires
        0 <= second < 86_400,
    ensures
        0 <= second / 3600 < 24,
        0 <= second / 60 % 60 < 60,
        0 <= second % 60 < 60,
        second == 3600 * (second / 3600) + 60 * (second / 60 % 60) + second % 60,
{
    let minutes = second / 60;
    assert(second == 60 * minutes + second % 60);
    assert(minutes == 60 * (minutes / 60) + minutes % 60);
    assert(second / 3600 == minutes / 60);
}

proof fn lemma_clock_texts_are_ordered(a: int, b: int)
    requires
        0 <= a < b < 86_400,
    ensures
        text_before(clock_text(a), clock_text(b)),
{
    lemma_clock_fields(a);
    lemma_clock_fields(b);
    lemma_three_fields_are_ordered(
        a / 3600,
        a / 60 % 60,
        a % 60,
        b / 3600,
        b / 60 % 60,
        b % 60,
    );
}

proof fn lemma_three_fields_are_ordered(h: int, m: int, s: int, i: int, n: int, t: int)
    requires
        0 <= h < 100,
        0 <= m < 100,
        0 <= s < 100,
        0 <= i < 100,
        0 <= n < 100,
        0 <= t < 100,
        h < i || h == i && (m < n || m == n && s < t),
    ensures
        text_before(
            two_digits(h) + ":"@ + two_digits(m) + ":"@ + two_digits(s),
            two_digits(i) + ":"@ + two_digits(n) + ":"@ + two_digits(t),
        ),
{
    let colon = ":"@;
    let first = two_digits(h) + colon + two_digits(m) + colon + two_digits(s);
    let second = two_digits(i) + colon + two_digits(n) + colon + two_digits(t);
    let end_a = colon + two_digits(s);
    let end_b = colon + two_digits(t);
    let rest_a = colon + (two_digits(m) + end_a);
    let rest_b = colon + (two_digits(n) + end_b);
    assert(first =~= two_digits(h) + rest_a);
    assert(second =~= two_digits(i) + rest_b);
    if h < i {
        lemma_two_digits_are_ordered(h, i);
        lemma_text_before_by_head(two_digits(h), two_digits(i), rest_a, rest_b);
    } else if m < n {
        let head = two_digits(h) + colon;
        lemma_two_digits_are_ordered(m, n);
        lemma_text_before_by_head(two_digits(m), two_digits(n), end_a, end_b);
        lemma_text_before_by_tail(head, two_digits(m) + end_a, two_digits(n) + end_b);
        assert(first =~= head + (two_digits(m) + end_a));
        assert(second =~= head + (two_digits(n) + end_b));
    } else {
        lemma_two_digits_are_ordered(s, t);
        lemma_text_before_by_tail(
            two_digits(h) + colon + two_digits(m) + colon,
            two_digits(s),
            two_digits(t),
        );
    }
}

/// Where local time is a fixed distance ahead of UTC, and in the local years from 0 to
/// 9999, the text of a time stamp has nineteen characters, a later time stamp never has
/// a smaller text, and two texts are equal exactly if the time stamps lie in the same
/// whole second.
pub proof fn lemma_time_texts_are_ordered(a: i64, b: i64, offset_secs: i32)
    requires
        is_offset(offset_secs),
        0 <= date_of(local_day(a as int, offset_secs as int)).year <= 9999,
        0 <= date_of(local_day(b as int, offset_secs as int)).year <= 9999,
        a <= b,
    ensures
        time_text(a, offset_secs).len() == 19,
        time_text(b, offset_secs).len() == 19,
        time_text(a, offset_secs) == time_text(b, offset_secs) || text_before(
            time_text(a, offset_secs),
            time_text(b, offset_secs),
        ),
        time_text(a, offset_secs) == time_text(b, offset_secs) <==> a as int / 1000 == b as int
            / 1000,
{
    let day_a = local_day(a as int, offset_secs as int);
    let day_b = local_day(b as int, offset_secs as int);
    let second_a = second_of_day(a as int, offset_secs as int);
    let second_b = second_of_day(b as int, offset_secs as int);
    let date_a = date_of(day_a);
    let date_b = date_of(day_b);
    lemma_every_day_has_one_date(day_a);
    lemma_every_day_has_one_date(day_b);
    lemma_days_of_four_digit_years(date_a);
    lemma_days_of_four_digit_years(date_b);
    assert(is_showable(a) && is_showable(b));
    assert(a as int / 1000 + offset_secs == 86_400 * day_a + second_a);
    assert(b as int / 1000 + offset_secs == 86_400 * day_b + second_b);
    assert(0 <= second_a < 86_400 && 0 <= second_b < 86_400);
    lemma_date_texts_are_ordered(date_a, date_b);
    lemma_date_texts_are_ordered(date_b, date_a);
    lemma_dates_follow_days(date_a, date_b);
    reveal_strlit(" ");
    reveal_strlit(":");
    let rest_a = " "@ + clock_text(second_a);
    let rest_b = " "@ + clock_text(second_b);
    assert(time_text(a, offset_secs) =~= date_a.text() + rest_a);
    assert(time_text(b, offset_secs) =~= date_b.text() + rest_b);
    if day_a < day_b {
        lemma_text_before_by_head(date_a.text(), date_b.text(), rest_a, rest_b);
        lemma_text_before_is_strict(time_text(a, offset_secs), time_text(b, offset_secs));
    } else if second_a < second_b {
        lemma_clock_texts_are_ordered(second_a, second_b);
        lemma_text_before_by_tail(
            date_a.text() + " "@,
            clock_text(second_a),
            clock_text(second_b),
        );
        lemma_text_before_is_strict(time_text(a, offset_secs), time_text(b, offset_secs));
    }
}

/// Which time stamps can be shown, how, and how far local time can be from UTC. A time stamp
/// that can be shown is shown as it is, any other as the start of 1970.
pub proof fn lemma_what_can_be_shown(timestamp_ms: i64, offset_secs: i32)
    ensures
        LAYOUT@ == "%Y-%m-%d %H:%M:%S"@,
        is_offset(offset_secs) <==> -86_400 < offset_secs < 86_400,
        is_showable(timestamp_ms) <==> -8_334_601_228_800_000 <= timestamp_ms
            <= 8_210_266_876_799_999,
        -8_334_601_228_800_000 <= timestamp_ms <= 8_210_266_876_799_999 ==> shown_ms(timestamp_ms)
            == timestamp_ms,
        !(-8_334_601_228_800_000 <= timestamp_ms <= 8_210_266_876_799_999) ==> shown_ms(
            timestamp_ms,
        ) == 0,
{
}

proof fn lemma_fields_of_local_time(days: int, hour: int, minute: int, second: int, milli: int)
    requires
        0 <= hour < 24,
        0 <= minute < 60,
        0 <= second < 60,
        0 <= milli < 1000,
    ensures
        ({
            let local = 86_400_000 * days + 3_600_000 * hour + 60_000 * minute + 1000 * second
                + milli;
            let passed = local % 86_400_000 / 1000;
            &&& local / 86_400_000 == days
            &&& passed / 3600 == hour
            &&& passed / 60 % 60 == minute
            &&& passed % 60 == second
        }),
{
    let of_day = 3_600_000 * hour + 60_000 * minute + 1000 * second + milli;
    let local = 86_400_000 * days + of_day;
    assert(0 <= of_day < 86_400_000);
    assert(local / 86_400_000 == days && local % 86_400_000 == of_day);
    assert(of_day / 1000 == 3600 * hour + 60 * minute + second);
    assert((3600 * hour + 60 * minute + second) / 60 == 60 * hour + minute);
}

/// A time stamp is shown as the local date and time that it falls on: where the local
/// clock has counted the days up to the date, then hours, minutes and seconds, and less
/// than a second beyond them.
pub proof fn lemma_time_shows_the_local_date_and_clock(
    timestamp_ms: i64,
    offset_secs: i32,
    date: Date,
    hour: int,
    minute: int,
    second: int,
    milli: int,
)
    requires
        -8_334_601_228_800_000 <= timestamp_ms <= 8_210_266_876_799_999,
        date.is_valid(),
        0 <= hour < 24,
        0 <= minute < 60,
        0 <= second < 60,
        0 <= milli < 1000,
        timestamp_ms + 1000 * offset_secs == 86_400_000 * date.day_number() + 3_600_000 * hour
            + 60_000 * minute + 1000 * second + milli,
    ensures
        time_text(timestamp_ms, offset_secs) == date.text() + seq![' '] + two_digits(hour)
            + seq![':'] + two_digits(minute) + seq![':'] + two_digits(second),
{
    let day = local_day(timestamp_ms as int, offset_secs as int);
    let passed = second_of_day(timestamp_ms as int, offset_secs as int);
    lemma_fields_of_local_time(date.day_number(), hour, minute, second, milli);
    assert(day == date.day_number());
    lemma_every_day_has_one_date(day);
    assert(date_of(day) == date);
    assert(clock_text(passed) == two_digits(hour) + ":"@ + two_digits(minute) + ":"@ + two_digits(
        second,
    ));
    reveal_strlit(" ");
    reveal_strlit(":");
    assert(" "@ =~= seq![' ']);
    assert(":"@ =~= seq![':']);
    assert(time_text(timestamp_ms, offset_secs) =~= date.text() + seq![' '] + two_digits(hour)
        + seq![':'] + two_digits(minute) + seq![':'] + two_digits(second));
}

/// The start of the local day is a whole number of days on the local clock, and lies less
/// than a day before the local time.
pub proof fn lemma_midnight_is_the_last_whole_day(now_ms: int, offset_secs: int)
    ensures
        midnight_of(now_ms, offset_secs) % 86_400_000 == 0,
        midnight_of(now_ms, offset_secs) <= now_ms + 1000 * offset_secs < midnight_of(
            now_ms,
            offset_secs,
        ) + 86_400_000,
{
}

/// `DateTime::from_timestamp_millis`, `with_timezone` for a `FixedOffset`, and `format`.
///
/// Claimed: a time stamp has a date exactly if it lies from the start of the year
/// -262143 to the end of the year 262142. Its text in the layout is the Gregorian date
/// of the local day, a space, and the local time of day. The date is the year, the
/// month and the day joined by dashes: the year in four digits from 0 to 9999 and with
/// a sign otherwise, the month and the day in two digits each. The time of day is the
/// hour, the minute and the second in two digits each, joined by colons.
#[verifier::external_body]
fn chrono_format(timestamp_ms: i64, offset_secs: i32, layout: &str) -> (text: Option<String>)
    requires
        is_offset(offset_secs),
        layout@ == LAYOUT@,
    ensures
        text is Some <==> is_showable(timestamp_ms),
        text matches Some(t) ==> t@ == date_and_clock_text(
            timestamp_ms as int,
            offset_secs as int,
        ),
{
    let utc = chrono::DateTime::<chrono::Utc>::from_timestamp_millis(timestamp_ms)?;
    let zone = chrono::FixedOffset::east_opt(offset_secs)?;
    Some(utc.with_timezone(&zone).format(layout).to_string())
}

/// The time stamp to show for `timestamp_ms`: itself, or the start of 1970 where it
/// cannot be shown.
pub fn shown_timestamp(timestamp_ms: i64) -> (shown: i64)
    ensures
        shown == shown_ms(timestamp_ms),
{
    if EARLIEST_MS <= timestamp_ms && timestamp_ms <= LATEST_MS {
        timestamp_ms
    } else {
        0
    }
}

/// The text of a time stamp in a zone that is `offset_secs` ahead of UTC at the time
/// that is shown.
pub fn format_time(timestamp_ms: i64, offset_secs: i32) -> (text: String)
    requires
        is_offset(offset_secs),
    ensures
        text@ == time_text(timestamp_ms, offset_secs),
{
    match chrono_format(timestamp_ms, offset_secs, LAYOUT) {
        Some(text) => text,
        None => {
            let epoch = chrono_format(0, offset_secs, LAYOUT);
            epoch.unwrap()
        },
    }
}

/// When the local day of `now_ms` began, in milliseconds on the local clock.
pub fn local_midnight(now_ms: i64, offset_secs: i32) -> (midnight: i64)
    requires
        is_showable(now_ms),
        is_offset(offset_secs),
    ensures
        midnight == midnight_of(now_ms as int, offset_secs as int),
{
    let local: i64 = now_ms + 1000 * (offset_secs as i64);
    let shifted: u64 = (local + MANY_DAYS_MS) as u64;
    let into_day: u64 = shifted % 86_400_000;
    proof {
        let day = DAY_MS as int;
        assert(MANY_DAYS_MS == 100_000_000 * day);
        let through = local as int % day;
        assert(shifted as int % day == through) by {
            assert(shifted == local + 100_000_000 * day);
            vstd::arithmetic::div_mod::lemma_mod_multiples_vanish(100_000_000, local as int, day);
        }
        assert(local as int == (local as int / day) * day + through);
    }
    local - into_day as i64
}

/// The time stamp at which the local clock shows `local`, where local time is
/// `offset_secs` ahead of UTC then.
pub fn local_to_timestamp(local: i64, offset_secs: i32) -> (timestamp_ms: i64)
    requires
        is_offset(offset_secs),
        i64::MIN + 86_400_000 <= local <= i64::MAX - 86_400_000,
    ensures
        local_ms(timestamp_ms as int, offset_secs as int) == local,
        timestamp_ms == local - 1000 * offset_secs,
{
    local - 1000 * (offset_secs as i64)
}

} // verus!
