//! The Gregorian calendar, extended to all years: which date a day has, and how a date
//! is spelled. The year before the year 1 is the year 0.
use vstd::prelude::*;

use crate::number::{
    decimal, digits, four_digits, lemma_four_digits_are_ordered, lemma_two_digits_are_ordered,
    two_digits,
};
use crate::text::{lemma_text_before_by_head, lemma_text_before_by_tail, text_before};

verus! {

/// A day of the calendar.
pub struct Date {
    pub year: int,
    pub month: int,
    pub day: int,
}

/// Every fourth year is a leap year, except for the hundredth ones that are not four
/// hundredth ones.
pub open spec fn is_leap(year: int) -> bool {
    year % 4 == 0 && (year % 100 != 0 || year % 400 == 0)
}

/// The number of days of a month.
pub open spec fn days_in_month(year: int, month: int) -> int {
    if month == 2 {
        if is_leap(year) {
            29
        } else {
            28
        }
    } else if month == 4 || month == 6 || month == 9 || month == 11 {
        30
    } else {
        31
    }
}

/// The number of days of a year that lie before a month.
pub open spec fn days_before_month(year: int, month: int) -> int
    decreases month,
{
    if month <= 1 {
        0
    } else {
        days_before_month(year, month - 1) + days_in_month(year, month - 1)
    }
}

/// The number of days from the start of the year 0 to the start of a year: 365 for each
/// year between, and one for each leap year among them.
pub open spec fn days_before_year(year: int) -> int {
    365 * year + (year + 3) / 4 - (year + 99) / 100 + (year + 399) / 400
}

impl Date {
    /// The calendar has this date.
    pub open spec fn is_valid(self) -> bool {
        &&& 1 <= self.month <= 12
        &&& 1 <= self.day <= days_in_month(self.year, self.month)
    }

    /// The number of the day, counted from the first of 1970.
    pub open spec fn day_number(self) -> int {
        days_before_year(self.year) - days_before_year(1970) + days_before_month(
            self.year,
            self.month,
        ) + self.day - 1
    }

    /// Whether this date is earlier than the other, by year, then month, then day.
    pub open spec fn is_before(self, other: Date) -> bool {
        ||| self.year < other.year
        ||| self.year == other.year && self.month < other.month
        ||| self.year == other.year && self.month == other.month && self.day < other.day
    }

    /// Year, month and day, joined by dashes.
    pub open spec fn text(self) -> Seq<char> {
        year_text(self.year) + "-"@ + two_digits(self.month) + "-"@ + two_digits(self.day)
    }
}

/// A year in four digits at least, with its sign unless it is one from 0 to 9999.
pub open spec fn year_text(year: int) -> Seq<char> {
    if 0 <= year <= 9999 {
        four_digits(year)
    } else if year > 9999 {
        "+"@ + digits(year as nat)
    } else if year >= -9999 {
        "-"@ + four_digits(-year)
    } else {
        "-"@ + digits((-year) as nat)
    }
}

/// The date of the day with this number, counted from the first of 1970.
pub open spec fn date_of(day: int) -> Date {
    choose|date: Date| date.is_valid() && #[trigger] date.day_number() == day
}

proof fn lemma_year_length(year: int)
    ensures
        days_before_year(year + 1) - days_before_year(year) == (if is_leap(year) {
            366int
        } else {
            365int
        }),
        days_before_month(year, 13) == days_before_year(year + 1) - days_before_year(year),
{
    assert((year + 4) / 4 - (year + 3) / 4 == (if year % 4 == 0 { 1int } else { 0int }));
    assert((year + 100) / 100 - (year + 99) / 100 == (if year % 100 == 0 { 1int } else { 0int }));
    assert((year + 400) / 400 - (year + 399) / 400 == (if year % 400 == 0 { 1int } else { 0int }));
    assert(year % 400 == 0 ==> year % 100 == 0);
    assert(year % 100 == 0 ==> year % 4 == 0);
    reveal_with_fuel(days_before_month, 14);
}

proof fn lemma_years_follow_each_other(a: int, b: int)
    requires
        a <= b,
    ensures
        days_before_year(a) <= days_before_year(b),
    decreases b - a,
{
    if a < b {
        lemma_years_follow_each_other(a, b - 1);
        lemma_year_length(b - 1);
    }
}

proof fn lemma_months_follow_each_other(year: int, a: int, b: int)
    requires
        1 <= a <= b,
    ensures
        0 <= days_before_month(year, a) <= days_before_month(year, b),
    decreases b,
{
    if a < b {
        lemma_months_follow_each_other(year, a, b - 1);
    } else if a > 1 {
        lemma_months_follow_each_other(year, a - 1, a - 1);
    }
}

proof fn lemma_date_is_in_its_year(date: Date)
    requires
        date.is_valid(),
    ensures
        days_before_year(date.year) <= date.day_number() + days_before_year(1970)
            < days_before_year(date.year + 1),
{
    lemma_year_length(date.year);
    lemma_months_follow_each_other(date.year, date.month, date.month + 1);
    lemma_months_follow_each_other(date.year, date.month + 1, 13);
}

/// How many days each month has. February has one more in a year that four divides,
/// unless a hundred divides it and four hundred does not.
pub proof fn lemma_lengths_of_the_months(year: int, month: int)
    requires
        1 <= month <= 12,
    ensures
        month == 1 || month == 3 || month == 5 || month == 7 || month == 8 || month == 10 || month
            == 12 ==> days_in_month(year, month) == 31,
        month == 4 || month == 6 || month == 9 || month == 11 ==> days_in_month(year, month) == 30,
        month == 2 && year % 4 != 0 ==> days_in_month(year, month) == 28,
        month == 2 && year % 4 == 0 && year % 100 != 0 ==> days_in_month(year, month) == 29,
        month == 2 && year % 100 == 0 && year % 400 != 0 ==> days_in_month(year, month) == 28,
        month == 2 && year % 400 == 0 ==> days_in_month(year, month) == 29,
{
}

/// Days are counted from the first of 1970, and the number grows by one from a day to the
/// next: within a month, from the last of a month to the first of the next, and from the
/// last of a year to the first of the next.
pub proof fn lemma_days_are_counted_one_by_one(year: int, month: int, day: int)
    requires
        1 <= month <= 12,
        1 <= day <= days_in_month(year, month),
    ensures
        (Date { year: 1970, month: 1, day: 1 }).day_number() == 0,
        (Date { year, month, day }).is_valid(),
        ({
            let next = if day < days_in_month(year, month) {
                Date { year, month, day: day + 1 }
            } else if month < 12 {
                Date { year, month: month + 1, day: 1 }
            } else {
                Date { year: year + 1, month: 1, day: 1 }
            };
            next.day_number() == (Date { year, month, day }).day_number() + 1
        }),
{
    lemma_year_length(year);
    assert(days_before_month(year, 13) == days_before_month(year, 12) + 31);
}

/// A date is spelled by its year, its month in two digits and its day in two digits, with
/// dashes between them. A year from 0 to 9999 has four digits. Another year has its sign,
/// and four digits at least.
pub proof fn lemma_date_is_spelled_by_its_parts(date: Date)
    ensures
        date.text() == year_text(date.year) + seq!['-'] + two_digits(date.month) + seq!['-']
            + two_digits(date.day),
        0 <= date.year <= 9999 ==> year_text(date.year) == four_digits(date.year),
        date.year > 9999 ==> year_text(date.year) == seq!['+'] + decimal(date.year),
        -9999 <= date.year < 0 ==> year_text(date.year) == seq!['-'] + four_digits(-date.year),
        date.year < -9999 ==> year_text(date.year) == decimal(date.year),
{
    reveal_strlit("-");
    reveal_strlit("+");
    assert("-"@ =~= seq!['-']);
    assert("+"@ =~= seq!['+']);
}

/// The days of the years from 0 to 9999.
pub proof fn lemma_days_of_four_digit_years(date: Date)
    requires
        date.is_valid(),
        0 <= date.year <= 9999,
    ensures
        -719_528 <= date.day_number() <= 2_932_896,
{
    lemma_date_is_in_its_year(date);
    lemma_years_follow_each_other(0, date.year);
    lemma_years_follow_each_other(date.year + 1, 10000);
}

/// Dates follow each other as their days do.
pub proof fn lemma_dates_follow_days(a: Date, b: Date)
    requires
        a.is_valid(),
        b.is_valid(),
    ensures
        a.is_before(b) <==> a.day_number() < b.day_number(),
        a == b <==> a.day_number() == b.day_number(),
{
    lemma_earlier_date_has_lower_number(a, b);
    lemma_earlier_date_has_lower_number(b, a);
}

proof fn lemma_earlier_date_has_lower_number(a: Date, b: Date)
    requires
        a.is_valid(),
        b.is_valid(),
    ensures
        a.is_before(b) ==> a.day_number() < b.day_number(),
{
    if a.year < b.year {
        lemma_date_is_in_its_year(a);
        lemma_date_is_in_its_year(b);
        lemma_years_follow_each_other(a.year + 1, b.year);
    } else if a.year == b.year && a.month < b.month {
        lemma_months_follow_each_other(a.year, a.month + 1, b.month);
        assert(days_before_month(a.year, a.month + 1) == days_before_month(a.year, a.month)
            + days_in_month(a.year, a.month));
    }
}

proof fn lemma_year_of_day(n: int) -> (year: int)
    ensures
        days_before_year(year) <= n < days_before_year(year + 1),
    decreases (if n < 0 { -n } else { n }),
{
    if n == 0 {
        0
    } else if n > 0 {
        let year = lemma_year_of_day(n - 1);
        lemma_year_length(year + 1);
        if n < days_before_year(year + 1) {
            year
        } else {
            year + 1
        }
    } else {
        let year = lemma_year_of_day(n + 1);
        lemma_year_length(year - 1);
        if days_before_year(year) <= n {
            year
        } else {
            year - 1
        }
    }
}

proof fn lemma_month_of_day(year: int, n: int, upto: int) -> (month: int)
    requires
        1 <= upto,
        0 <= n < days_before_month(year, upto + 1),
    ensures
        1 <= month <= upto,
        days_before_month(year, month) <= n < days_before_month(year, month + 1),
    decreases upto,
{
    if days_before_month(year, upto) <= n {
        upto
    } else {
        assert(upto > 1);
        lemma_month_of_day(year, n, upto - 1)
    }
}

/// Every day has a date, and one only.
pub proof fn lemma_every_day_has_one_date(day: int)
    ensures
        date_of(day).is_valid(),
        date_of(day).day_number() == day,
        forall|date: Date| date.is_valid() && #[trigger] date.day_number() == day ==> date
            == date_of(day),
{
    let n = day + days_before_year(1970);
    let year = lemma_year_of_day(n);
    lemma_year_length(year);
    let into = n - days_before_year(year);
    let month = lemma_month_of_day(year, into, 12);
    let found = Date { year, month, day: into - days_before_month(year, month) + 1 };
    assert(days_before_month(year, month + 1) == days_before_month(year, month) + days_in_month(
        year,
        month,
    ));
    assert(found.is_valid() && found.day_number() == day);
    assert forall|date: Date|
        date.is_valid() && #[trigger] date.day_number() == day implies date == date_of(day) by {
        lemma_dates_follow_days(date, date_of(day));
    }
}

/// From the year 0 to the year 9999 a date is spelled in ten characters, and the texts
/// of two dates are ordered as the dates are.
pub proof fn lemma_date_texts_are_ordered(a: Date, b: Date)
    requires
        a.is_valid(),
        b.is_valid(),
        0 <= a.year <= 9999,
        0 <= b.year <= 9999,
    ensures
        a.text().len() == 10,
        a.is_before(b) ==> text_before(a.text(), b.text()),
{
    reveal_strlit("-");
    let dash = "-"@;
    let day_a = two_digits(a.day);
    let day_b = two_digits(b.day);
    let month_a = two_digits(a.month);
    let month_b = two_digits(b.month);
    let tail_a = dash + month_a + dash + day_a;
    let tail_b = dash + month_b + dash + day_b;
    assert(a.text() =~= year_text(a.year) + tail_a);
    assert(b.text() =~= year_text(b.year) + tail_b);
    if a.is_before(b) {
        if a.year < b.year {
            lemma_four_digits_are_ordered(a.year, b.year);
            lemma_text_before_by_head(year_text(a.year), year_text(b.year), tail_a, tail_b);
        } else if a.month < b.month {
            let head = year_text(a.year) + dash;
            lemma_two_digits_are_ordered(a.month, b.month);
            lemma_text_before_by_head(month_a, month_b, dash + day_a, dash + day_b);
            lemma_text_before_by_tail(head, month_a + (dash + day_a), month_b + (dash + day_b));
            assert(a.text() =~= head + (month_a + (dash + day_a)));
            assert(b.text() =~= head + (month_b + (dash + day_b)));
        } else {
            let head = year_text(a.year) + dash + month_a + dash;
            lemma_two_digits_are_ordered(a.day, b.day);
            lemma_text_before_by_tail(head, day_a, day_b);
        }
    }
}

} // verus!
