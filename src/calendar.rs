//! Dates, weekdays, departure times and a schedule's date range.
use vstd::prelude::*;

use crate::text::{digit_run, digit_run_exec, is_digit, lower, lower_exec, numeral, numeral_exec};

verus! {

/// A day of the week.
#[derive(Clone, Copy, Debug, PartialEq, Eq, Structural)]
pub enum Weekday {
    Monday,
    Tuesday,
    Wednesday,
    Thursday,
    Friday,
    Saturday,
    Sunday,
}

/// A calendar date of the proleptic Gregorian calendar.
#[derive(Clone, Copy, Debug, PartialEq, Eq, Structural)]
pub struct Date {
    pub year: u32,
    pub month: u32,
    pub day: u32,
}

/// A time of day, on a 24-hour clock.
#[derive(Clone, Copy, Debug, PartialEq, Eq, Structural)]
pub struct Time {
    pub hour: u32,
    pub minute: u32,
}

/// The inclusive window of dates that one published schedule covers.
#[derive(Clone, Copy, Debug, PartialEq, Eq, Structural)]
pub struct DateRange {
    pub start: Date,
    pub end: Date,
}

pub const MAX_YEAR: u32 = 9999;

pub open spec fn is_leap_year(y: int) -> bool {
    (y % 4 == 0 && y % 100 != 0) || y % 400 == 0
}

pub open spec fn days_in_month(y: int, m: int) -> int {
    if m == 2 {
        if is_leap_year(y) { 29 } else { 28 }
    } else if m == 4 || m == 6 || m == 9 || m == 11 {
        30
    } else {
        31
    }
}

/// The largest day number that a month has in any year.
pub open spec fn max_days_in_month(m: int) -> int {
    if m == 2 { 29 } else { days_in_month(1, m) }
}

impl Date {
    pub open spec fn valid(self) -> bool {
        &&& 1 <= self.year <= MAX_YEAR
        &&& 1 <= self.month <= 12
        &&& 1 <= self.day <= days_in_month(self.year as int, self.month as int)
    }

    /// Calendar order: by year, then month, then day.
    pub open spec fn le(self, other: Date) -> bool {
        self.year < other.year || (self.year == other.year && (self.month < other.month || (
        self.month == other.month && self.day <= other.day)))
    }
}

impl Time {
    pub open spec fn valid(self) -> bool {
        self.hour < 24 && self.minute < 60
    }
}

impl DateRange {
    pub open spec fn contains(self, d: Date) -> bool {
        self.start.le(d) && d.le(self.end)
    }

    pub open spec fn valid(self) -> bool {
        self.start.valid() && self.end.valid() && self.start.le(self.end)
    }
}

/// Number of days in the months of year `y` that come before month `m`.
pub open spec fn days_before_month(y: int, m: int) -> int
    decreases m,
{
    if m <= 1 {
        0
    } else {
        days_before_month(y, m - 1) + days_in_month(y, m - 1)
    }
}

/// Number of days in the years before year `y`, counted from year 1.
pub open spec fn days_before_year(y: int) -> int {
    365 * (y - 1) + (y - 1) / 4 - (y - 1) / 100 + (y - 1) / 400
}

/// The position of a date counted in days, 0001-01-01 being day 1.
pub open spec fn day_number(d: Date) -> int {
    days_before_year(d.year as int) + days_before_month(d.year as int, d.month as int) + d.day
}

pub open spec fn weekday_from_index(i: int) -> Weekday {
    if i == 0 {
        Weekday::Monday
    } else if i == 1 {
        Weekday::Tuesday
    } else if i == 2 {
        Weekday::Wednesday
    } else if i == 3 {
        Weekday::Thursday
    } else if i == 4 {
        Weekday::Friday
    } else if i == 5 {
        Weekday::Saturday
    } else {
        Weekday::Sunday
    }
}

/// The day of the week of a date; 0001-01-01 was a Monday.
pub open spec fn weekday_of(d: Date) -> Weekday {
    weekday_from_index((day_number(d) - 1) % 7)
}

fn days_in_month_exec(y: u32, m: u32) -> (r: u32)
    requires
        1 <= m <= 12,
    ensures
        r == days_in_month(y as int, m as int),
{
    if m == 2 {
        if (y % 4 == 0 && y % 100 != 0) || y % 400 == 0 {
            29
        } else {
            28
        }
    } else if m == 4 || m == 6 || m == 9 || m == 11 {
        30
    } else {
        31
    }
}

proof fn lemma_days_before_month_bound(y: int, m: int)
    requires
        1 <= m <= 13,
    ensures
        0 <= days_before_month(y, m) <= 31 * (m - 1),
    decreases m,
{
    if m > 1 {
        lemma_days_before_month_bound(y, m - 1);
    }
}

impl Date {
    /// The day of the week on which this date falls.
    pub fn weekday(&self) -> (r: Weekday)
        requires
            self.valid(),
        ensures
            r == weekday_of(*self),
    {
        let y: u64 = self.year as u64 - 1;
        let mut before_month: u64 = 0;
        let mut m: u32 = 1;
        while m < self.month
            invariant
                1 <= m <= self.month <= 12,
                before_month == days_before_month(self.year as int, m as int),
            decreases self.month - m,
        {
            proof {
                lemma_days_before_month_bound(self.year as int, m as int);
            }
            before_month = before_month + days_in_month_exec(self.year, m) as u64;
            m = m + 1;
        }
        proof {
            lemma_days_before_month_bound(self.year as int, self.month as int);
        }
        assert(365 * y <= 365 * 9999 && y / 100 <= y && y / 4 <= y && y / 400 <= y) by (nonlinear_arith)
            requires
                y <= 9999,
        ;
        let n: u64 = 365 * y + y / 4 - y / 100 + y / 400 + before_month + self.day as u64;
        let i: u64 = (n - 1) % 7;
        if i == 0 {
            Weekday::Monday
        } else if i == 1 {
            Weekday::Tuesday
        } else if i == 2 {
            Weekday::Wednesday
        } else if i == 3 {
            Weekday::Thursday
        } else if i == 4 {
            Weekday::Friday
        } else if i == 5 {
            Weekday::Saturday
        } else {
            Weekday::Sunday
        }
    }

    /// Whether this date comes on or before `other` in the calendar.
    pub fn is_on_or_before(&self, other: &Date) -> (r: bool)
        ensures
            r == self.le(*other),
    {
        self.year < other.year || (self.year == other.year && (self.month < other.month || (
        self.month == other.month && self.day <= other.day)))
    }
}

/// Lower-case three-letter abbreviation of month `m`.
pub open spec fn month_abbrev(m: int) -> (char, char, char) {
    if m == 1 {
        ('j', 'a', 'n')
    } else if m == 2 {
        ('f', 'e', 'b')
    } else if m == 3 {
        ('m', 'a', 'r')
    } else if m == 4 {
        ('a', 'p', 'r')
    } else if m == 5 {
        ('m', 'a', 'y')
    } else if m == 6 {
        ('j', 'u', 'n')
    } else if m == 7 {
        ('j', 'u', 'l')
    } else if m == 8 {
        ('a', 'u', 'g')
    } else if m == 9 {
        ('s', 'e', 'p')
    } else if m == 10 {
        ('o', 'c', 't')
    } else if m == 11 {
        ('n', 'o', 'v')
    } else {
        ('d', 'e', 'c')
    }
}

/// The month, from 1 to 12, whose abbreviation opens `t` (letter case aside), or 0.
pub open spec fn month_named(t: Seq<char>) -> int {
    if t.len() < 3 {
        0
    } else {
        choose_month(t, 1)
    }
}

pub open spec fn choose_month(t: Seq<char>, m: int) -> int
    recommends
        t.len() >= 3,
    decreases 13 - m,
{
    if m < 1 || m > 12 {
        0
    } else if (lower(t[0]), lower(t[1]), lower(t[2])) == month_abbrev(m) {
        m
    } else {
        choose_month(t, m + 1)
    }
}

/// Month and day named by a token such as `Jul 4`: a month's abbreviation, one
/// space and a day number of one or two digits that the month can have.
pub open spec fn date_token_fields(t: Seq<char>) -> Option<(int, int)> {
    if (t.len() == 5 || t.len() == 6) && month_named(t) >= 1 && t[3] == ' ' && digit_run(t, 4)
        == t.len() - 4 {
        let m = month_named(t);
        let d = numeral(t, 4, t.len() as int);
        if 1 <= d <= max_days_in_month(m) {
            Some((m, d))
        } else {
            None
        }
    } else {
        None
    }
}

/// The first year from `y` on up to the range's last year in which month `m`
/// and day `d` make a date inside the range.
pub open spec fn first_date_in_range(r: DateRange, m: int, d: int, y: int) -> Option<Date>
    decreases r.end.year + 1 - y,
{
    if y > r.end.year || y < 1 {
        None
    } else {
        let c = Date { year: y as u32, month: m as u32, day: d as u32 };
        if d <= days_in_month(y, m) && r.contains(c) {
            Some(c)
        } else {
            first_date_in_range(r, m, d, y + 1)
        }
    }
}

/// A date token read within a range: `Err` where it names no date,
/// `Ok(None)` where the date falls outside the range.
pub open spec fn date_within(r: DateRange, t: Seq<char>) -> Result<Option<Date>, ()> {
    match date_token_fields(t) {
        None => Err(()),
        Some((m, d)) => Ok(first_date_in_range(r, m, d, r.start.year as int)),
    }
}

/// A time such as `11:00 PM`: hour from 1 to 12, two-digit minute, one space, am or pm.
pub open spec fn twelve_hour_time(t: Seq<char>) -> Option<Time> {
    let h = digit_run(t, 0) as int;
    if 1 <= h <= 2 && t.len() == h + 6 && t[h] == ':' && digit_run(t, h + 1) == 2 && t[h + 3]
        == ' ' && (lower(t[h + 4]) == 'a' || lower(t[h + 4]) == 'p') && lower(t[h + 5]) == 'm'
        && 1 <= numeral(t, 0, h) <= 12 && numeral(t, h + 1, h + 3) <= 59 {
        let hour = numeral(t, 0, h) % 12 + if lower(t[h + 4]) == 'p' { 12int } else { 0int };
        Some(Time { hour: hour as u32, minute: numeral(t, h + 1, h + 3) as u32 })
    } else {
        None
    }
}

pub proof fn lemma_first_date_in_range(r: DateRange, m: int, d: int, y: int)
    requires
        r.valid(),
        1 <= m <= 12,
        1 <= d,
    ensures
        first_date_in_range(r, m, d, y) matches Some(c) ==> c.valid() && r.contains(c) && c.month
            == m && c.day == d,
    decreases r.end.year + 1 - y,
{
    if y <= r.end.year && y >= 1 {
        lemma_first_date_in_range(r, m, d, y + 1);
    }
}

fn month_abbrev_exec(m: u32) -> (r: (char, char, char))
    ensures
        r == month_abbrev(m as int),
{
    if m == 1 {
        ('j', 'a', 'n')
    } else if m == 2 {
        ('f', 'e', 'b')
    } else if m == 3 {
        ('m', 'a', 'r')
    } else if m == 4 {
        ('a', 'p', 'r')
    } else if m == 5 {
        ('m', 'a', 'y')
    } else if m == 6 {
        ('j', 'u', 'n')
    } else if m == 7 {
        ('j', 'u', 'l')
    } else if m == 8 {
        ('a', 'u', 'g')
    } else if m == 9 {
        ('s', 'e', 'p')
    } else if m == 10 {
        ('o', 'c', 't')
    } else if m == 11 {
        ('n', 'o', 'v')
    } else {
        ('d', 'e', 'c')
    }
}

fn month_named_exec(t: &Vec<char>) -> (r: u32)
    ensures
        r == month_named(t@),
        r <= 12,
{
    if t.len() < 3 {
        return 0;
    }
    let key = (lower_exec(t[0]), lower_exec(t[1]), lower_exec(t[2]));
    let mut m: u32 = 1;
    while m <= 12
        invariant
            1 <= m <= 13,
            t@.len() >= 3,
            key == (lower(t@[0]), lower(t@[1]), lower(t@[2])),
            month_named(t@) == choose_month(t@, m as int),
        decreases 13 - m,
    {
        let a = month_abbrev_exec(m);
        if key.0 == a.0 && key.1 == a.1 && key.2 == a.2 {
            return m;
        }
        m = m + 1;
    }
    0
}

fn date_token_fields_exec(t: &Vec<char>) -> (r: Option<(u32, u32)>)
    ensures
        r matches Some((m, d)) ==> date_token_fields(t@) == Some((m as int, d as int)) && 1 <= m
            <= 12 && 1 <= d <= 31,
        r is None ==> date_token_fields(t@) is None,
{
    if t.len() != 5 && t.len() != 6 {
        return None;
    }
    let m = month_named_exec(t);
    if m < 1 || t[3] != ' ' || digit_run_exec(t, 4) != t.len() - 4 {
        return None;
    }
    proof {
        assert forall|k: int| 4 <= k < t@.len() implies is_digit(#[trigger] t@[k]) by {
            lemma_digit_run_digits(t@, 4, k);
        }
    }
    let d = numeral_exec(t, 4, t.len());
    let max_d: u32 = if m == 2 { 29 } else { days_in_month_exec(1, m) };
    if 1 <= d && d <= max_d {
        Some((m, d))
    } else {
        None
    }
}

/// Every character inside a run of digits is a digit.
pub proof fn lemma_digit_run_digits(s: Seq<char>, i: int, k: int)
    requires
        0 <= i <= k < i + digit_run(s, i),
    ensures
        is_digit(s[k]),
    decreases k - i,
{
    if k > i {
        lemma_digit_run_digits(s, i + 1, k);
    }
}

impl DateRange {
    /// Reads a token such as `Jul 4` as a date of this range; the year is the
    /// first of the range's years that puts the date inside it.
    pub fn parse_date_within(&self, text: &Vec<char>) -> (r: Result<Option<Date>, ()>)
        requires
            self.valid(),
        ensures
            r == date_within(*self, text@),
            r matches Ok(Some(d)) ==> d.valid() && self.contains(d),
    {
        match date_token_fields_exec(text) {
            None => Err(()),
            Some((m, d)) => {
                proof {
                    lemma_first_date_in_range(*self, m as int, d as int, self.start.year as int);
                }
                let mut y: u32 = self.start.year;
                while y <= self.end.year
                    invariant
                        self.valid(),
                        1 <= m <= 12,
                        1 <= d <= 31,
                        1 <= y,
                        date_within(*self, text@) == Ok::<Option<Date>, ()>(
                            first_date_in_range(*self, m as int, d as int, y as int),
                        ),
                        y <= self.end.year + 1,
                        first_date_in_range(*self, m as int, d as int, self.start.year as int)
                            == first_date_in_range(*self, m as int, d as int, y as int),
                    decreases self.end.year + 1 - y,
                {
                    let c = Date { year: y, month: m, day: d };
                    if d <= days_in_month_exec(y, m) && self.start.is_on_or_before(&c)
                        && c.is_on_or_before(&self.end) {
                        return Ok(Some(c));
                    }
                    y = y + 1;
                }
                Ok(None)
            },
        }
    }
}

impl Time {
    /// Reads a twelve-hour time such as `11:00 PM`.
    pub fn parse_twelve_hour(t: &Vec<char>) -> (r: Option<Time>)
        ensures
            r == twelve_hour_time(t@),
            r matches Some(time) ==> time.valid(),
    {
        let h = digit_run_exec(t, 0);
        if h < 1 || h > 2 || t.len() != h + 6 || t[h] != ':' || digit_run_exec(t, h + 1) != 2
            || t[h + 3] != ' ' {
            return None;
        }
        let p = lower_exec(t[h + 4]);
        if (p != 'a' && p != 'p') || lower_exec(t[h + 5]) != 'm' {
            return None;
        }
        proof {
            assert forall|k: int| 0 <= k < h implies is_digit(#[trigger] t@[k]) by {
                lemma_digit_run_digits(t@, 0, k);
            }
            assert forall|k: int| h + 1 <= k < h + 3 implies is_digit(#[trigger] t@[k]) by {
                lemma_digit_run_digits(t@, h + 1, k);
            }
        }
        let hv = numeral_exec(t, 0, h);
        let mv = numeral_exec(t, h + 1, h + 3);
        if hv < 1 || hv > 12 || mv > 59 {
            return None;
        }
        let hour = hv % 12 + if p == 'p' { 12 } else { 0 };
        Some(Time { hour, minute: mv })
    }
}

proof fn lemma_choose_month_bound(t: Seq<char>, m: int)
    requires
        t.len() >= 3,
    ensures
        0 <= choose_month(t, m) <= 12,
    decreases 13 - m,
{
    if 1 <= m <= 12 && (lower(t[0]), lower(t[1]), lower(t[2])) != month_abbrev(m) {
        lemma_choose_month_bound(t, m + 1);
    }
}

/// A token read within a range gives a date of the calendar inside the range.
pub proof fn lemma_date_within_in_range(r: DateRange, t: Seq<char>)
    requires
        r.valid(),
    ensures
        date_within(r, t) matches Ok(Some(d)) ==> d.valid() && r.contains(d),
{
    if let Some((m, d)) = date_token_fields(t) {
        lemma_choose_month_bound(t, 1);
        lemma_first_date_in_range(r, m, d, r.start.year as int);
    }
}

} // verus!
