//! Calendar-day identifier with a strict `DD-MM-YYYY` textual encoding.
//!
//! A `Date` is a plain (year, month, day) triple in the proleptic Gregorian
//! calendar, restricted to the years 1 through 9999 so that the canonical
//! encoding is always ten characters. Parsing is strict: exactly two digits
//! for the day, two for the month, four for the year, separated by `-`.
//! All date arithmetic is saturating: a step that would leave the
//! representable range returns the input unchanged.

use vstd::prelude::*;

use crate::text::push_char;
use vstd::string::StrSliceExecFns;
use vstd::string::StringExecFns;

verus! {

/// Earliest representable year.
pub const MIN_YEAR: u16 = 1;

/// Latest representable year.
pub const MAX_YEAR: u16 = 9999;

/// One calendar day, identified by year, month and day of month.
#[derive(Clone, Copy, PartialEq, Eq, Structural, Hash, Debug)]
pub struct Date {
    pub year: u16,
    pub month: u8,
    pub day: u8,
}

/// Error returned when a string is not a strict `DD-MM-YYYY` date.
#[derive(Clone, Copy, PartialEq, Eq, Structural, Debug)]
pub struct ParseError;

/// Gregorian leap-year rule.
pub open spec fn is_leap_year(y: int) -> bool {
    y % 4 == 0 && (y % 100 != 0 || y % 400 == 0)
}

/// Number of days in month `m` of year `y` (months counted from 1).
pub open spec fn days_in_month(y: int, m: int) -> int {
    if m == 2 {
        if is_leap_year(y) {
            29
        } else {
            28
        }
    } else if m == 4 || m == 6 || m == 9 || m == 11 {
        30
    } else {
        31
    }
}

/// The decimal digit character for `d` (0 through 9).
pub open spec fn digit_char(d: int) -> char {
    if d == 0 {
        '0'
    } else if d == 1 {
        '1'
    } else if d == 2 {
        '2'
    } else if d == 3 {
        '3'
    } else if d == 4 {
        '4'
    } else if d == 5 {
        '5'
    } else if d == 6 {
        '6'
    } else if d == 7 {
        '7'
    } else if d == 8 {
        '8'
    } else {
        '9'
    }
}

/// Whether `c` is a decimal digit character.
pub open spec fn is_digit(c: char) -> bool {
    48 <= c as u32 <= 57
}

/// Numeric value of a decimal digit character.
pub open spec fn digit_val(c: char) -> int {
    c as u32 - 48
}

/// The canonical ten-character `DD-MM-YYYY` encoding of a date.
pub open spec fn format_spec(d: Date) -> Seq<char> {
    seq![
        digit_char(d.day as int / 10),
        digit_char(d.day as int % 10),
        '-',
        digit_char(d.month as int / 10),
        digit_char(d.month as int % 10),
        '-',
        digit_char(d.year as int / 1000),
        digit_char((d.year as int / 100) % 10),
        digit_char((d.year as int / 10) % 10),
        digit_char(d.year as int % 10),
    ]
}

/// Strict parse of the `DD-MM-YYYY` encoding: exactly ten characters, fixed
/// field widths, `-` separators, and an actual calendar day.
pub open spec fn parse_date_spec(s: Seq<char>) -> Option<Date> {
    if s.len() == 10 && is_digit(s[0]) && is_digit(s[1]) && s[2] == '-' && is_digit(s[3])
        && is_digit(s[4]) && s[5] == '-' && is_digit(s[6]) && is_digit(s[7]) && is_digit(s[8])
        && is_digit(s[9]) {
        let day = digit_val(s[0]) * 10 + digit_val(s[1]);
        let month = digit_val(s[3]) * 10 + digit_val(s[4]);
        let year = digit_val(s[6]) * 1000 + digit_val(s[7]) * 100 + digit_val(s[8]) * 10
            + digit_val(s[9]);
        let d = Date { year: year as u16, month: month as u8, day: day as u8 };
        if d.wf() {
            Some(d)
        } else {
            None
        }
    } else {
        None
    }
}

/// The calendar day after `d` (meaningful when `d` is not the last day).
pub open spec fn succ_spec(d: Date) -> Date {
    if d.day < days_in_month(d.year as int, d.month as int) {
        Date { day: (d.day + 1) as u8, ..d }
    } else if d.month < 12 {
        Date { month: (d.month + 1) as u8, day: 1, ..d }
    } else {
        Date { year: (d.year + 1) as u16, month: 1, day: 1 }
    }
}

/// The calendar day before `d` (meaningful when `d` is not the first day).
pub open spec fn pred_spec(d: Date) -> Date {
    if d.day > 1 {
        Date { day: (d.day - 1) as u8, ..d }
    } else if d.month > 1 {
        Date {
            month: (d.month - 1) as u8,
            day: days_in_month(d.year as int, d.month as int - 1) as u8,
            ..d
        }
    } else {
        Date { year: (d.year - 1) as u16, month: 12, day: 31 }
    }
}

/// `d` advanced by `n` days, or `None` when that leaves the calendar range.
pub open spec fn plus_days(d: Date, n: nat) -> Option<Date>
    decreases n,
{
    if n == 0 {
        Some(d)
    } else if d == Date::last() {
        None
    } else {
        plus_days(succ_spec(d), (n - 1) as nat)
    }
}

/// `d` moved back by `n` days, or `None` when that leaves the calendar range.
pub open spec fn minus_days(d: Date, n: nat) -> Option<Date>
    decreases n,
{
    if n == 0 {
        Some(d)
    } else if d == Date::first() {
        None
    } else {
        minus_days(pred_spec(d), (n - 1) as nat)
    }
}

/// `d` advanced by `n` months: the day of month is clamped to the target
/// month's length, and a result past the last representable year leaves the
/// date unchanged.
pub open spec fn plus_months(d: Date, n: nat) -> Date {
    let idx = d.year * 12 + (d.month - 1) + n;
    if idx > MAX_YEAR * 12 + 11 {
        d
    } else {
        month_index_date(idx, d.day as int)
    }
}

/// `d` moved back by `n` months, with the same clamping and saturation.
pub open spec fn minus_months(d: Date, n: nat) -> Date {
    let idx = d.year * 12 + (d.month - 1) - n;
    if idx < MIN_YEAR * 12 {
        d
    } else {
        month_index_date(idx, d.day as int)
    }
}

/// The date at absolute month index `idx` (year times twelve plus month,
/// zero-based) whose day of month is `day` clamped to the month's length.
pub open spec fn month_index_date(idx: int, day: int) -> Date {
    let y = idx / 12;
    let m = idx % 12 + 1;
    let dim = days_in_month(y, m);
    Date {
        year: y as u16,
        month: m as u8,
        day: (if day <= dim {
            day
        } else {
            dim
        }) as u8,
    }
}

impl Date {
    /// A `Date` is well formed when it denotes an actual calendar day
    /// within the representable range of years.
    pub open spec fn wf(self) -> bool {
        &&& MIN_YEAR <= self.year <= MAX_YEAR
        &&& 1 <= self.month <= 12
        &&& 1 <= self.day <= days_in_month(self.year as int, self.month as int)
    }

    /// The first representable day.
    pub open spec fn first() -> Date {
        Date { year: MIN_YEAR, month: 1, day: 1 }
    }

    /// The last representable day.
    pub open spec fn last() -> Date {
        Date { year: MAX_YEAR, month: 12, day: 31 }
    }

    /// Builds a date from its three fields, rejecting anything that is not
    /// an actual calendar day.
    pub fn from_ymd(year: u16, month: u8, day: u8) -> (r: Option<Date>)
        ensures
            r matches Some(d) ==> d == (Date { year, month, day }) && d.wf(),
            r is None ==> !(Date { year, month, day }).wf(),
    {
        let d = Date { year, month, day };
        if MIN_YEAR <= year && year <= MAX_YEAR && 1 <= month && month <= 12 && 1 <= day && day
            <= days_in_month_of(year, month) {
            Some(d)
        } else {
            None
        }
    }

    /// The current local calendar date, clamped to the representable range.
    pub fn today() -> (r: Date)
        ensures
            r.wf(),
    {
        let (y, m, d) = now_ymd();
        if y < MIN_YEAR as i32 {
            Date { year: MIN_YEAR, month: 1, day: 1 }
        } else if y > MAX_YEAR as i32 {
            Date { year: MAX_YEAR, month: 12, day: 31 }
        } else {
            Date { year: y as u16, month: m as u8, day: d as u8 }
        }
    }

    /// Renders the canonical `DD-MM-YYYY` encoding, the exact inverse of
    /// [`Date::parse`].
    pub fn format(&self) -> (r: String)
        requires
            self.wf(),
        ensures
            r@ == format_spec(*self),
    {
        let mut s = String::new();
        push_char(&mut s, digit_of(self.day / 10));
        push_char(&mut s, digit_of(self.day % 10));
        push_char(&mut s, '-');
        push_char(&mut s, digit_of(self.month / 10));
        push_char(&mut s, digit_of(self.month % 10));
        push_char(&mut s, '-');
        push_char(&mut s, digit_of((self.year / 1000) as u8));
        push_char(&mut s, digit_of(((self.year / 100) % 10) as u8));
        push_char(&mut s, digit_of(((self.year / 10) % 10) as u8));
        push_char(&mut s, digit_of((self.year % 10) as u8));
        proof {
            assert(s@ =~= format_spec(*self));
        }
        s
    }

    /// Strict parse of the `DD-MM-YYYY` encoding.
    pub fn parse(s: &str) -> (r: Result<Date, ParseError>)
        ensures
            r matches Ok(d) ==> parse_date_spec(s@) == Some(d) && d.wf(),
            r is Err ==> parse_date_spec(s@) is None,
    {
        if s.unicode_len() != 10 {
            return Err(ParseError);
        }
        let c0 = s.get_char(0);
        let c1 = s.get_char(1);
        let c2 = s.get_char(2);
        let c3 = s.get_char(3);
        let c4 = s.get_char(4);
        let c5 = s.get_char(5);
        let c6 = s.get_char(6);
        let c7 = s.get_char(7);
        let c8 = s.get_char(8);
        let c9 = s.get_char(9);
        if !(digit_of_char(c0) && digit_of_char(c1) && c2 == '-' && digit_of_char(c3)
            && digit_of_char(c4) && c5 == '-' && digit_of_char(c6) && digit_of_char(c7)
            && digit_of_char(c8) && digit_of_char(c9)) {
            return Err(ParseError);
        }
        let day: u8 = digit_value(c0) * 10 + digit_value(c1);
        let month: u8 = digit_value(c3) * 10 + digit_value(c4);
        let year: u16 = digit_value(c6) as u16 * 1000 + digit_value(c7) as u16 * 100 + digit_value(
            c8,
        ) as u16 * 10 + digit_value(c9) as u16;
        match Date::from_ymd(year, month, day) {
            Some(d) => Ok(d),
            None => Err(ParseError),
        }
    }

    /// Long display-only form, such as `01 January, 2024`; never parsed back.
    pub fn friendly_format(&self) -> (r: String)
        requires
            self.wf(),
        ensures
            r@ == friendly_spec(*self),
    {
        let mut s = String::new();
        push_char(&mut s, digit_of(self.day / 10));
        push_char(&mut s, digit_of(self.day % 10));
        push_char(&mut s, ' ');
        s.append(month_name_of(self.month));
        s.append(", ");
        push_char(&mut s, digit_of((self.year / 1000) as u8));
        push_char(&mut s, digit_of(((self.year / 100) % 10) as u8));
        push_char(&mut s, digit_of(((self.year / 10) % 10) as u8));
        push_char(&mut s, digit_of((self.year % 10) as u8));
        proof {
            assert(s@ =~= friendly_spec(*self));
        }
        s
    }

    /// The next calendar day.
    fn next_day(&self) -> (r: Date)
        requires
            self.wf(),
            *self != Date::last(),
        ensures
            r == succ_spec(*self),
            r.wf(),
    {
        let dim = days_in_month_of(self.year, self.month);
        if self.day < dim {
            Date { day: self.day + 1, ..*self }
        } else if self.month < 12 {
            Date { month: self.month + 1, day: 1, ..*self }
        } else {
            Date { year: self.year + 1, month: 1, day: 1 }
        }
    }

    /// The previous calendar day.
    fn prev_day(&self) -> (r: Date)
        requires
            self.wf(),
            *self != Date::first(),
        ensures
            r == pred_spec(*self),
            r.wf(),
    {
        if self.day > 1 {
            Date { day: self.day - 1, ..*self }
        } else if self.month > 1 {
            Date { month: self.month - 1, day: days_in_month_of(self.year, self.month - 1), ..*self }
        } else {
            Date { year: self.year - 1, month: 12, day: 31 }
        }
    }

    /// Advances by `n` days; if that would pass the last representable day,
    /// the date is returned unchanged.
    pub fn add_days(&self, n: u32) -> (r: Date)
        requires
            self.wf(),
        ensures
            r.wf(),
            r == match plus_days(*self, n as nat) {
                Some(x) => x,
                None => *self,
            },
    {
        let mut cur: Date = *self;
        let mut i: u32 = n;
        while i > 0
            invariant
                self.wf(),
                cur.wf(),
                plus_days(*self, n as nat) == plus_days(cur, i as nat),
            decreases i,
        {
            if cur.year == MAX_YEAR && cur.month == 12 && cur.day == 31 {
                proof {
                    assert(cur == Date::last());
                }
                return *self;
            }
            cur = cur.next_day();
            i = i - 1;
        }
        cur
    }

    /// Moves back by `n` days; if that would pass the first representable
    /// day, the date is returned unchanged.
    pub fn sub_days(&self, n: u32) -> (r: Date)
        requires
            self.wf(),
        ensures
            r.wf(),
            r == match minus_days(*self, n as nat) {
                Some(x) => x,
                None => *self,
            },
    {
        let mut cur: Date = *self;
        let mut i: u32 = n;
        while i > 0
            invariant
                self.wf(),
                cur.wf(),
                minus_days(*self, n as nat) == minus_days(cur, i as nat),
            decreases i,
        {
            if cur.year == MIN_YEAR && cur.month == 1 && cur.day == 1 {
                proof {
                    assert(cur == Date::first());
                }
                return *self;
            }
            cur = cur.prev_day();
            i = i - 1;
        }
        cur
    }

    /// Advances by `n` months, clamping the day of month to the target
    /// month's length; a result past the last representable year leaves the
    /// date unchanged.
    pub fn add_months(&self, n: u32) -> (r: Date)
        requires
            self.wf(),
        ensures
            r.wf(),
            r == plus_months(*self, n as nat),
    {
        let idx: u64 = self.year as u64 * 12 + (self.month as u64 - 1) + n as u64;
        if idx > MAX_YEAR as u64 * 12 + 11 {
            *self
        } else {
            self.at_month_index(idx)
        }
    }

    /// Moves back by `n` months, with the same clamping and saturation.
    pub fn sub_months(&self, n: u32) -> (r: Date)
        requires
            self.wf(),
        ensures
            r.wf(),
            r == minus_months(*self, n as nat),
    {
        let idx: u64 = self.year as u64 * 12 + (self.month as u64 - 1);
        if (n as u64) + (MIN_YEAR as u64 * 12) > idx {
            *self
        } else {
            self.at_month_index(idx - n as u64)
        }
    }

    /// The date at absolute month index `idx` keeping this date's day of
    /// month, clamped to the target month's length.
    fn at_month_index(&self, idx: u64) -> (r: Date)
        requires
            self.wf(),
            MIN_YEAR * 12 <= idx <= MAX_YEAR * 12 + 11,
        ensures
            r == month_index_date(idx as int, self.day as int),
            r.wf(),
    {
        proof {
            lemma_month_index_bounds(idx as int);
        }
        let y = (idx / 12) as u16;
        let m = (idx % 12) as u8 + 1;
        let dim = days_in_month_of(y, m);
        let day = if self.day <= dim {
            self.day
        } else {
            dim
        };
        Date { year: y, month: m, day }
    }
}

/// Bounds of the year extracted from an absolute month index.
proof fn lemma_month_index_bounds(idx: int)
    requires
        MIN_YEAR * 12 <= idx <= MAX_YEAR * 12 + 11,
    ensures
        MIN_YEAR <= idx / 12 <= MAX_YEAR,
        0 <= idx % 12 <= 11,
{
    assert(MIN_YEAR <= idx / 12 <= MAX_YEAR) by (nonlinear_arith)
        requires
            MIN_YEAR * 12 <= idx <= MAX_YEAR * 12 + 11,
    ;
}

/// Executable twin of [`days_in_month`].
pub fn days_in_month_of(y: u16, m: u8) -> (r: u8)
    ensures
        r == days_in_month(y as int, m as int),
{
    if m == 2 {
        if (y % 4 == 0) && (y % 100 != 0 || y % 400 == 0) {
            29
        } else {
            28
        }
    } else if m == 4 || m == 6 || m == 9 || m == 11 {
        30
    } else {
        31
    }
}

/// Executable twin of [`digit_char`].
fn digit_of(d: u8) -> (c: char)
    requires
        d < 10,
    ensures
        c == digit_char(d as int),
{
    match d {
        0 => '0',
        1 => '1',
        2 => '2',
        3 => '3',
        4 => '4',
        5 => '5',
        6 => '6',
        7 => '7',
        8 => '8',
        _ => '9',
    }
}

/// Executable twin of [`is_digit`].
fn digit_of_char(c: char) -> (r: bool)
    ensures
        r == is_digit(c),
{
    let v = c as u32;
    48 <= v && v <= 57
}

/// Executable twin of [`digit_val`].
fn digit_value(c: char) -> (v: u8)
    requires
        is_digit(c),
    ensures
        v as int == digit_val(c),
        v < 10,
{
    (c as u32 - 48) as u8
}

/// Month name used by the friendly display form.
fn month_name_of(m: u8) -> (r: &'static str)
    requires
        1 <= m <= 12,
    ensures
        r@ == month_name(m as int),
{
    match m {
        1 => "January",
        2 => "February",
        3 => "March",
        4 => "April",
        5 => "May",
        6 => "June",
        7 => "July",
        8 => "August",
        9 => "September",
        10 => "October",
        11 => "November",
        _ => "December",
    }
}

/// Month name as a character sequence.
pub open spec fn month_name(m: int) -> Seq<char> {
    if m == 1 {
        "January"@
    } else if m == 2 {
        "February"@
    } else if m == 3 {
        "March"@
    } else if m == 4 {
        "April"@
    } else if m == 5 {
        "May"@
    } else if m == 6 {
        "June"@
    } else if m == 7 {
        "July"@
    } else if m == 8 {
        "August"@
    } else if m == 9 {
        "September"@
    } else if m == 10 {
        "October"@
    } else if m == 11 {
        "November"@
    } else {
        "December"@
    }
}

/// The long display-only form: zero-padded day, month name, four-digit year.
pub open spec fn friendly_spec(d: Date) -> Seq<char> {
    seq![digit_char(d.day as int / 10), digit_char(d.day as int % 10), ' '] + month_name(
        d.month as int,
    ) + ", "@ + seq![
        digit_char(d.year as int / 1000),
        digit_char((d.year as int / 100) % 10),
        digit_char((d.year as int / 10) % 10),
        digit_char(d.year as int % 10),
    ]
}

/// Relies on chrono's `Local::now` and the `Datelike` accessors of
/// `NaiveDate`: chrono only constructs valid proleptic-Gregorian dates, so
/// the month is 1 through 12 and the day fits the month's length.
#[verifier::external_body]
fn now_ymd() -> (r: (i32, u32, u32))
    ensures
        1 <= r.1 <= 12,
        1 <= r.2 <= days_in_month(r.0 as int, r.1 as int),
{
    let now = chrono::Local::now().date_naive();
    (
        chrono::Datelike::year(&now),
        chrono::Datelike::month(&now),
        chrono::Datelike::day(&now),
    )
}

/// Round trip of the canonical encoding: parsing a formatted date gives the
/// date back, for every representable date.
pub proof fn lemma_parse_format_roundtrip(d: Date)
    requires
        d.wf(),
    ensures
        parse_date_spec(format_spec(d)) == Some(d),
{
    let s = format_spec(d);
    lemma_digit_char_val(d.day as int / 10);
    lemma_digit_char_val(d.day as int % 10);
    lemma_digit_char_val(d.month as int / 10);
    lemma_digit_char_val(d.month as int % 10);
    lemma_digit_char_val(d.year as int / 1000);
    lemma_digit_char_val((d.year as int / 100) % 10);
    lemma_digit_char_val((d.year as int / 10) % 10);
    lemma_digit_char_val(d.year as int % 10);
    lemma_four_digits(d.year as int);
    assert(digit_val(s[0]) * 10 + digit_val(s[1]) == d.day as int);
    assert(digit_val(s[3]) * 10 + digit_val(s[4]) == d.month as int);
    assert(digit_val(s[6]) * 1000 + digit_val(s[7]) * 100 + digit_val(s[8]) * 10 + digit_val(s[9])
        == d.year as int);
}

/// A digit character carries the digit it was made from.
proof fn lemma_digit_char_val(x: int)
    requires
        0 <= x < 10,
    ensures
        is_digit(digit_char(x)),
        digit_val(digit_char(x)) == x,
{
}

/// Decimal recomposition of a four-digit number.
proof fn lemma_four_digits(y: int)
    requires
        0 <= y < 10000,
    ensures
        (y / 1000) * 1000 + ((y / 100) % 10) * 100 + ((y / 10) % 10) * 10 + y % 10 == y,
        0 <= y / 1000 < 10,
        0 <= (y / 100) % 10 < 10,
        0 <= (y / 10) % 10 < 10,
        0 <= y % 10 < 10,
{
    assert((y / 1000) * 1000 + ((y / 100) % 10) * 100 + ((y / 10) % 10) * 10 + y % 10 == y
        && 0 <= y / 1000 < 10) by (nonlinear_arith)
        requires
            0 <= y < 10000,
    ;
}

} // verus!
