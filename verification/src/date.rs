//! Calendar dates as plain values, with the few calendar computations that
//! come from `chrono` behind trusted wrappers.
use vstd::prelude::*;
use chrono::Datelike;

verus! {

/// Smallest year that `chrono::NaiveDate` represents.
pub const MIN_YEAR: i32 = -262143;

/// Largest year that `chrono::NaiveDate` represents.
pub const MAX_YEAR: i32 = 262142;

/// A calendar date (proleptic Gregorian), as `chrono::NaiveDate` holds it.
#[derive(Clone, Copy, Debug, PartialEq, Eq, Structural)]
pub struct Date {
    pub year: i32,
    pub month: u32,
    pub day: u32,
}

pub open spec fn is_leap_year(y: int) -> bool {
    y % 4 == 0 && (y % 100 != 0 || y % 400 == 0)
}

pub open spec fn days_in_month(y: int, m: int) -> int {
    if m == 2 {
        if is_leap_year(y) {
            29
        } else {
            28
        }
    } else if m == 4 || m == 6 || m == 9 || m == 11 {
        30
    } else {
        31
    }
}

/// `(y, m, d)` names a day that `chrono::NaiveDate` can hold.
pub open spec fn valid_ymd(y: int, m: int, d: int) -> bool {
    &&& MIN_YEAR <= y <= MAX_YEAR
    &&& 1 <= m <= 12
    &&& 1 <= d <= days_in_month(y, m)
}

/// The decimal digit character for `n` (0 to 9).
pub open spec fn digit_char(n: int) -> char {
    (n + 48) as char
}

/// Decimal notation of a natural number, without leading zeros.
pub open spec fn decimal(n: nat) -> Seq<char>
    decreases n,
{
    if n < 10 {
        seq![digit_char(n as int)]
    } else {
        decimal(n / 10) + seq![digit_char((n % 10) as int)]
    }
}

/// `s` padded with leading zeros to at least `w` characters.
pub open spec fn zero_pad(s: Seq<char>, w: nat) -> Seq<char> {
    if s.len() >= w {
        s
    } else {
        Seq::new((w - s.len()) as nat, |i: int| '0') + s
    }
}

/// The year as `NaiveDate`'s `Display` writes it: four digits inside
/// 0..=9999, otherwise an explicit sign and at least four digits.
pub open spec fn year_text(y: int) -> Seq<char> {
    if 0 <= y <= 9999 {
        zero_pad(decimal(y as nat), 4)
    } else if y < 0 {
        seq!['-'] + zero_pad(decimal((-y) as nat), 4)
    } else {
        seq!['+'] + zero_pad(decimal(y as nat), 4)
    }
}

/// Two decimal digits (the number is below 100).
pub open spec fn two_digits(n: int) -> Seq<char> {
    seq![digit_char(n / 10), digit_char(n % 10)]
}

impl Date {
    pub open spec fn wf(self) -> bool {
        valid_ymd(self.year as int, self.month as int, self.day as int)
    }

    /// `YYYY-MM-DD`, the `Display` form of `NaiveDate`.
    pub open spec fn text(self) -> Seq<char> {
        year_text(self.year as int) + seq!['-'] + two_digits(self.month as int) + seq!['-']
            + two_digits(self.day as int)
    }

    /// Calendar order.
    pub open spec fn before(self, other: Date) -> bool {
        ||| self.year < other.year
        ||| (self.year == other.year && self.month < other.month)
        ||| (self.year == other.year && self.month == other.month && self.day < other.day)
    }

    /// The date, when it exists (`NaiveDate::from_ymd_opt`).
    pub fn from_ymd_opt(year: i32, month: u32, day: u32) -> (r: Option<Date>)
        ensures
            r == (if valid_ymd(year as int, month as int, day as int) {
                Some(Date { year, month, day })
            } else {
                None::<Date>
            }),
    {
        if year < MIN_YEAR || year > MAX_YEAR || month < 1 || month > 12 || day < 1 {
            return None;
        }
        let leap = year % 4 == 0 && (year % 100 != 0 || year % 400 == 0);
        let dim: u32 = if month == 2 {
            if leap {
                29
            } else {
                28
            }
        } else if month == 4 || month == 6 || month == 9 || month == 11 {
            30
        } else {
            31
        };
        if day > dim {
            None
        } else {
            Some(Date { year, month, day })
        }
    }

    pub fn year(&self) -> (r: i32)
        ensures
            r == self.year,
    {
        self.year
    }

    pub fn month(&self) -> (r: u32)
        ensures
            r == self.month,
    {
        self.month
    }

    pub fn day(&self) -> (r: u32)
        ensures
            r == self.day,
    {
        self.day
    }

    /// Whether `self` comes strictly before `other`.
    pub fn is_before(&self, other: &Date) -> (r: bool)
        ensures
            r == self.before(*other),
    {
        self.year < other.year || (self.year == other.year && self.month < other.month) || (
        self.year == other.year && self.month == other.month && self.day < other.day)
    }

    /// `YYYY-MM-DD`, as `NaiveDate` displays it.
    pub fn to_string(&self) -> (r: String)
        requires
            self.wf(),
        ensures
            r@ == self.text(),
    {
        let v = self.text_chars();
        crate::text::string_of(&v)
    }

    pub fn text_chars(&self) -> (r: Vec<char>)
        requires
            self.wf(),
        ensures
            r@ == self.text(),
    {
        let mut r = year_chars(self.year);
        r.push('-');
        push_two_digits(&mut r, self.month);
        r.push('-');
        push_two_digits(&mut r, self.day);
        r
    }
}

pub fn digit_char_exec(n: u32) -> (c: char)
    requires
        n < 10,
    ensures
        c == digit_char(n as int),
{
    ((n as u8) + 48u8) as char
}

/// Decimal notation of `n`.
pub fn decimal_chars(n: u64) -> (r: Vec<char>)
    ensures
        r@ == decimal(n as nat),
    decreases n,
{
    if n < 10 {
        let mut r: Vec<char> = Vec::new();
        r.push(digit_char_exec(n as u32));
        assert(r@ =~= decimal(n as nat));
        r
    } else {
        let mut r = decimal_chars(n / 10);
        r.push(digit_char_exec((n % 10) as u32));
        assert(r@ =~= decimal(n as nat));
        r
    }
}

fn zero_pad_chars(s: Vec<char>, w: usize) -> (r: Vec<char>)
    ensures
        r@ == zero_pad(s@, w as nat),
{
    if s.len() >= w {
        return s;
    }
    let mut r: Vec<char> = Vec::new();
    let mut i: usize = 0;
    while i < w - s.len()
        invariant
            s.len() < w,
            i <= w - s.len(),
            r@ == Seq::new(i as nat, |k: int| '0'),
        decreases w - s.len() - i,
    {
        r.push('0');
        i += 1;
        assert(r@ =~= Seq::new(i as nat, |k: int| '0'));
    }
    crate::text::extend(&mut r, &s);
    r
}

fn year_chars(y: i32) -> (r: Vec<char>)
    requires
        MIN_YEAR <= y <= MAX_YEAR,
    ensures
        r@ == year_text(y as int),
{
    if 0 <= y && y <= 9999 {
        zero_pad_chars(decimal_chars(y as u64), 4)
    } else if y < 0 {
        let mut r: Vec<char> = Vec::new();
        r.push('-');
        let d = zero_pad_chars(decimal_chars((-y) as u64), 4);
        crate::text::extend(&mut r, &d);
        assert(r@ =~= year_text(y as int));
        r
    } else {
        let mut r: Vec<char> = Vec::new();
        r.push('+');
        let d = zero_pad_chars(decimal_chars(y as u64), 4);
        crate::text::extend(&mut r, &d);
        assert(r@ =~= year_text(y as int));
        r
    }
}

fn push_two_digits(r: &mut Vec<char>, n: u32)
    requires
        n < 100,
    ensures
        final(r)@ == old(r)@ + two_digits(n as int),
{
    r.push(digit_char_exec(n / 10));
    r.push(digit_char_exec((n % 10) as u32));
    assert(r@ =~= old(r)@ + two_digits(n as int));
}

pub open spec fn is_digit(c: char) -> bool {
    '0' <= c && c <= '9'
}

pub proof fn lemma_digit_char(n: int)
    requires
        0 <= n < 10,
    ensures
        is_digit(digit_char(n)),
        digit_char(n) as u32 == n + 48,
{
}

pub proof fn lemma_decimal(n: nat)
    ensures
        decimal(n).len() >= 1,
        n < 10 ==> decimal(n).len() == 1,
        n < 100 ==> decimal(n).len() <= 2,
        n < 1000 ==> decimal(n).len() <= 3,
        n < 10000 ==> decimal(n).len() <= 4,
        forall|i: int| 0 <= i < decimal(n).len() ==> is_digit(#[trigger] decimal(n)[i]),
    decreases n,
{
    if n < 10 {
        lemma_digit_char(n as int);
    } else {
        lemma_decimal(n / 10);
        lemma_digit_char((n % 10) as int);
        let d = decimal(n);
        assert forall|i: int| 0 <= i < d.len() implies is_digit(#[trigger] d[i]) by {
            if i < decimal(n / 10).len() {
                assert(d[i] == decimal(n / 10)[i]);
            }
        }
    }
}

/// The `YYYY-MM-DD` text of a date with a four-digit year: ten characters,
/// digits except the two dashes.
pub proof fn lemma_date_text(d: Date)
    requires
        d.wf(),
        0 <= d.year <= 9999,
    ensures
        d.text().len() == 10,
        forall|i: int| 0 <= i < 10 && i != 4 && i != 7 ==> is_digit(#[trigger] d.text()[i]),
        d.text()[4] == '-',
        d.text()[7] == '-',
{
    let y = decimal(d.year as nat);
    lemma_decimal(d.year as nat);
    let yt = zero_pad(y, 4);
    assert(yt.len() == 4);
    assert forall|i: int| 0 <= i < 4 implies is_digit(#[trigger] yt[i]) by {
        if y.len() < 4 && i < 4 - y.len() {
            assert(yt[i] == '0');
        } else if y.len() < 4 {
            assert(yt[i] == y[i - (4 - y.len())]);
        }
    }
    lemma_digit_char(d.month as int / 10);
    lemma_digit_char(d.month as int % 10);
    lemma_digit_char(d.day as int / 10);
    lemma_digit_char(d.day as int % 10);
    let t = d.text();
    assert forall|i: int| 0 <= i < 10 && i != 4 && i != 7 implies is_digit(#[trigger] t[i]) by {
        if i < 4 {
            assert(t[i] == yt[i]);
        }
    }
}

/// A date's text is made of digits, `-` and `+`.
pub proof fn lemma_date_text_chars(d: Date)
    requires
        d.wf(),
    ensures
        forall|i: int|
            0 <= i < d.text().len() ==> is_digit(#[trigger] d.text()[i]) || d.text()[i] == '-'
                || d.text()[i] == '+',
{
    let y = d.year as int;
    let n: nat = if y < 0 {
        (-y) as nat
    } else {
        y as nat
    };
    lemma_decimal(n);
    let z = zero_pad(decimal(n), 4);
    assert forall|i: int| 0 <= i < z.len() implies is_digit(#[trigger] z[i]) by {
        if decimal(n).len() < 4 && i < 4 - decimal(n).len() {
            assert(z[i] == '0');
        } else if decimal(n).len() < 4 {
            assert(z[i] == decimal(n)[i - (4 - decimal(n).len())]);
        } else {
            assert(z[i] == decimal(n)[i]);
        }
    }
    let yt = year_text(y);
    assert forall|i: int| 0 <= i < yt.len() implies is_digit(#[trigger] yt[i]) || yt[i] == '-'
        || yt[i] == '+' by {
        if 0 <= y <= 9999 {
            assert(yt[i] == z[i]);
        } else if i > 0 {
            assert(yt[i] == z[i - 1]);
        }
    }
    lemma_digit_char(d.month as int / 10);
    lemma_digit_char(d.month as int % 10);
    lemma_digit_char(d.day as int / 10);
    lemma_digit_char(d.day as int % 10);
    let t = d.text();
    assert forall|i: int| 0 <= i < t.len() implies is_digit(#[trigger] t[i]) || t[i] == '-' || t[i]
        == '+' by {
        if i < yt.len() {
            assert(t[i] == yt[i]);
        }
    }
}

/// What `NaiveDate::parse_from_str(text, "%Y-%m-%d")` yields, as a `Date`.
pub uninterp spec fn chrono_parse_date(text: Seq<char>) -> Option<Date>;

/// The calendar day after `d`.
pub open spec fn next_day(d: Date) -> Date {
    if (d.day as int) < days_in_month(d.year as int, d.month as int) {
        Date { year: d.year, month: d.month, day: (d.day + 1) as u32 }
    } else if d.month < 12 {
        Date { year: d.year, month: (d.month + 1) as u32, day: 1 }
    } else {
        Date { year: (d.year + 1) as i32, month: 1, day: 1 }
    }
}

/// The date `n` calendar days after `d`.
pub open spec fn days_after(d: Date, n: nat) -> Date
    decreases n,
{
    if n == 0 {
        d
    } else {
        next_day(days_after(d, (n - 1) as nat))
    }
}

/// The next day comes right after a date: it is later, and no date lies
/// strictly between the two.
pub proof fn law_next_day_is_next(d: Date, x: Date)
    requires
        d.wf(),
        next_day(d).wf(),
        x.wf(),
    ensures
        d.before(next_day(d)),
        d.before(x) ==> !x.before(next_day(d)),
{
}

/// `n` days after `d`, when `NaiveDate` holds that date.
pub open spec fn checked_days_after(d: Date, n: nat) -> Option<Date> {
    if days_after(d, n).wf() {
        Some(days_after(d, n))
    } else {
        None
    }
}

/// Days from 1970-01-01 to the date in the proleptic Gregorian calendar,
/// counted in 400-year eras of 146097 days from a year that starts in March.
pub open spec fn days_from_civil(y: int, m: int, d: int) -> int {
    let ys = if m <= 2 {
        y - 1
    } else {
        y
    };
    let era = ys / 400;
    let yoe = ys - era * 400;
    let mp = if m > 2 {
        m - 3
    } else {
        m + 9
    };
    let doy = (153 * mp + 2) / 5 + d - 1;
    let doe = yoe * 365 + yoe / 4 - yoe / 100 + doy;
    era * 146097 + doe - 719468
}

/// The date's weekday counted from Monday as 0 (1970-01-01 was a Thursday).
pub open spec fn weekday_from_monday(date: Date) -> int {
    (days_from_civil(date.year as int, date.month as int, date.day as int) + 3) % 7
}

/// Calls `chrono::NaiveDate::parse_from_str(s, "%Y-%m-%d")`.
///
/// Claims: the result is the named parse result of the text; a parsed date is
/// one that `NaiveDate` can hold; and the `YYYY-MM-DD` text of a date with a
/// four-digit year parses back to that date (the source reads four digits,
/// `-`, two digits, `-`, two digits and then validates the date).
/// What other texts parse to (chrono also accepts signs, shorter fields and
/// leading spaces before numbers) is left unsaid.
#[verifier::external_body]
pub(crate) fn parse_ymd(s: &str) -> (r: Option<Date>)
    ensures
        r == chrono_parse_date(s@),
        r matches Some(d) ==> d.wf(),
        forall|d: Date| #![trigger d.text()]
            d.wf() && 0 <= d.year <= 9999 && s@ == d.text() ==> r == Some(d),
{
    match chrono::NaiveDate::parse_from_str(s, "%Y-%m-%d") {
        Ok(d) => Some(Date { year: d.year(), month: d.month(), day: d.day() }),
        Err(_) => None,
    }
}

/// A date given as `YYYY-MM-DD` text, such as a `--due` argument, read as
/// chrono reads it: the text of a date with a four-digit year gives that
/// date, and whatever is read is a date that `NaiveDate` holds.
pub fn parse_date(value: &str) -> (r: Option<Date>)
    ensures
        r == chrono_parse_date(value@),
        r matches Some(d) ==> d.wf(),
        forall|d: Date| #![trigger d.text()]
            d.wf() && 0 <= d.year <= 9999 && value@ == d.text() ==> r == Some(d),
{
    parse_ymd(value)
}

/// Calls `chrono::NaiveDate::checked_add_signed` with `TimeDelta::days(days)`.
///
/// Claims what chrono documents: the whole days are added to the date, and
/// the result is `None` when the date that many days later is past the last
/// one that `NaiveDate` holds. Only whole, non-negative day counts up to a
/// million are passed (`TimeDelta::days` panics far beyond that).
#[verifier::external_body]
pub(crate) fn add_days(date: Date, days: i64) -> (r: Option<Date>)
    requires
        date.wf(),
        0 <= days <= 1_000_000,
    ensures
        r == checked_days_after(date, days as nat),
{
    let nd = chrono::NaiveDate::from_ymd_opt(date.year, date.month, date.day).unwrap();
    match nd.checked_add_signed(chrono::TimeDelta::days(days)) {
        Some(d) => Some(Date { year: d.year(), month: d.month(), day: d.day() }),
        None => None,
    }
}

/// Calls `chrono::NaiveDate::weekday` and `Weekday::num_days_from_monday`.
///
/// Claims: the result is the date's weekday in the proleptic Gregorian
/// calendar, which chrono's dates follow, counted from Monday as 0.
#[verifier::external_body]
pub(crate) fn weekday_number(date: Date) -> (r: u32)
    requires
        date.wf(),
    ensures
        r == weekday_from_monday(date),
{
    chrono::NaiveDate::from_ymd_opt(date.year, date.month, date.day).unwrap().weekday().num_days_from_monday()
}

/// English three-letter weekday names from Monday, as `%a` writes them.
pub open spec fn weekday_abbrev(n: int) -> Seq<char> {
    if n == 0 {
        seq!['M', 'o', 'n']
    } else if n == 1 {
        seq!['T', 'u', 'e']
    } else if n == 2 {
        seq!['W', 'e', 'd']
    } else if n == 3 {
        seq!['T', 'h', 'u']
    } else if n == 4 {
        seq!['F', 'r', 'i']
    } else if n == 5 {
        seq!['S', 'a', 't']
    } else {
        seq!['S', 'u', 'n']
    }
}

pub fn weekday_abbrev_chars(n: u32) -> (r: Vec<char>)
    ensures
        r@ == weekday_abbrev(n as int),
{
    let r = if n == 0 {
        vec!['M', 'o', 'n']
    } else if n == 1 {
        vec!['T', 'u', 'e']
    } else if n == 2 {
        vec!['W', 'e', 'd']
    } else if n == 3 {
        vec!['T', 'h', 'u']
    } else if n == 4 {
        vec!['F', 'r', 'i']
    } else if n == 5 {
        vec!['S', 'a', 't']
    } else {
        vec!['S', 'u', 'n']
    };
    assert(r@ =~= weekday_abbrev(n as int));
    r
}

} // verus!
