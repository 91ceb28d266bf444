//! Dates of the EU4 calendar: every year has 365 days and no leap days.
use jomini::common::PdsDate;
use vstd::prelude::*;

verus! {

/// Days in each month of the (leap-free) calendar.
pub open spec fn days_in_month(m: int) -> int {
    if m == 2 {
        28
    } else if m == 4 || m == 6 || m == 9 || m == 11 {
        30
    } else {
        31
    }
}

/// Days of the year before the first of month `m` (1 to 13).
pub open spec fn days_before_month(m: int) -> int
    decreases m,
{
    if m <= 1 {
        0
    } else {
        days_before_month(m - 1) + days_in_month(m - 1)
    }
}

/// A year, month and day that name a day of the calendar.
pub open spec fn valid_ymd(year: int, month: int, day: int) -> bool {
    1 <= month <= 12 && 1 <= day <= days_in_month(month)
}

/// The (month, day) of the day that is `d` days after January 1st.
pub open spec fn month_day_of(d: int) -> (int, int) {
    let m = choose|m: int|
        1 <= m <= 12 && #[trigger] days_before_month(m) <= d < days_before_month(m + 1);
    (m, d - days_before_month(m) + 1)
}

/// The date that the binary integer `s` encodes as hours since year -5000,
/// ignoring the hour; `None` when it encodes no date (negative hour or day
/// of year, or a year outside 16 bits).
pub open spec fn binary_date(s: int) -> Option<(int, int, int)> {
    if s >= 0 {
        let q = s / 24;
        let year = q / 365 - 5000;
        if year <= 32767 {
            let md = month_day_of(q % 365);
            Some((year, md.0, md.1))
        } else {
            None
        }
    } else if s % 24 == 0 && (s / 24) % 365 == 0 {
        let year = s / 24 / 365 - 5000;
        if year >= -32768 {
            Some((year, 1, 1))
        } else {
            None
        }
    } else {
        None
    }
}

/// Like `binary_date`, but only for integers without an hour component
/// whose year is after -100: other integers are not taken for dates.
pub open spec fn binary_date_heuristic(s: int) -> Option<(int, int, int)> {
    match binary_date(s) {
        Some(d) => if s % 24 == 0 && d.0 > -100 {
            Some(d)
        } else {
            None
        },
        None => None,
    }
}

/// A date in the EU4 calendar.
/// The date, as (year, month, day), that the text of a date reads as, if
/// it reads as one.
pub uninterp spec fn text_date(s: Seq<char>) -> Option<(int, int, int)>;

#[derive(Debug, Clone, Copy, PartialEq, Eq, Structural, PartialOrd, Ord, Hash)]
pub struct Eu4Date {
    year: i16,
    month: u8,
    day: u8,
}

impl Eu4Date {
    #[verifier::type_invariant]
    spec fn inv(self) -> bool {
        valid_ymd(self.year as int, self.month as int, self.day as int)
    }

    pub closed spec fn view_year(self) -> int {
        self.year as int
    }

    pub closed spec fn view_month(self) -> int {
        self.month as int
    }

    pub closed spec fn view_day(self) -> int {
        self.day as int
    }

    /// The (year, month, day) of the date.
    pub open spec fn ymd(self) -> (int, int, int) {
        (self.view_year(), self.view_month(), self.view_day())
    }

    /// The date with these (year, month, day) parts.
    pub closed spec fn from_ymd_spec(d: (int, int, int)) -> Eu4Date {
        Eu4Date { year: d.0 as i16, month: d.1 as u8, day: d.2 as u8 }
    }

    /// A date is the date of its own parts.
    pub proof fn lemma_from_ymd_spec(self)
        ensures
            Eu4Date::from_ymd_spec(self.ymd()) == self,
    {
    }

    /// Chronological order.
    pub open spec fn spec_before(self, other: Eu4Date) -> bool {
        self.view_year() < other.view_year() || (self.view_year() == other.view_year() && (
        self.view_month() < other.view_month() || (self.view_month() == other.view_month()
            && self.view_day() < other.view_day())))
    }

    pub fn year(&self) -> (y: i16)
        ensures
            y == self.view_year(),
    {
        self.year
    }

    pub fn month(&self) -> (m: u8)
        ensures
            m == self.view_month(),
            valid_ymd(self.ymd().0, self.ymd().1, self.ymd().2),
    {
        proof {
            use_type_invariant(self);
        }
        self.month
    }

    pub fn day(&self) -> (d: u8)
        ensures
            d == self.view_day(),
            valid_ymd(self.ymd().0, self.ymd().1, self.ymd().2),
    {
        proof {
            use_type_invariant(self);
        }
        self.day
    }

    /// Two dates with the same year, month and day are the same date.
    pub proof fn lemma_ymd_injective(self, other: Eu4Date)
        requires
            self.ymd() == other.ymd(),
        ensures
            self == other,
    {
    }

    /// Builds the date with these parts when it exists in the calendar.
    ///
    /// Calls `jomini::common::Date::from_ymd_opt`, which is claimed to return
    /// a date exactly when the month is 1 to 12 and the day is between 1 and
    /// the number of days of that month, and then to keep the parts given.
    #[verifier::external_body]
    pub fn from_ymd_opt(year: i16, month: u8, day: u8) -> (r: Option<Eu4Date>)
        ensures
            r is Some <==> valid_ymd(year as int, month as int, day as int),
            r matches Some(d) ==> d.ymd() == (year as int, month as int, day as int),
    {
        jomini::common::Date::from_ymd_opt(year, month, day).map(
            |d| Eu4Date { year: d.year(), month: d.month(), day: d.day() },
        )
    }

    /// Decodes a date from an integer read from binary data.
    ///
    /// Calls `jomini::common::Date::from_binary`, claimed to decode the
    /// integer as hours since year -5000 in a 365 day calendar, dropping the
    /// hour, as `binary_date` states.
    #[verifier::external_body]
    pub fn from_binary(s: i32) -> (r: Option<Eu4Date>)
        ensures
            r matches Some(d) ==> binary_date(s as int) == Some(d.ymd()),
            r is None <==> binary_date(s as int) is None,
    {
        jomini::common::Date::from_binary(s).map(
            |d| Eu4Date { year: d.year(), month: d.month(), day: d.day() },
        )
    }

    /// Decodes a date from an integer read from binary data when it looks
    /// like one.
    ///
    /// Calls `jomini::common::Date::from_binary_heuristic`, claimed to
    /// decode like `from_binary` but to refuse integers with an hour
    /// component or a year not after -100, as `binary_date_heuristic` states.
    #[verifier::external_body]
    pub fn from_binary_heuristic(s: i32) -> (r: Option<Eu4Date>)
        ensures
            r matches Some(d) ==> binary_date_heuristic(s as int) == Some(d.ymd()),
            r is None <==> binary_date_heuristic(s as int) is None,
    {
        jomini::common::Date::from_binary_heuristic(s).map(
            |d| Eu4Date { year: d.year(), month: d.month(), day: d.day() },
        )
    }

    /// Reads a date written as text, such as `1444.11.11`.
    ///
    /// Calls `jomini::common::Date::parse`, which accepts the year, month
    /// and day separated by dots, or the number that encodes a date in
    /// binary data. Which texts it accepts, and the date it reads from each,
    /// is named `text_date` and not stated further here.
    #[verifier::external_body]
    pub fn parse(s: &str) -> (r: Option<Eu4Date>)
        ensures
            r is None <==> text_date(s@) is None,
            r matches Some(d) ==> text_date(s@) == Some(d.ymd()),
    {
        jomini::common::Date::parse(s).ok().map(
            |d| Eu4Date { year: d.year(), month: d.month(), day: d.day() },
        )
    }

    /// Whether this date comes strictly before `other`.
    pub fn is_before(&self, other: &Eu4Date) -> (r: bool)
        ensures
            r == self.spec_before(*other),
    {
        self.year < other.year || (self.year == other.year && (self.month < other.month || (
        self.month == other.month && self.day < other.day)))
    }

    /// Whether the two dates are the same day.
    pub fn same_day(&self, other: &Eu4Date) -> (r: bool)
        ensures
            r == (*self == *other),
    {
        self.year == other.year && self.month == other.month && self.day == other.day
    }

    /// The later of the two dates.
    pub fn later(self, other: Eu4Date) -> (r: Eu4Date)
        ensures
            r == (if self.spec_before(other) {
                other
            } else {
                self
            }),
    {
        if self.is_before(&other) {
            other
        } else {
            self
        }
    }
}

/// Chronological order is a strict total order.
pub proof fn law_before_total(a: Eu4Date, b: Eu4Date)
    ensures
        !(a.spec_before(b) && b.spec_before(a)),
        !a.spec_before(a),
        a.spec_before(b) || b.spec_before(a) || a == b,
{
}

/// Chronological order is transitive.
pub proof fn law_before_transitive(a: Eu4Date, b: Eu4Date, c: Eu4Date)
    requires
        a.spec_before(b),
        b.spec_before(c),
    ensures
        a.spec_before(c),
{
}

/// EU4's start date: November 11th, 1444.
pub fn eu4_start_date() -> (d: Eu4Date)
    ensures
        d.ymd() == (1444int, 11int, 11int),
{
    Eu4Date::from_ymd_opt(1444, 11, 11).unwrap()
}

} // verus!
