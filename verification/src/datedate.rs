//! The one date axis every table carries.
//!
//! A table declares once where its date comes from and how coarsely it partitions by it; no row
//! ever falls back to a date of its own. A table that names no source column records the date
//! each row arrived, and says so, so that a reader can always find out what the column means.

use crate::config::Configuration;
use crate::numerals::{self, padded_text};
use crate::text::{self, has_prefix, same};
use vstd::arithmetic::div_mod::*;
use vstd::arithmetic::power::*;
use vstd::prelude::*;

verus! {

/// The column every table carries.
pub const DATA_DATE_COLUMN: &'static str = "sank_data_date";

/// The prefix reserved for the system's own columns.
pub const RESERVED_PREFIX: &'static str = "sank_";

/// The setting that names the column a table's date comes from.
pub const SOURCE_KEY: &'static str = "sank.dataDate.source";

/// The setting that names how coarsely a table is partitioned.
pub const GRANULARITY_KEY: &'static str = "sank.dataDate.granularity";

/// Whether a year of the Gregorian calendar has a 29th of February.
pub open spec fn is_leap(year: int) -> bool {
    year % 4 == 0 && (year % 100 != 0 || year % 400 == 0)
}

/// The length of a month.
pub open spec fn days_in_month(year: int, month: int) -> int {
    if month == 2 {
        if is_leap(year) {
            29
        } else {
            28
        }
    } else if month == 4 || month == 6 || month == 9 || month == 11 {
        30
    } else {
        31
    }
}

/// Whether a year, month and day name a day of the calendar.
pub open spec fn is_date(year: int, month: int, day: int) -> bool {
    1 <= month <= 12 && 1 <= day <= days_in_month(year, month)
}

/// The days from the epoch, the first of January 1970, to the first of January of a year.
pub open spec fn days_before_year(year: int) -> int {
    365 * (year - 1970) + ((year - 1) / 4 - (year - 1) / 100 + (year - 1) / 400) - 477
}

/// The days of a year before a month begins.
pub open spec fn days_before_month(year: int, month: int) -> int
    decreases month,
{
    if month <= 1 {
        0
    } else {
        days_before_month(year, month - 1) + days_in_month(year, month - 1)
    }
}

/// The days from the epoch to a date.
pub open spec fn days_to(year: int, month: int, day: int) -> int {
    days_before_year(year) + days_before_month(year, month) + day - 1
}

/// Whether one date comes before another, by year, then month, then day.
pub open spec fn earlier(a: (int, int, int), b: (int, int, int)) -> bool {
    a.0 < b.0 || a.0 == b.0 && (a.1 < b.1 || a.1 == b.1 && a.2 < b.2)
}

proof fn lemma_months(year: int)
    ensures
        days_before_month(year, 1) == 0,
        days_before_month(year, 2) == 31,
        days_before_month(year, 3) == 59 + (if is_leap(year) {
            1int
        } else {
            0
        }),
        days_before_month(year, 4) == days_before_month(year, 3) + 31,
        days_before_month(year, 5) == days_before_month(year, 3) + 61,
        days_before_month(year, 6) == days_before_month(year, 3) + 92,
        days_before_month(year, 7) == days_before_month(year, 3) + 122,
        days_before_month(year, 8) == days_before_month(year, 3) + 153,
        days_before_month(year, 9) == days_before_month(year, 3) + 184,
        days_before_month(year, 10) == days_before_month(year, 3) + 214,
        days_before_month(year, 11) == days_before_month(year, 3) + 245,
        days_before_month(year, 12) == days_before_month(year, 3) + 275,
{
    reveal_with_fuel(days_before_month, 13);
}

/// Stepping over a multiple of `d` raises the quotient by one, any other step leaves it.
proof fn lemma_quotient_step(n: int, d: int)
    requires
        d > 1,
    ensures
        n / d - (n - 1) / d == (if n % d == 0 {
            1int
        } else {
            0
        }),
{
    let q = n / d;
    lemma_fundamental_div_mod(n, d);
    lemma_mod_bound(n, d);
    if n % d == 0 {
        assert(d * (q - 1) == d * q - d) by (nonlinear_arith);
        lemma_fundamental_div_mod_converse(n - 1, d, q - 1, d - 1);
    } else {
        lemma_fundamental_div_mod_converse(n - 1, d, q, n % d - 1);
    }
}

/// The leap days up to a year are those up to the year before it, and one more in a leap year.
proof fn lemma_leap_step(year: int)
    ensures
        year / 4 - year / 100 + year / 400 == (year - 1) / 4 - (year - 1) / 100 + (year - 1) / 400 + (if is_leap(year) {
            1int
        } else {
            0
        }),
{
    lemma_quotient_step(year, 4);
    lemma_quotient_step(year, 100);
    lemma_quotient_step(year, 400);
    lemma_mod_mod(year, 100, 4);
    lemma_mod_mod(year, 4, 25);
}

proof fn lemma_year_length(year: int)
    ensures
        days_before_year(year + 1) == days_before_year(year) + (if is_leap(year) {
            366int
        } else {
            365
        }),
{
    lemma_leap_step(year);
}

proof fn lemma_years_rise(a: int, b: int)
    requires
        a <= b,
    ensures
        days_before_year(a) + 365 * (b - a) <= days_before_year(b),
    decreases b - a,
{
    if a < b {
        lemma_years_rise(a, b - 1);
        lemma_year_length(b - 1);
    }
}

/// The day count of a date lies inside its year.
proof fn lemma_within_year(year: int, month: int, day: int)
    requires
        is_date(year, month, day),
    ensures
        days_before_year(year) <= days_to(year, month, day) < days_before_year(year + 1),
{
    lemma_months(year);
    lemma_year_length(year);
}

/// The calendar is faithful: of two dates the earlier one has the smaller day count. So a day
/// count names at most one date.
pub proof fn calendar_keeps_order(a: (int, int, int), b: (int, int, int))
    requires
        is_date(a.0, a.1, a.2),
        is_date(b.0, b.1, b.2),
    ensures
        earlier(a, b) <==> days_to(a.0, a.1, a.2) < days_to(b.0, b.1, b.2),
        a == b <==> days_to(a.0, a.1, a.2) == days_to(b.0, b.1, b.2),
{
    lemma_within_year(a.0, a.1, a.2);
    lemma_within_year(b.0, b.1, b.2);
    if a.0 < b.0 {
        lemma_years_rise(a.0 + 1, b.0);
    } else if b.0 < a.0 {
        lemma_years_rise(b.0 + 1, a.0);
    } else {
        lemma_months(a.0);
    }
}

/// The date that lies `days` days from the epoch.
pub open spec fn civil(days: int) -> (int, int, int) {
    choose|t: (int, int, int)| is_date(t.0, t.1, t.2) && #[trigger] days_to(t.0, t.1, t.2) == days
}

/// A date is the one its own day count names.
pub proof fn lemma_civil(year: int, month: int, day: int)
    requires
        is_date(year, month, day),
    ensures
        civil(days_to(year, month, day)) == (year, month, day),
{
    let t = (year, month, day);
    assert(is_date(t.0, t.1, t.2) && days_to(t.0, t.1, t.2) == days_to(year, month, day));
    calendar_keeps_order(t, civil(days_to(year, month, day)));
}

/// How many days the first `years` years of a 400-year cycle that begins in March hold.
spec fn cycle_days(years: int) -> int {
    365 * years + years / 4 - years / 100
}

/// The year of a 400-year cycle a day of it falls in.
proof fn lemma_year_of_cycle(day: int)
    requires
        0 <= day < 146_097,
    ensures
        ({
            let year = (day - day / 1_460 + day / 36_524 - day / 146_096) / 365;
            0 <= year < 400 && cycle_days(year) <= day <= cycle_days(year) + 365 && (day == cycle_days(year) + 365
                ==> is_leap(year + 1))
        }),
{
    let year = (day - day / 1_460 + day / 36_524 - day / 146_096) / 365;
    let century = day / 36_524;
    let rest = day - 36_524 * century;
    if day == 146_096 {
        assert(year == 399);
    } else {
        assert(0 <= century <= 3);
        // The centuries before this one take 36 524 days each, so only `rest` is left to divide.
        assert(year == 100 * century + (rest + century - day / 1_460 + 24 * century) / 365);
    }
}

/// The first of March of a year, counted from the epoch.
proof fn lemma_first_of_march(year: int)
    ensures
        days_to(year, 3, 1) == 365 * year + year / 4 - year / 100 + year / 400 - 719_468,
{
    lemma_months(year);
    lemma_leap_step(year);
}

/// The month and day that lie `day` days behind the first of March of a year.
proof fn lemma_month_and_day(march_year: int, day: int)
    requires
        0 <= day <= 365,
        day == 365 ==> is_leap(march_year + 1),
    ensures
        ({
            let m = (5 * day + 2) / 153;
            let month = if m < 10 {
                m + 3
            } else {
                m - 9
            };
            let year = if m < 10 {
                march_year
            } else {
                march_year + 1
            };
            let d = day - (153 * m + 2) / 5 + 1;
            0 <= m < 12 && is_date(year, month, d) && days_to(year, month, d) == days_to(march_year, 3, 1) + day
        }),
{
    let m = (5 * day + 2) / 153;
    lemma_months(march_year);
    lemma_months(march_year + 1);
    lemma_year_length(march_year);
    assert(m == 0 || m == 1 || m == 2 || m == 3 || m == 4 || m == 5 || m == 6 || m == 7 || m == 8 || m == 9 || m == 10
        || m == 11);
}

/// The date a day count names.
///
/// Exact over the whole range of the argument: the result is a date of the calendar, and it lies
/// `days` days from the epoch.
pub fn civil_from_days(days: i32) -> (r: (i32, u32, u32))
    ensures
        is_date(r.0 as int, r.1 as int, r.2 as int),
        days_to(r.0 as int, r.1 as int, r.2 as int) == days,
        (r.0 as int, r.1 as int, r.2 as int) == civil(days as int),
{
    // Counting years from March puts the leap day at the end of a year.
    let z: i64 = days as i64 + 719_468;
    let era: i64 = if z >= 0 {
        z / 146_097
    } else {
        -((146_096 - z) / 146_097)
    };
    let day_of_era: i64 = z - era * 146_097;
    proof {
        lemma_year_of_cycle(day_of_era as int);
    }
    let year_of_era: i64 = (day_of_era - day_of_era / 1_460 + day_of_era / 36_524 - day_of_era / 146_096) / 365;
    let march_year: i64 = year_of_era + era * 400;
    let day_of_year: i64 = day_of_era - (365 * year_of_era + year_of_era / 4 - year_of_era / 100);
    proof {
        lemma_same_cycle(year_of_era as int, era as int);
        lemma_month_and_day(march_year as int, day_of_year as int);
    }
    let month_prime: i64 = (5 * day_of_year + 2) / 153;
    let day: i64 = day_of_year - (153 * month_prime + 2) / 5 + 1;
    let month: i64 = if month_prime < 10 {
        month_prime + 3
    } else {
        month_prime - 9
    };
    let year: i64 = if month <= 2 {
        march_year + 1
    } else {
        march_year
    };
    proof {
        lemma_civil(year as int, month as int, day as int);
    }
    (year as i32, month as u32, day as u32)
}

/// A year and the year of the 400-year cycle it stands for have the same calendar.
proof fn lemma_same_cycle(year_of_era: int, era: int)
    requires
        0 <= year_of_era < 400,
    ensures
        is_leap(year_of_era + 1) == is_leap(year_of_era + era * 400 + 1),
        days_to(year_of_era + era * 400, 3, 1) == cycle_days(year_of_era) + era * 146_097 - 719_468,
{
    lemma_first_of_march(year_of_era + era * 400);
    lemma_whole_cycles(year_of_era, era);
    lemma_whole_cycles(year_of_era + 1, era);
}

/// Adding whole 400-year cycles to a year changes no remainder that the leap rule looks at.
proof fn lemma_whole_cycles(year: int, cycles: int)
    ensures
        (year + cycles * 400) % 4 == year % 4,
        (year + cycles * 400) % 100 == year % 100,
        (year + cycles * 400) % 400 == year % 400,
        (year + cycles * 400) / 4 == year / 4 + cycles * 100,
        (year + cycles * 400) / 100 == year / 100 + cycles * 4,
        (year + cycles * 400) / 400 == year / 400 + cycles,
{
    lemma_hoist_over_denominator(year, cycles * 100, 4);
    lemma_hoist_over_denominator(year, cycles * 4, 100);
    lemma_hoist_over_denominator(year, cycles, 400);
    lemma_mod_multiples_vanish(cycles * 100, year, 4);
    lemma_mod_multiples_vanish(cycles * 4, year, 100);
    lemma_mod_multiples_vanish(cycles, year, 400);
}

/// How coarsely a table is partitioned in time.
#[derive(Clone, Copy, PartialEq, Eq, PartialOrd, Ord, Debug, Structural)]
pub enum Granularity {
    /// One partition per day.
    Day,
    /// One partition per month.
    Month,
    /// One partition per year.
    Year,
}

impl Default for Granularity {
    fn default() -> (r: Self)
        ensures
            r == Granularity::Day,
    {
        Granularity::Day
    }
}

/// The granularity a name denotes.
pub open spec fn granularity_named(name: Seq<char>) -> Option<Granularity> {
    if name == "day"@ {
        Some(Granularity::Day)
    } else if name == "month"@ {
        Some(Granularity::Month)
    } else if name == "year"@ {
        Some(Granularity::Year)
    } else {
        None
    }
}

impl Granularity {
    /// The name written into a table's settings.
    pub open spec fn name(self) -> Seq<char> {
        match self {
            Granularity::Day => "day"@,
            Granularity::Month => "month"@,
            Granularity::Year => "year"@,
        }
    }

    /// The name written into a table's settings.
    #[must_use]
    pub fn as_str(self) -> (r: &'static str)
        ensures
            r@ == self.name(),
    {
        match self {
            Granularity::Day => "day",
            Granularity::Month => "month",
            Granularity::Year => "year",
        }
    }

    /// The granularity a name denotes, or `None` where it denotes none: a misspelling is never
    /// taken for a default.
    #[must_use]
    pub fn from_str(name: &str) -> (r: Option<Self>)
        ensures
            r == granularity_named(name@),
    {
        if same(name, "day") {
            Some(Granularity::Day)
        } else if same(name, "month") {
            Some(Granularity::Month)
        } else if same(name, "year") {
            Some(Granularity::Year)
        } else {
            None
        }
    }

    /// The name, as text of its own.
    pub fn to_string(&self) -> (r: String)
        ensures
            r@ == self.name(),
    {
        self.as_str().to_string()
    }
}

/// Every granularity is denoted by its own name.
pub proof fn granularity_names_read_back(granularity: Granularity)
    ensures
        granularity_named(granularity.name()) == Some(granularity),
{
    reveal_strlit("day");
    reveal_strlit("month");
    reveal_strlit("year");
    assert("day"@.len() != "month"@.len());
    assert("day"@.len() != "year"@.len());
    assert("month"@.len() != "year"@.len());
}

/// Where a table's date comes from.
#[derive(PartialEq, Eq, Debug)]
pub enum DateSource {
    /// From a named column of the source data. Every row uses it, and a null there is an error.
    Column {
        /// Which column.
        name: String,
    },
    /// From the moment each row arrived.
    IngestDate,
}

impl View for DateSource {
    type V = Option<Seq<char>>;

    open spec fn view(&self) -> Option<Seq<char>> {
        match self {
            DateSource::Column { name } => Some(name@),
            DateSource::IngestDate => None,
        }
    }
}

impl Clone for DateSource {
    fn clone(&self) -> (r: Self)
        ensures
            r == *self,
    {
        match self {
            DateSource::Column { name } => DateSource::Column { name: name.clone() },
            DateSource::IngestDate => DateSource::IngestDate,
        }
    }
}

impl Default for DateSource {
    fn default() -> (r: Self)
        ensures
            r == DateSource::IngestDate,
    {
        DateSource::IngestDate
    }
}

impl DateSource {
    /// Whether the date says what a row is about, rather than when it arrived.
    #[must_use]
    pub fn is_business_date(&self) -> (r: bool)
        ensures
            r == (self is Column),
    {
        match self {
            DateSource::Column { .. } => true,
            DateSource::IngestDate => false,
        }
    }

    /// The sentence a reader of the table's description sees.
    pub open spec fn description(self) -> Seq<char> {
        match self {
            DateSource::Column { name } => "the date each row is about, from the source column '"@ + name@ + "'"@,
            DateSource::IngestDate => "the date this system received each row, not the date the row is about"@,
        }
    }

    /// A sentence for whoever reads a table's description.
    #[must_use]
    pub fn describe(&self) -> (r: String)
        ensures
            r@ == self.description(),
    {
        match self {
            DateSource::Column { name } => {
                let mut r = "the date each row is about, from the source column '".to_string();
                r.append(name.as_str());
                r.append("'");
                r
            },
            DateSource::IngestDate => {
                "the date this system received each row, not the date the row is about".to_string()
            },
        }
    }
}

/// A table's date axis: where the date comes from and how coarsely it partitions.
#[derive(PartialEq, Eq, Debug)]
pub struct DateAxis {
    /// Where the value comes from.
    pub source: DateSource,
    /// How coarsely it partitions.
    pub granularity: Granularity,
}

impl View for DateAxis {
    type V = (Option<Seq<char>>, Granularity);

    open spec fn view(&self) -> (Option<Seq<char>>, Granularity) {
        (self.source@, self.granularity)
    }
}

impl Clone for DateAxis {
    fn clone(&self) -> (r: Self)
        ensures
            r == *self,
    {
        DateAxis { source: self.source.clone(), granularity: self.granularity }
    }
}

impl Default for DateAxis {
    fn default() -> (r: Self)
        ensures
            r@ == (None::<Seq<char>>, Granularity::Day),
    {
        DateAxis { source: DateSource::IngestDate, granularity: Granularity::Day }
    }
}

/// The settings an axis is declared with.
pub open spec fn axis_settings(axis: (Option<Seq<char>>, Granularity)) -> Map<Seq<char>, Seq<char>> {
    let granularity = Map::<Seq<char>, Seq<char>>::empty().insert(GRANULARITY_KEY@, axis.1.name());
    match axis.0 {
        Some(column) => granularity.insert(SOURCE_KEY@, column),
        None => granularity,
    }
}

/// The granularity settings declare, where the name they give is one.
pub open spec fn declared_granularity(settings: Map<Seq<char>, Seq<char>>) -> Option<Granularity> {
    if settings.contains_key(GRANULARITY_KEY@) {
        granularity_named(settings[GRANULARITY_KEY@])
    } else {
        Some(Granularity::Day)
    }
}

/// The source column settings declare; an empty name declares none.
pub open spec fn declared_source(settings: Map<Seq<char>, Seq<char>>) -> Option<Seq<char>> {
    if settings.contains_key(SOURCE_KEY@) && settings[SOURCE_KEY@].len() > 0 {
        Some(settings[SOURCE_KEY@])
    } else {
        None
    }
}

/// The partition value of a date.
pub open spec fn partition_text(granularity: Granularity, date: (int, int, int)) -> Seq<char> {
    let year = numerals::padded(date.0, 4);
    let month = year + "-"@ + numerals::padded(date.1, 2);
    match granularity {
        Granularity::Day => month + "-"@ + numerals::padded(date.2, 2),
        Granularity::Month => month,
        Granularity::Year => year,
    }
}

impl DateAxis {
    /// An axis that takes its date from a source column, one partition a day.
    #[must_use]
    pub fn from_column(name: &str) -> (r: Self)
        ensures
            r@ == (Some(name@), Granularity::Day),
    {
        DateAxis { source: DateSource::Column { name: name.to_owned() }, granularity: Granularity::Day }
    }

    /// An axis that uses the date each row arrived, one partition a day.
    #[must_use]
    pub fn ingest_date() -> (r: Self)
        ensures
            r@ == (None::<Seq<char>>, Granularity::Day),
    {
        DateAxis { source: DateSource::IngestDate, granularity: Granularity::Day }
    }

    /// The same axis at another granularity.
    #[must_use]
    pub fn at(self, granularity: Granularity) -> (r: Self)
        ensures
            r.source == self.source,
            r.granularity == granularity,
    {
        DateAxis { source: self.source, granularity }
    }

    /// The settings a table declares this axis with.
    #[must_use]
    pub fn to_configuration(&self) -> (r: Configuration)
        ensures
            r@ == axis_settings(self@),
    {
        let mut r = Configuration::new();
        r.insert(GRANULARITY_KEY.to_string(), self.granularity.as_str().to_string());
        if let DateSource::Column { name } = &self.source {
            r.insert(SOURCE_KEY.to_string(), name.clone());
        }
        r
    }

    /// The axis settings declare.
    ///
    /// A granularity that is none is refused, never taken for daily: a monthly table that became
    /// daily would be rewritten whole on its next write.
    pub fn from_configuration(configuration: &Configuration) -> (r: Result<Self, AxisError>)
        ensures
            match r {
                Ok(axis) => declared_granularity(configuration@) == Some(axis.granularity) && axis.source@
                    == declared_source(configuration@),
                Err(error) => declared_granularity(configuration@) is None && error is UnknownGranularity
                    && error->offered@ == configuration@[GRANULARITY_KEY@],
            },
    {
        let granularity = match configuration.get(GRANULARITY_KEY) {
            None => Granularity::Day,
            Some(name) => match Granularity::from_str(name.as_str()) {
                Some(granularity) => granularity,
                None => {
                    return Err(AxisError::UnknownGranularity { offered: name.clone() });
                },
            },
        };
        let source = match configuration.get(SOURCE_KEY) {
            Some(name) => {
                if name.as_str().is_empty() {
                    DateSource::IngestDate
                } else {
                    DateSource::Column { name: name.clone() }
                }
            },
            None => DateSource::IngestDate,
        };
        Ok(DateAxis { source, granularity })
    }

    /// The partition value of a day, at this granularity. It truncates: the 20th of March belongs
    /// to March.
    #[must_use]
    pub fn partition_of(&self, days_since_epoch: i32) -> (r: String)
        ensures
            r@ == partition_text(self.granularity, civil(days_since_epoch as int)),
    {
        let (year, month, day) = civil_from_days(days_since_epoch);
        let mut r = padded_text(year as i64, 4);
        match self.granularity {
            Granularity::Year => {},
            Granularity::Month => {
                r.append("-");
                r.append(padded_text(month as i64, 2).as_str());
            },
            Granularity::Day => {
                r.append("-");
                r.append(padded_text(month as i64, 2).as_str());
                r.append("-");
                r.append(padded_text(day as i64, 2).as_str());
            },
        }
        r
    }

    /// The partition's path component, `sank_data_date=2024-03-01`, as other engines read it.
    #[must_use]
    pub fn partition_path(&self, days_since_epoch: i32) -> (r: String)
        ensures
            r@ == DATA_DATE_COLUMN@ + "="@ + partition_text(self.granularity, civil(days_since_epoch as int)),
    {
        let mut r = DATA_DATE_COLUMN.to_string();
        r.append("=");
        r.append(self.partition_of(days_since_epoch).as_str());
        r
    }
}

/// An axis reads back from the settings it is declared with, unless it names a source column
/// whose name is empty.
pub proof fn axis_reads_back(axis: (Option<Seq<char>>, Granularity))
    requires
        axis.0 matches Some(column) ==> column.len() > 0,
    ensures
        declared_granularity(axis_settings(axis)) == Some(axis.1),
        declared_source(axis_settings(axis)) == axis.0,
{
    reveal_strlit("sank.dataDate.source");
    reveal_strlit("sank.dataDate.granularity");
    assert(SOURCE_KEY@.len() != GRANULARITY_KEY@.len());
    granularity_names_read_back(axis.1);
}

/// A coarser partition value is the beginning of a finer one: coarsening truncates, it never
/// rounds.
pub proof fn partition_truncates(date: (int, int, int))
    ensures
        text::begins_with(partition_text(Granularity::Day, date), partition_text(Granularity::Month, date)),
        text::begins_with(partition_text(Granularity::Month, date), partition_text(Granularity::Year, date)),
{
    let year = partition_text(Granularity::Year, date);
    let month = partition_text(Granularity::Month, date);
    let day = partition_text(Granularity::Day, date);
    assert(month.subrange(0, year.len() as int) =~= year);
    assert(day.subrange(0, month.len() as int) =~= month);
}

/// Partition values sort as text the way their dates do, for dates of the years 0 to 9999: two
/// days give their values in the order of the days, and coarser values never go back.
pub proof fn partition_values_keep_order(granularity: Granularity, a: (int, int, int), b: (int, int, int))
    requires
        is_date(a.0, a.1, a.2),
        is_date(b.0, b.1, b.2),
        0 <= a.0 <= 9999,
        0 <= b.0 <= 9999,
        earlier(a, b),
    ensures
        text::precedes(partition_text(granularity, a), partition_text(granularity, b)) || partition_text(granularity, a)
            == partition_text(granularity, b),
        granularity is Day ==> text::precedes(partition_text(granularity, a), partition_text(granularity, b)),
{
    let dash = "-"@;
    let (ya, ma, da) = (numerals::padded(a.0, 4), numerals::padded(a.1, 2), numerals::padded(a.2, 2));
    let (yb, mb, db) = (numerals::padded(b.0, 4), numerals::padded(b.1, 2), numerals::padded(b.2, 2));
    numerals::lemma_four_digits(a.0);
    numerals::lemma_four_digits(b.0);
    numerals::lemma_two_digits(a.0 / 100);
    numerals::lemma_two_digits(a.0 % 100);
    numerals::lemma_two_digits(b.0 / 100);
    numerals::lemma_two_digits(b.0 % 100);
    numerals::lemma_two_digits(a.1);
    numerals::lemma_two_digits(b.1);
    if a.0 < b.0 {
        numerals::lemma_four_digits_order(a.0, b.0);
        text::lemma_precedes_decided(ya, yb, dash + ma, dash + mb);
        text::lemma_precedes_decided(ya, yb, dash + ma + dash + da, dash + mb + dash + db);
    } else if a.1 < b.1 {
        numerals::lemma_two_digits_order(a.1, b.1);
        text::lemma_precedes_behind(ya + dash, ma, mb);
        text::lemma_precedes_decided(ma, mb, dash + da, dash + db);
        text::lemma_precedes_behind(ya + dash, ma + dash + da, mb + dash + db);
        assert(ma + (dash + da) =~= ma + dash + da);
        assert(mb + (dash + db) =~= mb + dash + db);
    } else {
        numerals::lemma_two_digits_order(a.2, b.2);
        text::lemma_precedes_behind(ya + dash + ma + dash, da, db);
    }
    assert(ya + (dash + ma) =~= ya + dash + ma);
    assert(yb + (dash + mb) =~= yb + dash + mb);
    assert(ya + (dash + ma + dash + da) =~= ya + dash + ma + dash + da);
    assert(yb + (dash + mb + dash + db) =~= yb + dash + mb + dash + db);
    assert((ya + dash) + (ma + dash + da) =~= ya + dash + ma + dash + da);
    assert((ya + dash) + (mb + dash + db) =~= ya + dash + mb + dash + db);
}

/// Whether a column name is reserved by the system.
#[must_use]
pub fn is_reserved(column: &str) -> (r: bool)
    ensures
        r == text::begins_with(column@, RESERVED_PREFIX@),
{
    has_prefix(column, RESERVED_PREFIX)
}

/// Why a date axis cannot be used.
#[derive(PartialEq, Eq, Debug)]
pub enum AxisError {
    /// The declared granularity is none.
    UnknownGranularity {
        /// What was declared.
        offered: String,
    },
    /// The declared source column is not in the table's schema.
    NoSuchSourceColumn {
        /// What was declared.
        column: String,
        /// What the schema has.
        available: Vec<String>,
    },
    /// A source column has a null where a date is required.
    NullDate {
        /// Which column.
        column: String,
    },
    /// A source column uses the reserved prefix.
    ReservedName {
        /// The offending name.
        column: String,
    },
}

impl AxisError {
    /// The message an error is reported with.
    pub open spec fn message(self) -> Seq<char> {
        match self {
            AxisError::UnknownGranularity { offered } => "'"@ + offered@
                + "' is not a partition granularity; the choices are day, month and year. Refusing rather than defaulting to daily: a monthly table that silently became daily would be repartitioned on its next write, which rewrites the whole table for a typo"@,
            AxisError::NoSuchSourceColumn { column, available } => "the date column '"@ + column@
                + "' is not in the schema, which has "@ + text::debug_list(text::views(available@)),
            AxisError::NullDate { column } => "a row has no value in '"@ + column@
                + "', which this table declares as its date. Refusing rather than substituting today: a per-row fallback makes the column mean 'when it happened' in some rows and 'when we received it' in others, inseparably"@,
            AxisError::ReservedName { column } => "'"@ + column@ + "' uses the reserved '"@ + RESERVED_PREFIX@
                + "' prefix. Refusing rather than shadowing it: a shadowed column means the source's data disappears behind a system value, with no error anywhere"@,
        }
    }

    /// The error as a sentence.
    pub fn to_string(&self) -> (r: String)
        ensures
            r@ == self.message(),
    {
        match self {
            AxisError::UnknownGranularity { offered } => {
                let mut r = "'".to_string();
                r.append(offered.as_str());
                r.append("' is not a partition granularity; the choices are day, month and year. Refusing rather than defaulting to daily: a monthly table that silently became daily would be repartitioned on its next write, which rewrites the whole table for a typo");
                r
            },
            AxisError::NoSuchSourceColumn { column, available } => {
                let mut r = "the date column '".to_string();
                r.append(column.as_str());
                r.append("' is not in the schema, which has ");
                r.append(text::debug_list_text(available).as_str());
                r
            },
            AxisError::NullDate { column } => {
                let mut r = "a row has no value in '".to_string();
                r.append(column.as_str());
                r.append("', which this table declares as its date. Refusing rather than substituting today: a per-row fallback makes the column mean 'when it happened' in some rows and 'when we received it' in others, inseparably");
                r
            },
            AxisError::ReservedName { column } => {
                let mut r = "'".to_string();
                r.append(column.as_str());
                r.append("' uses the reserved '");
                r.append(RESERVED_PREFIX);
                r.append("' prefix. Refusing rather than shadowing it: a shadowed column means the source's data disappears behind a system value, with no error anywhere");
                r
            },
        }
    }
}

/// Every day count names a date of the calendar.
pub proof fn every_day_has_a_date(days: int)
    ensures
        is_date(civil(days).0, civil(days).1, civil(days).2),
        days_to(civil(days).0, civil(days).1, civil(days).2) == days,
{
    let z = days + 719_468;
    let era = z / 146_097;
    let day_of_era = z - era * 146_097;
    lemma_fundamental_div_mod(z, 146_097);
    lemma_mod_bound(z, 146_097);
    lemma_year_of_cycle(day_of_era);
    let year_of_era = (day_of_era - day_of_era / 1_460 + day_of_era / 36_524 - day_of_era / 146_096) / 365;
    let march_year = year_of_era + era * 400;
    let day_of_year = day_of_era - cycle_days(year_of_era);
    lemma_same_cycle(year_of_era, era);
    lemma_month_and_day(march_year, day_of_year);
    let m = (5 * day_of_year + 2) / 153;
    let t = (
        if m < 10 {
            march_year
        } else {
            march_year + 1
        },
        if m < 10 {
            m + 3
        } else {
            m - 9
        },
        day_of_year - (153 * m + 2) / 5 + 1,
    );
    assert(is_date(t.0, t.1, t.2) && days_to(t.0, t.1, t.2) == days);
}

/// The calendar is the Gregorian one, counted from the first of January 1970: a day behind the last of a
/// month is the first of the next, and four hundred years are as many days as any other four hundred.
pub proof fn days_follow_each_other(year: int, month: int, day: int)
    requires
        is_date(year, month, day),
    ensures
        days_to(1970, 1, 1) == 0,
        is_date(year, month, day + 1) ==> days_to(year, month, day + 1) == days_to(year, month, day) + 1,
        !is_date(year, month, day + 1) && month < 12 ==> days_to(year, month + 1, 1) == days_to(year, month, day) + 1,
        !is_date(year, month, day + 1) && month == 12 ==> days_to(year + 1, 1, 1) == days_to(year, month, day) + 1,
        month != 2 ==> is_date(year, month, 30) && !is_date(year, month, 32),
        is_date(year, month, 31) <==> month == 1 || month == 3 || month == 5 || month == 7 || month == 8 || month == 10
            || month == 12,
        is_date(year, 2, 28) && !is_date(year, 2, 30),
        days_before_year(year + 400) == days_before_year(year) + 146_097,
        year % 4 != 0 ==> !is_date(year, 2, 29),
        year % 4 == 0 && year % 100 != 0 ==> is_date(year, 2, 29),
        year % 400 == 0 ==> is_date(year, 2, 29),
{
    lemma_months(year);
    lemma_months(1970);
    lemma_year_length(year);
    lemma_whole_cycles(year - 1, 1);
    reveal_with_fuel(days_before_month, 2);
}

/// A partition value spells the date it stands for: the year in at least four digits, then the month and
/// the day in two, with dashes between, as far as it goes.
pub proof fn partition_values_spell_dates(date: (int, int, int))
    requires
        is_date(date.0, date.1, date.2),
    ensures
        ({
            let year = partition_text(Granularity::Year, date);
            let month = partition_text(Granularity::Month, date);
            let day = partition_text(Granularity::Day, date);
            let y = year.len() as int;
            &&& numerals::spells(year, date.0) && y >= 4 && (0 <= date.0 <= 9999 ==> y == 4)
            &&& month.len() == y + 3 && day.len() == y + 6
            &&& month.take(y) == year && day.take(y + 3) == month
            &&& month[y] == '-' && day[y + 3] == '-'
            &&& numerals::spells(month.skip(y + 1), date.1)
            &&& numerals::spells(day.skip(y + 4), date.2)
        }),
{
    let year = numerals::padded(date.0, 4);
    let m = numerals::padded(date.1, 2);
    let d = numerals::padded(date.2, 2);
    reveal_strlit("-");
    lemma_small_powers();
    numerals::padded_numbers_read_back(date.0, 4);
    numerals::padded_numbers_read_back(date.1, 2);
    numerals::padded_numbers_read_back(date.2, 2);
    let month = partition_text(Granularity::Month, date);
    let day = partition_text(Granularity::Day, date);
    assert(month.take(year.len() as int) =~= year);
    assert(day.take(month.len() as int) =~= month);
    assert(month.skip(year.len() as int + 1) =~= m);
    assert(day.skip(month.len() as int + 1) =~= d);
}

/// The powers of ten that dates and times are filled up to.
pub proof fn lemma_small_powers()
    ensures
        pow(10, 1) == 10,
        pow(10, 2) == 100,
        pow(10, 4) == 10_000,
        pow(10, 6) == 1_000_000,
{
    reveal(pow);
    reveal_with_fuel(pow, 8);
}

/// The column and the prefix that are the system's own, and the settings an axis is declared under, are
/// those that other engines and earlier tables know.
pub proof fn reserved_names_are_fixed()
    ensures
        DATA_DATE_COLUMN@ == "sank_data_date"@,
        RESERVED_PREFIX@ == "sank_"@,
        SOURCE_KEY@ == "sank.dataDate.source"@,
        GRANULARITY_KEY@ == "sank.dataDate.granularity"@,
        text::begins_with(DATA_DATE_COLUMN@, RESERVED_PREFIX@),
{
    reveal_strlit("sank_data_date");
    reveal_strlit("sank_");
    assert("sank_data_date"@.subrange(0, 5) =~= "sank_"@);
}

} // verus!
