//! Calendar days, by which results are keyed and ordered.

use vstd::prelude::*;

verus! {

/// The error type of chrono's parsers. Nothing is read from it here.
#[verifier::external_type_specification]
#[verifier::external_body]
pub struct ExParseError(chrono::format::ParseError);

/// The date that chrono reads from `text` when it is told the layout `format`,
/// as year, month and day of the month, or `None` where chrono reports an error.
pub uninterp spec fn parsed_date(text: Seq<char>, format: Seq<char>) -> Option<(i32, u32, u32)>;

/// Whether a layout is made of the year, the month and the day of the month,
/// in any order, and of text between them: every `%` in it is followed by `Y`,
/// `m` or `d`. Only such layouts are handed to chrono. Among the others are
/// layouts on which chrono's own arithmetic can overflow: with `%G`, a year of
/// the week calendar at the end of the `i32` range.
pub open spec fn is_plain_layout(format: Seq<char>) -> bool {
    forall|i: int|
        0 <= i < format.len() && #[trigger] format[i] == '%' ==> i + 1 < format.len() && (format[i
            + 1] == 'Y' || format[i + 1] == 'm' || format[i + 1] == 'd')
}

/// Calls `chrono::NaiveDate::parse_from_str` and takes the date that comes
/// back apart into year, month and day (`Datelike::year`, `month`, `day`).
/// Trusted: the call depends on its two arguments alone, so its outcome is
/// `parsed_date` of them; an error of chrono stands for `None`. On a plain
/// layout chrono reads numbers with checked arithmetic and builds the date
/// with `NaiveDate::from_ymd_opt`, which tests the year's range first, so the
/// call returns for every text.
#[verifier::external_body]
fn parse_date(text: &str, format: &str) -> (parsed: Result<
    (i32, u32, u32),
    chrono::format::ParseError,
>)
    requires
        is_plain_layout(format@),
    ensures
        match parsed {
            Ok(date) => parsed_date(text@, format@) == Some(date),
            Err(_) => parsed_date(text@, format@) is None,
        },
{
    match chrono::NaiveDate::parse_from_str(text, format) {
        Ok(date) => Ok(
            (
                chrono::Datelike::year(&date),
                chrono::Datelike::month(&date),
                chrono::Datelike::day(&date),
            ),
        ),
        Err(error) => Err(error),
    }
}

/// A calendar day. Days are ordered as the calendar orders them: by year, then
/// by month, then by day of the month.
#[derive(Debug, Clone, Copy, PartialEq, Eq, Structural, Hash, PartialOrd, Ord)]
pub struct DayKey {
    pub year: i32,
    pub month: u32,
    pub day: u32,
}

impl DayKey {
    /// The day that a parsed date stands for, if a date was parsed.
    pub open spec fn of_parsed(parsed: Option<(i32, u32, u32)>) -> Option<DayKey> {
        match parsed {
            Some(date) => Some(DayKey { year: date.0, month: date.1, day: date.2 }),
            None => None,
        }
    }

    /// Whether `self` comes earlier in the calendar than `other`.
    pub open spec fn before(self, other: DayKey) -> bool {
        ||| self.year < other.year
        ||| self.year == other.year && self.month < other.month
        ||| self.year == other.year && self.month == other.month && self.day < other.day
    }

    /// The day with the given year, month and day of the month.
    pub fn new(year: i32, month: u32, day: u32) -> (made: DayKey)
        ensures
            made == (DayKey { year, month, day }),
    {
        DayKey { year, month, day }
    }

    /// Reads a day from `text`, which is laid out as `format` says in chrono's
    /// notation. `None` where chrono does not find a date there. The layout
    /// names the year, the month and the day, each by `%Y`, `%m` or `%d`, with
    /// any text between them.
    pub fn parse_from_str(text: &str, format: &str) -> (day: Option<DayKey>)
        requires
            is_plain_layout(format@),
        ensures
            day == DayKey::of_parsed(parsed_date(text@, format@)),
    {
        match parse_date(text, format) {
            Ok(date) => Some(DayKey::new(date.0, date.1, date.2)),
            Err(_) => None,
        }
    }

    /// Whether `self` comes earlier in the calendar than `other`.
    pub fn is_before(&self, other: &DayKey) -> (earlier: bool)
        ensures
            earlier == self.before(*other),
    {
        self.year < other.year || (self.year == other.year && (self.month < other.month || (
        self.month == other.month && self.day < other.day)))
    }
}

/// The layout of a day as `2024-04-15` is a plain one.
pub proof fn lemma_year_month_day_is_plain()
    ensures
        is_plain_layout("%Y-%m-%d"@),
{
    reveal_strlit("%Y-%m-%d");
    let layout = "%Y-%m-%d"@;
    assert(layout.len() == 8);
    assert(layout[0] == '%' && layout[1] == 'Y' && layout[2] == '-' && layout[3] == '%');
    assert(layout[4] == 'm' && layout[5] == '-' && layout[6] == '%' && layout[7] == 'd');
}

/// Of two different days one comes before the other, never both; and what
/// comes before an earlier day comes before a later one.
pub proof fn lemma_days_ordered(a: DayKey, b: DayKey, c: DayKey)
    ensures
        !a.before(a),
        a.before(b) ==> !b.before(a),
        a != b ==> a.before(b) || b.before(a),
        a.before(b) && b.before(c) ==> a.before(c),
{
}

} // verus!
