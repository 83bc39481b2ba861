use vstd::prelude::*;

use chrono::Datelike;

verus! {

/// What `str::trim` leaves of a text.
pub uninterp spec fn trimmed(s: Seq<char>) -> Seq<char>;

/// Relies on `str::trim`: the text without its leading and trailing white space.
#[verifier::external_body]
fn trim_text(s: &str) -> (r: String)
    ensures
        r@ == trimmed(s@),
{
    s.trim().to_string()
}

/// The day of the week, 0 for Monday, of a date written `YYYYMMDD`; `None` where chrono does not
/// read the text as such a date.
pub uninterp spec fn weekday_of_date(s: Seq<char>) -> Option<u32>;

/// Relies on chrono's `NaiveDate::parse_from_str` with the format `%Y%m%d` to read the date, and
/// on `Weekday::num_days_from_monday` for its day of the week, which is below 7.
#[verifier::external_body]
fn parse_weekday(s: &str) -> (r: Option<u32>)
    ensures
        r == weekday_of_date(s@),
        r matches Some(w) ==> w < 7,
{
    match chrono::NaiveDate::parse_from_str(s, "%Y%m%d") {
        Ok(d) => Some(d.weekday().num_days_from_monday()),
        Err(_) => None,
    }
}

/// The day a tariff sees: a weekday (0 is Monday, 6 is Sunday) or a public holiday, which is
/// priced as a Sunday.
#[derive(Debug, Clone, Copy, PartialEq, Eq, Structural)]
pub enum DayContext {
    Weekday(i16),
    Holiday,
}

impl DayContext {
    pub open spec fn index_spec(self) -> i16 {
        match self {
            DayContext::Weekday(d) => d,
            DayContext::Holiday => 6,
        }
    }

    /// The day index that tariff rules are written against.
    pub fn index(&self) -> (r: i16)
        ensures
            r == self.index_spec(),
    {
        match self {
            DayContext::Weekday(d) => *d,
            DayContext::Holiday => 6,
        }
    }
}

/// A date that is not of the form `YYYYMMDD`, or names no day of the calendar.
#[derive(Debug, Clone, Copy, PartialEq, Eq)]
pub struct DateParseError;

/// A set of public holidays, each a date as written in the holiday table, trimmed.
pub struct HolidaySet {
    dates: Vec<String>,
}

impl View for HolidaySet {
    type V = Set<Seq<char>>;

    closed spec fn view(&self) -> Set<Seq<char>> {
        Set::new(|d: Seq<char>| exists|i: int| 0 <= i < self.dates@.len() && #[trigger] self.dates@[i]@ == d)
    }
}

impl HolidaySet {
    /// A set with no holidays.
    pub fn new() -> (r: HolidaySet)
        ensures
            r@ == Set::<Seq<char>>::empty(),
    {
        let r = HolidaySet { dates: Vec::new() };
        assert(r@ =~= Set::<Seq<char>>::empty());
        r
    }

    /// Adds a date, trimmed of surrounding white space.
    pub fn insert(&mut self, date: &str)
        ensures
            final(self)@ == old(self)@.insert(trimmed(date@)),
    {
        let d = trim_text(date);
        self.dates.push(d);
        proof {
            let o = old(self)@.insert(trimmed(date@));
            assert forall|x: Seq<char>| self@.contains(x) <==> o.contains(x) by {
                if old(self)@.contains(x) {
                    let i = choose|i: int| 0 <= i < old(self).dates@.len() && #[trigger] old(self).dates@[i]@ == x;
                    assert(self.dates@[i] == old(self).dates@[i]);
                }
                if self@.contains(x) {
                    let i = choose|i: int| 0 <= i < self.dates@.len() && #[trigger] self.dates@[i]@ == x;
                    if i < old(self).dates@.len() {
                        assert(self.dates@[i] == old(self).dates@[i]);
                    }
                }
                if x == trimmed(date@) {
                    assert(self.dates@[self.dates@.len() - 1]@ == x);
                }
            }
            assert(self@ =~= o);
        }
    }

    /// Whether `date` is one of the holidays, compared as written.
    pub fn contains(&self, date: &String) -> (r: bool)
        ensures
            r == self@.contains(date@),
    {
        let mut i: usize = 0;
        while i < self.dates.len()
            invariant
                i <= self.dates@.len(),
                forall|k: int| 0 <= k < i ==> self.dates@[k]@ != date@,
            decreases self.dates.len() - i,
        {
            if self.dates[i] == *date {
                return true;
            }
            i = i + 1;
        }
        false
    }
}

/// The day a date is priced as: a holiday wherever it is in the set, else its day of the week.
pub open spec fn classify_spec(date: Seq<char>, holidays: Set<Seq<char>>) -> Result<DayContext, DateParseError> {
    if holidays.contains(date) {
        Ok(DayContext::Holiday)
    } else {
        match weekday_of_date(date) {
            Some(w) => Ok(DayContext::Weekday(w as i16)),
            None => Err(DateParseError),
        }
    }
}

/// The day context of a date written `YYYYMMDD`: a holiday when the set holds it, whatever its
/// day of the week; otherwise its day of the week, 0 for Monday.
pub fn classify(date: &String, holidays: &HolidaySet) -> (r: Result<DayContext, DateParseError>)
    ensures
        r == classify_spec(date@, holidays@),
        r matches Ok(d) ==> 0 <= d.index_spec() <= 6,
{
    if holidays.contains(date) {
        Ok(DayContext::Holiday)
    } else {
        match parse_weekday(date.as_str()) {
            Some(w) => Ok(DayContext::Weekday(w as i16)),
            None => Err(DateParseError),
        }
    }
}

/// The trimmed text of a date cell.
pub fn trim_date(cell: &String) -> (r: String)
    ensures
        r@ == trimmed(cell@),
{
    trim_text(cell.as_str())
}

/// A date in the holiday set is priced on the holiday slot, index 6, whatever day of the week it
/// falls on; a date outside it keeps its day of the week.
pub proof fn lemma_holiday_overrides_weekday(date: Seq<char>, holidays: Set<Seq<char>>)
    ensures
        holidays.contains(date) ==> classify_spec(date, holidays) == Ok::<DayContext, DateParseError>(DayContext::Holiday)
            && DayContext::Holiday.index_spec() == 6,
        !holidays.contains(date) && weekday_of_date(date) is Some ==> classify_spec(date, holidays)
            == Ok::<DayContext, DateParseError>(DayContext::Weekday(weekday_of_date(date).unwrap() as i16)),
{
}

} // verus!
