use vstd::prelude::*;

use crate::time::{
    is_i32_text,
    int_text_value,
    is_time_text,
    time_text_minutes,
    minutes_since_midnight,
    parse_i32_field,
};

verus! {

/// One rate of a time-of-use tariff: it applies on days `[day_start, day_end)` (0 is Monday) and
/// at minutes past midnight `[time_start, time_end)`.
pub struct TariffRule<R> {
    pub day_start: i16,
    pub day_end: i16,
    pub time_start: i32,
    pub time_end: i32,
    pub rate: R,
    pub name: String,
}

/// No rule of the table covers the day and minute that were looked up.
#[derive(Debug, Clone, Copy, PartialEq, Eq)]
pub struct NoMatchingTariff {
    pub day: i16,
    pub minute: i32,
}

pub open spec fn rule_matches<R>(rule: TariffRule<R>, day: int, minute: int) -> bool {
    rule.day_start <= day < rule.day_end && rule.time_start <= minute < rule.time_end
}

/// Index of the first rule at or after `i` that covers `day` and `minute`.
pub open spec fn first_match_from<R>(rules: Seq<TariffRule<R>>, day: int, minute: int, i: int) -> Option<int>
    decreases rules.len() - i,
{
    if i < 0 || i >= rules.len() {
        None
    } else if rule_matches(rules[i], day, minute) {
        Some(i)
    } else {
        first_match_from(rules, day, minute, i + 1)
    }
}

pub open spec fn first_match<R>(rules: Seq<TariffRule<R>>, day: int, minute: int) -> Option<int> {
    first_match_from(rules, day, minute, 0)
}

/// The rate of the first rule, in table order, that covers `day` and `minute`.
pub open spec fn lookup_spec<R>(rules: Seq<TariffRule<R>>, day: i16, minute: i32) -> Result<R, NoMatchingTariff> {
    match first_match(rules, day as int, minute as int) {
        Some(i) => Ok(rules[i].rate),
        None => Err(NoMatchingTariff { day, minute }),
    }
}

/// Looks up the rate for a day of the week (0 is Monday) and a minute past midnight: the rate
/// of the first rule in table order that covers both.
pub fn lookup_tariff<R: Copy>(dow: i16, min_since_midnight: i32, tariff: &Vec<TariffRule<R>>) -> (r: Result<R, NoMatchingTariff>)
    ensures
        r == lookup_spec(tariff@, dow, min_since_midnight),
{
    let mut i: usize = 0;
    while i < tariff.len()
        invariant
            i <= tariff@.len(),
            first_match(tariff@, dow as int, min_since_midnight as int) == first_match_from(
                tariff@,
                dow as int,
                min_since_midnight as int,
                i as int,
            ),
        decreases tariff.len() - i,
    {
        let t = &tariff[i];
        if t.day_start <= dow && t.day_end > dow && t.time_start <= min_since_midnight
            && t.time_end > min_since_midnight {
            return Ok(t.rate);
        }
        i = i + 1;
    }
    Err(NoMatchingTariff { day: dow, minute: min_since_midnight })
}

/// The first rule that covers a day and minute decides its rate, whatever later rules also
/// cover them.
pub proof fn lemma_first_match_wins<R>(rules: Seq<TariffRule<R>>, day: i16, minute: i32, i: int, j: int)
    requires
        0 <= i < j < rules.len(),
        rule_matches(rules[i], day as int, minute as int),
        rule_matches(rules[j], day as int, minute as int),
        forall|k: int| 0 <= k < i ==> !rule_matches(#[trigger] rules[k], day as int, minute as int),
    ensures
        first_match(rules, day as int, minute as int) == Some(i),
        lookup_spec(rules, day, minute) == Ok::<R, NoMatchingTariff>(rules[i].rate),
{
    lemma_first_match_skips(rules, day as int, minute as int, 0, i);
}

proof fn lemma_first_match_skips<R>(rules: Seq<TariffRule<R>>, day: int, minute: int, k: int, i: int)
    requires
        0 <= k <= i < rules.len(),
        rule_matches(rules[i], day, minute),
        forall|m: int| k <= m < i ==> !rule_matches(#[trigger] rules[m], day, minute),
    ensures
        first_match_from(rules, day, minute, k) == Some(i),
    decreases i - k,
{
    if k < i {
        lemma_first_match_skips(rules, day, minute, k + 1, i);
    }
}

/// A field of a tariff row that does not hold what its column needs.
#[derive(Debug, Clone, Copy, PartialEq, Eq)]
pub enum TariffRowError {
    /// The row has fewer than the six columns of a rule.
    MissingFields { found: usize },
    /// The field in this column (0-based) is not a valid value.
    BadField { column: usize },
}

pub open spec fn is_i16_text(s: Seq<char>) -> bool {
    is_i32_text(s) && i16::MIN <= int_text_value(s) <= i16::MAX
}

/// Reads an `i16` written as an optional sign and decimal digits.
pub fn parse_i16(s: &str) -> (r: Option<i16>)
    ensures
        match r {
            Some(v) => is_i16_text(s@) && v == int_text_value(s@),
            None => !is_i16_text(s@),
        },
{
    let n = s.unicode_len();
    proof {
        assert(s@.subrange(0, n as int) =~= s@);
    }
    match parse_i32_field(s, 0, n) {
        Some(v) => {
            if v >= -32768 && v <= 32767 {
                Some(v as i16)
            } else {
                None
            }
        },
        None => None,
    }
}

/// What a tariff row gives for its fields, in column order: days start and end, times start
/// and end; the rate comes already read.
pub open spec fn tariff_row_spec<R>(fields: Seq<String>, rate: R) -> Result<TariffRule<R>, TariffRowError> {
    if fields.len() < 6 {
        Err(TariffRowError::MissingFields { found: fields.len() as usize })
    } else if !is_i16_text(fields[0]@) {
        Err(TariffRowError::BadField { column: 0 })
    } else if !is_i16_text(fields[1]@) {
        Err(TariffRowError::BadField { column: 1 })
    } else if !is_time_text(fields[2]@) {
        Err(TariffRowError::BadField { column: 2 })
    } else if !is_time_text(fields[3]@) {
        Err(TariffRowError::BadField { column: 3 })
    } else {
        Ok(
            TariffRule {
                day_start: int_text_value(fields[0]@) as i16,
                day_end: int_text_value(fields[1]@) as i16,
                time_start: time_text_minutes(fields[2]@) as i32,
                time_end: time_text_minutes(fields[3]@) as i32,
                rate,
                name: fields[5],
            },
        )
    }
}

/// Builds a rule from a row of a tariff table: day start, day end, time start `HH:MM:SS`, time
/// end `HH:MM:SS`, the rate (column 4, read by the caller) and the rule's name (column 5).
pub fn tariff_rule_from_fields<R>(fields: &Vec<String>, rate: R) -> (r: Result<TariffRule<R>, TariffRowError>)
    ensures
        match (r, tariff_row_spec(fields@, rate)) {
            (Ok(a), Ok(b)) => a.day_start == b.day_start && a.day_end == b.day_end && a.time_start
                == b.time_start && a.time_end == b.time_end && a.rate == b.rate && a.name@
                == b.name@,
            (Err(a), Err(b)) => a == b,
            _ => false,
        },
{
    if fields.len() < 6 {
        return Err(TariffRowError::MissingFields { found: fields.len() });
    }
    let day_start = match parse_i16(fields[0].as_str()) {
        Some(v) => v,
        None => return Err(TariffRowError::BadField { column: 0 }),
    };
    let day_end = match parse_i16(fields[1].as_str()) {
        Some(v) => v,
        None => return Err(TariffRowError::BadField { column: 1 }),
    };
    let time_start = match minutes_since_midnight(fields[2].as_str()) {
        Ok(v) => v,
        Err(_) => return Err(TariffRowError::BadField { column: 2 }),
    };
    let time_end = match minutes_since_midnight(fields[3].as_str()) {
        Ok(v) => v,
        Err(_) => return Err(TariffRowError::BadField { column: 3 }),
    };
    Ok(TariffRule { day_start, day_end, time_start, time_end, rate, name: fields[5].clone() })
}

} // verus!
