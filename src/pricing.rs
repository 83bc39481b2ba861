use vstd::prelude::*;

use vstd::arithmetic::div_mod::{lemma_fundamental_div_mod, lemma_mod_pos_bound};
use vstd::arithmetic::mul::lemma_mul_inequality;

use crate::calendar::{classify, classify_spec, trim_date, trimmed, DayContext, HolidaySet};
use crate::tariff::{lookup_spec, lookup_tariff, NoMatchingTariff, TariffRule};

verus! {

/// Minutes in a day.
pub const MINUTES_PER_DAY: usize = 1440;

/// Why an energy table could not be priced.
#[derive(Debug, Clone, Copy, PartialEq, Eq)]
pub enum PricingError {
    /// The first data row has no value column besides its date.
    EmptyRow,
    /// A data row (0-based) has another number of columns than the first one.
    ColumnMismatch { row: usize, expected: usize, actual: usize },
    /// The date of a data row (0-based) is not a date `YYYYMMDD`.
    BadDate { row: usize },
    /// No tariff rule covers a reading's day and minute.
    NoTariff(NoMatchingTariff),
}

/// The rate for every reading of an energy table, row by row, with the table's shape.
pub struct EnergyPlan<R> {
    /// Data rows, one per billing day.
    pub row_count: usize,
    /// Columns per row, the date included; 0 for a table without rows.
    pub column_count: usize,
    /// `rates[k][i]` is the rate for value column `i` of row `k`.
    pub rates: Vec<Vec<R>>,
}

/// Width in minutes of each of `value_columns` equal intervals of a day, rounded down.
pub open spec fn interval_spec(value_columns: int) -> int {
    1440int / value_columns
}

/// Rates of the first `n` value columns of a row priced on `day`, or the first lookup that fails.
pub open spec fn cell_rates_spec<R>(rules: Seq<TariffRule<R>>, day: i16, interval: int, n: int) -> Result<Seq<R>, PricingError>
    decreases n,
{
    if n <= 0 {
        Ok(Seq::empty())
    } else {
        match cell_rates_spec(rules, day, interval, n - 1) {
            Err(e) => Err(e),
            Ok(s) => match lookup_spec(rules, day, ((n - 1) * interval) as i32) {
                Ok(r) => Ok(s.push(r)),
                Err(e) => Err(PricingError::NoTariff(e)),
            },
        }
    }
}

/// Rates of data row `k`, where the first row has `width` columns.
pub open spec fn row_spec<R>(
    row: Seq<String>,
    k: int,
    width: int,
    holidays: Set<Seq<char>>,
    rules: Seq<TariffRule<R>>,
) -> Result<Seq<R>, PricingError> {
    if k == 0 && row.len() < 2 {
        Err(PricingError::EmptyRow)
    } else if k > 0 && row.len() != width {
        Err(
            PricingError::ColumnMismatch {
                row: k as usize,
                expected: width as usize,
                actual: row.len() as usize,
            },
        )
    } else {
        match classify_spec(trimmed(row[0]@), holidays) {
            Err(_) => Err(PricingError::BadDate { row: k as usize }),
            Ok(d) => cell_rates_spec(rules, d.index_spec(), interval_spec(width - 1), width - 1),
        }
    }
}

/// Rates of the first `n` rows of a table, or the error of the first row that fails.
pub open spec fn plan_spec<R>(
    rows: Seq<Vec<String>>,
    n: int,
    holidays: Set<Seq<char>>,
    rules: Seq<TariffRule<R>>,
) -> Result<Seq<Seq<R>>, PricingError>
    decreases n,
{
    if n <= 0 {
        Ok(Seq::empty())
    } else {
        match plan_spec(rows, n - 1, holidays, rules) {
            Err(e) => Err(e),
            Ok(p) => match row_spec(rows[n - 1]@, n - 1, rows[0]@.len() as int, holidays, rules) {
                Err(e) => Err(e),
                Ok(r) => Ok(p.push(r)),
            },
        }
    }
}

pub open spec fn rates_view<R>(rates: Seq<Vec<R>>) -> Seq<Seq<R>> {
    rates.map_values(|v: Vec<R>| v.view())
}

/// Once a prefix of a row fails, every longer prefix fails with the same error.
proof fn lemma_cells_error_persists<R>(rules: Seq<TariffRule<R>>, day: i16, interval: int, m: int, n: int)
    requires
        0 <= m <= n,
        cell_rates_spec(rules, day, interval, m) is Err,
    ensures
        cell_rates_spec(rules, day, interval, n) == cell_rates_spec(rules, day, interval, m),
    decreases n - m,
{
    if m < n {
        lemma_cells_error_persists(rules, day, interval, m, n - 1);
    }
}

/// Once a prefix of the table fails, every longer prefix fails with the same error.
proof fn lemma_plan_error_persists<R>(
    rows: Seq<Vec<String>>,
    m: int,
    n: int,
    holidays: Set<Seq<char>>,
    rules: Seq<TariffRule<R>>,
)
    requires
        0 <= m <= n,
        plan_spec(rows, m, holidays, rules) is Err,
    ensures
        plan_spec(rows, n, holidays, rules) == plan_spec(rows, m, holidays, rules),
    decreases n - m,
{
    if m < n {
        lemma_plan_error_persists(rows, m, n - 1, holidays, rules);
    }
}

/// A table whose row `k`, after the first, differs in width from the first row fails, with
/// `ColumnMismatch` or an earlier error, and yields no rates.
pub proof fn lemma_width_mismatch_fails<R>(
    rows: Seq<Vec<String>>,
    k: int,
    holidays: Set<Seq<char>>,
    rules: Seq<TariffRule<R>>,
)
    requires
        0 < k < rows.len(),
        rows[k]@.len() != rows[0]@.len(),
    ensures
        plan_spec(rows, rows.len() as int, holidays, rules) is Err,
        plan_spec(rows, k, holidays, rules) is Ok ==> plan_spec(rows, rows.len() as int, holidays, rules)
            == Err::<Seq<Seq<R>>, PricingError>(
            PricingError::ColumnMismatch {
                row: k as usize,
                expected: rows[0]@.len() as usize,
                actual: rows[k]@.len() as usize,
            },
        ),
{
    assert(plan_spec(rows, k + 1, holidays, rules) is Err);
    lemma_plan_error_persists(rows, k + 1, rows.len() as int, holidays, rules);
}

/// Pricing is a function of its inputs: two passes over the same table, holidays and tariff
/// give the same result.
pub proof fn lemma_pricing_deterministic<R>(
    rows1: Seq<Vec<String>>,
    rows2: Seq<Vec<String>>,
    holidays1: Set<Seq<char>>,
    holidays2: Set<Seq<char>>,
    rules1: Seq<TariffRule<R>>,
    rules2: Seq<TariffRule<R>>,
)
    requires
        rows1 == rows2,
        holidays1 == holidays2,
        rules1 == rules2,
    ensures
        plan_spec(rows1, rows1.len() as int, holidays1, rules1) == plan_spec(
            rows2,
            rows2.len() as int,
            holidays2,
            rules2,
        ),
{
}

/// `value_columns` intervals of `1440 / value_columns` minutes fit in a day, and fall short of
/// it by fewer minutes than there are columns: where the count does not divide 1440, those
/// minutes go unpriced.
pub proof fn lemma_interval_tiling(value_columns: int)
    requires
        value_columns > 0,
    ensures
        interval_spec(value_columns) * value_columns <= 1440,
        1440 - interval_spec(value_columns) * value_columns < value_columns,
        forall|i: int| 0 <= i < value_columns ==> 0 <= #[trigger] (i * interval_spec(value_columns)) < 1440,
{
    lemma_fundamental_div_mod(1440, value_columns);
    lemma_mod_pos_bound(1440, value_columns);
    let iv = interval_spec(value_columns);
    assert(iv >= 0);
    assert(iv * value_columns == value_columns * iv) by (nonlinear_arith);
    assert forall|i: int| 0 <= i < value_columns implies 0 <= #[trigger] (i * iv) < 1440 by {
        lemma_mul_inequality(i, value_columns - 1, iv);
        assert(0 <= i * iv) by (nonlinear_arith)
            requires
                0 <= i,
                0 <= iv,
        ;
        assert((value_columns - 1) * iv == value_columns * iv - iv) by (nonlinear_arith);
        if iv == 0 {
            assert(i * iv == 0) by (nonlinear_arith)
                requires
                    iv == 0,
            ;
        }
    }
}

/// Width in minutes of each interval when a day is cut into `value_columns` columns:
/// `1440 / value_columns`, rounded down.
pub fn interval_minutes(value_columns: usize) -> (r: usize)
    requires
        value_columns > 0,
    ensures
        r == interval_spec(value_columns as int),
{
    MINUTES_PER_DAY / value_columns
}

/// Rates for the `value_columns` readings of a day priced on `day`, column `i` at minute
/// `i * interval`; the first lookup that finds no rule fails.
pub fn row_rates<R: Copy>(day: i16, value_columns: usize, tariff: &Vec<TariffRule<R>>) -> (r: Result<Vec<R>, PricingError>)
    requires
        value_columns > 0,
    ensures
        match r {
            Ok(v) => cell_rates_spec(tariff@, day, interval_spec(value_columns as int), value_columns as int) == Ok::<Seq<R>, PricingError>(v@),
            Err(e) => cell_rates_spec(tariff@, day, interval_spec(value_columns as int), value_columns as int) == Err::<Seq<R>, PricingError>(e),
        },
{
    let interval = interval_minutes(value_columns);
    proof {
        lemma_interval_tiling(value_columns as int);
    }
    let mut rates: Vec<R> = Vec::new();
    let mut i: usize = 0;
    while i < value_columns
        invariant
            i <= value_columns,
            interval == interval_spec(value_columns as int),
            forall|j: int| 0 <= j < value_columns ==> 0 <= #[trigger] (j * interval) < 1440,
            cell_rates_spec(tariff@, day, interval as int, i as int) == Ok::<Seq<R>, PricingError>(rates@),
        decreases value_columns - i,
    {
        assert(0 <= i * interval < 1440);
        let minute = (i * interval) as i32;
        match lookup_tariff(day, minute, tariff) {
            Ok(rate) => {
                rates.push(rate);
            },
            Err(e) => {
                assert(cell_rates_spec(tariff@, day, interval as int, (i + 1) as int)
                    == Err::<Seq<R>, PricingError>(PricingError::NoTariff(e)));
                proof {
                    lemma_cells_error_persists(tariff@, day, interval as int, (i + 1) as int, value_columns as int);
                }
                return Err(PricingError::NoTariff(e));
            },
        }
        i = i + 1;
    }
    Ok(rates)
}

/// Rates for data row `row_no` of an energy table, whose first row has `width` columns: the
/// row's width is checked, its date classified, and each reading looked up.
fn price_row<R: Copy>(
    row: &Vec<String>,
    row_no: usize,
    width: usize,
    holidays: &HolidaySet,
    tariff: &Vec<TariffRule<R>>,
) -> (r: Result<Vec<R>, PricingError>)
    requires
        row_no == 0 ==> width == row@.len(),
        row_no > 0 ==> width >= 2,
    ensures
        match r {
            Ok(v) => row_spec(row@, row_no as int, width as int, holidays@, tariff@) == Ok::<Seq<R>, PricingError>(v@),
            Err(e) => row_spec(row@, row_no as int, width as int, holidays@, tariff@) == Err::<Seq<R>, PricingError>(e),
        },
{
    if row_no == 0 && row.len() < 2 {
        return Err(PricingError::EmptyRow);
    }
    if row_no > 0 && row.len() != width {
        return Err(PricingError::ColumnMismatch { row: row_no, expected: width, actual: row.len() });
    }
    let date = trim_date(&row[0]);
    let day = match classify(&date, holidays) {
        Ok(d) => d.index(),
        Err(_) => return Err(PricingError::BadDate { row: row_no }),
    };
    row_rates(day, width - 1, tariff)
}

/// Prices an energy table, one row per billing day: its date, then one reading per interval of
/// the day. The first row fixes the column count; each reading's rate is the tariff's rate for
/// the row's day context and the minute its interval starts. The first malformed row, date or
/// uncovered reading fails the whole table.
pub fn price_energy<R: Copy>(
    rows: &Vec<Vec<String>>,
    tariff: &Vec<TariffRule<R>>,
    holidays: &HolidaySet,
) -> (r: Result<EnergyPlan<R>, PricingError>)
    ensures
        match r {
            Ok(p) => plan_spec(rows@, rows@.len() as int, holidays@, tariff@) == Ok::<Seq<Seq<R>>, PricingError>(rates_view(p.rates@))
                && p.row_count == rows@.len() && p.column_count == (if rows@.len() == 0 {
                0
            } else {
                rows@[0]@.len()
            }),
            Err(e) => plan_spec(rows@, rows@.len() as int, holidays@, tariff@) == Err::<Seq<Seq<R>>, PricingError>(e),
        },
{
    let mut rates: Vec<Vec<R>> = Vec::new();
    let mut width: usize = 0;
    let mut k: usize = 0;
    assert(rates_view(rates@) =~= Seq::<Seq<R>>::empty());
    while k < rows.len()
        invariant
            k <= rows@.len(),
            k > 0 ==> width == rows@[0]@.len() && width >= 2,
            k == 0 ==> width == 0,
            plan_spec(rows@, k as int, holidays@, tariff@) == Ok::<Seq<Seq<R>>, PricingError>(rates_view(rates@)),
        decreases rows.len() - k,
    {
        let w = if k == 0 { rows[0].len() } else { width };
        match price_row(&rows[k], k, w, holidays, tariff) {
            Ok(v) => {
                proof {
                    assert(rates_view(rates@.push(v)) =~= rates_view(rates@).push(v@));
                }
                rates.push(v);
            },
            Err(e) => {
                proof {
                    lemma_plan_error_persists(rows@, k + 1, rows@.len() as int, holidays@, tariff@);
                }
                return Err(e);
            },
        }
        if k == 0 {
            width = w;
        }
        k = k + 1;
    }
    Ok(EnergyPlan { row_count: rows.len(), column_count: width, rates })
}

} // verus!
