use tariff_bill::calendar::HolidaySet;
use tariff_bill::pricing::{interval_minutes, price_energy, row_rates, EnergyPlan, PricingError};
use tariff_bill::tariff::{NoMatchingTariff, TariffRule};

fn rule(day_start: i16, day_end: i16, time_start: i32, time_end: i32, rate: f64, name: &str) -> TariffRule<f64> {
    TariffRule { day_start, day_end, time_start, time_end, rate, name: name.to_string() }
}

fn row(date: &str, readings: &[f64]) -> Vec<String> {
    let mut r = vec![date.to_string()];
    for v in readings {
        r.push(format!("{}", v));
    }
    r
}

fn cost(rows: &[Vec<String>], plan: &EnergyPlan<f64>) -> f64 {
    let mut sum = 0.0;
    for (k, r) in rows.iter().enumerate() {
        let mut day = 0.0;
        for (i, cell) in r.iter().skip(1).enumerate() {
            day = day + plan.rates[k][i] * cell.parse::<f64>().unwrap();
        }
        sum = sum + day;
    }
    sum
}

fn consumption_tariff() -> Vec<TariffRule<f64>> {
    vec![rule(0, 6, 420, 1320, 0.25, "peak"), rule(0, 7, 0, 1440, 0.125, "off peak")]
}

fn holidays() -> HolidaySet {
    let mut h = HolidaySet::new();
    h.insert("20230808");
    h.insert("20500101");
    h
}

#[test]
fn interval_is_a_day_divided_by_the_columns() {
    assert_eq!(interval_minutes(288), 5);
    assert_eq!(interval_minutes(48), 30);
    assert_eq!(interval_minutes(1), 1440);
    assert_eq!(interval_minutes(7), 205);
    assert_eq!(interval_minutes(1441), 0);
}

#[test]
fn non_divisor_column_count_truncates() {
    let rules = vec![rule(0, 7, 0, 1230, 1.0, "early"), rule(0, 7, 1230, 1440, 2.0, "late")];
    let rates = row_rates(3, 7, &rules).unwrap();
    assert_eq!(rates, vec![1.0, 1.0, 1.0, 1.0, 1.0, 1.0, 2.0]);
    // 7 columns of 205 minutes end at 1435: the last 5 minutes of the day are not priced.
    let rules = vec![rule(0, 7, 0, 1435, 1.0, "day")];
    assert!(row_rates(3, 7, &rules).is_ok());
}

#[test]
fn five_minute_table_prices_every_column() {
    let rows = vec![row("20230807", &[1.0; 288])];
    let plan = price_energy(&rows, &consumption_tariff(), &holidays()).unwrap();
    assert_eq!(plan.row_count, 1);
    assert_eq!(plan.column_count, 289);
    assert_eq!(plan.rates[0].len(), 288);
    assert_eq!(plan.rates[0][83], 0.125);
    assert_eq!(plan.rates[0][84], 0.25);
    assert_eq!(plan.rates[0][263], 0.25);
    assert_eq!(plan.rates[0][264], 0.125);
    assert_eq!(cost(&rows, &plan), 58.5);
}

#[test]
fn holiday_rows_use_the_sunday_rates() {
    let rows = vec![row("20230808", &[1.0, 2.0, 4.0, 8.0])];
    let plan = price_energy(&rows, &consumption_tariff(), &holidays()).unwrap();
    assert_eq!(plan.rates[0], vec![0.125; 4]);
    let plan = price_energy(&rows, &consumption_tariff(), &HolidaySet::new()).unwrap();
    assert_eq!(plan.rates[0], vec![0.125, 0.125, 0.25, 0.25]);
}

#[test]
fn bill_of_consumption_feed_in_and_supply() {
    let daily_supply = 1.45398;
    let h = holidays();
    let consumption = vec![
        row("20230807", &[1.0, 2.0, 4.0, 8.0]),
        row("20230808", &[1.0, 2.0, 4.0, 8.0]),
        row(" 20230809 ", &[1.0, 2.0, 4.0, 8.0]),
    ];
    let plan = price_energy(&consumption, &consumption_tariff(), &h).unwrap();
    let consumption_cost = cost(&consumption, &plan);
    assert_eq!(consumption_cost, 8.625);

    let feed_in_tariff = vec![rule(0, 7, 0, 1440, -0.0625, "feed in")];
    let feed_in = vec![
        row("20230807", &[0.5; 4]),
        row("20230808", &[0.5; 4]),
        row("20230809", &[0.5; 4]),
    ];
    let plan2 = price_energy(&feed_in, &feed_in_tariff, &h).unwrap();
    let feed_in_cost = cost(&feed_in, &plan2);
    assert_eq!(feed_in_cost, -0.375);

    let supply_cost = plan.row_count as f64 * daily_supply;
    let total = consumption_cost + feed_in_cost + supply_cost;
    assert!((total - 12.61194).abs() < 1e-9);
}

#[test]
fn pricing_twice_gives_identical_totals() {
    let rows = vec![row("20230807", &[0.1, 0.2, 0.3, 0.7]), row("20230808", &[0.3, 0.1, 0.9, 0.01])];
    let h = holidays();
    let a = price_energy(&rows, &consumption_tariff(), &h).unwrap();
    let b = price_energy(&rows, &consumption_tariff(), &h).unwrap();
    assert_eq!(cost(&rows, &a).to_bits(), cost(&rows, &b).to_bits());
    assert_eq!(a.rates, b.rates);
}

#[test]
fn empty_table_costs_nothing() {
    let rows: Vec<Vec<String>> = Vec::new();
    let plan = price_energy(&rows, &consumption_tariff(), &holidays()).unwrap();
    assert_eq!(plan.row_count, 0);
    assert_eq!(plan.column_count, 0);
    assert!(plan.rates.is_empty());
}

#[test]
fn row_width_mismatch_fails() {
    let rows = vec![
        row("20230807", &[1.0; 4]),
        row("20230809", &[1.0; 4]),
        row("20230810", &[1.0; 3]),
        row("20230811", &[1.0; 4]),
    ];
    let r = price_energy(&rows, &consumption_tariff(), &holidays());
    assert_eq!(r.err(), Some(PricingError::ColumnMismatch { row: 2, expected: 5, actual: 4 }));
    let rows = vec![row("20230807", &[1.0; 4]), row("20230809", &[1.0; 5])];
    let r = price_energy(&rows, &consumption_tariff(), &holidays());
    assert_eq!(r.err(), Some(PricingError::ColumnMismatch { row: 1, expected: 5, actual: 6 }));
}

#[test]
fn first_row_without_readings_fails() {
    let rows = vec![vec!["20230807".to_string()]];
    let r = price_energy(&rows, &consumption_tariff(), &holidays());
    assert_eq!(r.err(), Some(PricingError::EmptyRow));
    let rows = vec![Vec::new(), row("20230807", &[1.0; 4])];
    let r = price_energy(&rows, &consumption_tariff(), &holidays());
    assert_eq!(r.err(), Some(PricingError::EmptyRow));
}

#[test]
fn bad_date_fails_with_its_row() {
    let rows = vec![row("20230807", &[1.0; 4]), row("2023-08-09", &[1.0; 4]), row("20230810", &[1.0; 3])];
    let r = price_energy(&rows, &consumption_tariff(), &holidays());
    assert_eq!(r.err(), Some(PricingError::BadDate { row: 1 }));
}

#[test]
fn uncovered_reading_fails_with_day_and_minute() {
    let weekdays_only = vec![rule(0, 5, 0, 1440, 0.2, "weekdays")];
    let rows = vec![row("20230807", &[1.0; 4]), row("20230812", &[1.0; 4])];
    let r = price_energy(&rows, &weekdays_only, &HolidaySet::new());
    assert_eq!(r.err(), Some(PricingError::NoTariff(NoMatchingTariff { day: 5, minute: 0 })));
    let mornings = vec![rule(0, 7, 0, 720, 0.2, "mornings")];
    let r = price_energy(&rows, &mornings, &HolidaySet::new());
    assert_eq!(r.err(), Some(PricingError::NoTariff(NoMatchingTariff { day: 0, minute: 720 })));
}
