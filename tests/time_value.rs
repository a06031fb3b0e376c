use corp_finance_core::{
    calculate_irr, calculate_moic, calculate_npv, calculate_xirr, moic_to_irr_approx, CalendarDate,
    Dec, FinanceError,
};
use rust_decimal::Decimal;

fn d(mantissa: i64, scale: u32) -> Dec {
    Dec::new(mantissa, scale)
}

fn to_rd(x: Dec) -> Decimal {
    Decimal::from_i128_with_scale(x.mantissa(), x.scale())
}

fn from_rd(x: Decimal) -> Dec {
    Dec::from_i128_with_scale(x.mantissa(), x.scale()).unwrap()
}

fn rd(mantissa: i64, scale: u32) -> Decimal {
    Decimal::new(mantissa, scale)
}

fn date(year: i32, month: u32, day: u32) -> CalendarDate {
    CalendarDate::from_ymd_opt(year, month, day).unwrap()
}

#[test]
fn test_npv() {
    let cash_flows = vec![d(-100, 0), d(50, 0), d(50, 0), d(50, 0)];
    let npv = calculate_npv(&cash_flows, d(10, 0)).unwrap();

    // NPV at 10% is about 24.34
    assert!((to_rd(npv) - rd(2434, 2)).abs() < rd(1, 0));
}

#[test]
fn test_irr_simple() {
    // invest 100, get 110 after one year
    let cash_flows = vec![d(-100, 0), d(110, 0)];
    let irr = calculate_irr(&cash_flows, d(10, 0)).unwrap();

    assert!((to_rd(irr) - rd(10, 0)).abs() < rd(1, 1));
}

#[test]
fn test_irr_complex() {
    let cash_flows = vec![d(-1000, 0), d(300, 0), d(300, 0), d(300, 0), d(500, 0)];
    let irr = calculate_irr(&cash_flows, d(15, 0)).unwrap();

    assert!(to_rd(irr) > rd(10, 0) && to_rd(irr) < rd(25, 0));

    let npv_at_irr = calculate_npv(&cash_flows, irr).unwrap();
    assert!(to_rd(npv_at_irr).abs() < rd(1, 0));
}

#[test]
fn test_moic() {
    let moic = calculate_moic(d(100, 0), d(250, 0)).unwrap();
    assert_eq!(to_rd(moic), rd(25, 1));
}

#[test]
fn test_moic_to_irr_approx() {
    // (2.5 - 1) / 5 * 100 = 30
    let irr_approx = moic_to_irr_approx(d(25, 1), d(5, 0)).unwrap();

    assert!((to_rd(irr_approx) - rd(30, 0)).abs() < rd(1, 0));
}

#[test]
fn test_xirr() {
    let dates = vec![date(2020, 1, 1), date(2020, 7, 1), date(2021, 1, 1), date(2022, 1, 1)];
    let cash_flows = vec![d(-1000, 0), d(200, 0), d(300, 0), d(800, 0)];

    let xirr = calculate_xirr(&cash_flows, &dates, d(15, 0));

    assert!(xirr.is_ok());
    let xirr_val = to_rd(xirr.unwrap());

    assert!(xirr_val > rd(0, 0));
    assert!(xirr_val < rd(50, 0));
}

#[test]
fn npv_exact_value_at_ten_percent() {
    // -100 + 110 / 1.1 = 0
    let npv = calculate_npv(&[d(-100, 0), d(110, 0)], d(10, 0)).unwrap();
    assert_eq!(to_rd(npv), rd(0, 0));
    // 121 / 1.1 / 1.1 = 100
    let npv = calculate_npv(&[d(0, 0), d(0, 0), d(121, 0)], d(10, 0)).unwrap();
    assert_eq!(to_rd(npv), rd(100, 0));
}

#[test]
fn npv_of_no_flows_is_zero() {
    let npv = calculate_npv(&[], d(10, 0)).unwrap();
    assert_eq!(to_rd(npv), rd(0, 0));
}

#[test]
fn npv_at_zero_rate_is_the_plain_sum() {
    let npv = calculate_npv(&[d(-100, 0), d(30, 0), d(45, 1)], d(0, 0)).unwrap();
    assert_eq!(to_rd(npv), rd(-655, 1));
}

#[test]
fn npv_at_minus_hundred_percent_is_a_calculation_error() {
    // the discount base 1 + rate / 100 is zero
    let result = calculate_npv(&[d(-100, 0), d(110, 0)], d(-100, 0));
    assert!(matches!(result, Err(FinanceError::CalculationError(_))));
}

#[test]
fn irr_of_no_flows_is_invalid_input() {
    let result = calculate_irr(&[], d(10, 0));
    assert!(matches!(result, Err(FinanceError::InvalidInput(_))));
}

#[test]
fn irr_round_trips_through_npv() {
    let cash_flows = vec![d(-100, 0), d(110, 0)];
    let irr = calculate_irr(&cash_flows, d(10, 0)).unwrap();
    assert!((to_rd(irr) - rd(10, 0)).abs() < rd(1, 2));
    let npv = calculate_npv(&cash_flows, irr).unwrap();
    assert!(to_rd(npv).abs() < rd(1, 0));
}

#[test]
fn irr_of_a_single_flow_has_a_flat_slope() {
    // one flow: the NPV does not depend on the rate
    let result = calculate_irr(&[d(-100, 0)], d(10, 0));
    assert!(matches!(result, Err(FinanceError::DerivativeTooSmall { .. })));
}

#[test]
fn xirr_length_mismatch_is_invalid_input() {
    let dates = vec![date(2020, 1, 1)];
    let result = calculate_xirr(&[d(-1000, 0), d(1100, 0)], &dates, d(10, 0));
    assert!(matches!(result, Err(FinanceError::InvalidInput(_))));
}

#[test]
fn xirr_of_no_flows_is_invalid_input() {
    let result = calculate_xirr(&[], &[], d(10, 0));
    assert!(matches!(result, Err(FinanceError::InvalidInput(_))));
}

#[test]
fn xirr_over_whole_year_matches_irr() {
    // 2021-01-01 is 366 days after 2020-01-01: 1.002 years
    let dates = vec![date(2020, 1, 1), date(2021, 1, 1)];
    let xirr = calculate_xirr(&[d(-100, 0), d(110, 0)], &dates, d(10, 0)).unwrap();
    assert!((to_rd(xirr) - rd(10, 0)).abs() < rd(5, 1));
}

#[test]
fn calendar_date_day_numbers() {
    assert_eq!(date(1, 1, 1).day_number, 1);
    assert_eq!(date(2021, 1, 1).days_since(&date(2020, 1, 1)), 366);
    assert_eq!(date(2020, 7, 1).days_since(&date(2020, 1, 1)), 182);
    assert!(CalendarDate::from_ymd_opt(2021, 2, 29).is_none());
    assert!(CalendarDate::from_ymd_opt(2020, 13, 1).is_none());
    assert!(CalendarDate::from_ymd_opt(2020, 1, 0).is_none());
}

#[test]
fn moic_zero_invested_is_invalid_input() {
    for returned in [d(0, 0), d(250, 0), d(-7, 1)] {
        let result = calculate_moic(d(0, 0), returned);
        assert!(matches!(result, Err(FinanceError::InvalidInput(_))));
    }
    let result = calculate_moic(d(0, 3), d(1, 0));
    assert!(matches!(result, Err(FinanceError::InvalidInput(_))));
}

#[test]
fn moic_negative_invested_counts_by_magnitude() {
    let moic = calculate_moic(d(-100, 0), d(250, 0)).unwrap();
    assert_eq!(to_rd(moic), rd(25, 1));
}

#[test]
fn moic_quotient_overflow_is_a_calculation_error() {
    let result = calculate_moic(d(1, 28), from_rd(Decimal::MAX));
    assert!(matches!(result, Err(FinanceError::CalculationError(_))));
}

#[test]
fn moic_to_irr_refuses_non_positive_inputs() {
    assert!(matches!(moic_to_irr_approx(d(2, 0), d(0, 0)), Err(FinanceError::InvalidInput(_))));
    assert!(matches!(moic_to_irr_approx(d(2, 0), d(-1, 0)), Err(FinanceError::InvalidInput(_))));
    assert!(matches!(moic_to_irr_approx(d(0, 0), d(5, 0)), Err(FinanceError::InvalidInput(_))));
    assert!(matches!(moic_to_irr_approx(d(-2, 0), d(5, 0)), Err(FinanceError::InvalidInput(_))));
}

#[test]
fn moic_to_irr_exact_value() {
    let irr = moic_to_irr_approx(d(25, 1), d(5, 0)).unwrap();
    assert_eq!(to_rd(irr), rd(30, 0));
}

#[test]
fn decimal_arithmetic_calls_through() {
    let a = d(15, 1);
    let b = d(25, 2);
    assert_eq!(to_rd(a.checked_add(&b).unwrap()), rd(175, 2));
    assert_eq!(to_rd(a.checked_sub(&b).unwrap()), rd(125, 2));
    assert_eq!(to_rd(a.checked_mul(&b).unwrap()), rd(375, 3));
    assert_eq!(to_rd(a.checked_div(&b).unwrap()), rd(6, 0));
    assert!(a.checked_div(&d(0, 0)).is_none());
    assert!(from_rd(Decimal::MAX).checked_add(&d(1, 0)).is_none());
    assert!(b.lt(&a));
    assert!(!a.lt(&b));
    assert!(!d(10, 1).lt(&d(1, 0)));
    assert_eq!(to_rd(d(-3, 0).abs()), rd(3, 0));
    assert!(Dec::from_i128_with_scale(1, 29).is_none());
}
