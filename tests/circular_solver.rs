use std::cell::Cell;

use corp_finance_core::{
    solve_cash_interest_circular, solve_circular, solve_circular_newton, Dec, FinanceError,
    SolverMethod,
};
use rust_decimal::Decimal;

fn d(mantissa: i64, scale: u32) -> Dec {
    Dec::new(mantissa, scale)
}

fn to_rd(x: Dec) -> Decimal {
    Decimal::from_i128_with_scale(x.mantissa(), x.scale())
}

fn from_rd(x: Decimal) -> Dec {
    Dec::from_i128_with_scale(x.mantissa(), x.scale()).unwrap()
}

fn rd(mantissa: i64, scale: u32) -> Decimal {
    Decimal::new(mantissa, scale)
}

#[test]
fn test_simple_circular() {
    // x = (x + 10) / 2 has the fixed point 10
    let result = solve_circular(
        d(0, 0),
        |x| from_rd((to_rd(x) + rd(10, 0)) / rd(2, 0)),
        d(1, 4),
        100,
    )
    .unwrap();

    assert!((to_rd(result) - rd(10, 0)).abs() < rd(1, 2));
}

#[test]
fn test_circular_no_convergence() {
    // oscillates between 1 and 0
    let result = solve_circular(d(1, 0), |x| from_rd(-to_rd(x) + rd(1, 0)), d(1, 4), 10);

    assert!(result.is_err());
}

#[test]
fn test_cash_interest_circular() {
    // 500 debt at 10% = 50 interest; cash = 100 + 200 - interest
    let result = solve_cash_interest_circular(
        d(100, 0),
        |interest_expense| {
            let starting_cash = rd(100, 0);
            let cash_flow_from_ops = rd(200, 0);
            from_rd(starting_cash + cash_flow_from_ops - to_rd(interest_expense))
        },
        d(10, 0),
        d(500, 0),
        d(1, 2),
    )
    .unwrap();

    assert!((to_rd(result) - rd(250, 0)).abs() < rd(1, 0));
}

#[test]
fn test_newton_raphson() {
    // x^2 - 4 = 0 has the root 2
    let result = solve_circular_newton(
        d(1, 0),
        |x| from_rd(to_rd(x) * to_rd(x) - rd(4, 0)),
        |x| from_rd(rd(2, 0) * to_rd(x)),
        d(1, 4),
        20,
    )
    .unwrap();

    assert!((to_rd(result) - rd(2, 0)).abs() < rd(1, 2));
}

#[test]
fn test_newton_raphson_faster_convergence() {
    let mut iterations_simple = 0;

    let mut current = rd(10, 0);
    let target = rd(2, 0);
    while (current - target).abs() > rd(1, 4) && iterations_simple < 100 {
        current = (current + target * target / current) / rd(2, 0);
        iterations_simple += 1;
    }
    assert!(iterations_simple > 0);

    let result = solve_circular_newton(
        d(10, 0),
        |x| from_rd(to_rd(x) * to_rd(x) - rd(4, 0)),
        |x| from_rd(rd(2, 0) * to_rd(x)),
        d(1, 4),
        100,
    );

    assert!(result.is_ok());
}

#[test]
fn fixed_point_converges_to_ten_exactly_enough() {
    let result = solve_circular(
        d(0, 0),
        |x| from_rd((to_rd(x) + rd(10, 0)) / rd(2, 0)),
        d(1, 4),
        100,
    )
    .unwrap();
    assert!((to_rd(result) - rd(10, 0)).abs() < rd(1, 4));
}

#[test]
fn fixed_point_oscillation_reports_exhaustion() {
    let result = solve_circular(d(1, 0), |x| from_rd(-to_rd(x) + rd(1, 0)), d(1, 4), 10);
    match result {
        Err(FinanceError::NotConverged { method, iterations, tolerance }) => {
            assert_eq!(method, SolverMethod::FixedPoint);
            assert_eq!(iterations, 10);
            assert_eq!(to_rd(tolerance), rd(1, 4));
        }
        other => panic!("unexpected {:?}", other),
    }
}

#[test]
fn fixed_point_zero_iterations_fails_without_calling() {
    let calls = Cell::new(0usize);
    let result = solve_circular(
        d(5, 0),
        |x| {
            calls.set(calls.get() + 1);
            x
        },
        d(1, 4),
        0,
    );
    assert!(matches!(
        result,
        Err(FinanceError::NotConverged { method: SolverMethod::FixedPoint, iterations: 0, .. })
    ));
    assert_eq!(calls.get(), 0);
}

#[test]
fn newton_converges_from_one_in_under_twenty_rounds() {
    let calls = Cell::new(0usize);
    let result = solve_circular_newton(
        d(1, 0),
        |x| {
            calls.set(calls.get() + 1);
            from_rd(to_rd(x) * to_rd(x) - rd(4, 0))
        },
        |x| from_rd(rd(2, 0) * to_rd(x)),
        d(1, 4),
        20,
    )
    .unwrap();
    assert!((to_rd(result) - rd(2, 0)).abs() < rd(1, 4));
    assert!(calls.get() < 20);
}

#[test]
fn newton_needs_fewer_rounds_than_fixed_point() {
    let newton_calls = Cell::new(0usize);
    let newton = solve_circular_newton(
        d(10, 0),
        |x| {
            newton_calls.set(newton_calls.get() + 1);
            from_rd(to_rd(x) * to_rd(x) - rd(4, 0))
        },
        |x| from_rd(rd(2, 0) * to_rd(x)),
        d(1, 4),
        100,
    )
    .unwrap();
    assert!((to_rd(newton) - rd(2, 0)).abs() < rd(1, 3));

    // x = x - (x^2 - 4) / 20 has the same root, and converges linearly
    let fixed_calls = Cell::new(0usize);
    let fixed = solve_circular(
        d(10, 0),
        |x| {
            fixed_calls.set(fixed_calls.get() + 1);
            from_rd(to_rd(x) - (to_rd(x) * to_rd(x) - rd(4, 0)) / rd(20, 0))
        },
        d(1, 4),
        1000,
    )
    .unwrap();
    assert!((to_rd(fixed) - rd(2, 0)).abs() < rd(1, 2));
    assert!(newton_calls.get() < fixed_calls.get());
}

#[test]
fn newton_flat_slope_fails_at_once() {
    let calls = Cell::new(0usize);
    let result = solve_circular_newton(
        d(3, 0),
        |x| {
            calls.set(calls.get() + 1);
            x
        },
        |_| d(5, 8),
        d(1, 4),
        1,
    );
    match result {
        Err(FinanceError::DerivativeTooSmall { estimate, derivative }) => {
            assert_eq!(to_rd(estimate), rd(3, 0));
            assert_eq!(to_rd(derivative), rd(5, 8));
        }
        other => panic!("unexpected {:?}", other),
    }
    assert_eq!(calls.get(), 1);
}

#[test]
fn newton_slope_at_guard_is_accepted() {
    // a slope of exactly 0.0000001 is not below the guard
    let result = solve_circular_newton(d(0, 0), |_| d(0, 0), |_| d(1, 7), d(1, 4), 5);
    assert_eq!(to_rd(result.unwrap()), rd(0, 0));
}

#[test]
fn newton_exhaustion_names_the_method() {
    // x^2 + 1 has no real root
    let result = solve_circular_newton(
        d(3, 0),
        |x| from_rd(to_rd(x) * to_rd(x) + rd(1, 0)),
        |x| from_rd(rd(2, 0) * to_rd(x)),
        d(1, 4),
        3,
    );
    assert!(matches!(
        result,
        Err(FinanceError::NotConverged { method: SolverMethod::NewtonRaphson, iterations: 3, .. })
    ));
}

#[test]
fn newton_step_overflow_is_a_calculation_error() {
    let result = solve_circular_newton(
        d(0, 0),
        |_| from_rd(Decimal::MAX),
        |_| d(1, 6),
        d(1, 4),
        5,
    );
    assert!(matches!(result, Err(FinanceError::CalculationError(_))));
}

#[test]
fn cash_interest_uses_fixed_interest_on_debt() {
    // interest = 1000 * 5 / 100 = 50, so cash settles at 1000 - 50
    let seen = Cell::new(Decimal::ZERO);
    let result = solve_cash_interest_circular(
        d(0, 0),
        |interest| {
            seen.set(to_rd(interest));
            from_rd(rd(1000, 0) - to_rd(interest))
        },
        d(5, 0),
        d(1000, 0),
        d(1, 2),
    )
    .unwrap();
    assert_eq!(seen.get(), rd(50, 0));
    assert_eq!(to_rd(result), rd(950, 0));
}

#[test]
fn cash_interest_overflow_is_a_calculation_error() {
    let big = from_rd(Decimal::MAX);
    let result = solve_cash_interest_circular(d(0, 0), |i| i, big, big, d(1, 2));
    assert!(matches!(result, Err(FinanceError::CalculationError(_))));
}
