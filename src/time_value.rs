use vstd::prelude::*;

use crate::circular_solver::{
    derivative_guard, hundred, lemma_newton_result_is_short_step, newton_next, newton_run,
    newton_solve, outcome_rel,
};
use crate::date::CalendarDate;
use crate::decimal::{
    decimal_difference, decimal_product, decimal_quotient, decimal_sum, pow10, Dec, MAX_SCALE,
};
use crate::error::{invalid_input, overflow_error, FinanceError, Result};

verus! {

pub open spec fn all_wf(s: Seq<Dec>) -> bool {
    forall|i: int| 0 <= i < s.len() ==> #[trigger] s[i].wf()
}

pub open spec fn one() -> Dec {
    Dec { mantissa: 1, scale: 0 }
}

pub open spec fn zero() -> Dec {
    Dec { mantissa: 0, scale: 0 }
}

/// The tolerance of the IRR and XIRR searches: 0.0001 percentage points.
pub open spec fn irr_tolerance() -> Dec {
    Dec { mantissa: 1, scale: 4 }
}

/// `1 + rate / 100` for a rate in percent.
pub open spec fn growth_base(rate_pct: Dec) -> Option<Dec> {
    match decimal_quotient(rate_pct, hundred()) {
        None => None,
        Some(r) => decimal_sum(one(), r),
    }
}

/// `1 / base^k`, by `k` successive divisions of 1 by `base`.
pub open spec fn discount_factor(base: Dec, k: nat) -> Option<Dec>
    decreases k,
{
    if k == 0 {
        Some(one())
    } else {
        match discount_factor(base, (k - 1) as nat) {
            None => None,
            Some(d) => decimal_quotient(d, base),
        }
    }
}

/// The present value of cash flow `cf` of period `k`.
pub open spec fn npv_term(cf: Dec, base: Dec, k: nat) -> Option<Dec> {
    match discount_factor(base, k) {
        None => None,
        Some(d) => decimal_product(cf, d),
    }
}

/// The sum, from zero, of the present values of the first `n` cash flows.
pub open spec fn npv_partial(cfs: Seq<Dec>, base: Dec, n: nat) -> Option<Dec>
    decreases n,
{
    if n == 0 {
        Some(zero())
    } else {
        match npv_partial(cfs, base, (n - 1) as nat) {
            None => None,
            Some(acc) => match npv_term(cfs[n - 1], base, (n - 1) as nat) {
                None => None,
                Some(t) => decimal_sum(acc, t),
            },
        }
    }
}

/// The net present value of `cfs` at `rate_pct` percent per period
/// (`None`: the decimal arithmetic overflowed or divided by zero).
pub open spec fn npv_value(cfs: Seq<Dec>, rate_pct: Dec) -> Option<Dec> {
    match growth_base(rate_pct) {
        None => None,
        Some(b) => npv_partial(cfs, b, cfs.len()),
    }
}

/// The term `-k * cf * discount / base / 100` of the slope of the NPV.
pub open spec fn slope_term(cf: Dec, base: Dec, k: nat) -> Option<Dec> {
    match discount_factor(base, k) {
        None => None,
        Some(d) => match decimal_product(Dec::from_int_spec(-k), cf) {
            None => None,
            Some(p) => match decimal_product(p, d) {
                None => None,
                Some(q) => match decimal_quotient(q, base) {
                    None => None,
                    Some(u) => decimal_quotient(u, hundred()),
                },
            },
        },
    }
}

/// The sum, from zero, of the slope terms of periods 1 to `n - 1`.
pub open spec fn slope_partial(cfs: Seq<Dec>, base: Dec, n: nat) -> Option<Dec>
    decreases n,
{
    if n <= 1 {
        Some(zero())
    } else {
        match slope_partial(cfs, base, (n - 1) as nat) {
            None => None,
            Some(acc) => match slope_term(cfs[n - 1], base, (n - 1) as nat) {
                None => None,
                Some(t) => decimal_sum(acc, t),
            },
        }
    }
}

/// The derivative of the NPV with respect to the rate in percent.
pub open spec fn npv_slope(cfs: Seq<Dec>, rate_pct: Dec) -> Option<Dec> {
    match growth_base(rate_pct) {
        None => None,
        Some(b) => slope_partial(cfs, b, cfs.len()),
    }
}

pub open spec fn npv_rel(cfs: Seq<Dec>) -> spec_fn(Dec, Option<Dec>) -> bool {
    |x: Dec, o: Option<Dec>| o == npv_value(cfs, x)
}

pub open spec fn npv_slope_rel(cfs: Seq<Dec>) -> spec_fn(Dec, Option<Dec>) -> bool {
    |x: Dec, o: Option<Dec>| o == npv_slope(cfs, x)
}

/// 365.25 days to the year.
pub open spec fn days_per_year() -> Dec {
    Dec { mantissa: 36525, scale: 2 }
}

/// The year count of `days` days.
pub open spec fn year_count(days: int) -> Option<Dec> {
    decimal_quotient(Dec::from_int_spec(days), days_per_year())
}

/// The whole years of a positive year count, or 0 where they do not fit in 64 bits.
pub open spec fn whole_years_spec(y: Dec) -> int {
    let f = (y.mantissa as int) / pow10(y.scale as nat);
    if f <= i64::MAX {
        f
    } else {
        0
    }
}

/// The discount factor of a positive year count: whole years compound, the
/// remaining fraction of a year discounts linearly.
pub open spec fn xnpv_factor(rate_fraction: Dec, base: Dec, years: Dec) -> Option<Dec> {
    if years.mantissa <= 0 {
        Some(one())
    } else {
        let n = whole_years_spec(years);
        match discount_factor(base, n as nat) {
            None => None,
            Some(d) => match decimal_difference(years, Dec::from_int_spec(n)) {
                None => None,
                Some(frac) => if frac.mantissa > 0 {
                    match decimal_product(rate_fraction, frac) {
                        None => None,
                        Some(p) => match decimal_sum(one(), p) {
                            None => None,
                            Some(q) => decimal_quotient(d, q),
                        },
                    }
                } else {
                    Some(d)
                },
            },
        }
    }
}

/// The present value of cash flow `cf` paid `days` days after the first date.
pub open spec fn xnpv_term(cf: Dec, days: int, rate_fraction: Dec, base: Dec) -> Option<Dec> {
    match year_count(days) {
        None => None,
        Some(y) => match xnpv_factor(rate_fraction, base, y) {
            None => None,
            Some(f) => decimal_product(cf, f),
        },
    }
}

pub open spec fn xnpv_partial(
    cfs: Seq<Dec>,
    dates: Seq<CalendarDate>,
    rate_fraction: Dec,
    base: Dec,
    n: nat,
) -> Option<Dec>
    decreases n,
{
    if n == 0 {
        Some(zero())
    } else {
        match xnpv_partial(cfs, dates, rate_fraction, base, (n - 1) as nat) {
            None => None,
            Some(acc) => match xnpv_term(
                cfs[n - 1],
                dates[n - 1].day_number - dates[0].day_number,
                rate_fraction,
                base,
            ) {
                None => None,
                Some(t) => decimal_sum(acc, t),
            },
        }
    }
}

/// The net present value of flows on irregular dates, at `rate_pct` percent a year.
pub open spec fn xnpv_value(cfs: Seq<Dec>, dates: Seq<CalendarDate>, rate_pct: Dec) -> Option<Dec> {
    match decimal_quotient(rate_pct, hundred()) {
        None => None,
        Some(rf) => match decimal_sum(one(), rf) {
            None => None,
            Some(b) => xnpv_partial(cfs, dates, rf, b, cfs.len()),
        },
    }
}

/// The step of the central difference: 0.01 percentage points.
pub open spec fn xnpv_delta() -> Dec {
    Dec { mantissa: 1, scale: 2 }
}

/// The central difference `(xnpv(rate + 0.01) - xnpv(rate - 0.01)) / 0.02`.
pub open spec fn xnpv_slope(cfs: Seq<Dec>, dates: Seq<CalendarDate>, rate_pct: Dec) -> Option<Dec> {
    match decimal_sum(rate_pct, xnpv_delta()) {
        None => None,
        Some(up) => match xnpv_value(cfs, dates, up) {
            None => None,
            Some(hi) => match decimal_difference(rate_pct, xnpv_delta()) {
                None => None,
                Some(down) => match xnpv_value(cfs, dates, down) {
                    None => None,
                    Some(lo) => match decimal_difference(hi, lo) {
                        None => None,
                        Some(d) => decimal_quotient(d, Dec { mantissa: 2, scale: 2 }),
                    },
                },
            },
        },
    }
}

pub open spec fn xnpv_rel(cfs: Seq<Dec>, dates: Seq<CalendarDate>) -> spec_fn(
    Dec,
    Option<Dec>,
) -> bool {
    |x: Dec, o: Option<Dec>| o == xnpv_value(cfs, dates, x)
}

pub open spec fn xnpv_slope_rel(cfs: Seq<Dec>, dates: Seq<CalendarDate>) -> spec_fn(
    Dec,
    Option<Dec>,
) -> bool {
    |x: Dec, o: Option<Dec>| o == xnpv_slope(cfs, dates, x)
}

proof fn lemma_discount_stuck(base: Dec, i: nat, k: nat)
    requires
        i <= k,
        discount_factor(base, i) is None,
    ensures
        discount_factor(base, k) is None,
    decreases k - i,
{
    if i < k {
        lemma_discount_stuck(base, i + 1, k);
    }
}

proof fn lemma_npv_partial_stuck(cfs: Seq<Dec>, base: Dec, i: nat, k: nat)
    requires
        i <= k,
        npv_partial(cfs, base, i) is None,
    ensures
        npv_partial(cfs, base, k) is None,
    decreases k - i,
{
    if i < k {
        lemma_npv_partial_stuck(cfs, base, i + 1, k);
    }
}

proof fn lemma_slope_partial_stuck(cfs: Seq<Dec>, base: Dec, i: nat, k: nat)
    requires
        i <= k,
        slope_partial(cfs, base, i) is None,
    ensures
        slope_partial(cfs, base, k) is None,
    decreases k - i,
{
    if i < k {
        lemma_slope_partial_stuck(cfs, base, i + 1, k);
    }
}

proof fn lemma_xnpv_partial_stuck(
    cfs: Seq<Dec>,
    dates: Seq<CalendarDate>,
    rf: Dec,
    base: Dec,
    i: nat,
    k: nat,
)
    requires
        i <= k,
        xnpv_partial(cfs, dates, rf, base, i) is None,
    ensures
        xnpv_partial(cfs, dates, rf, base, k) is None,
    decreases k - i,
{
    if i < k {
        lemma_xnpv_partial_stuck(cfs, dates, rf, base, i + 1, k);
    }
}

fn growth_base_of(rate_pct: Dec) -> (r: Option<Dec>)
    requires
        rate_pct.wf(),
    ensures
        r == growth_base(rate_pct),
        r is Some ==> r->0.wf(),
{
    match rate_pct.checked_div(&Dec::new(100, 0)) {
        None => None,
        Some(r) => Dec::one().checked_add(&r),
    }
}

/// `1 / base^k` by `k` successive divisions.
fn discount_by(base: Dec, k: u64) -> (r: Option<Dec>)
    requires
        base.wf(),
    ensures
        r == discount_factor(base, k as nat),
        r is Some ==> r->0.wf(),
{
    let mut d = Dec::one();
    let mut i: u64 = 0;
    while i < k
        invariant
            i <= k,
            base.wf(),
            d.wf(),
            discount_factor(base, i as nat) == Some(d),
        decreases k - i,
    {
        d = match d.checked_div(&base) {
            Some(v) => v,
            None => {
                proof {
                    lemma_discount_stuck(base, (i + 1) as nat, k as nat);
                }
                return None;
            },
        };
        i += 1;
    }
    Some(d)
}

fn npv_with_base(cash_flows: &[Dec], base: Dec) -> (r: Option<Dec>)
    requires
        base.wf(),
        all_wf(cash_flows@),
    ensures
        r == npv_partial(cash_flows@, base, cash_flows@.len()),
        r is Some ==> r->0.wf(),
{
    let n = cash_flows.len();
    let mut acc = Dec::zero();
    let mut k: usize = 0;
    while k < n
        invariant
            n == cash_flows@.len(),
            k <= n,
            base.wf(),
            acc.wf(),
            all_wf(cash_flows@),
            npv_partial(cash_flows@, base, k as nat) == Some(acc),
        decreases n - k,
    {
        let term = match discount_by(base, k as u64) {
            None => None,
            Some(d) => cash_flows[k].checked_mul(&d),
        };
        let next = match term {
            None => None,
            Some(t) => acc.checked_add(&t),
        };
        match next {
            Some(v) => acc = v,
            None => {
                proof {
                    lemma_npv_partial_stuck(cash_flows@, base, (k + 1) as nat, n as nat);
                }
                return None;
            },
        }
        k += 1;
    }
    Some(acc)
}

fn npv_at(cash_flows: &[Dec], rate_pct: Dec) -> (r: Option<Dec>)
    requires
        rate_pct.wf(),
        all_wf(cash_flows@),
    ensures
        r == npv_value(cash_flows@, rate_pct),
        r is Some ==> r->0.wf(),
{
    match growth_base_of(rate_pct) {
        None => None,
        Some(b) => npv_with_base(cash_flows, b),
    }
}

fn npv_slope_at(cash_flows: &[Dec], rate_pct: Dec) -> (r: Option<Dec>)
    requires
        rate_pct.wf(),
        all_wf(cash_flows@),
    ensures
        r == npv_slope(cash_flows@, rate_pct),
        r is Some ==> r->0.wf(),
{
    let base = match growth_base_of(rate_pct) {
        None => return None,
        Some(b) => b,
    };
    let n = cash_flows.len();
    let mut acc = Dec::zero();
    if n <= 1 {
        return Some(acc);
    }
    let mut k: usize = 1;
    while k < n
        invariant
            n == cash_flows@.len(),
            1 <= k <= n,
            growth_base(rate_pct) == Some(base),
            base.wf(),
            acc.wf(),
            all_wf(cash_flows@),
            slope_partial(cash_flows@, base, k as nat) == Some(acc),
        decreases n - k,
    {
        let period = Dec { mantissa: -(k as i128), scale: 0 };
        let term = match discount_by(base, k as u64) {
            None => None,
            Some(d) => match period.checked_mul(&cash_flows[k]) {
                None => None,
                Some(p) => match p.checked_mul(&d) {
                    None => None,
                    Some(q) => match q.checked_div(&base) {
                        None => None,
                        Some(u) => u.checked_div(&Dec::new(100, 0)),
                    },
                },
            },
        };
        let next = match term {
            None => None,
            Some(t) => acc.checked_add(&t),
        };
        match next {
            Some(v) => acc = v,
            None => {
                proof {
                    assert(slope_term(cash_flows@[k as int], base, k as nat) == term);
                    assert(slope_partial(cash_flows@, base, (k + 1) as nat) is None);
                    lemma_slope_partial_stuck(cash_flows@, base, (k + 1) as nat, n as nat);
                }
                return None;
            },
        }
        k += 1;
    }
    Some(acc)
}

/// Net present value of `cash_flows` at `discount_rate` percent per period:
/// the flow of period `k` is divided `k` times by `1 + rate / 100`, and the
/// results are summed. Fails only where the decimal arithmetic overflows or
/// divides by zero.
pub fn calculate_npv(cash_flows: &[Dec], discount_rate: Dec) -> (r: Result<Dec>)
    requires
        discount_rate.wf(),
        all_wf(cash_flows@),
    ensures
        npv_value(cash_flows@, discount_rate) is Some ==> r == Ok::<Dec, FinanceError>(
            npv_value(cash_flows@, discount_rate)->0,
        ),
        npv_value(cash_flows@, discount_rate) is None ==> r matches Err(
            FinanceError::CalculationError(_),
        ),
{
    match npv_at(cash_flows, discount_rate) {
        Some(v) => Ok(v),
        None => Err(overflow_error()),
    }
}

/// Internal rate of return in percent: the rate at which the NPV of
/// `cash_flows` is zero, found by Newton-Raphson from `initial_guess` with
/// the analytic slope, tolerance 0.0001 and at most 100 rounds.
pub fn calculate_irr(cash_flows: &[Dec], initial_guess: Dec) -> (r: Result<Dec>)
    requires
        initial_guess.wf(),
        all_wf(cash_flows@),
    ensures
        cash_flows@.len() == 0 ==> r matches Err(FinanceError::InvalidInput(_)),
        cash_flows@.len() > 0 ==> newton_run(
            npv_rel(cash_flows@),
            npv_slope_rel(cash_flows@),
            initial_guess,
            irr_tolerance(),
            100,
            100,
            r,
        ),
{
    if cash_flows.len() == 0 {
        return Err(invalid_input("cash flows cannot be empty"));
    }
    let npv_fn = |rate: Dec| -> (o: Option<Dec>)
        requires
            rate.wf(),
            all_wf(cash_flows@),
        ensures
            o == npv_value(cash_flows@, rate),
            o is Some ==> o->0.wf(),
        { npv_at(cash_flows, rate) };
    let slope_fn = |rate: Dec| -> (o: Option<Dec>)
        requires
            rate.wf(),
            all_wf(cash_flows@),
        ensures
            o == npv_slope(cash_flows@, rate),
            o is Some ==> o->0.wf(),
        { npv_slope_at(cash_flows, rate) };
    let r = newton_solve(initial_guess, npv_fn, slope_fn, Dec::new(1, 4), 100);
    proof {
        crate::circular_solver::lemma_newton_run_widen(
            outcome_rel(npv_fn),
            outcome_rel(slope_fn),
            npv_rel(cash_flows@),
            npv_slope_rel(cash_flows@),
            initial_guess,
            irr_tolerance(),
            100,
            100,
            r,
        );
    }
    r
}

/// A converged IRR `y` is one Newton step, shorter than 0.0001, from some
/// rate `z` at which the NPV and its slope are defined, the slope is not below
/// the guard, and `y == z - npv(z) / slope(z)`.
pub proof fn lemma_irr_is_short_step_from_npv(cfs: Seq<Dec>, initial_guess: Dec, y: Dec)
    requires
        newton_run(
            npv_rel(cfs),
            npv_slope_rel(cfs),
            initial_guess,
            irr_tolerance(),
            100,
            100,
            Ok(y),
        ),
    ensures
        exists|z: Dec|
            #![trigger npv_value(cfs, z)]
            npv_value(cfs, z) is Some && npv_slope(cfs, z) is Some && !npv_slope(
                cfs,
                z,
            )->0.abs_spec().lt_spec(derivative_guard()) && newton_next(
                z,
                npv_value(cfs, z)->0,
                npv_slope(cfs, z)->0,
            ) == Some(y) && decimal_difference(y, z) is Some && decimal_difference(
                y,
                z,
            )->0.abs_spec().lt_spec(irr_tolerance()),
{
    lemma_newton_result_is_short_step(
        npv_rel(cfs),
        npv_slope_rel(cfs),
        initial_guess,
        irr_tolerance(),
        100,
        100,
        y,
    );
    let (z, fz, dz) = choose|z: Dec, fz: Dec, dz: Dec|
        #![trigger npv_rel(cfs)(z, Some(fz)), npv_slope_rel(cfs)(z, Some(dz))]
        npv_rel(cfs)(z, Some(fz)) && npv_slope_rel(cfs)(z, Some(dz)) && !dz.abs_spec().lt_spec(
            derivative_guard(),
        ) && newton_next(z, fz, dz) == Some(y) && decimal_difference(y, z) is Some
            && decimal_difference(y, z)->0.abs_spec().lt_spec(irr_tolerance());
    assert(npv_value(cfs, z) == Some(fz));
}

/// `10^s` for a scale `s` of at most 28.
fn pow10_of(s: u32) -> (r: i128)
    requires
        s <= MAX_SCALE,
    ensures
        r == pow10(s as nat),
{
    proof {
        reveal_with_fuel(pow10, 29);
    }
    assert(pow10(28) == 10000000000000000000000000000);
    let mut r: i128 = 1;
    let mut i: u32 = 0;
    while i < s
        invariant
            i <= s <= MAX_SCALE,
            r == pow10(i as nat),
            pow10(i as nat) <= pow10(28),
            pow10(28) == 10000000000000000000000000000,
        decreases s - i,
    {
        proof {
            lemma_pow10_monotone((i + 1) as nat, 28);
            assert(pow10((i + 1) as nat) == 10 * pow10(i as nat));
            crate::decimal::lemma_pow10_positive(i as nat);
        }
        r = r * 10;
        i += 1;
    }
    r
}

proof fn lemma_pow10_monotone(i: nat, j: nat)
    requires
        i <= j,
    ensures
        pow10(i) <= pow10(j),
    decreases j - i,
{
    if i < j {
        lemma_pow10_monotone(i, (j - 1) as nat);
        crate::decimal::lemma_pow10_positive((j - 1) as nat);
    }
}

/// The whole years of a positive year count, 0 where they exceed 64 bits.
fn whole_years(y: Dec) -> (r: i64)
    requires
        y.wf(),
        y.mantissa > 0,
    ensures
        r == whole_years_spec(y),
        r >= 0,
{
    let p = pow10_of(y.scale);
    proof {
        crate::decimal::lemma_pow10_positive(y.scale as nat);
    }
    let f = y.mantissa / p;
    if f <= i64::MAX as i128 {
        f as i64
    } else {
        0
    }
}

fn xnpv_factor_of(rate_fraction: Dec, base: Dec, years: Dec) -> (r: Option<Dec>)
    requires
        rate_fraction.wf(),
        base.wf(),
        years.wf(),
    ensures
        r == xnpv_factor(rate_fraction, base, years),
        r is Some ==> r->0.wf(),
{
    if years.mantissa <= 0 {
        return Some(Dec::one());
    }
    let n = whole_years(years);
    let d = match discount_by(base, n as u64) {
        Some(d) => d,
        None => return None,
    };
    let frac = match years.checked_sub(&Dec::from_i64(n)) {
        Some(f) => f,
        None => return None,
    };
    if frac.mantissa > 0 {
        match rate_fraction.checked_mul(&frac) {
            None => None,
            Some(p) => match Dec::one().checked_add(&p) {
                None => None,
                Some(q) => d.checked_div(&q),
            },
        }
    } else {
        Some(d)
    }
}

fn xnpv_at(cash_flows: &[Dec], dates: &[CalendarDate], rate_pct: Dec) -> (r: Option<Dec>)
    requires
        rate_pct.wf(),
        all_wf(cash_flows@),
        cash_flows@.len() == dates@.len(),
        dates@.len() > 0,
    ensures
        r == xnpv_value(cash_flows@, dates@, rate_pct),
        r is Some ==> r->0.wf(),
{
    let rf = match rate_pct.checked_div(&Dec::new(100, 0)) {
        Some(v) => v,
        None => return None,
    };
    let base = match Dec::one().checked_add(&rf) {
        Some(v) => v,
        None => return None,
    };
    let n = cash_flows.len();
    let first = dates[0];
    let mut acc = Dec::zero();
    let mut k: usize = 0;
    while k < n
        invariant
            n == cash_flows@.len(),
            n == dates@.len(),
            n > 0,
            first == dates@[0],
            k <= n,
            decimal_quotient(rate_pct, hundred()) == Some(rf),
            decimal_sum(one(), rf) == Some(base),
            rf.wf(),
            base.wf(),
            acc.wf(),
            all_wf(cash_flows@),
            xnpv_partial(cash_flows@, dates@, rf, base, k as nat) == Some(acc),
        decreases n - k,
    {
        let days = dates[k].days_since(&first);
        let term = match Dec::from_i64(days).checked_div(&Dec::new(36525, 2)) {
            None => None,
            Some(y) => match xnpv_factor_of(rf, base, y) {
                None => None,
                Some(f) => cash_flows[k].checked_mul(&f),
            },
        };
        let next = match term {
            None => None,
            Some(t) => acc.checked_add(&t),
        };
        match next {
            Some(v) => acc = v,
            None => {
                proof {
                    assert(xnpv_term(
                        cash_flows@[k as int],
                        dates@[k as int].day_number - dates@[0].day_number,
                        rf,
                        base,
                    ) == term);
                    assert(xnpv_partial(cash_flows@, dates@, rf, base, (k + 1) as nat) is None);
                    lemma_xnpv_partial_stuck(cash_flows@, dates@, rf, base, (k + 1) as nat, n as nat);
                }
                return None;
            },
        }
        k += 1;
    }
    Some(acc)
}

fn xnpv_slope_at(cash_flows: &[Dec], dates: &[CalendarDate], rate_pct: Dec) -> (r: Option<Dec>)
    requires
        rate_pct.wf(),
        all_wf(cash_flows@),
        cash_flows@.len() == dates@.len(),
        dates@.len() > 0,
    ensures
        r == xnpv_slope(cash_flows@, dates@, rate_pct),
        r is Some ==> r->0.wf(),
{
    let delta = Dec::new(1, 2);
    let up = match rate_pct.checked_add(&delta) {
        Some(v) => v,
        None => return None,
    };
    let hi = match xnpv_at(cash_flows, dates, up) {
        Some(v) => v,
        None => return None,
    };
    let down = match rate_pct.checked_sub(&delta) {
        Some(v) => v,
        None => return None,
    };
    let lo = match xnpv_at(cash_flows, dates, down) {
        Some(v) => v,
        None => return None,
    };
    match hi.checked_sub(&lo) {
        None => None,
        Some(d) => d.checked_div(&Dec::new(2, 2)),
    }
}

/// IRR of flows on irregular dates, in percent a year: the root of the
/// XNPV found by Newton-Raphson from `initial_guess`, with a central
/// difference for the slope, tolerance 0.0001 and at most 100 rounds.
/// `dates[0]` is the origin of the day count.
pub fn calculate_xirr(cash_flows: &[Dec], dates: &[CalendarDate], initial_guess: Dec) -> (r:
    Result<Dec>)
    requires
        initial_guess.wf(),
        all_wf(cash_flows@),
    ensures
        cash_flows@.len() != dates@.len() ==> r matches Err(FinanceError::InvalidInput(_)),
        dates@.len() == 0 ==> r matches Err(FinanceError::InvalidInput(_)),
        cash_flows@.len() == dates@.len() && dates@.len() > 0 ==> newton_run(
            xnpv_rel(cash_flows@, dates@),
            xnpv_slope_rel(cash_flows@, dates@),
            initial_guess,
            irr_tolerance(),
            100,
            100,
            r,
        ),
{
    if cash_flows.len() != dates.len() {
        return Err(invalid_input("cash flows and dates must have the same length"));
    }
    if dates.len() == 0 {
        return Err(invalid_input("dates cannot be empty"));
    }
    let xnpv_fn = |rate: Dec| -> (o: Option<Dec>)
        requires
            rate.wf(),
            all_wf(cash_flows@),
            cash_flows@.len() == dates@.len(),
            dates@.len() > 0,
        ensures
            o == xnpv_value(cash_flows@, dates@, rate),
            o is Some ==> o->0.wf(),
        { xnpv_at(cash_flows, dates, rate) };
    let slope_fn = |rate: Dec| -> (o: Option<Dec>)
        requires
            rate.wf(),
            all_wf(cash_flows@),
            cash_flows@.len() == dates@.len(),
            dates@.len() > 0,
        ensures
            o == xnpv_slope(cash_flows@, dates@, rate),
            o is Some ==> o->0.wf(),
        { xnpv_slope_at(cash_flows, dates, rate) };
    let r = newton_solve(initial_guess, xnpv_fn, slope_fn, Dec::new(1, 4), 100);
    proof {
        crate::circular_solver::lemma_newton_run_widen(
            outcome_rel(xnpv_fn),
            outcome_rel(slope_fn),
            xnpv_rel(cash_flows@, dates@),
            xnpv_slope_rel(cash_flows@, dates@),
            initial_guess,
            irr_tolerance(),
            100,
            100,
            r,
        );
    }
    r
}

/// Multiple on invested capital: `returned / |invested|`. A negative
/// `invested` counts by its magnitude; zero is refused.
pub fn calculate_moic(invested: Dec, returned: Dec) -> (r: Result<Dec>)
    requires
        invested.wf(),
        returned.wf(),
    ensures
        invested.is_zero_spec() ==> r matches Err(FinanceError::InvalidInput(_)),
        !invested.is_zero_spec() && decimal_quotient(returned, invested.abs_spec()) is Some ==> r
            == Ok::<Dec, FinanceError>(decimal_quotient(returned, invested.abs_spec())->0),
        !invested.is_zero_spec() && decimal_quotient(returned, invested.abs_spec()) is None ==> r
            matches Err(FinanceError::CalculationError(_)),
{
    if invested.is_zero() {
        return Err(invalid_input("invested capital cannot be zero"));
    }
    let q = if invested.mantissa < 0 {
        returned.checked_div(&invested.abs())
    } else {
        returned.checked_div(&invested)
    };
    match q {
        Some(v) => Ok(v),
        None => Err(overflow_error()),
    }
}

/// The linear estimate `(moic - 1) / years * 100` of the IRR in percent.
pub open spec fn irr_estimate(moic: Dec, years: Dec) -> Option<Dec> {
    match decimal_difference(moic, one()) {
        None => None,
        Some(a) => match decimal_quotient(a, years) {
            None => None,
            Some(b) => decimal_product(b, hundred()),
        },
    }
}

/// Linear approximation of the IRR in percent from a multiple and a holding
/// period: `(moic - 1) / years * 100`. Refuses `years <= 0` and `moic <= 0`.
pub fn moic_to_irr_approx(moic: Dec, years: Dec) -> (r: Result<Dec>)
    requires
        moic.wf(),
        years.wf(),
    ensures
        years.mantissa <= 0 ==> r matches Err(FinanceError::InvalidInput(_)),
        moic.mantissa <= 0 ==> r matches Err(FinanceError::InvalidInput(_)),
        years.mantissa > 0 && moic.mantissa > 0 && irr_estimate(moic, years) is Some ==> r == Ok::<
            Dec,
            FinanceError,
        >(irr_estimate(moic, years)->0),
        years.mantissa > 0 && moic.mantissa > 0 && irr_estimate(moic, years) is None ==> r matches Err(
            FinanceError::CalculationError(_),
        ),
{
    if years.mantissa <= 0 {
        return Err(invalid_input("years must be positive"));
    }
    if moic.mantissa <= 0 {
        return Err(invalid_input("MOIC must be positive"));
    }
    let estimate = match moic.checked_sub(&Dec::one()) {
        None => None,
        Some(a) => match a.checked_div(&years) {
            None => None,
            Some(b) => b.checked_mul(&Dec::new(100, 0)),
        },
    };
    match estimate {
        Some(v) => Ok(v),
        None => Err(overflow_error()),
    }
}

} // verus!
