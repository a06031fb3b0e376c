use vstd::prelude::*;

use crate::decimal::{decimal_difference, decimal_product, decimal_quotient, Dec};
use crate::error::{overflow_error, FinanceError, Result, SolverMethod};

verus! {

/// Newton-Raphson gives up where the slope's magnitude is below 0.0000001.
pub open spec fn derivative_guard() -> Dec {
    Dec { mantissa: 1, scale: 7 }
}

/// The decimal 100, which turns a percentage into a fraction.
pub open spec fn hundred() -> Dec {
    Dec { mantissa: 100, scale: 0 }
}

/// The pairs `(x, f(x))` that a transform can produce.
pub open spec fn call_rel<F: Fn(Dec) -> Dec>(f: F) -> spec_fn(Dec, Dec) -> bool {
    |x: Dec, y: Dec| f.ensures((x,), y)
}

/// The pairs `(x, Some(f(x)))` of a transform that cannot fail.
pub open spec fn value_rel<F: Fn(Dec) -> Dec>(f: F) -> spec_fn(Dec, Option<Dec>) -> bool {
    |x: Dec, o: Option<Dec>| o is Some && f.ensures((x,), o->0)
}

/// The pairs `(x, f(x))` of a transform whose evaluation can fail (`None`).
pub open spec fn outcome_rel<F: Fn(Dec) -> Option<Dec>>(f: F) -> spec_fn(Dec, Option<Dec>) -> bool {
    |x: Dec, o: Option<Dec>| f.ensures((x,), o)
}

/// The failure of a solver that ran out of rounds.
pub open spec fn not_converged(method: SolverMethod, max: usize, tol: Dec) -> Result<Dec> {
    Err(FinanceError::NotConverged { method, iterations: max, tolerance: tol })
}

fn not_converged_error(method: SolverMethod, max_iterations: usize, tolerance: Dec) -> (r:
    Result<Dec>)
    ensures
        r == not_converged(method, max_iterations, tolerance),
{
    Err(FinanceError::NotConverged { method, iterations: max_iterations, tolerance })
}

/// `r` is a possible result of fixed-point iteration from `x` with `rounds`
/// rounds left: apply `step`, stop with the new value once it moved by less
/// than `tol`, fail once no round is left.
pub open spec fn fixed_point_run(
    step: spec_fn(Dec, Dec) -> bool,
    x: Dec,
    tol: Dec,
    rounds: nat,
    max: usize,
    r: Result<Dec>,
) -> bool
    decreases rounds,
{
    if rounds == 0 {
        r == not_converged(SolverMethod::FixedPoint, max, tol)
    } else {
        exists|y: Dec|
            #[trigger] step(x, y) && match decimal_difference(y, x) {
                None => r matches Err(FinanceError::CalculationError(_)),
                Some(d) => if d.abs_spec().lt_spec(tol) {
                    r == Ok::<Dec, FinanceError>(y)
                } else {
                    fixed_point_run(step, y, tol, (rounds - 1) as nat, max, r)
                },
            }
    }
}

/// The Newton-Raphson update `x - fx / dx`.
pub open spec fn newton_next(x: Dec, fx: Dec, dx: Dec) -> Option<Dec> {
    match decimal_quotient(fx, dx) {
        None => None,
        Some(q) => decimal_difference(x, q),
    }
}

/// `r` is a possible result of Newton-Raphson from `x` with `rounds` rounds
/// left, where `fr` and `dr` relate an estimate to the function's value and
/// slope there (`None`: the evaluation overflowed).
pub open spec fn newton_run(
    fr: spec_fn(Dec, Option<Dec>) -> bool,
    dr: spec_fn(Dec, Option<Dec>) -> bool,
    x: Dec,
    tol: Dec,
    rounds: nat,
    max: usize,
    r: Result<Dec>,
) -> bool
    decreases rounds,
{
    if rounds == 0 {
        r == not_converged(SolverMethod::NewtonRaphson, max, tol)
    } else {
        exists|fv: Option<Dec>|
            #[trigger] fr(x, fv) && match fv {
                None => r matches Err(FinanceError::CalculationError(_)),
                Some(fx) => exists|dv: Option<Dec>|
                    #[trigger] dr(x, dv) && match dv {
                        None => r matches Err(FinanceError::CalculationError(_)),
                        Some(dx) => if dx.abs_spec().lt_spec(derivative_guard()) {
                            r == Err::<Dec, FinanceError>(
                                FinanceError::DerivativeTooSmall { estimate: x, derivative: dx },
                            )
                        } else {
                            match newton_next(x, fx, dx) {
                                None => r matches Err(FinanceError::CalculationError(_)),
                                Some(nx) => match decimal_difference(nx, x) {
                                    None => r matches Err(FinanceError::CalculationError(_)),
                                    Some(e) => if e.abs_spec().lt_spec(tol) {
                                        r == Ok::<Dec, FinanceError>(nx)
                                    } else {
                                        newton_run(fr, dr, nx, tol, (rounds - 1) as nat, max, r)
                                    },
                                },
                            }
                        },
                    },
            }
    }
}

/// A run over smaller step relations is a run over larger ones.
proof fn lemma_fixed_point_run_widen(
    s1: spec_fn(Dec, Dec) -> bool,
    s2: spec_fn(Dec, Dec) -> bool,
    x: Dec,
    tol: Dec,
    rounds: nat,
    max: usize,
    r: Result<Dec>,
)
    requires
        forall|a: Dec, b: Dec| #[trigger] s1(a, b) ==> s2(a, b),
        fixed_point_run(s1, x, tol, rounds, max, r),
    ensures
        fixed_point_run(s2, x, tol, rounds, max, r),
    decreases rounds,
{
    if rounds > 0 {
        let y = choose|y: Dec|
            #[trigger] s1(x, y) && match decimal_difference(y, x) {
                None => r matches Err(FinanceError::CalculationError(_)),
                Some(d) => if d.abs_spec().lt_spec(tol) {
                    r == Ok::<Dec, FinanceError>(y)
                } else {
                    fixed_point_run(s1, y, tol, (rounds - 1) as nat, max, r)
                },
            };
        assert(s2(x, y));
        if let Some(d) = decimal_difference(y, x) {
            if !d.abs_spec().lt_spec(tol) {
                lemma_fixed_point_run_widen(s1, s2, y, tol, (rounds - 1) as nat, max, r);
            }
        }
    }
}

/// A run over smaller evaluation relations is a run over larger ones.
pub(crate) proof fn lemma_newton_run_widen(
    f1: spec_fn(Dec, Option<Dec>) -> bool,
    d1: spec_fn(Dec, Option<Dec>) -> bool,
    f2: spec_fn(Dec, Option<Dec>) -> bool,
    d2: spec_fn(Dec, Option<Dec>) -> bool,
    x: Dec,
    tol: Dec,
    rounds: nat,
    max: usize,
    r: Result<Dec>,
)
    requires
        forall|a: Dec, o: Option<Dec>| #[trigger] f1(a, o) ==> f2(a, o),
        forall|a: Dec, o: Option<Dec>| #[trigger] d1(a, o) ==> d2(a, o),
        newton_run(f1, d1, x, tol, rounds, max, r),
    ensures
        newton_run(f2, d2, x, tol, rounds, max, r),
    decreases rounds,
{
    if rounds > 0 {
        let fv = choose|fv: Option<Dec>|
            #[trigger] f1(x, fv) && match fv {
                None => r matches Err(FinanceError::CalculationError(_)),
                Some(fx) => exists|dv: Option<Dec>|
                    #[trigger] d1(x, dv) && match dv {
                        None => r matches Err(FinanceError::CalculationError(_)),
                        Some(dx) => if dx.abs_spec().lt_spec(derivative_guard()) {
                            r == Err::<Dec, FinanceError>(
                                FinanceError::DerivativeTooSmall { estimate: x, derivative: dx },
                            )
                        } else {
                            match newton_next(x, fx, dx) {
                                None => r matches Err(FinanceError::CalculationError(_)),
                                Some(nx) => match decimal_difference(nx, x) {
                                    None => r matches Err(FinanceError::CalculationError(_)),
                                    Some(e) => if e.abs_spec().lt_spec(tol) {
                                        r == Ok::<Dec, FinanceError>(nx)
                                    } else {
                                        newton_run(f1, d1, nx, tol, (rounds - 1) as nat, max, r)
                                    },
                                },
                            }
                        },
                    },
            };
        assert(f2(x, fv));
        if let Some(fx) = fv {
            let dv = choose|dv: Option<Dec>|
                #[trigger] d1(x, dv) && match dv {
                    None => r matches Err(FinanceError::CalculationError(_)),
                    Some(dx) => if dx.abs_spec().lt_spec(derivative_guard()) {
                        r == Err::<Dec, FinanceError>(
                            FinanceError::DerivativeTooSmall { estimate: x, derivative: dx },
                        )
                    } else {
                        match newton_next(x, fx, dx) {
                            None => r matches Err(FinanceError::CalculationError(_)),
                            Some(nx) => match decimal_difference(nx, x) {
                                None => r matches Err(FinanceError::CalculationError(_)),
                                Some(e) => if e.abs_spec().lt_spec(tol) {
                                    r == Ok::<Dec, FinanceError>(nx)
                                } else {
                                    newton_run(f1, d1, nx, tol, (rounds - 1) as nat, max, r)
                                },
                            },
                        }
                    },
                };
            assert(d2(x, dv));
            if let Some(dx) = dv {
                if !dx.abs_spec().lt_spec(derivative_guard()) {
                    if let Some(nx) = newton_next(x, fx, dx) {
                        if let Some(e) = decimal_difference(nx, x) {
                            if !e.abs_spec().lt_spec(tol) {
                                lemma_newton_run_widen(
                                    f1,
                                    d1,
                                    f2,
                                    d2,
                                    nx,
                                    tol,
                                    (rounds - 1) as nat,
                                    max,
                                    r,
                                );
                            }
                        }
                    }
                }
            }
        }
    }
}

/// A converged fixed-point result is the transform's output at some iterate
/// `z`, and lies within the tolerance of `z`.
pub proof fn lemma_fixed_point_result_near_fixed(
    step: spec_fn(Dec, Dec) -> bool,
    x: Dec,
    tol: Dec,
    rounds: nat,
    max: usize,
    y: Dec,
)
    requires
        fixed_point_run(step, x, tol, rounds, max, Ok(y)),
    ensures
        exists|z: Dec|
            #[trigger] step(z, y) && decimal_difference(y, z) is Some && decimal_difference(
                y,
                z,
            )->0.abs_spec().lt_spec(tol),
    decreases rounds,
{
    let r = Ok::<Dec, FinanceError>(y);
    if rounds > 0 {
        let w = choose|w: Dec|
            #[trigger] step(x, w) && match decimal_difference(w, x) {
                None => r matches Err(FinanceError::CalculationError(_)),
                Some(d) => if d.abs_spec().lt_spec(tol) {
                    r == Ok::<Dec, FinanceError>(w)
                } else {
                    fixed_point_run(step, w, tol, (rounds - 1) as nat, max, r)
                },
            };
        if let Some(d) = decimal_difference(w, x) {
            if !d.abs_spec().lt_spec(tol) {
                lemma_fixed_point_result_near_fixed(step, w, tol, (rounds - 1) as nat, max, y);
            } else {
                assert(step(x, y));
            }
        }
    }
}

/// A converged Newton-Raphson result `y` is one step from some estimate `z`
/// at which the function's value `fz` and slope `dz` are defined, the slope
/// is not below the guard, `y == z - fz / dz`, and `y` lies within the
/// tolerance of `z`.
pub proof fn lemma_newton_result_is_short_step(
    fr: spec_fn(Dec, Option<Dec>) -> bool,
    dr: spec_fn(Dec, Option<Dec>) -> bool,
    x: Dec,
    tol: Dec,
    rounds: nat,
    max: usize,
    y: Dec,
)
    requires
        newton_run(fr, dr, x, tol, rounds, max, Ok(y)),
    ensures
        exists|z: Dec, fz: Dec, dz: Dec|
            #![trigger fr(z, Some(fz)), dr(z, Some(dz))]
            fr(z, Some(fz)) && dr(z, Some(dz)) && !dz.abs_spec().lt_spec(derivative_guard())
                && newton_next(z, fz, dz) == Some(y) && decimal_difference(y, z) is Some
                && decimal_difference(y, z)->0.abs_spec().lt_spec(tol),
    decreases rounds,
{
    let r = Ok::<Dec, FinanceError>(y);
    if rounds > 0 {
        let fv = choose|fv: Option<Dec>|
            #[trigger] fr(x, fv) && match fv {
                None => r matches Err(FinanceError::CalculationError(_)),
                Some(fx) => exists|dv: Option<Dec>|
                    #[trigger] dr(x, dv) && match dv {
                        None => r matches Err(FinanceError::CalculationError(_)),
                        Some(dx) => if dx.abs_spec().lt_spec(derivative_guard()) {
                            r == Err::<Dec, FinanceError>(
                                FinanceError::DerivativeTooSmall { estimate: x, derivative: dx },
                            )
                        } else {
                            match newton_next(x, fx, dx) {
                                None => r matches Err(FinanceError::CalculationError(_)),
                                Some(nx) => match decimal_difference(nx, x) {
                                    None => r matches Err(FinanceError::CalculationError(_)),
                                    Some(e) => if e.abs_spec().lt_spec(tol) {
                                        r == Ok::<Dec, FinanceError>(nx)
                                    } else {
                                        newton_run(fr, dr, nx, tol, (rounds - 1) as nat, max, r)
                                    },
                                },
                            }
                        },
                    },
            };
        let fx = fv->0;
        let dv = choose|dv: Option<Dec>|
            #[trigger] dr(x, dv) && match dv {
                None => r matches Err(FinanceError::CalculationError(_)),
                Some(dx) => if dx.abs_spec().lt_spec(derivative_guard()) {
                    r == Err::<Dec, FinanceError>(
                        FinanceError::DerivativeTooSmall { estimate: x, derivative: dx },
                    )
                } else {
                    match newton_next(x, fx, dx) {
                        None => r matches Err(FinanceError::CalculationError(_)),
                        Some(nx) => match decimal_difference(nx, x) {
                            None => r matches Err(FinanceError::CalculationError(_)),
                            Some(e) => if e.abs_spec().lt_spec(tol) {
                                r == Ok::<Dec, FinanceError>(nx)
                            } else {
                                newton_run(fr, dr, nx, tol, (rounds - 1) as nat, max, r)
                            },
                        },
                    }
                },
            };
        let dx = dv->0;
        let nx = newton_next(x, fx, dx)->0;
        let e = decimal_difference(nx, x)->0;
        if e.abs_spec().lt_spec(tol) {
            assert(fr(x, Some(fx)) && dr(x, Some(dx)));
        } else {
            lemma_newton_result_is_short_step(fr, dr, nx, tol, (rounds - 1) as nat, max, y);
        }
    }
}

/// Fixed-point iteration: applies `calculate_fn` from `initial_guess` until
/// two successive values differ by less than `tolerance`, for at most
/// `max_iterations` rounds.
pub fn solve_circular<F: Fn(Dec) -> Dec>(
    initial_guess: Dec,
    calculate_fn: F,
    tolerance: Dec,
    max_iterations: usize,
) -> (r: Result<Dec>)
    requires
        initial_guess.wf(),
        tolerance.wf(),
        forall|x: Dec| x.wf() ==> #[trigger] calculate_fn.requires((x,)),
        forall|x: Dec, y: Dec| x.wf() && #[trigger] calculate_fn.ensures((x,), y) ==> y.wf(),
    ensures
        fixed_point_run(
            call_rel(calculate_fn),
            initial_guess,
            tolerance,
            max_iterations as nat,
            max_iterations,
            r,
        ),
        max_iterations == 0 ==> r == not_converged(SolverMethod::FixedPoint, 0, tolerance),
        r is Ok ==> r->Ok_0.wf(),
{
    let ghost step = call_rel(calculate_fn);
    let mut current = initial_guess;
    let mut iteration: usize = 0;
    while iteration < max_iterations
        invariant
            iteration <= max_iterations,
            current.wf(),
            tolerance.wf(),
            step == call_rel(calculate_fn),
            forall|x: Dec| x.wf() ==> #[trigger] calculate_fn.requires((x,)),
            forall|x: Dec, y: Dec| x.wf() && #[trigger] calculate_fn.ensures((x,), y) ==> y.wf(),
            forall|res: Result<Dec>|
                #[trigger] fixed_point_run(
                    step,
                    current,
                    tolerance,
                    (max_iterations - iteration) as nat,
                    max_iterations,
                    res,
                ) ==> fixed_point_run(
                    step,
                    initial_guess,
                    tolerance,
                    max_iterations as nat,
                    max_iterations,
                    res,
                ),
        decreases max_iterations - iteration,
    {
        let ghost rounds = (max_iterations - iteration) as nat;
        let next = calculate_fn(current);
        assert(step(current, next));
        let diff = match next.checked_sub(&current) {
            Some(d) => d,
            None => {
                let res = Err(overflow_error());
                assert(fixed_point_run(step, current, tolerance, rounds, max_iterations, res));
                return res;
            },
        };
        if diff.abs().lt(&tolerance) {
            let res = Ok(next);
            assert(fixed_point_run(step, current, tolerance, rounds, max_iterations, res));
            return res;
        }
        assert forall|res: Result<Dec>|
            #[trigger] fixed_point_run(
                step,
                next,
                tolerance,
                (max_iterations - (iteration + 1)) as nat,
                max_iterations,
                res,
            ) implies fixed_point_run(
            step,
            initial_guess,
            tolerance,
            max_iterations as nat,
            max_iterations,
            res,
        ) by {
            assert(step(current, next) && match decimal_difference(next, current) {
                None => res matches Err(FinanceError::CalculationError(_)),
                Some(d) => if d.abs_spec().lt_spec(tolerance) {
                    res == Ok::<Dec, FinanceError>(next)
                } else {
                    fixed_point_run(step, next, tolerance, (rounds - 1) as nat, max_iterations, res)
                },
            });
            assert(fixed_point_run(
                step,
                current,
                tolerance,
                (max_iterations - iteration) as nat,
                max_iterations,
                res,
            ));
        }
        current = next;
        iteration += 1;
    }
    let res = not_converged_error(SolverMethod::FixedPoint, max_iterations, tolerance);
    assert(fixed_point_run(
        step,
        current,
        tolerance,
        (max_iterations - iteration) as nat,
        max_iterations,
        res,
    ));
    res
}

/// Where every value of the function at `x` is defined and every slope there
/// is below the guard, a run with a round left stops at once.
proof fn lemma_newton_first_slope_too_small(
    fr: spec_fn(Dec, Option<Dec>) -> bool,
    dr: spec_fn(Dec, Option<Dec>) -> bool,
    x: Dec,
    tol: Dec,
    rounds: nat,
    max: usize,
    r: Result<Dec>,
)
    requires
        rounds > 0,
        newton_run(fr, dr, x, tol, rounds, max, r),
        forall|o: Option<Dec>| #[trigger] fr(x, o) ==> o is Some,
        forall|o: Option<Dec>|
            #[trigger] dr(x, o) ==> o is Some && o->0.abs_spec().lt_spec(derivative_guard()),
    ensures
        r matches Err(FinanceError::DerivativeTooSmall { .. }),
{
}

/// Newton-Raphson over evaluations that may fail.
pub(crate) fn newton_solve<F: Fn(Dec) -> Option<Dec>, G: Fn(Dec) -> Option<Dec>>(
    initial_guess: Dec,
    function: F,
    derivative: G,
    tolerance: Dec,
    max_iterations: usize,
) -> (r: Result<Dec>)
    requires
        initial_guess.wf(),
        tolerance.wf(),
        forall|x: Dec| x.wf() ==> #[trigger] function.requires((x,)),
        forall|x: Dec| x.wf() ==> #[trigger] derivative.requires((x,)),
        forall|x: Dec, o: Option<Dec>|
            x.wf() && #[trigger] function.ensures((x,), o) && o is Some ==> o->0.wf(),
        forall|x: Dec, o: Option<Dec>|
            x.wf() && #[trigger] derivative.ensures((x,), o) && o is Some ==> o->0.wf(),
    ensures
        newton_run(
            outcome_rel(function),
            outcome_rel(derivative),
            initial_guess,
            tolerance,
            max_iterations as nat,
            max_iterations,
            r,
        ),
        r is Ok ==> r->Ok_0.wf(),
{
    let ghost fr = outcome_rel(function);
    let ghost dr = outcome_rel(derivative);
    let guard = Dec::new(1, 7);
    let mut current = initial_guess;
    let mut iteration: usize = 0;
    while iteration < max_iterations
        invariant
            iteration <= max_iterations,
            current.wf(),
            tolerance.wf(),
            guard == derivative_guard(),
            fr == outcome_rel(function),
            dr == outcome_rel(derivative),
            forall|x: Dec| x.wf() ==> #[trigger] function.requires((x,)),
            forall|x: Dec| x.wf() ==> #[trigger] derivative.requires((x,)),
            forall|x: Dec, o: Option<Dec>|
                x.wf() && #[trigger] function.ensures((x,), o) && o is Some ==> o->0.wf(),
            forall|x: Dec, o: Option<Dec>|
                x.wf() && #[trigger] derivative.ensures((x,), o) && o is Some ==> o->0.wf(),
            forall|res: Result<Dec>|
                #[trigger] newton_run(
                    fr,
                    dr,
                    current,
                    tolerance,
                    (max_iterations - iteration) as nat,
                    max_iterations,
                    res,
                ) ==> newton_run(
                    fr,
                    dr,
                    initial_guess,
                    tolerance,
                    max_iterations as nat,
                    max_iterations,
                    res,
                ),
        decreases max_iterations - iteration,
    {
        let fv = function(current);
        assert(fr(current, fv));
        let fx = match fv {
            Some(v) => v,
            None => {
                let res = Err(overflow_error());
                assert(newton_run(
                    fr,
                    dr,
                    current,
                    tolerance,
                    (max_iterations - iteration) as nat,
                    max_iterations,
                    res,
                ));
                return res;
            },
        };
        let dv = derivative(current);
        assert(dr(current, dv));
        let dx = match dv {
            Some(v) => v,
            None => {
                let res = Err(overflow_error());
                assert(newton_run(
                    fr,
                    dr,
                    current,
                    tolerance,
                    (max_iterations - iteration) as nat,
                    max_iterations,
                    res,
                ));
                return res;
            },
        };
        if dx.abs().lt(&guard) {
            let res = Err(FinanceError::DerivativeTooSmall { estimate: current, derivative: dx });
            assert(newton_run(
                fr,
                dr,
                current,
                tolerance,
                (max_iterations - iteration) as nat,
                max_iterations,
                res,
            ));
            return res;
        }
        let next = match fx.checked_div(&dx) {
            None => None,
            Some(q) => current.checked_sub(&q),
        };
        let next = match next {
            Some(v) => v,
            None => {
                let res = Err(overflow_error());
                assert(newton_run(
                    fr,
                    dr,
                    current,
                    tolerance,
                    (max_iterations - iteration) as nat,
                    max_iterations,
                    res,
                ));
                return res;
            },
        };
        let err = match next.checked_sub(&current) {
            Some(v) => v,
            None => {
                let res = Err(overflow_error());
                assert(newton_run(
                    fr,
                    dr,
                    current,
                    tolerance,
                    (max_iterations - iteration) as nat,
                    max_iterations,
                    res,
                ));
                return res;
            },
        };
        if err.abs().lt(&tolerance) {
            let res = Ok(next);
            assert(newton_run(
                fr,
                dr,
                current,
                tolerance,
                (max_iterations - iteration) as nat,
                max_iterations,
                res,
            ));
            return res;
        }
        assert forall|res: Result<Dec>|
            #[trigger] newton_run(
                fr,
                dr,
                next,
                tolerance,
                (max_iterations - (iteration + 1)) as nat,
                max_iterations,
                res,
            ) implies newton_run(
            fr,
            dr,
            initial_guess,
            tolerance,
            max_iterations as nat,
            max_iterations,
            res,
        ) by {
            assert(newton_run(
                fr,
                dr,
                current,
                tolerance,
                (max_iterations - iteration) as nat,
                max_iterations,
                res,
            ));
        }
        current = next;
        iteration += 1;
    }
    let res = not_converged_error(SolverMethod::NewtonRaphson, max_iterations, tolerance);
    assert(newton_run(
        fr,
        dr,
        current,
        tolerance,
        (max_iterations - iteration) as nat,
        max_iterations,
        res,
    ));
    res
}

/// Newton-Raphson root finding: from `initial_guess`, steps to
/// `x - function(x) / derivative(x)` until two successive estimates differ
/// by less than `tolerance`, for at most `max_iterations` rounds. A slope of
/// magnitude below 0.0000001 stops the search with `DerivativeTooSmall`.
pub fn solve_circular_newton<F: Fn(Dec) -> Dec, G: Fn(Dec) -> Dec>(
    initial_guess: Dec,
    function: F,
    derivative: G,
    tolerance: Dec,
    max_iterations: usize,
) -> (r: Result<Dec>)
    requires
        initial_guess.wf(),
        tolerance.wf(),
        forall|x: Dec| x.wf() ==> #[trigger] function.requires((x,)),
        forall|x: Dec| x.wf() ==> #[trigger] derivative.requires((x,)),
        forall|x: Dec, y: Dec| x.wf() && #[trigger] function.ensures((x,), y) ==> y.wf(),
        forall|x: Dec, y: Dec| x.wf() && #[trigger] derivative.ensures((x,), y) ==> y.wf(),
    ensures
        newton_run(
            value_rel(function),
            value_rel(derivative),
            initial_guess,
            tolerance,
            max_iterations as nat,
            max_iterations,
            r,
        ),
        max_iterations == 0 ==> r == not_converged(SolverMethod::NewtonRaphson, 0, tolerance),
        max_iterations > 0 && (forall|d: Dec|
            #[trigger] derivative.ensures((initial_guess,), d) ==> d.abs_spec().lt_spec(
                derivative_guard(),
            )) ==> r matches Err(FinanceError::DerivativeTooSmall { .. }),
        r is Ok ==> r->Ok_0.wf(),
{
    let f = &function;
    let g = &derivative;
    let value_of = |x: Dec| -> (o: Option<Dec>)
        requires
            x.wf(),
            f.requires((x,)),
        ensures
            o is Some && f.ensures((x,), o->0),
        { Some(f(x)) };
    let slope_of = |x: Dec| -> (o: Option<Dec>)
        requires
            x.wf(),
            g.requires((x,)),
        ensures
            o is Some && g.ensures((x,), o->0),
        { Some(g(x)) };
    let r = newton_solve(initial_guess, value_of, slope_of, tolerance, max_iterations);
    proof {
        lemma_newton_run_widen(
            outcome_rel(value_of),
            outcome_rel(slope_of),
            value_rel(function),
            value_rel(derivative),
            initial_guess,
            tolerance,
            max_iterations as nat,
            max_iterations,
            r,
        );
        if max_iterations > 0 && (forall|d: Dec|
            #[trigger] derivative.ensures((initial_guess,), d) ==> d.abs_spec().lt_spec(
                derivative_guard(),
            )) {
            lemma_newton_first_slope_too_small(
                value_rel(function),
                value_rel(derivative),
                initial_guess,
                tolerance,
                max_iterations as nat,
                max_iterations,
                r,
            );
        }
    }
    r
}

/// The interest expense `debt * rate / 100` on a debt at a rate in percent.
pub open spec fn interest_expense(debt: Dec, rate_pct: Dec) -> Option<Dec> {
    match decimal_product(debt, rate_pct) {
        None => None,
        Some(p) => decimal_quotient(p, hundred()),
    }
}

/// The pairs `(x, f(input))`: a step that ignores its estimate.
pub open spec fn given_rel<F: Fn(Dec) -> Dec>(f: F, input: Dec) -> spec_fn(Dec, Dec) -> bool {
    |x: Dec, y: Dec| f.ensures((input,), y)
}

/// Resolves the cash and interest loop: the interest expense on
/// `beginning_debt` at `interest_rate` percent is fed to
/// `calculate_cash_given_interest` by fixed-point iteration from
/// `initial_cash_guess`, for at most 100 rounds. The debt is held fixed.
pub fn solve_cash_interest_circular<F: Fn(Dec) -> Dec>(
    initial_cash_guess: Dec,
    calculate_cash_given_interest: F,
    interest_rate: Dec,
    beginning_debt: Dec,
    tolerance: Dec,
) -> (r: Result<Dec>)
    requires
        initial_cash_guess.wf(),
        interest_rate.wf(),
        beginning_debt.wf(),
        tolerance.wf(),
        forall|x: Dec| x.wf() ==> #[trigger] calculate_cash_given_interest.requires((x,)),
        forall|x: Dec, y: Dec|
            x.wf() && #[trigger] calculate_cash_given_interest.ensures((x,), y) ==> y.wf(),
    ensures
        match interest_expense(beginning_debt, interest_rate) {
            None => r matches Err(FinanceError::CalculationError(_)),
            Some(i) => fixed_point_run(
                given_rel(calculate_cash_given_interest, i),
                initial_cash_guess,
                tolerance,
                100,
                100,
                r,
            ),
        },
{
    let interest = match beginning_debt.checked_mul(&interest_rate) {
        None => None,
        Some(p) => p.checked_div(&Dec::new(100, 0)),
    };
    let interest = match interest {
        Some(i) => i,
        None => return Err(overflow_error()),
    };
    let f = &calculate_cash_given_interest;
    let cash_given = |cash: Dec| -> (y: Dec)
        requires
            f.requires((interest,)),
        ensures
            f.ensures((interest,), y),
        { f(interest) };
    assert(forall|x: Dec, y: Dec| x.wf() && #[trigger] cash_given.ensures((x,), y) ==> y.wf());
    let r = solve_circular(initial_cash_guess, cash_given, tolerance, 100);
    proof {
        lemma_fixed_point_run_widen(
            call_rel(cash_given),
            given_rel(calculate_cash_given_interest, interest),
            initial_cash_guess,
            tolerance,
            100,
            100,
            r,
        );
    }
    r
}

} // verus!
