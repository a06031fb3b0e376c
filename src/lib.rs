//! Iterative solvers for financial quantities defined as roots: fixed-point
//! iteration, Newton-Raphson, and the time-value functions built on them
//! (NPV, IRR, XIRR, MOIC), all over an exact decimal type.

pub mod circular_solver;
pub mod date;
pub mod decimal;
pub mod error;
pub mod time_value;

pub use circular_solver::{solve_cash_interest_circular, solve_circular, solve_circular_newton};
pub use date::CalendarDate;
pub use decimal::Dec;
pub use error::{FinanceError, SolverMethod};
pub use time_value::{calculate_irr, calculate_moic, calculate_npv, calculate_xirr, moic_to_irr_approx};
