//! Mortgage amortization in fixed-point arithmetic: the fixed annuity
//! payment, the interest and principal parts of each month, the projected
//! debt, the payment dates, and the total cost of a loan.
pub mod amortization;
pub mod calendar;
pub mod mortgage;
