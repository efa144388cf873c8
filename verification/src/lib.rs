//! A small library of classroom-style numeric and text exercises:
//! primality testing, prime listing, sums of squares, a tax-bracket
//! rule, text statistics, score aggregation, and the line parsing and
//! menu dispatch that drive them.  Every function carries a contract
//! that pins down its result; the floating-point presentation layer
//! (π approximation, Newton square roots, quadratic roots) lives with
//! the I/O in the accompanying application, outside the verified core.

pub mod decimal;
pub mod menu;
pub mod primes;
pub mod scores;
pub mod sums;
pub mod tax;
pub mod text;
