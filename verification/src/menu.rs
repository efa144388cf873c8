//! The menu's selection step: one line of input decides which handler
//! runs next.  The step is a pure function of the line, so no state
//! is carried from one selection to the next.

use vstd::prelude::*;
use crate::decimal::{parse_i32, parse_i32_spec, parse_u32, parse_u32_spec};
use crate::text::{trim, trim_spec};

verus! {

/// What a line of input selects.
#[derive(Clone, Copy, Debug, PartialEq, Eq, Structural)]
pub enum MenuChoice {
    ComputePi,
    ComputeSqrt,
    DisplayPrimes,
    ProcessScores,
    ComputeTax,
    QuadraticMut,
    QuadraticTuple,
    SumSquares,
    FileCount,
    Quit,
    Invalid,
}

/// The choice a line denotes: its trimmed text read as a number,
/// 1 through 10 naming the handlers in menu order; anything else —
/// out of range or not a number — is invalid.
pub open spec fn select_spec(line: Seq<char>) -> MenuChoice {
    match parse_u32_spec(trim_spec(line)) {
        Some(v) => if v == 1 {
            MenuChoice::ComputePi
        } else if v == 2 {
            MenuChoice::ComputeSqrt
        } else if v == 3 {
            MenuChoice::DisplayPrimes
        } else if v == 4 {
            MenuChoice::ProcessScores
        } else if v == 5 {
            MenuChoice::ComputeTax
        } else if v == 6 {
            MenuChoice::QuadraticMut
        } else if v == 7 {
            MenuChoice::QuadraticTuple
        } else if v == 8 {
            MenuChoice::SumSquares
        } else if v == 9 {
            MenuChoice::FileCount
        } else if v == 10 {
            MenuChoice::Quit
        } else {
            MenuChoice::Invalid
        },
        None => MenuChoice::Invalid,
    }
}

/// Reads one line of input as a menu selection.
pub fn select_option(line: &str) -> (c: MenuChoice)
    ensures
        c == select_spec(line@),
{
    let trimmed = trim(line);
    match parse_u32(trimmed) {
        Some(v) => {
            if v == 1 {
                MenuChoice::ComputePi
            } else if v == 2 {
                MenuChoice::ComputeSqrt
            } else if v == 3 {
                MenuChoice::DisplayPrimes
            } else if v == 4 {
                MenuChoice::ProcessScores
            } else if v == 5 {
                MenuChoice::ComputeTax
            } else if v == 6 {
                MenuChoice::QuadraticMut
            } else if v == 7 {
                MenuChoice::QuadraticTuple
            } else if v == 8 {
                MenuChoice::SumSquares
            } else if v == 9 {
                MenuChoice::FileCount
            } else if v == 10 {
                MenuChoice::Quit
            } else {
                MenuChoice::Invalid
            }
        },
        None => MenuChoice::Invalid,
    }
}

/// One line of input read as an unsigned number, leading and trailing
/// whitespace ignored.
pub fn read_u32_line(line: &str) -> (r: Option<u32>)
    ensures
        r == parse_u32_spec(trim_spec(line@)),
{
    parse_u32(trim(line))
}

/// One line of input read as a signed number, leading and trailing
/// whitespace ignored.
pub fn read_i32_line(line: &str) -> (r: Option<i32>)
    ensures
        r == parse_i32_spec(trim_spec(line@)),
{
    parse_i32(trim(line))
}

} // verus!
