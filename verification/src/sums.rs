//! Sum of the squares of the integers from 1 to n.

use vstd::prelude::*;

verus! {

/// The exact (unbounded) sum 1*1 + 2*2 + ... + n*n.
pub open spec fn sum_squares_spec(n: nat) -> nat
    decreases n,
{
    if n == 0 {
        0
    } else {
        n * n + sum_squares_spec((n - 1) as nat)
    }
}

/// The closed form of the sum: six times it is n(n+1)(2n+1).
pub proof fn lemma_sum_squares_closed_form(n: nat)
    ensures
        6 * sum_squares_spec(n) == n * (n + 1) * (2 * n + 1),
    decreases n,
{
    if n > 0 {
        let m = (n - 1) as nat;
        lemma_sum_squares_closed_form(m);
        assert(6 * sum_squares_spec(n) == n * (n + 1) * (2 * n + 1)) by (nonlinear_arith)
            requires
                sum_squares_spec(n) == n * n + sum_squares_spec(m),
                6 * sum_squares_spec(m) == m * (m + 1) * (2 * m + 1),
                n == m + 1,
        ;
    }
}

/// Sum of the squares of 1..=n, wrapping on overflow as 32-bit
/// unsigned arithmetic does.
pub fn sum_squares(n: u32) -> (r: u32)
    ensures
        r as nat == sum_squares_spec(n as nat) % 0x1_0000_0000,
    decreases n,
{
    if n == 0 {
        0
    } else {
        let rest = sum_squares(n - 1);
        let r = n.wrapping_mul(n).wrapping_add(rest);
        proof {
            let m = 0x1_0000_0000int;
            let sq = (n * n) as int;
            let prev = sum_squares_spec((n - 1) as nat) as int;
            vstd::arithmetic::div_mod::lemma_add_mod_noop(sq, prev, m);
        }
        r
    }
}

} // verus!
