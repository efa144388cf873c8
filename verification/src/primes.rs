//! Primality testing with the 6k±1 trial-division scheme, and the
//! comma-separated listing of the primes below a bound.

use vstd::prelude::*;
use vstd::arithmetic::div_mod::{
    lemma_add_mod_noop, lemma_fundamental_div_mod, lemma_mod_multiples_basic,
};
use vstd::string::*;
use crate::decimal::{dec_rep, u32_to_string};

verus! {

/// n is prime: at least 2, with no divisor strictly between 1 and n.
pub open spec fn is_prime_spec(n: int) -> bool {
    2 <= n && forall|d: int| 2 <= d < n ==> #[trigger] (n % d) != 0
}

/// Divisibility is transitive: if d divides n and c divides d, then c
/// divides n.
proof fn lemma_divides_trans(n: int, d: int, c: int)
    requires
        0 < c,
        0 < d,
        n % d == 0,
        d % c == 0,
    ensures
        n % c == 0,
{
    let q = n / d;
    let p = d / c;
    lemma_fundamental_div_mod(n, d);
    lemma_fundamental_div_mod(d, c);
    assert(n == (p * q) * c) by (nonlinear_arith)
        requires
            n == d * q,
            d == c * p,
    ;
    lemma_mod_multiples_basic(p * q, c);
}

/// A composite number has a divisor no larger than its square root.
proof fn lemma_small_factor(n: int, d: int)
    requires
        2 <= n,
        2 <= d < n,
        n % d == 0,
    ensures
        exists|e: int| 2 <= e && e * e <= n && #[trigger] (n % e) == 0,
{
    lemma_fundamental_div_mod(n, d);
    let q = n / d;
    assert(2 <= q) by (nonlinear_arith)
        requires
            n == d * q,
            2 <= d < n,
            2 <= n,
    ;
    if d * d <= n {
        assert(2 <= d && d * d <= n && n % d == 0);
    } else {
        assert(q * q <= n) by (nonlinear_arith)
            requires
                n == d * q,
                d * d > n,
                2 <= q,
                2 <= d,
        ;
        lemma_mod_multiples_basic(d, q);
        assert(2 <= q && q * q <= n && n % q == 0);
    }
}

/// A number at least 2 with no divisor up to its square root is prime.
proof fn lemma_prime_from_sqrt(n: int)
    requires
        2 <= n,
        forall|e: int| 2 <= e && e * e <= n ==> #[trigger] (n % e) != 0,
    ensures
        is_prime_spec(n),
{
    assert forall|d: int| 2 <= d < n implies #[trigger] (n % d) != 0 by {
        if n % d == 0 {
            lemma_small_factor(n, d);
            let e = choose|e: int| 2 <= e && e * e <= n && #[trigger] (n % e) == 0;
            assert(n % e != 0);
        }
    }
}

/// Whether n is prime.  Negative numbers are never prime; values below
/// 8 are answered directly (the fixed table of the first eight
/// answers); larger values are rejected if divisible by 2 or 3 and
/// otherwise trial-divided by 6k−1 and 6k+1 up to the square root.
pub fn is_prime(n: i32) -> (r: bool)
    ensures
        r == is_prime_spec(n as int),
{
    if n < 0 {
        return false;
    }
    if n < 8 {
        return match n {
            2 => {
                true
            },
            3 => {
                proof {
                    assert forall|d: int| 2 <= d < 3 implies #[trigger] (3int % d) != 0 by {
                        assert(d == 2);
                    }
                }
                true
            },
            5 => {
                proof {
                    assert forall|d: int| 2 <= d < 5 implies #[trigger] (5int % d) != 0 by {
                        assert(d == 2 || d == 3 || d == 4);
                    }
                }
                true
            },
            7 => {
                proof {
                    assert forall|d: int| 2 <= d < 7 implies #[trigger] (7int % d) != 0 by {
                        assert(d == 2 || d == 3 || d == 4 || d == 5 || d == 6);
                    }
                }
                true
            },
            _ => {
                proof {
                    if n == 4 {
                        assert(4int % 2 == 0);
                    }
                    if n == 6 {
                        assert(6int % 2 == 0);
                    }
                }
                false
            },
        };
    }
    let m: u32 = n as u32;
    if m % 2 == 0 {
        proof {
            assert((n as int) % 2 == 0);
        }
        return false;
    }
    if m % 3 == 0 {
        proof {
            assert((n as int) % 3 == 0);
        }
        return false;
    }
    proof {
        assert forall|d: int| 2 <= d < 5 implies #[trigger] ((n as int) % d) != 0 by {
            if d == 4 && (n as int) % 4 == 0 {
                lemma_divides_trans(n as int, 4, 2);
            }
        }
    }
    let mut k: u32 = 6;
    loop
        invariant
            8 <= m,
            m == n as int,
            (n as int) % 2 != 0,
            (n as int) % 3 != 0,
            6 <= k,
            k % 6 == 0,
            (k - 6) * (k - 6) <= m,
            forall|d: int| 2 <= d < k - 1 ==> #[trigger] ((n as int) % d) != 0,
        decreases m + 6 - k,
    {
        proof {
            // k stays close to the square root of m, so k + 6 fits easily.
            if k > 6 {
                assert(k - 6 <= (k - 6) * (k - 6)) by (nonlinear_arith)
                    requires
                        k >= 7,
                ;
            }
        }
        let div_low = m % (k - 1) == 0;
        let div_high = m % (k + 1) == 0;
        if div_low || div_high {
            proof {
                let ni = n as int;
                let ki = k as int;
                if k == 6 {
                    assert(ki - 1 < ni && ki + 1 < ni);
                } else {
                    assert(k >= 12);
                    assert((ki - 6) * (ki - 6) >= ki + 2) by (nonlinear_arith)
                        requires
                            ki >= 12,
                    ;
                    assert(ki - 1 < ni && ki + 1 < ni);
                }
                if div_low {
                    assert(ni % (ki - 1) == 0);
                } else {
                    assert(ni % (ki + 1) == 0);
                }
                assert(!is_prime_spec(ni));
            }
            return false;
        }
        proof {
            assert((k as int) * (k as int) < 0x1_0000_0000_0000_0000) by (nonlinear_arith)
                requires
                    0 <= (k as int) && (k as int) < 0x1_0000_0000,
            ;
        }
        if (k as u64) * (k as u64) > (m as u64) {
            proof {
                let ni = n as int;
                let ki = k as int;
                assert forall|e: int| 2 <= e && e * e <= ni implies #[trigger] (ni % e) != 0 by {
                    assert(e < ki) by (nonlinear_arith)
                        requires
                            e * e <= ni,
                            ni < ki * ki,
                            2 <= e,
                            6 <= ki,
                    ;
                    if e == ki - 1 {
                        assert(ni % e != 0);
                    } else {
                        assert(2 <= e < ki - 1);
                    }
                }
                lemma_prime_from_sqrt(ni);
            }
            return true;
        }
        proof {
            let ni = n as int;
            let ki = k as int;
            // The loop only continues while k*k <= m, so k is small.
            assert(ki <= 0xFFFF) by (nonlinear_arith)
                requires
                    0 <= ki,
                    ki * ki < 0x1_0000_0000,
            ;
            assert(ki <= ki * ki) by (nonlinear_arith)
                requires
                    1 <= ki,
            ;
            lemma_divides_trans(ki, 6, 2);
            lemma_divides_trans(ki, 6, 3);
            lemma_add_mod_noop(ki, 2, 2);
            lemma_add_mod_noop(ki, 4, 2);
            lemma_add_mod_noop(ki, 3, 3);
            assert forall|d: int| 2 <= d < ki + 5 implies #[trigger] (ni % d) != 0 by {
                if d < ki - 1 {
                } else if d == ki - 1 || d == ki + 1 {
                } else if d == ki + 3 {
                    if ni % d == 0 {
                        lemma_divides_trans(ni, d, 3);
                    }
                } else {
                    assert(d == ki || d == ki + 2 || d == ki + 4);
                    assert(d % 2 == 0);
                    if ni % d == 0 {
                        lemma_divides_trans(ni, d, 2);
                    }
                }
            }
        }
        k = k + 6;
    }
}

/// The comma-separated decimal listing of the primes below n, in
/// ascending order: empty when there are none, and with ", " before
/// every prime but the first (2, the smallest, takes no separator).
pub open spec fn primes_text(n: int) -> Seq<char>
    decreases n,
{
    if n <= 0 {
        Seq::empty()
    } else {
        primes_text(n - 1) + (if is_prime_spec(n - 1) {
            (if n - 1 > 2 {
                seq![',', ' ']
            } else {
                Seq::<char>::empty()
            }) + dec_rep((n - 1) as nat)
        } else {
            Seq::empty()
        })
    }
}

/// The text listing the primes below n, ascending and comma-separated.
pub fn display_primes(n: i32) -> (s: String)
    ensures
        s@ == primes_text(n as int),
{
    let mut s = String::new();
    if n <= 0 {
        proof {
            assert(s@ =~= primes_text(n as int));
        }
        return s;
    }
    let mut i: i32 = 0;
    while i < n
        invariant
            0 <= i <= n,
            s@ == primes_text(i as int),
        decreases n - i,
    {
        if is_prime(i) {
            if i > 2 {
                proof {
                    reveal_strlit(", ");
                }
                s.append(", ");
            }
            let t = u32_to_string(i as u32);
            s.append(t.as_str());
        }
        proof {
            assert(s@ =~= primes_text(i as int + 1));
        }
        i = i + 1;
    }
    s
}

} // verus!
