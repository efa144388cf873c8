//! The tax-bracket rule: a percentage rate chosen by filing status
//! and income, discounted for out-of-state filers.

use vstd::prelude::*;
use vstd::string::*;

verus! {

/// Why a tax computation was rejected.
#[derive(Clone, Copy, Debug, PartialEq, Eq, Structural)]
pub enum TaxError {
    InvalidStatus,
    InvalidState,
}

/// The code point of c with an ASCII capital letter folded to lower
/// case.
pub open spec fn lower_code(c: char) -> int {
    if 65 <= c as int && c as int <= 90 {
        c as int + 32
    } else {
        c as int
    }
}

/// a and b agree up to ASCII case.
pub open spec fn eq_ignore_case(a: Seq<char>, b: Seq<char>) -> bool {
    a.len() == b.len() && forall|i: int|
        0 <= i < a.len() ==> lower_code(#[trigger] a[i]) == lower_code(b[i])
}

/// Compares two strings, folding ASCII capitals to lower case.
fn eq_ignore_ascii_case(a: &str, b: &str) -> (r: bool)
    ensures
        r == eq_ignore_case(a@, b@),
{
    let alen = a.unicode_len();
    let blen = b.unicode_len();
    if alen != blen {
        return false;
    }
    let mut i: usize = 0;
    while i < alen
        invariant
            i <= alen,
            alen == a@.len(),
            alen == b@.len(),
            forall|j: int| 0 <= j < i ==> lower_code(#[trigger] a@[j]) == lower_code(b@[j]),
        decreases alen - i,
    {
        let ca = a.get_char(i) as u32;
        let cb = b.get_char(i) as u32;
        let la = if 65 <= ca && ca <= 90 {
            ca + 32
        } else {
            ca
        };
        let lb = if 65 <= cb && cb <= 90 {
            cb + 32
        } else {
            cb
        };
        if la != lb {
            return false;
        }
        i = i + 1;
    }
    true
}

/// The status text reads "married", up to case.
pub open spec fn is_married_text(s: Seq<char>) -> bool {
    eq_ignore_case(s, "married"@)
}

/// The status text reads "single", up to case.
pub open spec fn is_single_text(s: Seq<char>) -> bool {
    eq_ignore_case(s, "single"@)
}

/// The state character marks an in-state filer.
pub open spec fn is_in_state(c: char) -> bool {
    c == 'i' || c == 'I'
}

/// The state character marks an out-of-state filer.
pub open spec fn is_out_of_state(c: char) -> bool {
    c == 'o' || c == 'O'
}

/// The tax rate in percent: married filers pay 20 below an income of
/// 60000 and 25 from there on, single filers 30 below 40000 and 35
/// from there on; out-of-state filers get 3 points off.
pub open spec fn rate_percent(income: int, married: bool, out_of_state: bool) -> int {
    (if married {
        if income < 60000 {
            20int
        } else {
            25int
        }
    } else {
        if income < 40000 {
            30int
        } else {
            35int
        }
    }) - (if out_of_state {
        3int
    } else {
        0int
    })
}

/// The tax owed, in hundredths of a currency unit: the income times
/// the percentage rate.  An unrecognized status or state character is
/// reported as the matching error, status first.
pub fn compute_tax(income: i32, status: &str, state: char) -> (r: Result<i64, TaxError>)
    ensures
        !is_married_text(status@) && !is_single_text(status@) ==> r == Err::<i64, TaxError>(
            TaxError::InvalidStatus,
        ),
        (is_married_text(status@) || is_single_text(status@)) && !is_in_state(state)
            && !is_out_of_state(state) ==> r == Err::<i64, TaxError>(TaxError::InvalidState),
        (is_married_text(status@) || is_single_text(status@)) && (is_in_state(state)
            || is_out_of_state(state)) ==> r == Ok::<i64, TaxError>(
            (income * rate_percent(income as int, is_married_text(status@), is_out_of_state(state))) as i64,
        ),
{
    let married = eq_ignore_ascii_case(status, "married");
    let single = eq_ignore_ascii_case(status, "single");
    let rate: i64 = if married {
        if income < 60000 {
            20
        } else {
            25
        }
    } else if single {
        if income < 40000 {
            30
        } else {
            35
        }
    } else {
        return Err(TaxError::InvalidStatus);
    };
    let rate: i64 = if state == 'o' || state == 'O' {
        rate - 3
    } else if state == 'i' || state == 'I' {
        rate
    } else {
        return Err(TaxError::InvalidState);
    };
    proof {
        assert((income as int) * (rate as int) < 0x8000_0000_0000_0000
            && (income as int) * (rate as int) >= -0x8000_0000_0000_0000) by (nonlinear_arith)
            requires
                -0x8000_0000 <= (income as int) && (income as int) <= 0x7FFF_FFFF,
                17 <= (rate as int) && (rate as int) <= 35,
        ;
    }
    Ok((income as i64) * rate)
}

} // verus!
