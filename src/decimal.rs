//! Non-negative fixed-point decimals with eighteen fractional digits, and the
//! compound-interest arithmetic built on them.

use vstd::prelude::*;

verus! {

/// The number of attos (units of `10^-18`) in one whole unit.
pub const ONE_ATTOS: u128 = 1_000_000_000_000_000_000;

/// A non-negative decimal, held as a whole number of attos.
#[derive(Clone, Copy, Debug, PartialEq, Eq, Structural)]
pub struct Decimal {
    pub attos: u128,
}

impl Decimal {
    /// `n` whole units.
    pub fn from_whole(n: u64) -> (r: Decimal)
        ensures
            r.attos == n * ONE_ATTOS,
    {
        assert((n as int) * (ONE_ATTOS as int) <= u128::MAX) by (nonlinear_arith)
            requires
                n <= u64::MAX,
                ONE_ATTOS == 1_000_000_000_000_000_000u128,
        ;
        Decimal { attos: (n as u128) * ONE_ATTOS }
    }

    /// A decimal of `attos` units of `10^-18`.
    pub fn from_attos(attos: u128) -> (r: Decimal)
        ensures
            r.attos == attos,
    {
        Decimal { attos }
    }
}

/// The fixed-point product of two attos amounts: `a * b / 10^18`, rounded down.
pub open spec fn fixed_mul(a: int, b: int) -> int {
    (a * b) / (ONE_ATTOS as int)
}

/// `base` raised to the power `n` by repeated fixed-point multiplication,
/// starting from one whole unit; every step rounds down.
pub open spec fn compound_factor(base: int, n: nat) -> int
    decreases n,
{
    if n == 0 {
        ONE_ATTOS as int
    } else {
        fixed_mul(compound_factor(base, (n - 1) as nat), base)
    }
}

/// What is owed on `principal` after `periods` periods at `rate` per period,
/// all in attos: the principal itself when no period has passed, else
/// `None` where the base, the factor or the total leaves the range of `u128`.
pub open spec fn total_due_spec(principal: int, rate: int, periods: nat) -> Option<int> {
    let base = ONE_ATTOS as int + rate;
    let factor = compound_factor(base, periods);
    let total = fixed_mul(principal, factor);
    if periods == 0 {
        Some(principal)
    } else if base > u128::MAX || factor > u128::MAX || total > u128::MAX {
        None
    } else {
        Some(total)
    }
}

/// Relies on scrypto's `Decimal::checked_mul`: it multiplies the attos on 256
/// bits, divides by `10^18` rounding toward zero, and returns `None` only
/// where the result leaves the decimal's 192-bit range. Converting back to
/// `u128` fails exactly where the result exceeds `u128::MAX`.
#[verifier::external_body]
fn checked_mul_attos(a: u128, b: u128) -> (r: Option<u128>)
    ensures
        r == (if fixed_mul(a as int, b as int) <= u128::MAX {
            Some(fixed_mul(a as int, b as int) as u128)
        } else {
            None::<u128>
        }),
{
    let x = scrypto::math::Decimal::from_attos(scrypto::math::I192::from(a));
    let y = scrypto::math::Decimal::from_attos(scrypto::math::I192::from(b));
    match scrypto::math::CheckedMul::checked_mul(x, y) {
        Some(p) => u128::try_from(p.attos()).ok(),
        None => None,
    }
}

/// With a base of at least one, every factor is at least one.
pub proof fn lemma_factor_at_least_one(base: int, n: nat)
    requires
        base >= ONE_ATTOS as int,
    ensures
        compound_factor(base, n) >= ONE_ATTOS as int,
    decreases n,
{
    if n > 0 {
        lemma_factor_at_least_one(base, (n - 1) as nat);
        lemma_factor_step_grows(base, (n - 1) as nat);
    }
}

/// With a base of at least one, one more period never lowers the factor.
pub proof fn lemma_factor_step_grows(base: int, n: nat)
    requires
        base >= ONE_ATTOS as int,
    ensures
        compound_factor(base, n) <= compound_factor(base, n + 1),
    decreases n,
{
    let f = compound_factor(base, n);
    let one = ONE_ATTOS as int;
    if n > 0 {
        lemma_factor_at_least_one(base, (n - 1) as nat);
        lemma_factor_step_grows(base, (n - 1) as nat);
    }
    assert(f >= 0);
    assert(f * one <= f * base) by (nonlinear_arith)
        requires
            f >= 0,
            one <= base,
    ;
    vstd::arithmetic::div_mod::lemma_div_is_ordered(f * one, f * base, one);
    vstd::arithmetic::div_mod::lemma_div_by_multiple(f, one);
    assert(compound_factor(base, n + 1) == fixed_mul(f, base));
}

/// With a base of at least one, the factor never falls as periods go by.
pub proof fn lemma_factor_monotone(base: int, i: nat, j: nat)
    requires
        base >= ONE_ATTOS as int,
        i <= j,
    ensures
        compound_factor(base, i) <= compound_factor(base, j),
    decreases j - i,
{
    if i < j {
        lemma_factor_monotone(base, i, (j - 1) as nat);
        lemma_factor_step_grows(base, (j - 1) as nat);
    }
}

/// Once a step leaves the factor unchanged, it stays there.
pub proof fn lemma_factor_settled(base: int, i: nat, j: nat)
    requires
        i <= j,
        compound_factor(base, i + 1) == compound_factor(base, i),
    ensures
        compound_factor(base, j) == compound_factor(base, i),
    decreases j - i,
{
    if i < j {
        lemma_factor_settled(base, i, (j - 1) as nat);
        assert(compound_factor(base, j) == fixed_mul(compound_factor(base, (j - 1) as nat), base));
    }
}

/// The compound factor `base^periods` in attos, or `None` where it exceeds
/// `u128::MAX`.
pub fn compound(base: u128, periods: u64) -> (r: Option<u128>)
    requires
        base >= ONE_ATTOS,
    ensures
        r == (if compound_factor(base as int, periods as nat) <= u128::MAX {
            Some(compound_factor(base as int, periods as nat) as u128)
        } else {
            None::<u128>
        }),
{
    let mut factor: u128 = ONE_ATTOS;
    let mut i: u64 = 0;
    while i < periods
        invariant
            base >= ONE_ATTOS,
            i <= periods,
            factor as int == compound_factor(base as int, i as nat),
        decreases periods - i,
    {
        let step = checked_mul_attos(factor, base);
        match step {
            None => {
                proof {
                    lemma_factor_monotone(base as int, (i + 1) as nat, periods as nat);
                }
                return None;
            },
            Some(next) => {
                if next == factor {
                    proof {
                        lemma_factor_settled(base as int, i as nat, periods as nat);
                    }
                    return Some(factor);
                }
                factor = next;
                i = i + 1;
            },
        }
    }
    Some(factor)
}

/// The amount owed on `principal` after `periods` periods at `rate` per
/// period, compounded: `principal * (1 + rate)^periods`.
pub fn total_due(principal: Decimal, rate: Decimal, periods: u64) -> (r: Option<Decimal>)
    ensures
        match total_due_spec(principal.attos as int, rate.attos as int, periods as nat) {
            Some(t) => 0 <= t <= u128::MAX && r == Some(Decimal { attos: t as u128 }),
            None => r is None,
        },
{
    if periods == 0 {
        return Some(principal);
    }
    let base = match ONE_ATTOS.checked_add(rate.attos) {
        Some(b) => b,
        None => return None,
    };
    let factor = match compound(base, periods) {
        Some(f) => f,
        None => return None,
    };
    proof {
        lemma_factor_at_least_one(base as int, periods as nat);
        let p = principal.attos as int;
        let f = factor as int;
        assert(p * f >= 0) by (nonlinear_arith)
            requires
                p >= 0,
                f >= 0,
        ;
    }
    match checked_mul_attos(principal.attos, factor) {
        Some(t) => Some(Decimal { attos: t }),
        None => None,
    }
}

/// A factor of at least one never shrinks the principal.
pub proof fn lemma_total_covers_principal(principal: int, factor: int)
    requires
        principal >= 0,
        factor >= ONE_ATTOS as int,
    ensures
        fixed_mul(principal, factor) >= principal,
{
    let one = ONE_ATTOS as int;
    assert(principal * one <= principal * factor) by (nonlinear_arith)
        requires
            principal >= 0,
            one <= factor,
    ;
    vstd::arithmetic::div_mod::lemma_div_is_ordered(principal * one, principal * factor, one);
    vstd::arithmetic::div_mod::lemma_div_by_multiple(principal, one);
}

/// The interest that `periods` periods at `rate` add to `principal`: the
/// total due less the principal.
pub fn accrued_interest(principal: Decimal, rate: Decimal, periods: u64) -> (r: Option<Decimal>)
    ensures
        match total_due_spec(principal.attos as int, rate.attos as int, periods as nat) {
            Some(t) => t >= principal.attos && r == Some(
                Decimal { attos: (t - principal.attos) as u128 },
            ),
            None => r is None,
        },
{
    match total_due(principal, rate, periods) {
        None => None,
        Some(t) => {
            proof {
                if periods > 0 {
                    lemma_factor_at_least_one(ONE_ATTOS as int + rate.attos as int, periods as nat);
                    lemma_total_covers_principal(
                        principal.attos as int,
                        compound_factor(ONE_ATTOS as int + rate.attos as int, periods as nat),
                    );
                }
            }
            Some(Decimal { attos: t.attos - principal.attos })
        },
    }
}

} // verus!
