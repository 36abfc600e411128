//! Rounding to a number of binary digits, as binary floating point does.

use vstd::prelude::*;

verus! {

/// The least of `step`, twice `step`, four times `step` and so on by which `n` divided is below
/// `limit`.
pub open spec fn rounding_step_from(n: nat, step: nat, limit: nat) -> nat
    decreases n - step,
{
    if step == 0 || limit < 2 || n < step * limit || n < 2 * step {
        step
    } else {
        rounding_step_from(n, 2 * step, limit)
    }
}

/// `n / d` to the nearest whole number, to the even one of two.
pub open spec fn rounded_quotient(n: nat, d: nat) -> nat {
    let q = n / d;
    let r = n % d;
    if 2 * r > d || (2 * r == d && q % 2 == 1) {
        q + 1
    } else {
        q
    }
}

/// A number rounded so that it has not more binary digits than `limit - 1`, for a power of two
/// `limit`.
pub open spec fn rounded(n: nat, limit: nat) -> nat {
    let step = rounding_step_from(n, 1, limit);
    rounded_quotient(n, step) * step
}

/// `n / d` to the nearest whole number, to the even one of two.
pub fn quotient(n: u128, d: u128) -> (out: u128)
    requires
        0 < d <= 0x1_0000_0000_0000_0000,
        n <= 0x1_0000_0000_0000_0000_0000,
    ensures
        out == rounded_quotient(n as nat, d as nat),
        out <= n / d + 1,
{
    let q: u128 = n / d;
    let r: u128 = n % d;
    if 2 * r > d || (2 * r == d && q % 2 == 1) {
        q + 1
    } else {
        q
    }
}

/// A number rounded so that it has not more binary digits than `limit - 1`.
pub fn round_to(n: u64, limit: u64) -> (out: u128)
    requires
        limit >= 2,
    ensures
        out == rounded(n as nat, limit as nat),
        out <= 2 * n + 1,
{
    let n: u128 = n as u128;
    let limit: u128 = limit as u128;
    let mut step: u128 = 1;
    while n / step >= limit
        invariant
            2 <= limit <= 0xffff_ffff_ffff_ffff,
            n <= 0xffff_ffff_ffff_ffff,
            1 <= step,
            step == 1 || step <= n,
            rounding_step_from(n as nat, step as nat, limit as nat) == rounding_step_from(
                n as nat,
                1,
                limit as nat,
            ),
        decreases n + 1 - step,
    {
        proof {
            let q = n / step;
            assert(n >= step * limit && n >= 2 * step) by (nonlinear_arith)
                requires
                    q == n / step,
                    q >= limit,
                    limit >= 2,
                    step >= 1,
                    n >= 0,
            ;
        }
        step = 2 * step;
    }
    proof {
        let q = n / step;
        assert(n < step * limit) by (nonlinear_arith)
            requires
                q == n / step,
                q < limit,
                step >= 1,
                n >= 0,
        ;
    }
    let q: u128 = quotient(n, step);
    assert(q * step <= 2 * n + 1) by (nonlinear_arith)
        requires
            q <= n / step + 1,
            step == 1 || step <= n,
            step >= 1,
            n >= 0,
    ;
    q * step
}

} // verus!
