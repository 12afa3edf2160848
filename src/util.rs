use vstd::prelude::*;

verus! {

/// `x` is `4^k` for some `k`.
pub open spec fn is_power_of_four(x: nat) -> bool
    decreases x,
{
    if x <= 1 {
        x == 1
    } else {
        x % 4 == 0 && is_power_of_four(x / 4)
    }
}

/// Of two powers of four, a smaller one is at most a quarter of a larger one.
proof fn lemma_power_of_four_gap(x: nat, p: nat)
    requires
        is_power_of_four(x),
        is_power_of_four(p),
        x < p,
    ensures
        4 * x <= p,
    decreases p,
{
    if x != 1 {
        lemma_power_of_four_gap(x / 4, p / 4);
    }
}

/// Integer square root: the largest `r` with `r * r <= value`.
///
/// Digit-by-digit method, two bits of `value` per step.
pub fn sqrt(value: usize) -> (r: usize)
    ensures
        r * r <= value,
        value < (r + 1) * (r + 1),
{
    if value < 2 {
        assert(value < (value + 1) * (value + 1)) by (nonlinear_arith);
        assert(value * value <= value) by (nonlinear_arith)
            requires value < 2;
        return value;
    }
    let ghost v0: nat = value as nat;
    let mut value: usize = value;

    // The largest power of four not above `value`.
    let mut one: usize = 1;
    while one <= value / 4
        invariant
            is_power_of_four(one as nat),
            1 <= one <= value,
        decreases value - one,
    {
        one = one * 4;
    }
    assert(value < 4 * one);

    let mut res: usize = 0;
    let ghost mut r: nat = 0;
    let ghost mut q: nat = 4 * one as nat;
    proof {
        assert(is_power_of_four(q)) by {
            assert((4 * one as nat) / 4 == one as nat);
        }
        assert(v0 < (r + 1) * (r + 1) * q) by (nonlinear_arith)
            requires r == 0, q == 4 * one as nat, v0 < q;
    }
    while one != 0
        invariant
            value as nat + r * r * q == v0,
            v0 < (r + 1) * (r + 1) * q,
            res as nat == r * q,
            v0 <= usize::MAX,
            one == 0 ==> q == 1,
            one != 0 ==> q == 4 * one as nat && is_power_of_four(q) && is_power_of_four(one as nat),
        decreases one,
    {
        assert(res as nat + one as nat <= usize::MAX) by {
            sqrt_step_fits(r, one as nat, v0);
            assert(r * r * q <= v0);
        }
        if value >= res + one {
            proof {
                assert((res as nat / 2) == 2 * r * one as nat) by (nonlinear_arith)
                    requires res as nat == r * q, q == 4 * one as nat;
                assert(v0 < (2 * r + 1 + 1) * (2 * r + 1 + 1) * one as nat) by (nonlinear_arith)
                    requires v0 < (r + 1) * (r + 1) * q, q == 4 * one as nat;
                assert((value - (res + one)) as nat + (2 * r + 1) * (2 * r + 1) * one as nat == v0)
                    by (nonlinear_arith)
                    requires
                        value as nat + r * r * q == v0,
                        res as nat == r * q,
                        q == 4 * one as nat,
                        value >= res + one;
            }
            value = value - (res + one);
            res = res / 2 + one;
            proof {
                assert(res as nat == (2 * r + 1) * one as nat) by (nonlinear_arith)
                    requires res as nat == 2 * r * one as nat + one as nat;
                r = 2 * r + 1;
            }
        } else {
            proof {
                assert((res as nat / 2) == 2 * r * one as nat) by (nonlinear_arith)
                    requires res as nat == r * q, q == 4 * one as nat;
                assert(v0 < (2 * r + 1) * (2 * r + 1) * one as nat) by (nonlinear_arith)
                    requires
                        value as nat + r * r * q == v0,
                        res as nat == r * q,
                        q == 4 * one as nat,
                        value < res + one;
                assert(value as nat + (2 * r) * (2 * r) * one as nat == v0) by (nonlinear_arith)
                    requires value as nat + r * r * q == v0, q == 4 * one as nat;
            }
            res = res / 2;
            proof {
                assert(res as nat == (2 * r) * one as nat) by (nonlinear_arith)
                    requires res as nat == 2 * r * one as nat;
                r = 2 * r;
            }
        }
        proof {
            q = one as nat;
            if one > 1 {
                assert(one as nat == 4 * (one as nat / 4));
            }
        }
        one = one / 4;
    }
    assert(res as nat == r);
    res
}

/// The trial `res + one` of a step of `sqrt` stays within `usize`.
proof fn sqrt_step_fits(r: nat, one: nat, v0: nat)
    requires
        1 <= one <= usize::MAX,
        is_power_of_four(4 * one),
        r * r * (4 * one) <= v0,
        v0 <= usize::MAX,
    ensures
        r * (4 * one) + one <= usize::MAX,
{
    let q = 4 * one;
    if r == 0 {
        assert(r * q == 0) by (nonlinear_arith)
            requires r == 0;
        assert(one <= q);
    } else if r == 1 {
        assert(r * q == q) by (nonlinear_arith)
            requires r == 1;
        assert(r * r * q == q) by (nonlinear_arith)
            requires r == 1;
        if usize::MAX == 0xffff_ffff {
            let big: nat = 0x4000_0000;
            assert(is_power_of_four(big)) by {
                reveal_with_fuel(is_power_of_four, 16);
            }
            if q > big {
                lemma_power_of_four_gap(big, q);
            }
            assert(q + one <= 0x5000_0000);
        } else {
            assert(usize::MAX == 0xffff_ffff_ffff_ffff);
            let big: nat = 0x4000_0000_0000_0000;
            assert(is_power_of_four(big)) by {
                reveal_with_fuel(is_power_of_four, 32);
            }
            if q > big {
                lemma_power_of_four_gap(big, q);
            }
            assert(q + one <= 0x5000_0000_0000_0000);
        }
    } else {
        assert(r * q + one <= r * r * q) by (nonlinear_arith)
            requires r >= 2, q == 4 * one, one >= 1;
        assert(r * r * q <= v0);
    }
}

} // verus!
