//! Whole-number arithmetic of the `math` package.

use vstd::prelude::*;
use vstd::arithmetic::power::pow;

verus! {

/// The absolute value of an integer.
pub open spec fn iabs(a: int) -> int {
    if a < 0 {
        -a
    } else {
        a
    }
}

/// Powers of 0, 1 and -1.
proof fn lemma_pow_unit(x: int, e: nat)
    requires
        -1 <= x <= 1,
    ensures
        x == 0 && e > 0 ==> pow(x, e) == 0,
        x == 1 ==> pow(x, e) == 1,
        x == -1 ==> pow(x, e) == (if e % 2 == 0 {
            1int
        } else {
            -1int
        }),
    decreases e,
{
    reveal(pow);
    if e > 0 {
        lemma_pow_unit(x, (e - 1) as nat);
    }
}

/// For a base of size at least 2, a higher power is at least twice as large
/// as a lower one.
proof fn lemma_pow_doubles(x: int, k: nat, e: nat)
    requires
        iabs(x) >= 2,
        k < e,
    ensures
        iabs(pow(x, e)) >= 2 * iabs(pow(x, k)),
    decreases e,
{
    reveal(pow);
    let p = pow(x, (e - 1) as nat);
    assert(pow(x, e) == x * p);
    assert(iabs(x * p) == iabs(x) * iabs(p)) by (nonlinear_arith);
    assert(iabs(x) * iabs(p) >= 2 * iabs(p)) by (nonlinear_arith)
        requires
            iabs(x) >= 2,
            iabs(p) >= 0,
    ;
    if k < e - 1 {
        lemma_pow_doubles(x, k, (e - 1) as nat);
    }
}

/// `x` to the power of `y` taken as a `u32` (its low 32 bits), when that
/// fits in an `i64`; `None` when it does not.
pub fn int_pow(x: i64, y: i64) -> (r: Option<i64>)
    ensures
        ({
            let p = pow(x as int, (y as u32) as nat);
            r == if i64::MIN <= p <= i64::MAX {
                Some(p as i64)
            } else {
                None::<i64>
            }
        }),
{
    let e: u32 = y as u32;
    let ghost en = e as nat;
    proof {
        reveal(pow);
    }
    if -1 <= x && x <= 1 {
        proof {
            lemma_pow_unit(x as int, en);
        }
        if x == 0 {
            return if e == 0 {
                Some(1)
            } else {
                Some(0)
            };
        } else if x == 1 {
            return Some(1);
        } else {
            return if e % 2 == 0 {
                Some(1)
            } else {
                Some(-1)
            };
        }
    }
    let mut acc: i64 = 1;
    let mut i: u32 = 0;
    while i < e
        invariant
            i <= e,
            en == e,
            e == y as u32,
            iabs(x as int) >= 2,
            acc as int == pow(x as int, i as nat),
        decreases e - i,
    {
        assert(pow(x as int, (i + 1) as nat) == x * pow(x as int, i as nat)) by {
            reveal(pow);
        }
        match acc.checked_mul(x) {
            Some(v) => {
                acc = v;
                i += 1;
            },
            None => {
                proof {
                    let p1 = pow(x as int, (i + 1) as nat);
                    assert(iabs(p1) >= 0x8000_0000_0000_0000);
                    if i + 1 < e {
                        lemma_pow_doubles(x as int, (i + 1) as nat, en);
                    }
                }
                return None;
            },
        }
    }
    Some(acc)
}

} // verus!
