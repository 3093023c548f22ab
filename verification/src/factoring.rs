//! Trial-division primality and prime factorization.

use vstd::arithmetic::div_mod::lemma_fundamental_div_mod;
use vstd::arithmetic::div_mod::lemma_mod_multiples_basic;
use vstd::prelude::*;

verus! {

/// A prime: at least two, with no smaller divisor.
pub open spec fn spec_is_prime(p: int) -> bool {
    p >= 2 && forall|d: int| 2 <= d < p ==> #[trigger] (p % d) != 0
}

proof fn lemma_divides_transitive(a: int, b: int, c: int)
    requires
        a > 0,
        b > 0,
        c > 0,
        a % b == 0,
        b % c == 0,
    ensures
        a % c == 0,
{
    lemma_fundamental_div_mod(a, b);
    lemma_fundamental_div_mod(b, c);
    let k = a / b;
    let m = b / c;
    assert(a == b * k);
    assert(b == c * m);
    assert(a == (k * m) * c) by (nonlinear_arith)
        requires
            a == b * k,
            b == c * m,
    ;
    lemma_mod_multiples_basic(k * m, c);
}

/// Primality by the probe range `2 <= f`, `(f + 1)^2 <= num`: candidate
/// factors strictly below the square root. A number with no divisor in that
/// range is reported prime — which lets a composite whose factors all sit at
/// or above the square root (six, nine) slip through. The contract states
/// the probe range exactly, quirk included.
pub fn is_prime(num: u32) -> (r: bool)
    ensures
        r == (num > 1 && forall|f: int|
            2 <= f && (f + 1) * (f + 1) <= num ==> #[trigger] (num as int % f) != 0),
{
    if num <= 1 {
        return false;
    }
    let mut f: u32 = 2;
    while (f as u64 + 1) * (f as u64 + 1) <= num as u64
        invariant
            num > 1,
            2 <= f <= 0x10001,
            (f as int + 1) * (f as int + 1) < 0x200000000,
            forall|g: int| 2 <= g < f ==> #[trigger] (num as int % g) != 0,
        decreases num as int - f as int,
    {
        proof {
            assert(f as int + 1 <= num as int) by (nonlinear_arith)
                requires
                    (f as int + 1) * (f as int + 1) <= num as int,
                    f >= 2,
            ;
        }
        if num % f == 0 {
            proof {
                assert(2 <= f as int && (f as int + 1) * (f as int + 1) <= num as int && num as int
                    % (f as int) == 0);
            }
            return false;
        }
        proof {
            assert(f as int + 1 <= 0x10000) by (nonlinear_arith)
                requires
                    (f as int + 1) * (f as int + 1) <= 0xffffffffi64 as int,
            ;
            assert((f as int + 2) * (f as int + 2) < 0x200000000) by (nonlinear_arith)
                requires
                    f as int + 2 <= 0x10001,
            ;
        }
        f += 1;
    }
    proof {
        assert forall|g: int| 2 <= g && (g + 1) * (g + 1) <= num as int implies #[trigger] (
        num as int % g) != 0 by {
            if g >= f as int {
                assert((g + 1) * (g + 1) >= (f as int + 1) * (f as int + 1)) by (nonlinear_arith)
                    requires
                        g >= f as int,
                        f >= 2,
                ;
            }
        }
    }
    true
}

/// The product of a run of factors.
pub open spec fn product_of(s: Seq<u32>) -> int
    decreases s.len(),
{
    if s.len() == 0 {
        1
    } else {
        product_of(s.drop_last()) * s.last()
    }
}

/// Prime factorization by trial division: the returned factors are prime,
/// nondecreasing, and multiply back to the number. One is the empty product.
pub fn prime_factors(num: u32) -> (r: Vec<u32>)
    requires
        num >= 1,
    ensures
        product_of(r@) == num,
        forall|i: int| 0 <= i < r@.len() ==> spec_is_prime(#[trigger] r@[i] as int),
        forall|i: int, j: int| 0 <= i <= j < r@.len() ==> #[trigger] r@[i] <= #[trigger] r@[j],
{
    let mut factors: Vec<u32> = Vec::new();
    let mut curr: u32 = num;
    let mut f: u32 = 2;
    while curr > 1
        invariant
            1 <= curr <= num,
            2 <= f,
            curr > 1 ==> f <= curr,
            product_of(factors@) * curr == num,
            forall|d: int| 2 <= d < f ==> #[trigger] (curr as int % d) != 0,
            forall|i: int| 0 <= i < factors@.len() ==> spec_is_prime(#[trigger] factors@[i] as int),
            forall|i: int| 0 <= i < factors@.len() ==> #[trigger] factors@[i] <= f,
            forall|i: int, j: int|
                0 <= i <= j < factors@.len() ==> #[trigger] factors@[i] <= #[trigger] factors@[j],
        decreases curr, curr - f,
    {
        if curr % f == 0 {
            let ghost oldfactors = factors@;
            let ghost oldcurr = curr;
            factors.push(f);
            proof {
                assert(factors@.drop_last() =~= oldfactors);
                assert(product_of(factors@) == product_of(oldfactors) * f);
                // the pushed factor is prime: a smaller divisor of it would
                // divide curr as well
                assert forall|d: int| 2 <= d < f implies #[trigger] (f as int % d) != 0 by {
                    if f as int % d == 0 {
                        lemma_divides_transitive(curr as int, f as int, d);
                    }
                }
                assert(spec_is_prime(f as int));
            }
            let newcurr = curr / f;
            proof {
                lemma_fundamental_div_mod(curr as int, f as int);
                assert(curr as int == f as int * (newcurr as int));
                assert(product_of(oldfactors) * curr == product_of(factors@) * newcurr)
                    by (nonlinear_arith)
                    requires
                        curr as int == f as int * (newcurr as int),
                        product_of(factors@) == product_of(oldfactors) * f,
                ;
                assert(newcurr >= 1) by (nonlinear_arith)
                    requires
                        curr as int == f as int * (newcurr as int),
                        curr >= f >= 2,
                ;
                assert(newcurr < curr) by (nonlinear_arith)
                    requires
                        curr as int == f as int * (newcurr as int),
                        f >= 2,
                        newcurr >= 1,
                ;
                lemma_mod_multiples_basic(f as int, newcurr as int);
                assert(curr as int % newcurr as int == 0);
                // no candidate below f divides what is left
                assert forall|d: int| 2 <= d < f implies #[trigger] (newcurr as int % d) != 0 by {
                    if newcurr as int % d == 0 {
                        lemma_divides_transitive(curr as int, newcurr as int, d);
                    }
                }
                // and what is left, if not exhausted, is at least f
                if newcurr > 1 && newcurr < f {
                    assert((curr as int % newcurr as int) != 0);
                }
            }
            curr = newcurr;
        } else {
            proof {
                assert(f < curr) by {
                    if f == curr {
                        assert(curr as int % f as int == 0) by (nonlinear_arith)
                            requires
                                f == curr,
                                f >= 2,
                        ;
                    }
                }
            }
            f += 1;
        }
    }
    factors
}

} // verus!
