//! Primality, for the sampling filter that keeps prime positions only.

use vstd::prelude::*;

verus! {

/// `d` divides `n`.
pub open spec fn divides(d: nat, n: nat) -> bool {
    d > 0 && n % d == 0
}

/// `n` is prime: at least 2, and no number strictly between 1 and `n`
/// divides it.
pub open spec fn is_prime_spec(n: nat) -> bool {
    n >= 2 && forall|d: nat| 2 <= d < n ==> !#[trigger] divides(d, n)
}

proof fn lemma_even_divisor(k: nat, n: nat)
    requires
        k > 0,
        k % 2 == 0,
        n % k == 0,
    ensures
        n % 2 == 0,
{
    let q = n / k;
    let h = k / 2;
    assert(n == k * q) by (nonlinear_arith)
        requires
            k > 0,
            n % k == 0,
            q == n / k,
    ;
    assert(n == 2 * (h * q)) by (nonlinear_arith)
        requires
            n == k * q,
            k == 2 * h,
    ;
}

/// The quotient of a divisor is a divisor too, and the two bracket the square
/// root.
proof fn lemma_cofactor(k: nat, n: nat, d: nat)
    requires
        2 <= k < n,
        n % k == 0,
        d <= k,
        d * d > n,
    ensures
        2 <= n / k < d,
        n % (n / k) == 0,
{
    let q = n / k;
    assert(n == k * q) by (nonlinear_arith)
        requires
            k > 0,
            n % k == 0,
            q == n / k,
    ;
    assert(q >= 2) by (nonlinear_arith)
        requires
            n == k * q,
            k < n,
            k >= 2,
    ;
    assert(q < d) by (nonlinear_arith)
        requires
            n == k * q,
            d <= k,
            d * d > n,
            k >= 2,
    ;
    assert(n % q == 0) by (nonlinear_arith)
        requires
            n == k * q,
            q >= 2,
    ;
}

/// Whether `n` is prime, by trial division.
pub fn is_prime(n: u64) -> (r: bool)
    ensures
        r == is_prime_spec(n as nat),
{
    if n < 2 {
        return false;
    }
    if n % 2 == 0 {
        if n != 2 {
            assert(divides(2, n as nat));
        }
        return n == 2;
    }
    let mut d: u64 = 3;
    assert forall|k: nat| 2 <= k < 3 implies !#[trigger] divides(k, n as nat) by {}
    while d <= n / d
        invariant
            n >= 3,
            n % 2 == 1,
            d >= 3,
            d % 2 == 1,
            d <= n,
            forall|k: nat| 2 <= k < d ==> !#[trigger] divides(k, n as nat),
        decreases n - d,
    {
        assert(3 * d <= n) by (nonlinear_arith)
            requires
                d <= n / d,
                d >= 3,
        ;
        if n % d == 0 {
            assert(divides(d as nat, n as nat));
            return false;
        }
        proof {
            if divides((d + 1) as nat, n as nat) {
                lemma_even_divisor((d + 1) as nat, n as nat);
            }
        }
        d = d + 2;
    }
    proof {
        let dd = d as nat;
        let nn = n as nat;
        assert(dd * dd > nn) by (nonlinear_arith)
            requires
                dd > nn / dd,
                dd >= 3,
        ;
        assert forall|k: nat| 2 <= k < nn implies !#[trigger] divides(k, nn) by {
            if k >= dd && divides(k, nn) {
                lemma_cofactor(k, nn, dd);
                assert(divides(nn / k, nn));
            }
        }
    }
    true
}

} // verus!
