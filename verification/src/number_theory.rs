//! Facts of elementary number theory that the key and cipher code rests on.
use vstd::prelude::*;
use vstd::arithmetic::div_mod::*;
use vstd::arithmetic::mul::*;
use vstd::arithmetic::power::*;

verus! {

/// Greatest common divisor, by Euclid's recursion.
pub open spec fn spec_gcd(a: nat, b: nat) -> nat
    decreases b,
{
    if b == 0 { a } else { spec_gcd(b, a % b) }
}

/// `d` divides `n` (for a positive `d`).
pub open spec fn divides(d: nat, n: nat) -> bool {
    d > 0 && n % d == 0
}

/// Absolute value of an integer.
pub open spec fn iabs(a: int) -> nat {
    if a >= 0 { a as nat } else { (-a) as nat }
}


/// Rust's `/` on integers: the quotient rounded toward zero.
pub open spec fn tdiv(a: int, b: int) -> int {
    if a >= 0 {
        a / b
    } else {
        -((-a) / b)
    }
}

/// Rust's `%` on integers: the remainder of [`tdiv`], with the sign of `a`.
pub open spec fn trem(a: int, b: int) -> int {
    if a >= 0 {
        a % b
    } else {
        -((-a) % b)
    }
}

/// The extended Euclidean recursion on integers, with Rust's division and
/// remainder: `(g, x, y)`.
pub open spec fn ext_gcd_int(a: int, b: int) -> (int, int, int)
    decreases iabs(b),
{
    if b == 0 {
        (a, 1, 0)
    } else {
        proof {
            lemma_trunc(a, b);
        }
        let r = ext_gcd_int(b, trem(a, b));
        (r.0, r.2, r.1 - tdiv(a, b) * r.2)
    }
}

/// Euclidean division by a negative divisor: the remainder is that of the
/// positive divisor, the quotient its negation.
pub proof fn lemma_mod_neg_divisor(x: int, d: int)
    requires
        d < 0,
    ensures
        x % d == x % (-d),
        x / d == -(x / (-d)),
{
    let q = x / (-d);
    let r = x % (-d);
    lemma_fundamental_div_mod(x, -d);
    lemma_mod_bound(x, -d);
    let q2 = x / d;
    let r2 = x % d;
    assert(x == d * q2 + r2 && 0 <= r2 < -d) by (nonlinear_arith)
        requires
            d < 0,
            q2 == x / d,
            r2 == x % d,
    ;
    assert(d * (q2 + q) == r - r2) by (nonlinear_arith)
        requires
            x == d * q2 + r2,
            x == (-d) * q + r,
    ;
    assert(q2 + q == 0) by (nonlinear_arith)
        requires
            d * (q2 + q) == r - r2,
            d < 0,
            0 <= r < -d,
            0 <= r2 < -d,
    ;
}

/// Truncating division splits `a` into a multiple of `b` and a remainder
/// whose size is that of the remainder of the sizes.
pub proof fn lemma_trunc(a: int, b: int)
    requires
        b != 0,
    ensures
        a == tdiv(a, b) * b + trem(a, b),
        iabs(trem(a, b)) == iabs(a) % iabs(b),
        iabs(trem(a, b)) < iabs(b),
        iabs(a) == iabs(tdiv(a, b)) * iabs(b) + iabs(trem(a, b)),
        a >= 0 ==> trem(a, b) >= 0,
        a < 0 ==> trem(a, b) <= 0,
{
    let n = iabs(a) as int;
    let m = iabs(b) as int;
    lemma_fundamental_div_mod(n, m);
    lemma_mod_bound(n, m);
    lemma_div_pos_is_pos(n, m);
    let q = n / m;
    let r = n % m;
    assert(n == q * m + r) by {
        lemma_mul_is_commutative(q, m);
    }
    if b < 0 {
        lemma_mod_neg_divisor(n, b);
    }
    // Now (n / b, n % b) is (q, r) for b > 0 and (-q, r) for b < 0.
    if a >= 0 {
        assert(trem(a, b) == r);
        if b > 0 {
            assert(tdiv(a, b) == q);
        } else {
            assert(tdiv(a, b) == -q);
            assert(-q * b == q * m) by (nonlinear_arith)
                requires
                    m == -b,
            ;
        }
    } else {
        assert(trem(a, b) == -r);
        if b > 0 {
            assert(tdiv(a, b) == -q);
            assert(-q * b == -(q * m)) by (nonlinear_arith)
                requires
                    m == b,
            ;
        } else {
            assert(tdiv(a, b) == q);
            assert(q * b == -(q * m)) by (nonlinear_arith)
                requires
                    m == -b,
            ;
        }
    }
    assert(iabs(tdiv(a, b)) == q);
}

/// If `d` divides `x` and `y`, it divides `x + k * y` and `x - k * y`.
pub proof fn lemma_divides_combination(x: int, y: int, k: int, d: int)
    requires
        d > 0,
        x % d == 0,
        y % d == 0,
    ensures
        (x + k * y) % d == 0,
        (x - k * y) % d == 0,
{
    lemma_mul_mod_noop_right(k, y, d);
    assert(k * (y % d) == 0);
    lemma_small_mod(0, d as nat);
    assert((k * y) % d == 0);
    lemma_add_mod_noop(x, k * y, d);
    lemma_sub_mod_noop(x, k * y, d);
}

/// The gcd divides both arguments, and is positive unless both are zero.
pub proof fn lemma_gcd_divides(a: nat, b: nat)
    ensures
        (a > 0 || b > 0) ==> spec_gcd(a, b) > 0,
        (a > 0 || b > 0) ==> a % spec_gcd(a, b) == 0 && b % spec_gcd(a, b) == 0,
    decreases b,
{
    if b > 0 {
        let r = a % b;
        lemma_gcd_divides(b, r);
        let g = spec_gcd(a, b);
        lemma_fundamental_div_mod(a as int, b as int);
        assert(a as int == r + (a / b) as int * b) by {
            lemma_mul_is_commutative((a / b) as int, b as int);
        }
        lemma_divides_combination(r as int, b as int, (a / b) as int, g as int);
    } else if a > 0 {
        lemma_mod_self_0(a as int);
        lemma_small_mod(0, a);
    }
}

/// Every common divisor of `a` and `b` divides their gcd.
pub proof fn lemma_gcd_greatest(a: nat, b: nat, d: nat)
    requires
        d > 0,
        a % d == 0,
        b % d == 0,
    ensures
        spec_gcd(a, b) % d == 0,
    decreases b,
{
    if b > 0 {
        let r = a % b;
        lemma_fundamental_div_mod(a as int, b as int);
        assert(r as int == a - (a / b) as int * b) by {
            lemma_mul_is_commutative((a / b) as int, b as int);
        }
        lemma_divides_combination(a as int, b as int, (a / b) as int, d as int);
        lemma_gcd_greatest(b, r, d);
    }
}

/// The size of a multiple of `g` that is smaller than another nonzero
/// multiple `m` is at most `m - g`, so a nonzero multiple below `2g` is `g`.
proof fn lemma_multiple_sizes(x: nat, g: nat)
    requires
        g > 0,
        x % g == 0,
        x > 0,
    ensures
        x >= g,
        x < 2 * g ==> x == g,
{
    lemma_mod_is_zero(x, g);
    lemma_fundamental_div_mod(x as int, g as int);
    let k = x / g;
    assert(x == g * k) by {
        lemma_mul_is_commutative(k as int, g as int);
    }
    if x < 2 * g {
        assert(k < 2) by (nonlinear_arith)
            requires
                x == g * k,
                x < 2 * g,
                g > 0,
        ;
        assert(k != 0) by (nonlinear_arith)
            requires
                x == g * k,
                x > 0,
        ;
        assert(k == 1);
        assert(x == g) by (nonlinear_arith)
            requires
                x == g * k,
                k == 1,
        ;
    }
}

/// The size of a product is the product of the sizes.
pub proof fn lemma_iabs_mul(a: int, b: int)
    ensures
        iabs(a * b) == iabs(a) * iabs(b),
{
    if a >= 0 && b >= 0 {
        assert(a * b >= 0) by (nonlinear_arith)
            requires
                a >= 0,
                b >= 0,
        ;
    } else if a >= 0 {
        assert(a * b <= 0 && -(a * b) == a * (-b)) by (nonlinear_arith)
            requires
                a >= 0,
                b < 0,
        ;
    } else if b >= 0 {
        assert(a * b <= 0 && -(a * b) == (-a) * b) by (nonlinear_arith)
            requires
                a < 0,
                b >= 0,
        ;
    } else {
        assert(a * b > 0 && a * b == (-a) * (-b)) by (nonlinear_arith)
            requires
                a < 0,
                b < 0,
        ;
    }
}

/// A coefficient bounded as in [`lemma_ext_gcd_int`], for an argument of at
/// most `2^63`, is at most `2^62`.
pub proof fn lemma_coefficient_fits(c: nat, g: nat, n: nat)
    requires
        g >= 1,
        n <= 0x8000_0000_0000_0000,
        2 * c * g <= (if n > 2 * g { n } else { 2 * g }),
    ensures
        c <= 0x4000_0000_0000_0000,
{
    if n > 2 * g {
        assert(2 * c <= 2 * c * g) by (nonlinear_arith)
            requires
                g >= 1,
        ;
    } else {
        assert(c <= 1) by (nonlinear_arith)
            requires
                2 * c * g <= 2 * g,
                g >= 1,
        ;
    }
}

/// The extended recursion computes a gcd up to sign, Bezout coefficients for
/// it, and coefficients of at most half the other argument over the gcd (or
/// at most 1). For nonnegative arguments the gcd is nonnegative.
pub proof fn lemma_ext_gcd_int(a: int, b: int)
    ensures
        iabs(ext_gcd_int(a, b).0) == spec_gcd(iabs(a), iabs(b)),
        a * ext_gcd_int(a, b).1 + b * ext_gcd_int(a, b).2 == ext_gcd_int(a, b).0,
        a >= 0 && b >= 0 ==> ext_gcd_int(a, b).0 >= 0,
        spec_gcd(iabs(a), iabs(b)) > 0 ==> 2 * iabs(ext_gcd_int(a, b).1) * spec_gcd(iabs(a), iabs(b))
            <= (if iabs(b) > 2 * spec_gcd(iabs(a), iabs(b)) { iabs(b) } else { 2 * spec_gcd(iabs(a), iabs(b)) }),
        spec_gcd(iabs(a), iabs(b)) > 0 ==> 2 * iabs(ext_gcd_int(a, b).2) * spec_gcd(iabs(a), iabs(b))
            <= (if iabs(a) > 2 * spec_gcd(iabs(a), iabs(b)) { iabs(a) } else { 2 * spec_gcd(iabs(a), iabs(b)) }),
        b != 0 ==> 2 * iabs(tdiv(a, b) * ext_gcd_int(b, trem(a, b)).2) * spec_gcd(iabs(a), iabs(b))
            <= (if iabs(a) > 2 * spec_gcd(iabs(a), iabs(b)) { iabs(a) } else { 2 * spec_gcd(iabs(a), iabs(b)) }),
    decreases iabs(b),
{
    let gn = spec_gcd(iabs(a), iabs(b));
    if b == 0 {
        assert(ext_gcd_int(a, 0) == (a, 1int, 0int));
        assert(iabs(1) == 1 && iabs(0) == 0);
        assert(a * 1 + 0 * 0 == a) by (nonlinear_arith);
        assert(gn == iabs(a));
        assert(2 * 1 * gn <= 2 * gn) by (nonlinear_arith);
        assert(2 * 0 * gn <= 2 * gn) by (nonlinear_arith);
    } else {
        lemma_trunc(a, b);
        let q = tdiv(a, b);
        let r = trem(a, b);
        lemma_ext_gcd_int(b, r);
        let (g, x1, y1) = ext_gcd_int(b, r);
        assert(ext_gcd_int(a, b) == (g, y1, x1 - q * y1));
        assert(spec_gcd(iabs(a), iabs(b)) == spec_gcd(iabs(b), iabs(a) % iabs(b)));
        assert(gn == spec_gcd(iabs(b), iabs(r)));
        // Bezout
        assert(a * y1 + b * (x1 - q * y1) == b * x1 + r * y1) by (nonlinear_arith)
            requires
                a == q * b + r,
        ;
        // bounds
        lemma_gcd_divides(iabs(b), iabs(r));
        assert(gn > 0);
        let bb = iabs(b);
        let rr = iabs(r);
        let aa = iabs(a);
        let qq = iabs(q);
        lemma_multiple_sizes(bb, gn);
        assert(aa == qq * bb + rr);
        lemma_iabs_mul(q, y1);
        if r == 0 {
            assert(ext_gcd_int(b, 0) == (b, 1int, 0int));
            assert(y1 == 0 && x1 == 1);
            assert(q * y1 == 0) by (nonlinear_arith)
                requires
                    y1 == 0,
            ;
            assert(2 * iabs(x1 - q * y1) * gn <= 2 * gn);
            assert(iabs(q * y1) == 0);
            assert(2 * iabs(q * y1) * gn == 0) by (nonlinear_arith)
                requires
                    iabs(q * y1) == 0,
            ;
        } else {
            lemma_multiple_sizes(rr, gn);
            assert(bb > rr);
            assert(bb >= 2 * gn);
            assert(2 * iabs(y1) * gn <= bb);
            assert(2 * iabs(q * y1) * gn <= aa) by (nonlinear_arith)
                requires
                    2 * iabs(y1) * gn <= bb,
                    aa == qq * bb + rr,
                    iabs(q * y1) == qq * iabs(y1),
            {
                assert(qq * (2 * iabs(y1) * gn) <= qq * bb);
            }
            if rr == gn {
                // b is a multiple of r, so the next step ends the recursion.
                lemma_trunc(b, r);
                assert(iabs(trem(b, r)) == bb % rr);
                assert(trem(b, r) == 0);
                assert(ext_gcd_int(r, 0) == (r, 1int, 0int));
                assert(ext_gcd_int(b, r) == (r, 0int, 1 - tdiv(b, r) * 0));
                assert(x1 == 0 && y1 == 1);
                assert(2 * iabs(x1 - q * y1) * gn == 2 * qq * gn) by (nonlinear_arith)
                    requires
                        x1 == 0,
                        y1 == 1,
                        qq == iabs(q),
                ;
                assert(2 * qq * gn <= qq * bb) by (nonlinear_arith)
                    requires
                        bb >= 2 * gn,
                ;
            } else {
                assert(rr >= 2 * gn);
                assert(2 * iabs(x1) * gn <= rr);
                assert(2 * iabs(x1 - q * y1) * gn <= aa) by (nonlinear_arith)
                    requires
                        2 * iabs(x1) * gn <= rr,
                        2 * iabs(y1) * gn <= bb,
                        aa == qq * bb + rr,
                        iabs(q * y1) == qq * iabs(y1),
                        iabs(x1 - q * y1) <= iabs(x1) + iabs(q * y1),
                        gn > 0,
                {
                    assert(qq * (2 * iabs(y1) * gn) <= qq * bb);
                }
            }
        }
    }
}

} // verus!

verus! {

/// Reducing the first argument modulo the second keeps the gcd.
pub proof fn lemma_gcd_mod_first(a: nat, m: nat)
    requires
        m > 0,
    ensures
        spec_gcd(a % m, m) == spec_gcd(a, m),
{
    vstd::arithmetic::div_mod::lemma_mod_bound(a as int, m as int);
    vstd::arithmetic::div_mod::lemma_mod_twice(a as int, m as int);
    assert(spec_gcd(a % m, m) == spec_gcd(m, (a % m) % m));
    assert(spec_gcd(a, m) == spec_gcd(m, a % m));
}

/// One step of square-and-multiply keeps `acc * b^e` modulo `m`.
pub proof fn lemma_mod_pow_step(acc: int, b: int, e: nat, m: int)
    requires
        m > 0,
    ensures
        e % 2 == 1 ==> ((acc * b) % m * pow((b * b) % m, e / 2)) % m == (acc * pow(b, e)) % m,
        e % 2 == 0 ==> (acc * pow((b * b) % m, e / 2)) % m == (acc * pow(b, e)) % m,
{
    let h = e / 2;
    assert(e == 2 * h + e % 2);
    lemma_pow_multiplies(b, 2, h);
    assert(pow(b, 2) == b * b) by {
        reveal_with_fuel(pow, 3);
    }
    // pow(b*b, h) == pow(b, 2h)
    assert(pow(b * b, h) == pow(b, 2 * h));
    lemma_pow_mod_noop(b * b, h, m);
    if e % 2 == 1 {
        lemma_pow_adds(b, 2 * h, 1);
        lemma_pow1(b);
        assert(pow(b, e) == pow(b * b, h) * b);
        // ((acc*b)%m * (pow((b*b)%m, h))) % m == ((acc*b) * pow(b*b, h)) % m
        lemma_mul_mod_noop_general(acc * b, pow((b * b) % m, h), m);
        lemma_mul_mod_noop_general(acc * b, pow(b * b, h), m);
        assert((acc * b) * pow(b * b, h) == acc * pow(b, e)) by {
            lemma_mul_is_associative(acc, b, pow(b * b, h));
            lemma_mul_is_commutative(b, pow(b * b, h));
        }
    } else {
        assert(e == 2 * h);
        lemma_mul_mod_noop_general(acc, pow((b * b) % m, h), m);
        lemma_mul_mod_noop_general(acc, pow(b * b, h), m);
    }
}

} // verus!

verus! {

/// For a positive `m`, the remainder of `-x` is `m` minus that of `x`, or 0.
pub proof fn lemma_neg_mod(x: int, m: int)
    requires
        m > 0,
        x < 0,
    ensures
        (-x) % m == 0 ==> x % m == 0,
        (-x) % m != 0 ==> x % m == m - (-x) % m,
{
    lemma_fundamental_div_mod(-x, m);
    let q = (-x) / m;
    let r = (-x) % m;
    lemma_mod_bound(-x, m);
    if r == 0 {
        assert(x == (-q) * m) by {
            lemma_mul_is_commutative(m, q);
            lemma_mul_unary_negation(q, m);
        }
        lemma_mod_multiples_basic(-q, m);
    } else {
        assert(x == (-q - 1) * m + (m - r)) by {
            lemma_mul_is_commutative(m, q);
            lemma_mul_is_distributive_add_other_way(m, -q, -1);
            lemma_mul_unary_negation(q, m);
        }
        lemma_fundamental_div_mod_converse(x, m, -q - 1, m - r);
    }
}

/// Adding a multiple of `m` does not change the remainder.
pub proof fn lemma_mod_multiple_shift(a: int, k: int, m: int)
    requires
        m > 0,
    ensures
        (a + m * k) % m == a % m,
{
    lemma_mul_is_commutative(m, k);
    lemma_mod_multiples_vanish(k, a, m);
}

} // verus!

verus! {

/// `n` is prime: at least 2, and no number strictly between 1 and `n` divides it.
pub open spec fn is_prime_spec(n: nat) -> bool {
    n >= 2 && forall|d: nat| 2 <= d < n ==> #[trigger] (n % d) != 0
}

/// An odd number has no even divisor.
pub proof fn lemma_odd_no_even_divisor(n: nat, d: nat)
    requires
        n % 2 == 1,
        d >= 2,
        d % 2 == 0,
    ensures
        n % d != 0,
{
    if n % d == 0 {
        lemma_fundamental_div_mod(n as int, d as int);
        lemma_fundamental_div_mod(d as int, 2);
        let k = n / d;
        let h = d / 2;
        assert(n == 2 * (h * k)) by (nonlinear_arith)
            requires n == d * k, d == 2 * h;
        lemma_mod_multiples_basic((h * k) as int, 2);
        lemma_mul_is_commutative(2, (h * k) as int);
    }
}

/// A number with a divisor strictly between 1 and itself has such a
/// divisor whose square is at most the number.
pub proof fn lemma_small_divisor(n: nat, d: nat)
    requires
        2 <= d < n,
        n % d == 0,
    ensures
        exists|s: nat| 2 <= s && s * s <= n && #[trigger] (n % s) == 0,
{
    lemma_fundamental_div_mod(n as int, d as int);
    let e = n / d;
    assert(n == d * e);
    if d * d <= n {
        assert(2 <= d && d * d <= n && n % d == 0);
    } else {
        assert(e >= 2) by (nonlinear_arith)
            requires n == d * e, d < n, d >= 2;
        assert(e * e <= n) by (nonlinear_arith)
            requires n == d * e, d * d > n, e >= 0, d >= 0;
        assert(n % e == 0) by {
            lemma_mul_is_commutative(d as int, e as int);
            lemma_mod_multiples_basic(d as int, e as int);
        }
        assert(2 <= e && e * e <= n && n % e == 0);
    }
}

} // verus!

verus! {

/// Binomial coefficient `n choose k`, by Pascal's rule.
pub open spec fn binom(n: nat, k: nat) -> nat
    decreases n,
{
    if k == 0 {
        1
    } else if n == 0 {
        0
    } else {
        binom((n - 1) as nat, (k - 1) as nat) + binom((n - 1) as nat, k)
    }
}

/// `sum_{i=0}^{m} binom(n, i) * a^i`.
pub open spec fn binom_sum(a: int, n: nat, m: nat) -> int
    decreases m,
{
    if m == 0 {
        1
    } else {
        binom_sum(a, n, (m - 1) as nat) + binom(n, m) * pow(a, m)
    }
}

proof fn lemma_binom_above(n: nat, k: nat)
    requires
        k > n,
    ensures
        binom(n, k) == 0,
    decreases n,
{
    if n > 0 {
        lemma_binom_above((n - 1) as nat, (k - 1) as nat);
        lemma_binom_above((n - 1) as nat, k);
    }
}

proof fn lemma_binom_diag(n: nat)
    ensures
        binom(n, n) == 1,
    decreases n,
{
    if n > 0 {
        lemma_binom_diag((n - 1) as nat);
        lemma_binom_above((n - 1) as nat, n);
    }
}

/// The absorption identity `k * C(n, k) == n * C(n - 1, k - 1)`.
proof fn lemma_binom_absorption(n: nat, k: nat)
    requires
        n >= 1,
        k >= 1,
    ensures
        k * binom(n, k) == n * binom((n - 1) as nat, (k - 1) as nat),
    decreases n,
{
    if n == 1 {
        if k > 1 {
            lemma_binom_above(0, (k - 1) as nat);
            lemma_binom_above(0, k);
            assert(binom(1, k) == 0);
            assert(k * 0 == 1 * 0) by (nonlinear_arith);
        } else {
            assert(binom(1, 1) == binom(0, 0) + binom(0, 1));
            assert(binom(1, 1) == 1);
            assert(1 * binom(1, 1) == 1 * binom(0, 0)) by (nonlinear_arith)
                requires binom(1, 1) == 1, binom(0, 0) == 1;
        }
    } else {
        let n1 = (n - 1) as nat;
        if k == 1 {
            lemma_binom_absorption(n1, 1);
            assert(binom((n1 - 1) as nat, 0) == 1);
            assert(1 * binom(n1, 1) == n1 * binom((n1 - 1) as nat, 0));
            assert(binom(n1, 1) == n1) by (nonlinear_arith)
                requires 1 * binom(n1, 1) == n1 * binom((n1 - 1) as nat, 0), binom((n1 - 1) as nat, 0) == 1;
            assert(binom(n, 1) == binom(n1, 0) + binom(n1, 1));
            assert(binom(n1, 0) == 1);
            assert(1 * binom(n, 1) == n * binom(n1, 0)) by (nonlinear_arith)
                requires binom(n, 1) == 1 + n1, binom(n1, 0) == 1, n == n1 + 1;
        } else {
            let k1 = (k - 1) as nat;
            lemma_binom_absorption(n1, k);
            lemma_binom_absorption(n1, k1);
            let a = binom(n1, k1);
            let b = binom(n1, k);
            let c = binom((n1 - 1) as nat, (k1 - 1) as nat);
            let d = binom((n1 - 1) as nat, k1);
            assert(binom(n, k) == a + b);
            assert(a == c + d);
            assert(k * b == n1 * d);
            assert(k1 * a == n1 * c);
            assert(k * (a + b) == n * a) by (nonlinear_arith)
                requires
                    k * b == n1 * d,
                    k1 * a == n1 * c,
                    a == c + d,
                    k == k1 + 1,
                    n == n1 + 1,
            ;
        }
    }
}

/// Pascal's rule lifted to the partial binomial sums.
proof fn lemma_binom_sum_pascal(a: int, n: nat, m: nat)
    requires
        m >= 1,
    ensures
        binom_sum(a, n + 1, m) == binom_sum(a, n, m) + a * binom_sum(a, n, (m - 1) as nat),
    decreases m,
{
    let m1 = (m - 1) as nat;
    assert(binom(n + 1, m) == binom(n, m1) + binom(n, m));
    if m == 1 {
        lemma_pow1(a);
        assert(binom_sum(a, n + 1, 0) == 1);
        assert(binom_sum(a, n + 1, 1) == 1 + binom(n + 1, 1) * pow(a, 1));
        assert(binom(n, 0) == 1);
        assert(binom_sum(a, n, 0) == 1);
        assert((binom(n, 0) + binom(n, 1)) * a == a + binom(n, 1) * a) by (nonlinear_arith)
            requires binom(n, 0) == 1;
    } else {
        lemma_binom_sum_pascal(a, n, m1);
        let m2 = (m1 - 1) as nat;
        lemma_pow_adds(a, 1, m1);
        lemma_pow1(a);
        assert(pow(a, m) == a * pow(a, m1));
        let bm1 = binom(n, m1);
        let bm = binom(n, m);
        let s1 = binom_sum(a, n, m1);
        let s2 = binom_sum(a, n, m2);
        assert(binom_sum(a, n + 1, m) == binom_sum(a, n + 1, m1) + (bm1 + bm) * pow(a, m));
        assert(binom_sum(a, n + 1, m1) == s1 + a * s2);
        assert(binom_sum(a, n, m) == s1 + bm * pow(a, m));
        assert(s1 == s2 + bm1 * pow(a, m1));
        assert(s1 + a * s2 + (bm1 + bm) * pow(a, m) == s1 + bm * pow(a, m) + a * s1) by (nonlinear_arith)
            requires
                s1 == s2 + bm1 * pow(a, m1),
                pow(a, m) == a * pow(a, m1),
        ;
    }
}

/// The binomial theorem for `(a + 1)^n`.
pub proof fn lemma_binomial_theorem(a: int, n: nat)
    ensures
        pow(a + 1, n) == binom_sum(a, n, n),
    decreases n,
{
    if n == 0 {
        lemma_pow0(a + 1);
    } else {
        let n1 = (n - 1) as nat;
        lemma_binomial_theorem(a, n1);
        lemma_binom_sum_pascal(a, n1, n);
        lemma_binom_above(n1, n);
        assert(binom_sum(a, n1, n) == binom_sum(a, n1, n1));
        reveal(pow);
        assert(pow(a + 1, n) == (a + 1) * pow(a + 1, n1));
        let s = binom_sum(a, n1, n1);
        assert((a + 1) * s == s + a * s) by (nonlinear_arith);
    }
}

} // verus!

verus! {

/// The only positive divisors of a prime are 1 and itself.
proof fn lemma_prime_divisors(p: nat, d: nat)
    requires
        is_prime_spec(p),
        d > 0,
        p % d == 0,
    ensures
        d == 1 || d == p,
{
    lemma_mod_is_zero(p, d);
    if d != 1 && d != p {
        assert(2 <= d < p);
        assert(p % d != 0);
    }
}

/// Euclid's lemma: a prime dividing a product divides one of the factors.
pub proof fn lemma_euclid(p: nat, a: nat, b: nat)
    requires
        is_prime_spec(p),
        (a * b) % p == 0,
    ensures
        a % p == 0 || b % p == 0,
{
    if a % p != 0 {
        let g = spec_gcd(a, p);
        lemma_gcd_divides(a, p);
        lemma_prime_divisors(p, g);
        assert(g == 1);
        lemma_ext_gcd_int(a as int, p as int);
        let (g2, x, y) = ext_gcd_int(a as int, p as int);
        assert(a * x + p * y == 1);
        // b == (a*b)*x + p*(b*y)
        assert(b == (a * b) * x + p * (b * y)) by (nonlinear_arith)
            requires a * x + p * y == 1;
        lemma_mul_mod_noop_left((a * b) as int, x, p as int);
        assert(((a * b) % p) * x == 0);
        lemma_small_mod(0, p);
        assert(((a * b) * x) % (p as int) == 0);
        lemma_mod_multiple_shift((a * b) * x, b * y, p as int);
    }
}

/// `C(p, k)` is divisible by a prime `p` for `0 < k < p`.
proof fn lemma_binom_prime(p: nat, k: nat)
    requires
        is_prime_spec(p),
        0 < k < p,
    ensures
        binom(p, k) % p == 0,
{
    lemma_binom_absorption(p, k);
    let c = binom((p - 1) as nat, (k - 1) as nat);
    assert(k * binom(p, k) == p * c);
    assert((k * binom(p, k)) % p == 0) by {
        lemma_mul_is_commutative(p as int, c as int);
        lemma_mod_multiples_basic(c as int, p as int);
    }
    lemma_euclid(p, k, binom(p, k));
    lemma_small_mod(k, p);
}

/// All middle terms of `(a + 1)^p` vanish modulo `p`.
proof fn lemma_binom_sum_prime(a: nat, p: nat, m: nat)
    requires
        is_prime_spec(p),
        m < p,
    ensures
        binom_sum(a as int, p, m) % (p as int) == 1int % (p as int),
    decreases m,
{
    if m > 0 {
        let m1 = (m - 1) as nat;
        lemma_binom_sum_prime(a, p, m1);
        lemma_binom_prime(p, m);
        let t = binom(p, m) * pow(a as int, m);
        assert(t % (p as int) == 0) by {
            lemma_mul_mod_noop_left(binom(p, m) as int, pow(a as int, m), p as int);
            lemma_small_mod(0, p);
        }
        lemma_add_mod_noop(binom_sum(a as int, p, m1), t, p as int);
        lemma_add_mod_noop(1, 0, p as int);
    }
}

/// Fermat's little theorem: `a^p == a (mod p)` for a prime `p`.
pub proof fn lemma_fermat(a: nat, p: nat)
    requires
        is_prime_spec(p),
    ensures
        pow(a as int, p) % (p as int) == (a as int) % (p as int),
    decreases a,
{
    if a == 0 {
        lemma0_pow(p);
    } else {
        let a1 = (a - 1) as nat;
        lemma_fermat(a1, p);
        lemma_binomial_theorem(a1 as int, p);
        lemma_binom_sum_prime(a1, p, (p - 1) as nat);
        lemma_binom_diag(p);
        let s = binom_sum(a1 as int, p, (p - 1) as nat);
        assert(pow(a as int, p) == s + pow(a1 as int, p));
        lemma_add_mod_noop(s, pow(a1 as int, p), p as int);
        lemma_add_mod_noop(1, a1 as int, p as int);
    }
}

/// For `a` not divisible by the prime `p`, `a^(p-1) == 1 (mod p)`.
pub proof fn lemma_fermat_unit(a: nat, p: nat)
    requires
        is_prime_spec(p),
        a % p != 0,
    ensures
        pow(a as int, (p - 1) as nat) % (p as int) == 1,
{
    let p1 = (p - 1) as nat;
    lemma_fermat(a, p);
    lemma_pow_adds(a as int, 1, p1);
    lemma_pow1(a as int);
    assert(a > 0) by {
        if a == 0 {
            lemma_small_mod(0, p);
        }
    }
    lemma_pow_positive(a as int, p1);
    let w = pow(a as int, p1);
    assert(pow(a as int, p) == a * w);
    // a * (w - 1) == 0 (mod p)
    let w1 = (w - 1) as nat;
    assert(a * w == a * w1 + a) by (nonlinear_arith)
        requires w1 == w - 1;
    assert((a * w1) % p == 0) by {
        lemma_mod_multiple_shift((a * w1) as int, 0, p as int);
        lemma_sub_mod_noop((a * w) as int, a as int, p as int);
        lemma_small_mod(0, p);
        lemma_mod_bound(a as int, p as int);
    }
    lemma_euclid(p, a, w1);
    lemma_mod_multiple_shift(1, (w1 / p) as int, p as int);
    lemma_fundamental_div_mod(w1 as int, p as int);
    lemma_small_mod(1, p);
}

/// `m^(1 + k(p-1)) == m (mod p)` for a prime `p`.
pub proof fn lemma_fermat_exponent(m: nat, p: nat, k: nat)
    requires
        is_prime_spec(p),
    ensures
        pow(m as int, 1 + k * ((p - 1) as nat)) % (p as int) == (m as int) % (p as int),
{
    let p1 = (p - 1) as nat;
    let e = k * p1;
    lemma_pow_adds(m as int, 1, e);
    lemma_pow1(m as int);
    assert(pow(m as int, 1 + e) == m * pow(m as int, e));
    if m % p == 0 {
        lemma_mul_mod_noop_left(m as int, pow(m as int, e), p as int);
        lemma_small_mod(0, p);
    } else {
        lemma_pow_multiplies(m as int, p1, k);
        lemma_mul_is_commutative(p1 as int, k as int);
        assert(pow(m as int, e) == pow(pow(m as int, p1), k));
        lemma_fermat_unit(m, p);
        lemma_pow_mod_noop(pow(m as int, p1), k, p as int);
        lemma1_pow(k);
        lemma_small_mod(1, p);
        assert(pow(m as int, e) % (p as int) == 1);
        lemma_mul_mod_noop_right(m as int, pow(m as int, e), p as int);
    }
}

} // verus!

verus! {

/// Two distinct primes do not divide each other.
proof fn lemma_distinct_primes(p: nat, q: nat)
    requires
        is_prime_spec(p),
        is_prime_spec(q),
        p != q,
    ensures
        p % q != 0,
{
    if p % q == 0 {
        lemma_prime_divisors(p, q);
    }
}

/// Congruent numbers differ by a multiple of the modulus.
proof fn lemma_congruent_difference(x: nat, y: nat, m: nat)
    requires
        m > 0,
        x % m == y % m,
        x >= y,
    ensures
        ((x - y) as nat) % m == 0,
{
    lemma_sub_mod_noop(x as int, y as int, m as int);
    lemma_small_mod(0, m);
}

/// Chinese remainder uniqueness for the product of two distinct primes.
pub proof fn lemma_crt_unique(x: nat, m: nat, p: nat, q: nat)
    requires
        is_prime_spec(p),
        is_prime_spec(q),
        p != q,
        m < p * q,
        x % p == m % p,
        x % q == m % q,
    ensures
        x % (p * q) == m,
{
    let n = p * q;
    assert(n > 0) by (nonlinear_arith) requires p >= 2, q >= 2, n == p * q;
    let y = x % n;
    lemma_fundamental_div_mod(x as int, n as int);
    lemma_mod_bound(x as int, n as int);
    let s = x / n;
    assert(y % p == x % p) by {
        assert(x as int == y + p * (q * s)) by (nonlinear_arith)
            requires x as int == n * s + y, n == p * q;
        lemma_mod_multiple_shift(y as int, (q * s) as int, p as int);
    }
    assert(y % q == x % q) by {
        assert(x as int == y + q * (p * s)) by (nonlinear_arith)
            requires x as int == n * s + y, n == p * q;
        lemma_mod_multiple_shift(y as int, (p * s) as int, q as int);
    }
    let (hi, lo) = if y >= m { (y, m) } else { (m, y) };
    let dd = (hi - lo) as nat;
    lemma_congruent_difference(hi, lo, p);
    lemma_congruent_difference(hi, lo, q);
    assert(dd < n);
    lemma_fundamental_div_mod(dd as int, p as int);
    let u = dd / p;
    assert(dd == p * u);
    assert((p * u) % q == 0);
    lemma_distinct_primes(p, q);
    lemma_euclid(q, p, u);
    lemma_fundamental_div_mod(u as int, q as int);
    let v = u / q;
    assert(dd == n * v) by (nonlinear_arith)
        requires dd == p * u, u == q * v, n == p * q;
    assert(v == 0) by (nonlinear_arith)
        requires dd == n * v, dd < n, n > 0, v >= 0;
    assert(dd == 0) by (nonlinear_arith) requires dd == n * v, v == 0;
}

/// An RSA key pair over two distinct primes: `e * d == 1 (mod (p-1)(q-1))`.
pub open spec fn rsa_pair(p: nat, q: nat, e: nat, d: nat) -> bool {
    &&& is_prime_spec(p)
    &&& is_prime_spec(q)
    &&& p != q
    &&& (e * d) % (((p - 1) as nat) * ((q - 1) as nat)) == 1
}

/// RSA correctness: raising to `e` then to `d` modulo `p*q` returns any message below `p*q`.
pub proof fn lemma_rsa(m: nat, p: nat, q: nat, e: nat, d: nat)
    requires
        rsa_pair(p, q, e, d),
        m < p * q,
    ensures
        pow(pow(m as int, e) % ((p * q) as int), d) % ((p * q) as int) == m,
{
    let n = p * q;
    let p1 = (p - 1) as nat;
    let q1 = (q - 1) as nat;
    let phi = p1 * q1;
    assert(phi > 0) by (nonlinear_arith)
        requires p1 >= 1, q1 >= 1, phi == p1 * q1;
    assert(n > 0) by (nonlinear_arith) requires p >= 2, q >= 2, n == p * q;
    let ed = e * d;
    lemma_fundamental_div_mod(ed as int, phi as int);
    let t = ed / phi;
    assert(ed == 1 + (t * q1) * p1) by (nonlinear_arith)
        requires ed == phi * t + 1, phi == p1 * q1;
    assert(ed == 1 + (t * p1) * q1) by (nonlinear_arith)
        requires ed == phi * t + 1, phi == p1 * q1;
    lemma_fermat_exponent(m, p, t * q1);
    lemma_fermat_exponent(m, q, t * p1);
    let x = pow(m as int, ed);
    assert(x >= 0) by {
        if m > 0 {
            lemma_pow_positive(m as int, ed);
        } else {
            lemma0_pow(ed);
        }
    }
    lemma_crt_unique(x as nat, m, p, q);
    lemma_pow_multiplies(m as int, e, d);
    lemma_pow_mod_noop(pow(m as int, e), d, n as int);
}

} // verus!
