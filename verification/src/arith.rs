//! Integer primitives: gcd, extended gcd, modular inverse and power,
//! primality, and the table of usable prime pairs.
use vstd::prelude::*;
use vstd::arithmetic::power::{pow, lemma_pow0, lemma_pow_mod_noop};
use crate::number_theory::{spec_gcd, ext_gcd_int, tdiv, trem, lemma_trunc, lemma_coefficient_fits, iabs, lemma_ext_gcd_int, lemma_gcd_divides, lemma_gcd_mod_first, lemma_mod_pow_step, lemma_neg_mod, lemma_mod_multiple_shift, is_prime_spec, lemma_odd_no_even_divisor, lemma_small_divisor};

verus! {

/// Greatest common divisor (Euclidean algorithm).
pub fn gcd(a: u64, b: u64) -> (r: u64)
    ensures
        r == spec_gcd(a as nat, b as nat),
{
    let mut x = a;
    let mut y = b;
    while y != 0
        invariant
            spec_gcd(x as nat, y as nat) == spec_gcd(a as nat, b as nat),
        decreases y,
    {
        let t = y;
        y = x % y;
        x = t;
    }
    x
}

} // verus!

verus! {

/// Extended Euclidean algorithm.
///
/// Returns `(g, x, y)` such that `a*x + b*y = g` where `g = gcd(a, b)`
/// (up to sign for negative arguments). Uses signed arithmetic for the
/// Bezout coefficients.
pub fn extended_gcd(a: i64, b: i64) -> (res: (i64, i64, i64))
    requires
        !(a == i64::MIN && b == -1),
        !(a == -1 && b == i64::MIN),
    ensures
        (res.0 as int, res.1 as int, res.2 as int) == ext_gcd_int(a as int, b as int),
        iabs(res.0 as int) == spec_gcd(iabs(a as int), iabs(b as int)),
        a * res.1 + b * res.2 == res.0,
        a >= 0 && b >= 0 ==> res.0 >= 0,
    decreases iabs(b as int),
{
    proof {
        lemma_ext_gcd_int(a as int, b as int);
    }
    if b == 0 {
        (a, 1, 0)
    } else {
        proof {
            lemma_trunc(a as int, b as int);
        }
        let r = a % b;
        proof {
            assert(r as int == trem(a as int, b as int));
            if b == i64::MIN && a != i64::MIN {
                vstd::arithmetic::div_mod::lemma_small_mod(iabs(a as int), iabs(b as int));
                assert(r == a);
            }
        }
        let (g, x, y) = extended_gcd(b, r);
        let q = a / b;
        proof {
            let gn = spec_gcd(iabs(a as int), iabs(b as int));
            lemma_gcd_divides(iabs(a as int), iabs(b as int));
            let t = tdiv(a as int, b as int);
            assert(iabs(t) <= iabs(a as int)) by (nonlinear_arith)
                requires
                    iabs(a as int) == iabs(t) * iabs(b as int) + iabs(trem(a as int, b as int)),
                    iabs(b as int) >= 1,
            ;
            assert(t != 0x8000_0000_0000_0000) by {
                if t == 0x8000_0000_0000_0000 {
                    assert(iabs(b as int) == 1) by (nonlinear_arith)
                        requires
                            iabs(a as int) == iabs(t) * iabs(b as int) + iabs(trem(a as int, b as int)),
                            iabs(a as int) <= 0x8000_0000_0000_0000,
                            iabs(t) == 0x8000_0000_0000_0000,
                            iabs(b as int) >= 1,
                    ;
                }
            }
            assert(q as int == t);
            assert(ext_gcd_int(a as int, b as int) == (g as int, y as int, x - q * y));
            lemma_coefficient_fits(iabs(q * y), gn, iabs(a as int));
            lemma_coefficient_fits(iabs(x - q * y), gn, iabs(a as int));
        }
        (g, y, x - q * y)
    }
}

} // verus!

verus! {

/// Modular multiplicative inverse of `e` modulo `phi` via the extended GCD.
///
/// Returns `None` if `e` and `phi` are not coprime (no inverse exists).
pub fn mod_inverse(e: u64, phi: u64) -> (res: Option<u64>)
    requires
        phi <= i64::MAX,
        !(phi == 0 && e == 1),
    ensures
        res is Some <==> spec_gcd(e as nat, phi as nat) == 1,
        res matches Some(d) ==> d < phi && (e * d) % (phi as int) == 1int % (phi as int),
{
    if phi == 0 {
        // gcd(e, 0) == e, which is not 1 here.
        return None;
    }
    let e_red = e % phi;
    proof {
        lemma_gcd_mod_first(e as nat, phi as nat);
    }
    let (g, x, y) = extended_gcd(e_red as i64, phi as i64);
    if g != 1 {
        return None;
    }
    let phi_i = phi as i64;
    let r = x % phi_i;
    let inv = if r < 0 { r + phi_i } else { r };
    proof {
        let p = phi as int;
        assert(e_red * x + phi * y == 1);
        // inv is congruent to x modulo phi and lies in [0, phi)
        assert((inv as int) % p == (x as int) % p && 0 <= inv < p) by {
            if x < 0 {
                vstd::arithmetic::div_mod::lemma_mod_bound(-x as int, p);
                assert(r == -((-x as int) % p));
                lemma_neg_mod(x as int, p);
                vstd::arithmetic::div_mod::lemma_mod_bound(x as int, p);
                if r < 0 {
                    assert(inv == (x as int) % p);
                    vstd::arithmetic::div_mod::lemma_mod_twice(x as int, p);
                } else {
                    assert(inv == 0);
                    assert((x as int) % p == 0);
                    vstd::arithmetic::div_mod::lemma_small_mod(0, p as nat);
                }
            } else {
                vstd::arithmetic::div_mod::lemma_mod_bound(x as int, p);
                vstd::arithmetic::div_mod::lemma_mod_twice(x as int, p);
            }
        }
        // e * inv == e_red * x == 1 (mod phi)
        vstd::arithmetic::div_mod::lemma_mul_mod_noop_general(e as int, inv as int, p);
        vstd::arithmetic::div_mod::lemma_mul_mod_noop_general(e as int, x as int, p);
        vstd::arithmetic::div_mod::lemma_mul_mod_noop_left(e as int, x as int, p);
        vstd::arithmetic::div_mod::lemma_mul_mod_noop_left(e_red as int, x as int, p);
        vstd::arithmetic::div_mod::lemma_mod_twice(e as int, p);
        assert((e * x) % p == (e_red * x) % p);
        let yi = y as int;
        assert(e_red * x == 1 - phi * yi);
        assert((1 - phi * yi) % p == 1int % p) by {
            lemma_mod_multiple_shift(1, -yi, p);
            vstd::arithmetic::mul::lemma_mul_unary_negation(yi, p);
            vstd::arithmetic::mul::lemma_mul_is_commutative(p, -yi);
            vstd::arithmetic::mul::lemma_mul_is_commutative(p, yi);
        }
    }
    Some(inv as u64)
}

/// Modular exponentiation: `base^exp mod modulus` via square-and-multiply.
pub fn mod_pow(base: u64, exp: u64, modulus: u64) -> (res: u64)
    requires
        modulus > 0,
    ensures
        res == pow(base as int, exp as nat) % (modulus as int),
        res < modulus,
{
    if modulus == 1 {
        return 0;
    }
    let mut result: u128 = 1;
    let mut b = (base % modulus) as u128;
    let m = modulus as u128;
    let mut e = exp;
    proof {
        lemma_pow_mod_noop(base as int, exp as nat, m as int);
        vstd::arithmetic::div_mod::lemma_small_mod(1, m as nat);
        assert((1 * pow(b as int, e as nat)) % (m as int) == pow(base as int, exp as nat) % (m as int));
    }
    while e > 0
        invariant
            m == modulus,
            m > 1,
            result < m,
            b < m,
            (result * pow(b as int, e as nat)) % (m as int) == pow(base as int, exp as nat) % (m as int),
        decreases e,
    {
        proof {
            lemma_mod_pow_step(result as int, b as int, e as nat, m as int);
        }
        let ghost e_old = e;
        if e & 1 == 1 {
            assert(e & 1 == e % 2) by (bit_vector);
            assert(result * b <= u128::MAX) by (nonlinear_arith)
                requires result < m, b < m, m <= u64::MAX;
            result = (result * b) % m;
        } else {
            assert(e & 1 == e % 2) by (bit_vector);
        }
        e = e >> 1;
        assert(e_old >> 1 == e_old / 2) by (bit_vector);
        assert(b * b <= u128::MAX) by (nonlinear_arith)
            requires b < m, m <= u64::MAX;
        b = (b * b) % m;
    }
    proof {
        lemma_pow0(b as int);
        assert(result * pow(b as int, e as nat) == result);
        vstd::arithmetic::div_mod::lemma_small_mod(result as nat, m as nat);
    }
    result as u64
}

} // verus!

verus! {

/// Primality test by trial division.
pub fn is_prime(n: u64) -> (res: bool)
    ensures
        res == is_prime_spec(n as nat),
{
    if n < 2 {
        return false;
    }
    if n < 4 {
        assert forall|d: nat| 2 <= d < n implies #[trigger] ((n as nat) % d) != 0 by {
            assert(n == 3 && d == 2);
        }
        return true;
    }
    if n % 2 == 0 {
        assert((n as nat) % 2 == 0);
        return false;
    }
    let mut i: u64 = 3;
    let mut square: u128 = 9;
    while square <= n as u128
        invariant
            square == i * i,
            n >= 4,
            n % 2 == 1,
            3 <= i <= n,
            i % 2 == 1,
            forall|d: nat| 2 <= d < i ==> #[trigger] ((n as nat) % d) != 0,
        decreases n - i,
    {
        if n % i == 0 {
            assert(i < n) by (nonlinear_arith)
                requires (i as int) * (i as int) <= n, i >= 3;
            assert((n as nat) % (i as nat) == 0);
            return false;
        }
        assert forall|d: nat| 2 <= d < i + 2 implies #[trigger] ((n as nat) % d) != 0 by {
            if d == i + 1 {
                lemma_odd_no_even_divisor(n as nat, d);
            }
        }
        assert(i + 2 <= n) by (nonlinear_arith)
            requires (i as int) * (i as int) <= n, i >= 3, n % 2 == 1, square == i * i;
        i += 2;
        assert((i as u128) * (i as u128) <= u128::MAX) by (nonlinear_arith)
            requires i <= u64::MAX;
        square = (i as u128) * (i as u128);
    }
    assert forall|d: nat| 2 <= d < n implies #[trigger] ((n as nat) % d) != 0 by {
        if (n as nat) % d == 0 {
            lemma_small_divisor(n as nat, d);
            let s = choose|s: nat| 2 <= s && s * s <= n && #[trigger] ((n as nat) % s) == 0;
            assert(s < i) by (nonlinear_arith)
                requires s * s <= n, (i as int) * (i as int) > n, s >= 0, i >= 0;
        }
    }
    true
}

} // verus!

verus! {

/// `(p, q)` is a usable prime pair: two primes `p < q <= 512` whose
/// product lies in `257..=1023`.
pub open spec fn prime_pair_ok(p: u64, q: u64) -> bool {
    &&& is_prime_spec(p as nat)
    &&& is_prime_spec(q as nat)
    &&& p < q <= 512
    &&& 257 <= p * q <= 1023
}

/// Lexicographic order on pairs.
pub open spec fn pair_lt(a: (u64, u64), b: (u64, u64)) -> bool {
    a.0 < b.0 || (a.0 == b.0 && a.1 < b.1)
}

/// Find all valid prime pairs `(p, q)` where `p != q` and
/// `257 <= p*q <= 1023`. Pairs are unordered (we store `p < q`).
pub fn valid_prime_pairs() -> (pairs: Vec<(u64, u64)>)
    ensures
        forall|k: int| 0 <= k < pairs.len() ==> prime_pair_ok(#[trigger] pairs[k].0, pairs[k].1),
        forall|p: u64, q: u64| prime_pair_ok(p, q) ==> #[trigger] pairs@.contains((p, q)),
        forall|k1: int, k2: int|
            0 <= k1 < k2 < pairs.len() ==> pair_lt(#[trigger] pairs[k1], #[trigger] pairs[k2]),
{
    let mut primes: Vec<u64> = Vec::new();
    let mut n: u64 = 2;
    while n <= 512
        invariant
            2 <= n <= 513,
            forall|k: int|
                0 <= k < primes.len() ==> is_prime_spec(#[trigger] primes[k] as nat) && 2 <= primes[k] < n,
            forall|k1: int, k2: int|
                0 <= k1 < k2 < primes.len() ==> #[trigger] primes[k1] < #[trigger] primes[k2],
            forall|m: u64| 2 <= m < n && is_prime_spec(m as nat) ==> #[trigger] primes@.contains(m),
        decreases 513 - n,
    {
        let ghost before = primes@;
        if is_prime(n) {
            primes.push(n);
            assert(primes@[primes.len() - 1] == n);
        }
        assert forall|m: u64| 2 <= m < n + 1 && is_prime_spec(m as nat) implies #[trigger] primes@.contains(m) by {
            if m == n {
                assert(primes@[primes.len() - 1] == n);
            } else {
                assert(before.contains(m));
                let k = choose|k: int| 0 <= k < before.len() && before[k] == m;
                assert(primes@[k] == m);
            }
        }
        n += 1;
    }
    let mut pairs: Vec<(u64, u64)> = Vec::new();
    let len = primes.len();
    let mut i: usize = 0;
    while i < len
        invariant
            len == primes.len(),
            i <= len,
            forall|k: int|
                0 <= k < primes.len() ==> is_prime_spec(#[trigger] primes[k] as nat) && 2 <= primes[k] <= 512,
            forall|k1: int, k2: int|
                0 <= k1 < k2 < primes.len() ==> #[trigger] primes[k1] < #[trigger] primes[k2],
            forall|k: int| 0 <= k < pairs.len() ==> prime_pair_ok(#[trigger] pairs[k].0, pairs[k].1),
            forall|k1: int, k2: int|
                0 <= k1 < k2 < pairs.len() ==> pair_lt(#[trigger] pairs[k1], #[trigger] pairs[k2]),
            i < len ==> forall|k: int| 0 <= k < pairs.len() ==> #[trigger] pairs[k].0 < primes[i as int],
            forall|a: int, b: int|
                #![trigger primes[a], primes[b]]
                0 <= a < i && a < b < len && 257 <= primes[a] * primes[b] <= 1023
                    ==> pairs@.contains((primes[a], primes[b])),
        decreases len - i,
    {
        let p = primes[i];
        let mut j: usize = i + 1;
        while j < len
            invariant
                len == primes.len(),
                i < len,
                i + 1 <= j <= len,
                p == primes[i as int],
                forall|k: int|
                    0 <= k < primes.len() ==> is_prime_spec(#[trigger] primes[k] as nat) && 2 <= primes[k] <= 512,
                forall|k1: int, k2: int|
                    0 <= k1 < k2 < primes.len() ==> #[trigger] primes[k1] < #[trigger] primes[k2],
                forall|k: int| 0 <= k < pairs.len() ==> prime_pair_ok(#[trigger] pairs[k].0, pairs[k].1),
                forall|k1: int, k2: int|
                    0 <= k1 < k2 < pairs.len() ==> pair_lt(#[trigger] pairs[k1], #[trigger] pairs[k2]),
                forall|k: int| 0 <= k < pairs.len() ==> #[trigger] pairs[k].0 <= p,
                j < len ==> forall|k: int|
                    0 <= k < pairs.len() ==> pair_lt(#[trigger] pairs[k], (p, primes[j as int])),
                forall|a: int, b: int|
                    #![trigger primes[a], primes[b]]
                    ((0 <= a < i && a < b < len) || (a == i && a < b < j))
                        && 257 <= primes[a] * primes[b] <= 1023
                        ==> pairs@.contains((primes[a], primes[b])),
            decreases len - j,
        {
            let q = primes[j];
            if p == q {
                j += 1;
                continue;
            }
            assert(primes[i as int] <= 512 && primes[j as int] <= 512);
            assert(p * q <= 512 * 512) by (nonlinear_arith)
                requires p <= 512, q <= 512;
            let n = p * q;
            let ghost before = pairs@;
            if 257 <= n && n <= 1023 {
                pairs.push((p, q));
                assert(pairs@[pairs.len() - 1] == (p, q));
                assert forall|a: int, b: int|
                    #![trigger primes[a], primes[b]]
                    ((0 <= a < i && a < b < len) || (a == i && a < b < j + 1))
                        && 257 <= primes[a] * primes[b] <= 1023
                        implies pairs@.contains((primes[a], primes[b])) by {
                    if a == i && b == j {
                        assert(pairs@[pairs.len() - 1] == (primes[a], primes[b]));
                    } else {
                        assert(before.contains((primes[a], primes[b])));
                        let k = choose|k: int| 0 <= k < before.len() && before[k] == (primes[a], primes[b]);
                        assert(pairs@[k] == (primes[a], primes[b]));
                    }
                }
            }
            j += 1;
            if j < len {
                assert(primes[j - 1] < primes[j as int]);
            }
        }
        i += 1;
        if i < len {
            assert(primes[i - 1] < primes[i as int]);
        }
    }
    assert forall|p: u64, q: u64| prime_pair_ok(p, q) implies #[trigger] pairs@.contains((p, q)) by {
        assert(primes@.contains(p));
        assert(primes@.contains(q));
        let a = choose|a: int| 0 <= a < primes.len() && primes@[a] == p;
        let b = choose|b: int| 0 <= b < primes.len() && primes@[b] == q;
        if b <= a {
            if b < a {
                assert(primes[b] < primes[a]);
            }
        }
        assert(primes[a] * primes[b] == p * q);
    }
    pairs
}

} // verus!
