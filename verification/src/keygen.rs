//! Key generation: pairs of public and private keys over random prime pairs.
use vstd::prelude::*;
use crate::arith::{gcd, mod_inverse, valid_prime_pairs, prime_pair_ok};
use crate::keys::{KeyFile, KeyPair, KeyType};
use crate::number_theory::{spec_gcd, is_prime_spec, rsa_pair};
use crate::outside::{thread_rng, choose_pair};

verus! {

broadcast use vstd::string::group_string_axioms;

/// `e` is the smallest number from 2 up that is coprime to `phi`.
pub open spec fn is_public_exponent(e: nat, phi: nat) -> bool {
    &&& e >= 2
    &&& spec_gcd(e, phi) == 1
    &&& forall|f: nat| 2 <= f < e ==> #[trigger] spec_gcd(f, phi) != 1
}

/// The public and private pair that primes `p` and `q` give: modulus `p*q`,
/// public exponent the smallest `e >= 2` coprime to `phi = (p-1)(q-1)`, and
/// private exponent the inverse of `e` modulo `phi`.
pub open spec fn keys_from_primes(p: u64, q: u64, public: KeyPair, private: KeyPair) -> bool {
    let n = p * q;
    let phi = ((p - 1) * (q - 1)) as nat;
    &&& public.modulus == n
    &&& private.modulus == n
    &&& is_public_exponent(public.exponent as nat, phi)
    &&& private.exponent < phi
    &&& (public.exponent * private.exponent) % (phi as int) == 1
}

/// A public and a private pair that some usable prime pair gives.
pub open spec fn from_prime_pair(public: KeyPair, private: KeyPair) -> bool {
    exists|p: u64, q: u64| prime_pair_ok(p, q) && #[trigger] keys_from_primes(p, q, public, private)
}

/// Each public pair and the private pair at the same position come from one
/// usable prime pair.
pub open spec fn matching_keys(public: Seq<KeyPair>, private: Seq<KeyPair>) -> bool {
    &&& public.len() == private.len()
    &&& public.len() > 0
    &&& forall|i: int| 0 <= i < public.len() ==> #[trigger] from_prime_pair(public[i], private[i])
}

proof fn lemma_gcd_next(phi: nat)
    requires
        phi >= 2,
    ensures
        spec_gcd(phi + 1, phi) == 1,
{
    assert((phi + 1) % phi == 1) by {
        vstd::arithmetic::div_mod::lemma_fundamental_div_mod_converse((phi + 1) as int, phi as int, 1, 1);
    }
    assert(spec_gcd(phi + 1, phi) == spec_gcd(phi, 1));
    assert(spec_gcd(phi, 1) == spec_gcd(1, phi % 1));
    assert(phi % 1 == 0);
    assert(spec_gcd(1, 0) == 1);
}

/// The public and private pair of a usable prime pair.
pub fn key_pairs_from_primes(p: u64, q: u64) -> (res: (KeyPair, KeyPair))
    requires
        prime_pair_ok(p, q),
    ensures
        keys_from_primes(p, q, res.0, res.1),
{
    let n = p * q;
    assert(p >= 2 && q >= 3);
    assert((p - 1) * (q - 1) <= 1023) by (nonlinear_arith)
        requires p * q <= 1023, p >= 2, q >= 3;
    assert((p - 1) * (q - 1) >= 2) by (nonlinear_arith)
        requires p >= 2, q >= 3;
    let phi = (p - 1) * (q - 1);
    proof {
        lemma_gcd_next(phi as nat);
    }
    // Find the smallest e >= 2 coprime to phi.
    let mut e: u64 = 2;
    while gcd(e, phi) != 1
        invariant
            2 <= e <= phi + 1,
            phi >= 2,
            phi <= 1023,
            spec_gcd((phi + 1) as nat, phi as nat) == 1,
            forall|f: nat| 2 <= f < e ==> #[trigger] spec_gcd(f, phi as nat) != 1,
        decreases phi + 1 - e,
    {
        e += 1;
    }
    let d = match mod_inverse(e, phi) {
        Some(d) => d,
        None => {
            assert(false);
            0
        },
    };
    proof {
        vstd::arithmetic::div_mod::lemma_small_mod(1, phi as nat);
        assert(spec_gcd(e as nat, phi as nat) == 1);
        assert(phi as nat == ((p - 1) * (q - 1)) as nat);
    }
    (KeyPair { exponent: e, modulus: n }, KeyPair { exponent: d, modulus: n })
}

} // verus!

verus! {

proof fn lemma_small_primes()
    ensures
        is_prime_spec(17),
        is_prime_spec(19),
        prime_pair_ok(17, 19),
{
    assert forall|d: nat| 2 <= d < 17 implies #[trigger] (17nat % d) != 0 by {
        assert(d == 2 || d == 3 || d == 4 || d == 5 || d == 6 || d == 7 || d == 8 || d == 9 || d == 10 || d == 11
            || d == 12 || d == 13 || d == 14 || d == 15 || d == 16);
    }
    assert forall|d: nat| 2 <= d < 19 implies #[trigger] (19nat % d) != 0 by {
        assert(d == 2 || d == 3 || d == 4 || d == 5 || d == 6 || d == 7 || d == 8 || d == 9 || d == 10 || d == 11
            || d == 12 || d == 13 || d == 14 || d == 15 || d == 16 || d == 17 || d == 18);
    }
}

/// Generate a key vector of multiple independent pairs.
///
/// Returns `(public_key, private_key)`. The number of pairs is
/// `N = ceil(bits / 10)`. `bits` must be in `256..=4096`.
pub fn generate_keys(owner: &str, bits: u32) -> (keys: (KeyFile, KeyFile))
    requires
        256 <= bits <= 4096,
    ensures
        keys.0.key_type == KeyType::Public,
        keys.1.key_type == KeyType::Private,
        keys.0.owner@ == owner@,
        keys.1.owner@ == owner@,
        keys.0.pairs.len() == (bits + 9) / 10,
        matching_keys(keys.0.pairs@, keys.1.pairs@),
{
    let n_pairs = ((bits + 9) / 10) as usize;
    let all_pairs = valid_prime_pairs();
    proof {
        lemma_small_primes();
        assert(all_pairs@.contains((17u64, 19u64)));
    }
    let mut rng = thread_rng();
    let mut public_pairs: Vec<KeyPair> = Vec::new();
    let mut private_pairs: Vec<KeyPair> = Vec::new();
    let mut k: usize = 0;
    while k < n_pairs
        invariant
            k <= n_pairs,
            all_pairs.len() > 0,
            forall|j: int| 0 <= j < all_pairs.len() ==> prime_pair_ok(#[trigger] all_pairs[j].0, all_pairs[j].1),
            public_pairs.len() == k,
            private_pairs.len() == k,
            forall|i: int| 0 <= i < k ==> #[trigger] from_prime_pair(public_pairs@[i], private_pairs@[i]),
        decreases n_pairs - k,
    {
        // Pick a random valid (p, q) prime pair.
        let (p, q) = match choose_pair(&all_pairs, &mut rng) {
            Some(pair) => pair,
            None => {
                assert(false);
                (0, 0)
            },
        };
        proof {
            let j = choose|j: int| 0 <= j < all_pairs.len() && all_pairs@[j] == (p, q);
            assert(prime_pair_ok(all_pairs[j].0, all_pairs[j].1));
        }
        let (public, private) = key_pairs_from_primes(p, q);
        let ghost pub_before = public_pairs@;
        let ghost priv_before = private_pairs@;
        public_pairs.push(public);
        private_pairs.push(private);
        assert forall|i: int| 0 <= i < k + 1 implies #[trigger] from_prime_pair(public_pairs@[i], private_pairs@[i]) by {
            if i < k {
                assert(public_pairs@[i] == pub_before[i] && private_pairs@[i] == priv_before[i]);
            } else {
                assert(keys_from_primes(p, q, public_pairs@[i], private_pairs@[i]));
            }
        }
        k += 1;
    }
    let public = KeyFile { key_type: KeyType::Public, owner: owner.to_owned(), pairs: public_pairs };
    let private = KeyFile { key_type: KeyType::Private, owner: owner.to_owned(), pairs: private_pairs };
    (public, private)
}

} // verus!
