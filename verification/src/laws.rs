//! Laws of the library as a whole: what decryption gives back of encryption,
//! what verification says of a fresh signature.
use vstd::prelude::*;
use vstd::arithmetic::power::pow;
use crate::arith::prime_pair_ok;
use crate::cipher::{
    encrypt_values, decrypt_result, decrypted_bytes, rsa_apply, byte_values, magic_prefix,
    signature_of, verify_result, canonical_hash, canonical_text, cipher_sections, cipher_from_text,
    seq_below_max,
};
use crate::file_laws::lemma_cipher_roundtrip;
use crate::format::serialize_spec;
use crate::hash::chicken_hash_spec;
use crate::keys::owner_values_spec;
use vstd::utf8::encode_utf8;
use crate::error::ErrorView;
use crate::keygen::{matching_keys, from_prime_pair, keys_from_primes};
use crate::keys::KeyPair;
use crate::number_theory::{rsa_pair, lemma_rsa};

verus! {

/// A pair of a generated key is an RSA pair over a modulus of at least 257.
proof fn lemma_key_pair_rsa(public: KeyPair, private: KeyPair) -> (pq: (u64, u64))
    requires
        from_prime_pair(public, private),
    ensures
        rsa_pair(pq.0 as nat, pq.1 as nat, public.exponent as nat, private.exponent as nat),
        rsa_pair(pq.0 as nat, pq.1 as nat, private.exponent as nat, public.exponent as nat),
        public.modulus == pq.0 * pq.1,
        private.modulus == pq.0 * pq.1,
        257 <= pq.0 * pq.1,
{
    let (p, q) = choose|p: u64, q: u64| prime_pair_ok(p, q) && #[trigger] keys_from_primes(p, q, public, private);
    let phi = ((p - 1) as nat) * ((q - 1) as nat);
    assert(phi == ((p - 1) * (q - 1)) as nat);
    assert(public.exponent * private.exponent == private.exponent * public.exponent) by (nonlinear_arith);
    (p, q)
}

/// One value through a pair and back through its partner gives the value back.
proof fn lemma_pair_roundtrip(v: nat, public: KeyPair, private: KeyPair)
    requires
        from_prime_pair(public, private),
        v < 256,
    ensures
        (pow(((pow(v as int, public.exponent as nat) % (public.modulus as int)) as u64) as int, private.exponent as nat)
            % (private.modulus as int)) as u64 as u8 == v as u8,
        (pow(((pow(v as int, private.exponent as nat) % (private.modulus as int)) as u64) as int, public.exponent as nat)
            % (public.modulus as int)) as u64 as u8 == v as u8,
{
    let (p, q) = lemma_key_pair_rsa(public, private);
    let n = (p * q) as int;
    vstd::arithmetic::div_mod::lemma_mod_bound(pow(v as int, public.exponent as nat), n);
    vstd::arithmetic::div_mod::lemma_mod_bound(pow(v as int, private.exponent as nat), n);
    lemma_rsa(v, p as nat, q as nat, public.exponent as nat, private.exponent as nat);
    lemma_rsa(v, p as nat, q as nat, private.exponent as nat, public.exponent as nat);
}

/// Decryption with the private key gives back what encryption with the
/// matching public key took.
pub proof fn lemma_encrypt_decrypt(plain: Seq<u8>, public: Seq<KeyPair>, private: Seq<KeyPair>)
    requires
        matching_keys(public, private),
    ensures
        decrypt_result(encrypt_values(plain, public), private) == Ok::<Seq<u8>, ErrorView>(plain),
{
    let msg = magic_prefix() + plain;
    let c = encrypt_values(plain, public);
    let all = decrypted_bytes(c, private);
    let len = public.len() as int;
    assert forall|x: int| 0 <= x < msg.len() implies #[trigger] all[x] == msg[x] by {
        let i = x % len;
        vstd::arithmetic::div_mod::lemma_mod_bound(x, len);
        assert(from_prime_pair(public[i], private[i]));
        lemma_pair_roundtrip(msg[x] as nat, public[i], private[i]);
        assert(byte_values(msg)[x] == msg[x] as u64);
    }
    assert(all =~= msg);
    assert(all.take(3) =~= magic_prefix());
    assert(all.skip(3) =~= plain);
}

/// A fresh signature verifies under the matching public key.
pub proof fn lemma_sign_verify(owner: Seq<char>, values: Seq<u64>, public: Seq<KeyPair>, private: Seq<KeyPair>)
    requires
        matching_keys(public, private),
    ensures
        verify_result(owner, values, Some(signature_of(owner, values, private)), public) == Ok::<(), ErrorView>(()),
{
    let h = canonical_hash(owner, values);
    let s = signature_of(owner, values, private);
    let back = rsa_apply(s, public).map_values(|v: u64| v as u8);
    let len = public.len() as int;
    assert forall|x: int| 0 <= x < h.len() implies #[trigger] back[x] == h[x] by {
        let i = x % len;
        vstd::arithmetic::div_mod::lemma_mod_bound(x, len);
        assert(from_prime_pair(public[i], private[i]));
        lemma_pair_roundtrip(h[x] as nat, public[i], private[i]);
        assert(byte_values(h)[x] == h[x] as u64);
    }
    assert(back =~= h);
}

/// Decryption succeeds exactly when the first three decrypted bytes are the
/// magic prefix `C4 1C EB`, and then gives the bytes after them.
pub proof fn lemma_decrypt_checks_prefix(vals: Seq<u64>, pairs: Seq<KeyPair>)
    ensures
        decrypt_result(vals, pairs) is Ok <==> (decrypted_bytes(vals, pairs).len() >= 3
            && decrypted_bytes(vals, pairs)[0] == 0xC4u8 && decrypted_bytes(vals, pairs)[1] == 0x1Cu8
            && decrypted_bytes(vals, pairs)[2] == 0xEBu8),
        decrypt_result(vals, pairs) matches Ok(b) ==> b == decrypted_bytes(vals, pairs).skip(3),
        decrypt_result(vals, pairs) is Err ==> decrypt_result(vals, pairs) == Err::<Seq<u8>, ErrorView>(
            ErrorView::DecryptionFailed,
        ),
{
    let all = decrypted_bytes(vals, pairs);
    if all.len() >= 3 {
        if all[0] == 0xC4u8 && all[1] == 0x1Cu8 && all[2] == 0xEBu8 {
            assert(all.take(3) =~= magic_prefix());
        } else {
            assert(all.take(3) != magic_prefix()) by {
                if all.take(3) == magic_prefix() {
                    assert(all[0] == all.take(3)[0] && all[1] == all.take(3)[1] && all[2] == all.take(3)[2]);
                }
            }
        }
    }
}

/// Verification accepts a signature exactly when it has 8 values and each,
/// through the public key and truncated to a byte, equals the byte at its
/// position of the chicken hash of the unsigned ciphertext's chicken text
/// (owner section, then values); every other signature is refused as a
/// mismatch, and a missing one as not signed.
pub proof fn lemma_verify_compares_hash(owner: Seq<char>, values: Seq<u64>, sig: Option<Seq<u64>>, pairs: Seq<KeyPair>)
    ensures
        sig is None ==> verify_result(owner, values, sig, pairs) == Err::<(), ErrorView>(ErrorView::NotSigned),
        sig matches Some(s) ==> (verify_result(owner, values, sig, pairs) is Ok <==> (rsa_apply(s, pairs).len() == 8
            && forall|j: int| 0 <= j < 8 ==> #[trigger] (rsa_apply(s, pairs)[j] as u8) == chicken_hash_spec(
                encode_utf8(serialize_spec(seq![owner_values_spec(owner), values], false)),
            )[j])),
        verify_result(owner, values, sig, pairs) is Err && sig is Some ==> verify_result(owner, values, sig, pairs)
            == Err::<(), ErrorView>(ErrorView::SignatureMismatch),
{
    crate::hash::lemma_chicken_hash_len(encode_utf8(canonical_text(owner, values)));
    let sections: Seq<Seq<u64>> = seq![owner_values_spec(owner), values];
    assert(cipher_sections(owner, values, None) == sections);
    if let Some(s) = sig {
        let got = rsa_apply(s, pairs).map_values(|v: u64| v as u8);
        let h = canonical_hash(owner, values);
        if got == h {
            assert forall|j: int| 0 <= j < 8 implies #[trigger] (rsa_apply(s, pairs)[j] as u8) == h[j] by {
                assert(got[j] == (rsa_apply(s, pairs)[j] as u8));
            }
        } else if rsa_apply(s, pairs).len() == 8 && forall|j: int|
            0 <= j < 8 ==> #[trigger] (rsa_apply(s, pairs)[j] as u8) == h[j] {
            assert(got =~= h);
        }
    }
}

/// A signature covers the whole unsigned ciphertext: the text it is made of
/// is the ciphertext's own chicken text without signature, which reads back
/// (for a nonempty owner and values) as that owner and those values; so two
/// ciphertexts that differ in owner or values have different signed texts.
pub proof fn lemma_signed_text_covers_owner(owner: Seq<char>, values: Seq<u64>, other_owner: Seq<char>)
    requires
        seq_below_max(values),
    ensures
        canonical_text(owner, values) == serialize_spec(cipher_sections(owner, values, None), false),
        owner.len() > 0 && values.len() > 0 ==> cipher_from_text(canonical_text(owner, values)) == Ok::<
            (Seq<char>, Seq<u64>, Option<Seq<u64>>),
            ErrorView,
        >((owner, values, None)),
        owner.len() > 0 && other_owner.len() > 0 && values.len() > 0 && owner != other_owner ==> canonical_text(
            owner,
            values,
        ) != canonical_text(other_owner, values),
{
    if owner.len() > 0 && values.len() > 0 {
        lemma_cipher_roundtrip(owner, values, None, false);
    }
    if other_owner.len() > 0 && values.len() > 0 {
        lemma_cipher_roundtrip(other_owner, values, None, false);
    }
}

} // verus!
