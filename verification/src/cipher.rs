//! Ciphertexts: their file format, encryption, decryption, signing and
//! verification.
use vstd::prelude::*;
use vstd::arithmetic::power::pow;
use vstd::utf8::encode_utf8;
use crate::arith::mod_pow;
use crate::error::{ChickenError, ErrorView, with_message};
use crate::format::{parse_spec, serialize_spec, values_below_max, value_rows, serialize_chicken_sections, parse_chicken_sections};
use crate::hash::{chicken_hash, chicken_hash_spec, lemma_chicken_hash_len};
use crate::keys::{KeyFile, KeyPair, KeyType, owner_values_spec, owner_from_values, owner_to_values, values_to_owner};
use crate::text::str_chars;

verus! {

broadcast use vstd::string::group_string_axioms;

/// Prepended to every plaintext so that decryption can detect a wrong key.
pub const MAGIC_PREFIX: [u8; 3] = [0xC4, 0x1C, 0xEB];

pub open spec fn magic_prefix() -> Seq<u8> {
    seq![0xC4u8, 0x1C, 0xEB]
}

/// Encrypted data: its owner, the encrypted values and an optional signature.
#[derive(Debug, Clone, PartialEq, Eq)]
pub struct CipherData {
    pub owner: String,
    pub values: Vec<u64>,
    pub signature: Option<Vec<u64>>,
}

/// An optional value vector taken by view.
pub open spec fn opt_values(o: Option<Vec<u64>>) -> Option<Seq<u64>> {
    match o {
        Some(v) => Some(v@),
        None => None,
    }
}

/// The sections of a ciphertext file: owner bytes, values, and the signature if any.
pub open spec fn cipher_sections(owner: Seq<char>, values: Seq<u64>, sig: Option<Seq<u64>>) -> Seq<Seq<u64>> {
    match sig {
        Some(s) => seq![owner_values_spec(owner), values, s],
        None => seq![owner_values_spec(owner), values],
    }
}

/// What a ciphertext file's content is, taken as plain values.
pub type CipherContent = (Seq<char>, Seq<u64>, Option<Seq<u64>>);

/// The ciphertext that a list of sections describes.
pub open spec fn cipher_from_sections(secs: Seq<Seq<u64>>) -> Result<CipherContent, ErrorView> {
    if secs.len() == 2 || secs.len() == 3 {
        match owner_from_values(secs[0]) {
            Err(e) => Err(e),
            Ok(owner) => Ok((owner, secs[1], if secs.len() == 3 { Some(secs[2]) } else { None })),
        }
    } else {
        Err(ErrorView::CipherSectionCount(secs.len()))
    }
}

/// The ciphertext that a chicken text holds.
pub open spec fn cipher_from_text(input: Seq<char>) -> Result<CipherContent, ErrorView> {
    match parse_spec(input) {
        Err(e) => Err(e),
        Ok(secs) => cipher_from_sections(secs),
    }
}

/// A ciphertext result taken by view.
pub open spec fn cipher_view(r: Result<CipherData, ChickenError>) -> Result<CipherContent, ErrorView> {
    match r {
        Ok(c) => Ok((c.owner@, c.values@, opt_values(c.signature))),
        Err(e) => Err(e@),
    }
}

/// A ciphertext result with a message for its error, taken by view.
pub open spec fn cipher_text_view(r: Result<CipherData, String>) -> Result<CipherContent, Seq<char>> {
    match r {
        Ok(c) => Ok((c.owner@, c.values@, opt_values(c.signature))),
        Err(m) => Err(m@),
    }
}

/// Every value of a sequence is below `u64::MAX`.
pub open spec fn seq_below_max(s: Seq<u64>) -> bool {
    forall|i: int| 0 <= i < s.len() ==> #[trigger] s[i] < u64::MAX
}

proof fn lemma_owner_values_bytes(owner: Seq<char>)
    ensures
        seq_below_max(owner_values_spec(owner)),
{
    let v = owner_values_spec(owner);
    assert forall|i: int| 0 <= i < v.len() implies #[trigger] v[i] < u64::MAX by {
        assert(v[i] <= 255);
    }
}

pub(crate) proof fn lemma_cipher_sections_below_max(owner: Seq<char>, values: Seq<u64>, sig: Option<Seq<u64>>)
    requires
        seq_below_max(values),
        sig matches Some(s) ==> seq_below_max(s),
    ensures
        values_below_max(cipher_sections(owner, values, sig)),
{
    lemma_owner_values_bytes(owner);
    let secs = cipher_sections(owner, values, sig);
    assert forall|i: int, j: int| 0 <= i < secs.len() && 0 <= j < secs[i].len() implies #[trigger] secs[i][j] < u64::MAX by {
        if i == 0 {
            assert(owner_values_spec(owner)[j] < u64::MAX);
        } else if i == 1 {
            assert(values[j] < u64::MAX);
        } else {
            assert(sig->0[j] < u64::MAX);
        }
    }
}

fn copy_values(v: &Vec<u64>) -> (c: Vec<u64>)
    ensures
        c@ == v@,
{
    let mut c: Vec<u64> = Vec::new();
    let mut i: usize = 0;
    while i < v.len()
        invariant
            i <= v.len(),
            c@ == v@.take(i as int),
        decreases v.len() - i,
    {
        c.push(v[i]);
        assert(c@ =~= v@.take(i + 1));
        i += 1;
    }
    assert(v@.take(v.len() as int) =~= v@);
    c
}

impl CipherData {
    /// Serialize this ciphertext in the chicken or minichicken format.
    pub fn to_chicken_format(&self, minichicken: bool) -> (text: String)
        requires
            seq_below_max(self.values@),
            self.signature matches Some(s) ==> seq_below_max(s@),
        ensures
            text@ == serialize_spec(cipher_sections(self.owner@, self.values@, opt_values(self.signature)), minichicken),
    {
        let owner_section = owner_to_values(self.owner.as_str());
        let mut sections: Vec<Vec<u64>> = Vec::new();
        sections.push(owner_section);
        sections.push(copy_values(&self.values));
        match &self.signature {
            Some(sig) => {
                sections.push(copy_values(sig));
            },
            None => {},
        }
        proof {
            lemma_cipher_sections_below_max(self.owner@, self.values@, opt_values(self.signature));
            assert(value_rows(sections@) =~= cipher_sections(self.owner@, self.values@, opt_values(self.signature)));
        }
        serialize_chicken_sections(&sections, minichicken)
    }

    /// Parse a chicken / minichicken ciphertext file.
    pub fn from_chicken_format(input: &str) -> (res: Result<Self, String>)
        ensures
            cipher_text_view(res) == with_message(cipher_from_text(input@)),
    {
        match parse_cipher(input) {
            Ok(c) => Ok(c),
            Err(e) => Err(e.message()),
        }
    }
}

/// Read a ciphertext file, with the reason when it holds none.
fn parse_cipher(input: &str) -> (res: Result<CipherData, ChickenError>)
    ensures
        cipher_view(res) == cipher_from_text(input@),
{
    let chars = str_chars(input);
    let sections = match parse_chicken_sections(&chars) {
        Ok(s) => s,
        Err(e) => return Err(e),
    };
    let ghost secs = value_rows(sections@);
    let n = sections.len();
    if n == 2 || n == 3 {
        assert(secs[0] == sections[0]@ && secs[1] == sections[1]@);
        let owner = match values_to_owner(&sections[0]) {
            Ok(o) => o,
            Err(e) => return Err(e),
        };
        let values = copy_values(&sections[1]);
        let signature = if n == 3 {
            assert(secs[2] == sections[2]@);
            Some(copy_values(&sections[2]))
        } else {
            None
        };
        Ok(CipherData { owner, values, signature })
    } else {
        Err(ChickenError::CipherSectionCount(n))
    }
}

} // verus!

verus! {

/// The pairs that `count` values go through, cycling from the first pair
/// (the first `count` pairs, or all of them), have positive moduli.
pub open spec fn moduli_positive(pairs: Seq<KeyPair>, count: nat) -> bool {
    forall|i: int| 0 <= i < pairs.len() && i < count ==> #[trigger] pairs[i].modulus > 0
}

/// Raise each value to the exponent of the pair at its position, cycling
/// through the pairs, modulo that pair's modulus.
pub open spec fn rsa_apply(vals: Seq<u64>, pairs: Seq<KeyPair>) -> Seq<u64> {
    Seq::new(
        vals.len(),
        |x: int|
            (pow(vals[x] as int, pairs[x % pairs.len() as int].exponent as nat) % (pairs[x
                % pairs.len() as int].modulus as int)) as u64,
    )
}

/// Bytes taken as values.
pub open spec fn byte_values(b: Seq<u8>) -> Seq<u64> {
    b.map_values(|x: u8| x as u64)
}

/// The ciphertext values of a plaintext: the magic prefix and the plaintext,
/// byte by byte, through the key.
pub open spec fn encrypt_values(plain: Seq<u8>, pairs: Seq<KeyPair>) -> Seq<u64> {
    rsa_apply(byte_values(magic_prefix() + plain), pairs)
}

/// The bytes that decryption recovers before checking the prefix: each value
/// through the key, truncated to a byte.
pub open spec fn decrypted_bytes(vals: Seq<u64>, pairs: Seq<KeyPair>) -> Seq<u8> {
    rsa_apply(vals, pairs).map_values(|v: u64| v as u8)
}

/// The plaintext of ciphertext values, or a failure when the magic prefix is missing.
pub open spec fn decrypt_result(vals: Seq<u64>, pairs: Seq<KeyPair>) -> Result<Seq<u8>, ErrorView> {
    let all = decrypted_bytes(vals, pairs);
    if all.len() < 3 || all.take(3) != magic_prefix() {
        Err(ErrorView::DecryptionFailed)
    } else {
        Ok(all.skip(3))
    }
}

fn rsa_apply_exec(vals: &Vec<u64>, pairs: &Vec<KeyPair>) -> (res: Vec<u64>)
    requires
        pairs.len() > 0,
        moduli_positive(pairs@, vals.len() as nat),
    ensures
        res@ == rsa_apply(vals@, pairs@),
{
    let n = pairs.len();
    let mut res: Vec<u64> = Vec::new();
    let mut x: usize = 0;
    while x < vals.len()
        invariant
            n == pairs.len(),
            n > 0,
            moduli_positive(pairs@, vals.len() as nat),
            x <= vals.len(),
            res@ == rsa_apply(vals@, pairs@).take(x as int),
        decreases vals.len() - x,
    {
        let pair = &pairs[x % n];
        proof {
            vstd::arithmetic::div_mod::lemma_mod_decreases(x as nat, n as nat);
        }
        assert(pair.modulus > 0);
        let v = mod_pow(vals[x], pair.exponent, pair.modulus);
        res.push(v);
        assert(res@ =~= rsa_apply(vals@, pairs@).take(x + 1));
        x += 1;
    }
    assert(rsa_apply(vals@, pairs@).take(vals.len() as int) =~= rsa_apply(vals@, pairs@));
    res
}

/// Encrypt a plaintext byte stream using the key, rotating cyclically
/// through the key pairs. A magic prefix is prepended so that decryption
/// can detect a wrong key.
pub fn encrypt(plaintext: &[u8], key: &KeyFile) -> (cipher: CipherData)
    requires
        key.pairs.len() > 0,
        moduli_positive(key.pairs@, (plaintext.len() + 3) as nat),
    ensures
        cipher.owner@ == key.owner@,
        cipher.values@ == encrypt_values(plaintext@, key.pairs@),
        cipher.signature is None,
{
    let mut prefixed: Vec<u64> = Vec::new();
    prefixed.push(MAGIC_PREFIX[0] as u64);
    prefixed.push(MAGIC_PREFIX[1] as u64);
    prefixed.push(MAGIC_PREFIX[2] as u64);
    let mut i: usize = 0;
    while i < plaintext.len()
        invariant
            i <= plaintext.len(),
            prefixed@ == byte_values(magic_prefix() + plaintext@.take(i as int)),
        decreases plaintext.len() - i,
    {
        prefixed.push(plaintext[i] as u64);
        assert(magic_prefix() + plaintext@.take(i + 1) =~= (magic_prefix() + plaintext@.take(i as int)).push(plaintext@[i as int]));
        assert(prefixed@ =~= byte_values(magic_prefix() + plaintext@.take(i + 1)));
        i += 1;
    }
    assert(plaintext@.take(plaintext.len() as int) =~= plaintext@);
    let values = rsa_apply_exec(&prefixed, &key.pairs);
    CipherData { owner: key.owner.clone(), values, signature: None }
}

/// Decrypt ciphertext using the key, rotating cyclically through the key
/// pairs. Returns an error if the magic prefix doesn't match (wrong key
/// or corrupted data).
pub fn decrypt(cipher: &CipherData, key: &KeyFile) -> (res: Result<Vec<u8>, String>)
    requires
        key.pairs.len() > 0,
        moduli_positive(key.pairs@, cipher.values.len() as nat),
    ensures
        match res {
            Ok(b) => with_message(decrypt_result(cipher.values@, key.pairs@)) == Ok::<Seq<u8>, Seq<char>>(b@),
            Err(m) => with_message(decrypt_result(cipher.values@, key.pairs@)) == Err::<Seq<u8>, Seq<char>>(m@),
        },
{
    let vals = rsa_apply_exec(&cipher.values, &key.pairs);
    let mut all_bytes: Vec<u8> = Vec::new();
    let mut i: usize = 0;
    while i < vals.len()
        invariant
            i <= vals.len(),
            all_bytes@ == vals@.take(i as int).map_values(|v: u64| v as u8),
        decreases vals.len() - i,
    {
        all_bytes.push(vals[i] as u8);
        assert(all_bytes@ =~= vals@.take(i + 1).map_values(|v: u64| v as u8));
        i += 1;
    }
    assert(vals@.take(vals.len() as int) =~= vals@);
    let ghost all = decrypted_bytes(cipher.values@, key.pairs@);
    assert(all_bytes@ == all);
    if all_bytes.len() < 3 || all_bytes[0] != MAGIC_PREFIX[0] || all_bytes[1] != MAGIC_PREFIX[1]
        || all_bytes[2] != MAGIC_PREFIX[2] {
        assert(all.len() < 3 || all.take(3) != magic_prefix()) by {
            if all.len() >= 3 && all.take(3) == magic_prefix() {
                assert(all[0] == all.take(3)[0] && all[1] == all.take(3)[1] && all[2] == all.take(3)[2]);
            }
        }
        return Err(ChickenError::DecryptionFailed.message());
    }
    assert(all.take(3) =~= magic_prefix());
    let mut out: Vec<u8> = Vec::new();
    let mut j: usize = 3;
    while j < all_bytes.len()
        invariant
            3 <= j <= all_bytes.len(),
            out@ == all_bytes@.subrange(3, j as int),
        decreases all_bytes.len() - j,
    {
        out.push(all_bytes[j]);
        assert(out@ =~= all_bytes@.subrange(3, j + 1));
        j += 1;
    }
    assert(out@ =~= all.skip(3));
    Ok(out)
}

} // verus!

verus! {

/// The canonical text that a signature covers: the unsigned ciphertext in
/// the chicken format.
pub open spec fn canonical_text(owner: Seq<char>, values: Seq<u64>) -> Seq<char> {
    serialize_spec(cipher_sections(owner, values, None), false)
}

/// The hash of the canonical text, byte by byte.
pub open spec fn canonical_hash(owner: Seq<char>, values: Seq<u64>) -> Seq<u8> {
    chicken_hash_spec(encode_utf8(canonical_text(owner, values)))
}

/// The signature of a ciphertext under a key: its canonical hash through the key.
pub open spec fn signature_of(owner: Seq<char>, values: Seq<u64>, pairs: Seq<KeyPair>) -> Seq<u64> {
    rsa_apply(byte_values(canonical_hash(owner, values)), pairs)
}

/// Whether a signature matches a ciphertext under a key.
pub open spec fn verify_result(owner: Seq<char>, values: Seq<u64>, sig: Option<Seq<u64>>, pairs: Seq<KeyPair>) -> Result<(), ErrorView> {
    match sig {
        None => Err(ErrorView::NotSigned),
        Some(s) => if rsa_apply(s, pairs).map_values(|v: u64| v as u8) == canonical_hash(owner, values) {
            Ok(())
        } else {
            Err(ErrorView::SignatureMismatch)
        },
    }
}

fn canonical_unsigned(cipher: &CipherData) -> (text: String)
    requires
        seq_below_max(cipher.values@),
    ensures
        text@ == canonical_text(cipher.owner@, cipher.values@),
{
    let unsigned = CipherData { owner: cipher.owner.clone(), values: copy_values(&cipher.values), signature: None };
    unsigned.to_chicken_format(false)
}

/// Sign ciphertext by hashing its canonical form and encrypting the hash
/// with a private key. Returns a new `CipherData` with the signature attached.
pub fn sign(cipher: &CipherData, private_key: &KeyFile) -> (signed: CipherData)
    requires
        private_key.key_type == KeyType::Private,
        private_key.pairs.len() > 0,
        moduli_positive(private_key.pairs@, 8),
        seq_below_max(cipher.values@),
    ensures
        signed.owner@ == cipher.owner@,
        signed.values@ == cipher.values@,
        opt_values(signed.signature) == Some(signature_of(cipher.owner@, cipher.values@, private_key.pairs@)),
{
    let canonical = canonical_unsigned(cipher);
    let hash = chicken_hash(canonical.as_str().as_bytes());
    proof {
        lemma_chicken_hash_len(encode_utf8(canonical@));
    }
    let mut hash_values: Vec<u64> = Vec::new();
    let mut i: usize = 0;
    while i < 8
        invariant
            i <= 8,
            hash@.len() == 8,
            hash_values@ == byte_values(hash@.take(i as int)),
        decreases 8 - i,
    {
        hash_values.push(hash[i] as u64);
        assert(hash_values@ =~= byte_values(hash@.take(i + 1)));
        i += 1;
    }
    assert(hash@.take(8) =~= hash@);
    let sig_values = rsa_apply_exec(&hash_values, &private_key.pairs);
    CipherData { owner: cipher.owner.clone(), values: copy_values(&cipher.values), signature: Some(sig_values) }
}

/// Verify a signature on ciphertext using a public key.
pub fn verify(cipher: &CipherData, public_key: &KeyFile) -> (res: Result<(), String>)
    requires
        public_key.key_type == KeyType::Public,
        public_key.pairs.len() > 0,
        cipher.signature matches Some(sig) ==> moduli_positive(public_key.pairs@, sig.len() as nat) && seq_below_max(
            cipher.values@,
        ),
    ensures
        match res {
            Ok(()) => with_message(verify_result(cipher.owner@, cipher.values@, opt_values(cipher.signature), public_key.pairs@))
                == Ok::<(), Seq<char>>(()),
            Err(m) => with_message(verify_result(cipher.owner@, cipher.values@, opt_values(cipher.signature), public_key.pairs@))
                == Err::<(), Seq<char>>(m@),
        },
{
    let sig_values = match &cipher.signature {
        Some(s) => s,
        None => return Err(ChickenError::NotSigned.message()),
    };
    let decrypted = rsa_apply_exec(sig_values, &public_key.pairs);
    let canonical = canonical_unsigned(cipher);
    let expected_hash = chicken_hash(canonical.as_str().as_bytes());
    proof {
        lemma_chicken_hash_len(encode_utf8(canonical@));
    }
    let ghost dec_bytes = decrypted@.map_values(|v: u64| v as u8);
    if decrypted.len() != 8 {
        assert(dec_bytes.len() != expected_hash@.len());
        return Err(ChickenError::SignatureMismatch.message());
    }
    let mut i: usize = 0;
    while i < 8
        invariant
            i <= 8,
            decrypted.len() == 8,
            expected_hash@.len() == 8,
            dec_bytes == decrypted@.map_values(|v: u64| v as u8),
            decrypted@ == rsa_apply(sig_values@, public_key.pairs@),
            expected_hash@ == canonical_hash(cipher.owner@, cipher.values@),
            opt_values(cipher.signature) == Some(sig_values@),
            forall|k: int| 0 <= k < i ==> dec_bytes[k] == expected_hash@[k],
        decreases 8 - i,
    {
        if decrypted[i] as u8 != expected_hash[i] {
            assert(dec_bytes[i as int] != expected_hash@[i as int]);
            return Err(ChickenError::SignatureMismatch.message());
        }
        i += 1;
    }
    assert(dec_bytes =~= expected_hash@);
    Ok(())
}

} // verus!
