//! Key types and key files, plain and password protected.
use vstd::prelude::*;
use vstd::utf8::{encode_utf8, decode_utf8, valid_utf8};
use crate::error::{ChickenError, ErrorView, with_message};
use crate::format::{
    parse_spec, serialize_spec, values_below_max, value_rows, sections_view, serialize_chicken_sections,
    parse_chicken_sections, is_minichicken_spec,
};
use crate::hash::{chicken_hash, chicken_hash_spec, lemma_chicken_hash_len};
use crate::outside::{string_from_utf8, utf8_error_text};
use crate::text::str_chars;

verus! {

broadcast use vstd::string::group_string_axioms;

/// The kind of a key file.
#[derive(Debug, Clone, Copy, PartialEq, Eq, Structural)]
pub enum KeyType {
    Public,
    Private,
    PasswordProtected,
}

/// The number that marks a key type in a key file.
pub open spec fn marker_spec(t: KeyType) -> u64 {
    match t {
        KeyType::Public => 1,
        KeyType::Private => 2,
        KeyType::PasswordProtected => 3,
    }
}

fn key_type_marker(t: KeyType) -> (m: u64)
    ensures
        m == marker_spec(t),
{
    match t {
        KeyType::Public => 1,
        KeyType::Private => 2,
        KeyType::PasswordProtected => 3,
    }
}

/// One exponent and modulus of a key.
#[derive(Debug, Clone, PartialEq, Eq, Structural)]
pub struct KeyPair {
    /// `e` for a public key, `d` for a private key.
    pub exponent: u64,
    /// `n = p * q`.
    pub modulus: u64,
}

/// A key: its kind, its owner and its pairs.
#[derive(Debug, Clone, PartialEq, Eq)]
pub struct KeyFile {
    pub key_type: KeyType,
    pub owner: String,
    pub pairs: Vec<KeyPair>,
}

// ---------------------------------------------------------------------------
// Owner and pair values
// ---------------------------------------------------------------------------

/// The UTF-8 bytes of an owner, each as a value.
pub open spec fn owner_values_spec(owner: Seq<char>) -> Seq<u64> {
    encode_utf8(owner).map_values(|b: u8| b as u64)
}

/// The first value that is not a byte, at or after position `i`.
pub open spec fn first_non_byte(vals: Seq<u64>, i: int) -> Option<u64>
    decreases vals.len() - i,
{
    if i < 0 || i >= vals.len() {
        None
    } else if vals[i] > 255 {
        Some(vals[i])
    } else {
        first_non_byte(vals, i + 1)
    }
}

/// The owner named by a section of byte values.
pub open spec fn owner_from_values(vals: Seq<u64>) -> Result<Seq<char>, ErrorView> {
    match first_non_byte(vals, 0) {
        Some(v) => Err(ErrorView::OwnerByteOutOfRange(v)),
        None => {
            let bytes = vals.map_values(|v: u64| v as u8);
            if valid_utf8(bytes) {
                Ok(decode_utf8(bytes))
            } else {
                Err(ErrorView::InvalidOwnerUtf8(utf8_error_text(bytes)))
            }
        },
    }
}

/// Exponents and moduli of the pairs, interleaved.
pub open spec fn pairs_values(pairs: Seq<KeyPair>) -> Seq<u64> {
    Seq::new(2 * pairs.len(), |i: int| if i % 2 == 0 { pairs[i / 2].exponent } else { pairs[i / 2].modulus })
}

/// Pairs read from interleaved exponents and moduli.
pub open spec fn pairs_from_values(data: Seq<u64>) -> Seq<KeyPair> {
    Seq::new(data.len() / 2, |i: int| KeyPair { exponent: data[2 * i], modulus: data[2 * i + 1] })
}

pub(crate) fn owner_to_values(owner: &str) -> (vals: Vec<u64>)
    ensures
        vals@ == owner_values_spec(owner@),
{
    let bytes = owner.as_bytes_vec();
    let mut vals: Vec<u64> = Vec::new();
    let mut i: usize = 0;
    while i < bytes.len()
        invariant
            i <= bytes.len(),
            bytes@ == encode_utf8(owner@),
            vals@ == bytes@.take(i as int).map_values(|b: u8| b as u64),
        decreases bytes.len() - i,
    {
        vals.push(bytes[i] as u64);
        assert(bytes@.take(i + 1).map_values(|b: u8| b as u64) =~= bytes@.take(i as int).map_values(
            |b: u8| b as u64,
        ).push(bytes[i as int] as u64));
        i += 1;
    }
    assert(bytes@.take(bytes.len() as int) =~= bytes@);
    vals
}

pub(crate) fn values_to_owner(values: &Vec<u64>) -> (res: Result<String, ChickenError>)
    ensures
        match res {
            Ok(s) => owner_from_values(values@) == Ok::<Seq<char>, ErrorView>(s@),
            Err(e) => owner_from_values(values@) == Err::<Seq<char>, ErrorView>(e@),
        },
{
    let mut bytes: Vec<u8> = Vec::new();
    let mut i: usize = 0;
    while i < values.len()
        invariant
            i <= values.len(),
            first_non_byte(values@, 0) == first_non_byte(values@, i as int),
            bytes@ == values@.take(i as int).map_values(|v: u64| v as u8),
        decreases values.len() - i,
    {
        let v = values[i];
        if v > 255 {
            return Err(ChickenError::OwnerByteOutOfRange(v));
        }
        bytes.push(v as u8);
        assert(values@.take(i + 1).map_values(|v: u64| v as u8) =~= values@.take(i as int).map_values(
            |v: u64| v as u8,
        ).push(v as u8));
        i += 1;
    }
    assert(values@.take(values.len() as int) =~= values@);
    match string_from_utf8(bytes) {
        Ok(s) => Ok(s),
        Err(t) => Err(ChickenError::InvalidOwnerUtf8(t)),
    }
}

fn pairs_to_values(pairs: &Vec<KeyPair>) -> (vals: Vec<u64>)
    ensures
        vals@ == pairs_values(pairs@),
{
    let mut vals: Vec<u64> = Vec::new();
    let mut i: usize = 0;
    while i < pairs.len()
        invariant
            i <= pairs.len(),
            vals@ == pairs_values(pairs@.take(i as int)),
        decreases pairs.len() - i,
    {
        vals.push(pairs[i].exponent);
        vals.push(pairs[i].modulus);
        assert(vals@ =~= pairs_values(pairs@.take(i + 1)));
        i += 1;
    }
    assert(pairs@.take(pairs.len() as int) =~= pairs@);
    vals
}

fn values_to_pairs(data: &Vec<u64>) -> (pairs: Vec<KeyPair>)
    requires
        data.len() % 2 == 0,
    ensures
        pairs@ == pairs_from_values(data@),
{
    let mut pairs: Vec<KeyPair> = Vec::new();
    let mut i: usize = 0;
    while i < data.len() / 2
        invariant
            data.len() % 2 == 0,
            i <= data.len() / 2,
            pairs@ == pairs_from_values(data@).take(i as int),
        decreases data.len() / 2 - i,
    {
        pairs.push(KeyPair { exponent: data[2 * i], modulus: data[2 * i + 1] });
        assert(pairs@ =~= pairs_from_values(data@).take(i + 1));
        i += 1;
    }
    assert(pairs_from_values(data@).take((data.len() / 2) as int) =~= pairs_from_values(data@));
    pairs
}

} // verus!

verus! {

// ---------------------------------------------------------------------------
// Password helpers
// ---------------------------------------------------------------------------

/// The `k`-th 8-byte block of the key stream: the hash of the password,
/// then the hash of the previous block.
pub open spec fn key_block(pw: Seq<u8>, k: nat) -> Seq<u8>
    decreases k,
{
    if k == 0 {
        chicken_hash_spec(pw)
    } else {
        chicken_hash_spec(key_block(pw, (k - 1) as nat))
    }
}

/// The first `len` bytes of the key stream of a password.
pub open spec fn key_stream_spec(pw: Seq<u8>, len: nat) -> Seq<u8> {
    Seq::new(len, |i: int| key_block(pw, (i / 8) as nat)[i % 8])
}

/// Each value XOR-ed with the key stream byte at its position.
pub open spec fn xor_values(data: Seq<u64>, pw: Seq<u8>) -> Seq<u64> {
    Seq::new(data.len(), |i: int| data[i] ^ (key_stream_spec(pw, data.len())[i] as u64))
}

/// The 8 verification values of a password: the bytes of its hash.
pub open spec fn verify_values_spec(pw: Seq<u8>) -> Seq<u64> {
    chicken_hash_spec(pw).map_values(|b: u8| b as u64)
}

fn digest_to_vec(h: &[u8; 8]) -> (v: Vec<u8>)
    ensures
        v@ == h@,
{
    let mut v: Vec<u8> = Vec::new();
    let mut i: usize = 0;
    while i < 8
        invariant
            i <= 8,
            h@.len() == 8,
            v@ == h@.take(i as int),
        decreases 8 - i,
    {
        v.push(h[i]);
        assert(v@ =~= h@.take(i + 1));
        i += 1;
    }
    assert(h@.take(8) =~= h@);
    v
}

proof fn lemma_key_stream_extend(pw: Seq<u8>, k: nat)
    ensures
        key_stream_spec(pw, 8 * k) + key_block(pw, k) == key_stream_spec(pw, 8 * k + 8),
{
    lemma_key_block_len(pw, k);
    let a = key_stream_spec(pw, 8 * k) + key_block(pw, k);
    let b = key_stream_spec(pw, 8 * k + 8);
    assert forall|i: int| 0 <= i < 8 * k + 8 implies #[trigger] a[i] == b[i] by {
        if i >= 8 * k {
            vstd::arithmetic::div_mod::lemma_fundamental_div_mod_converse(i, 8, k as int, i - 8 * k);
        }
    }
    assert(a =~= b);
}

proof fn lemma_key_block_len(pw: Seq<u8>, k: nat)
    ensures
        key_block(pw, k).len() == 8,
{
    if k == 0 {
        lemma_chicken_hash_len(pw);
    } else {
        lemma_chicken_hash_len(key_block(pw, (k - 1) as nat));
    }
}

fn append_digest(bytes: &mut Vec<u8>, h: &[u8; 8])
    ensures
        final(bytes)@ == old(bytes)@ + h@,
{
    let ghost start = bytes@;
    let mut j: usize = 0;
    while j < 8
        invariant
            j <= 8,
            h@.len() == 8,
            bytes@ == start + h@.take(j as int),
        decreases 8 - j,
    {
        bytes.push(h[j]);
        assert(bytes@ =~= start + h@.take(j + 1));
        j += 1;
    }
    assert(h@.take(8) =~= h@);
}

/// Derive a stream of `length` bytes from `password` via iterative chicken_hash.
/// Each output byte is returned as a `u64` (range 0–255).
fn derive_key_stream(password: &str, length: usize) -> (stream: Vec<u64>)
    ensures
        stream@ == key_stream_spec(encode_utf8(password@), length as nat).map_values(|b: u8| b as u64),
{
    let ghost pw = encode_utf8(password@);
    let mut bytes: Vec<u8> = Vec::new();
    let mut seed = password.as_bytes_vec();
    let ghost mut k: nat = 0;
    while bytes.len() < length
        invariant
            bytes.len() == 8 * k,
            8 * k < length + 8,
            bytes@ == key_stream_spec(pw, 8 * k),
            seed@ == if k == 0 { pw } else { key_block(pw, (k - 1) as nat) },
        decreases length + 8 - bytes.len(),
    {
        let hash = chicken_hash(seed.as_slice());
        assert(hash@ == key_block(pw, k));
        append_digest(&mut bytes, &hash);
        proof {
            lemma_key_stream_extend(pw, k);
        }
        seed = digest_to_vec(&hash);
        proof {
            k = k + 1;
        }
    }
    bytes.truncate(length);
    assert(bytes@ =~= key_stream_spec(pw, length as nat));
    let mut stream: Vec<u64> = Vec::new();
    let mut i: usize = 0;
    while i < bytes.len()
        invariant
            i <= bytes.len(),
            bytes@ == key_stream_spec(pw, length as nat),
            stream@ == bytes@.take(i as int).map_values(|b: u8| b as u64),
        decreases bytes.len() - i,
    {
        stream.push(bytes[i] as u64);
        assert(stream@ =~= bytes@.take(i + 1).map_values(|b: u8| b as u64));
        i += 1;
    }
    assert(bytes@.take(bytes.len() as int) =~= bytes@);
    stream
}

/// XOR each value in `data` with a byte from the password-derived key stream.
/// XOR is its own inverse, so the same function encrypts and decrypts.
fn password_xor(data: &Vec<u64>, password: &str) -> (res: Vec<u64>)
    ensures
        res@ == xor_values(data@, encode_utf8(password@)),
{
    let key_stream = derive_key_stream(password, data.len());
    let mut res: Vec<u64> = Vec::new();
    let mut i: usize = 0;
    while i < data.len()
        invariant
            i <= data.len(),
            key_stream@ == key_stream_spec(encode_utf8(password@), data.len() as nat).map_values(|b: u8| b as u64),
            res@ == xor_values(data@, encode_utf8(password@)).take(i as int),
        decreases data.len() - i,
    {
        res.push(data[i] ^ key_stream[i]);
        assert(res@ =~= xor_values(data@, encode_utf8(password@)).take(i + 1));
        i += 1;
    }
    assert(xor_values(data@, encode_utf8(password@)).take(data.len() as int) =~= xor_values(data@, encode_utf8(password@)));
    res
}

/// Return 8 verification values (0–255 each) derived from the password hash.
fn password_verify_values(password: &str) -> (res: Vec<u64>)
    ensures
        res@ == verify_values_spec(encode_utf8(password@)),
{
    let bytes = password.as_bytes_vec();
    let h = chicken_hash(bytes.as_slice());
    proof {
        lemma_chicken_hash_len(encode_utf8(password@));
    }
    let mut res: Vec<u64> = Vec::new();
    let mut i: usize = 0;
    while i < 8
        invariant
            i <= 8,
            h@ == chicken_hash_spec(encode_utf8(password@)),
            h@.len() == 8,
            res@ == h@.take(i as int).map_values(|b: u8| b as u64),
        decreases 8 - i,
    {
        res.push(h[i] as u64);
        assert(res@ =~= h@.take(i + 1).map_values(|b: u8| b as u64));
        i += 1;
    }
    assert(h@.take(8) =~= h@);
    res
}

/// XOR-ing twice with the same password gives the data back; XOR-ing keeps
/// the length, and keeps 10-bit values within 10 bits.
pub proof fn lemma_xor_involution(data: Seq<u64>, pw: Seq<u8>)
    ensures
        xor_values(xor_values(data, pw), pw) == data,
        xor_values(data, pw).len() == data.len(),
        forall|i: int| 0 <= i < data.len() && data[i] <= 1023 ==> #[trigger] xor_values(data, pw)[i] <= 1023,
{
    let once = xor_values(data, pw);
    assert forall|i: int| 0 <= i < data.len() && data[i] <= 1023 implies #[trigger] once[i] <= 1023 by {
        let k = key_stream_spec(pw, data.len())[i] as u64;
        let d = data[i];
        assert(k <= 255);
        assert(d ^ k <= 1023) by (bit_vector)
            requires
                d <= 1023,
                k <= 255,
        ;
    }
    assert forall|i: int| 0 <= i < data.len() implies #[trigger] xor_values(once, pw)[i] == data[i] by {
        let k = key_stream_spec(pw, data.len())[i] as u64;
        let d = data[i];
        assert((d ^ k) ^ k == d) by (bit_vector);
    }
    assert(xor_values(once, pw) =~= data);
}

} // verus!

verus! {

// ---------------------------------------------------------------------------
// Key files
// ---------------------------------------------------------------------------

/// The sections of a plain key file: type marker, owner bytes, pair values.
pub open spec fn key_sections(t: KeyType, owner: Seq<char>, pairs: Seq<KeyPair>) -> Seq<Seq<u64>> {
    seq![seq![marker_spec(t)], owner_values_spec(owner), pairs_values(pairs)]
}

/// The sections of a password-protected key file: marker 3, owner bytes,
/// verification values, and the pair values XOR-ed with the key stream.
pub open spec fn protected_sections(owner: Seq<char>, pairs: Seq<KeyPair>, pw: Seq<u8>) -> Seq<Seq<u64>> {
    seq![seq![3u64], owner_values_spec(owner), verify_values_spec(pw), xor_values(pairs_values(pairs), pw)]
}

/// What a key file's content is, taken as plain values.
pub type KeyContent = (KeyType, Seq<char>, Seq<KeyPair>);

/// The key that a list of sections describes, or why it describes none.
pub open spec fn key_from_sections(secs: Seq<Seq<u64>>) -> Result<KeyContent, ErrorView> {
    if secs.len() > 0 && secs[0].len() > 0 && secs[0][0] == 3 {
        Err(ErrorView::PasswordProtected)
    } else if secs.len() != 3 {
        Err(ErrorView::KeySectionCount(secs.len()))
    } else if secs[0] != seq![1u64] && secs[0] != seq![2u64] {
        Err(ErrorView::InvalidKeyType(secs[0]))
    } else {
        match owner_from_values(secs[1]) {
            Err(e) => Err(e),
            Ok(owner) => if secs[2].len() % 2 != 0 {
                Err(ErrorView::OddKeyData(secs[2].len()))
            } else {
                Ok((
                    if secs[0] == seq![1u64] { KeyType::Public } else { KeyType::Private },
                    owner,
                    pairs_from_values(secs[2]),
                ))
            },
        }
    }
}

/// The key that a chicken text holds.
pub open spec fn key_from_text(input: Seq<char>) -> Result<KeyContent, ErrorView> {
    match parse_spec(input) {
        Err(e) => Err(e),
        Ok(secs) => key_from_sections(secs),
    }
}

/// The private key that the sections of a password-protected key file hold.
pub open spec fn protected_key_from_sections(secs: Seq<Seq<u64>>, pw: Seq<u8>) -> Result<KeyContent, ErrorView> {
    if secs.len() != 4 {
        Err(ErrorView::ProtectedSectionCount(secs.len()))
    } else if secs[0] != seq![3u64] {
        Err(ErrorView::NotPasswordProtected)
    } else {
        match owner_from_values(secs[1]) {
            Err(e) => Err(e),
            Ok(owner) => if secs[2] != verify_values_spec(pw) {
                Err(ErrorView::IncorrectPassword)
            } else if secs[3].len() % 2 != 0 {
                Err(ErrorView::OddDecryptedData(secs[3].len()))
            } else {
                Ok((KeyType::Private, owner, pairs_from_values(xor_values(secs[3], pw))))
            },
        }
    }
}

/// The private key that a password-protected chicken text holds.
pub open spec fn protected_key_from_text(input: Seq<char>, pw: Seq<u8>) -> Result<KeyContent, ErrorView> {
    match parse_spec(input) {
        Err(e) => Err(e),
        Ok(secs) => protected_key_from_sections(secs, pw),
    }
}

/// A key result taken by view.
pub open spec fn key_view(r: Result<KeyFile, ChickenError>) -> Result<KeyContent, ErrorView> {
    match r {
        Ok(k) => Ok((k.key_type, k.owner@, k.pairs@)),
        Err(e) => Err(e@),
    }
}

/// A key result with a message for its error, taken by view.
pub open spec fn key_text_view(r: Result<KeyFile, String>) -> Result<KeyContent, Seq<char>> {
    match r {
        Ok(k) => Ok((k.key_type, k.owner@, k.pairs@)),
        Err(m) => Err(m@),
    }
}

/// Every exponent and modulus is below `u64::MAX`.
pub open spec fn pairs_below_max(pairs: Seq<KeyPair>) -> bool {
    forall|i: int| 0 <= i < pairs.len() ==> #[trigger] pairs[i].exponent < u64::MAX && pairs[i].modulus < u64::MAX
}

pub(crate) proof fn lemma_key_sections_below_max(t: KeyType, owner: Seq<char>, pairs: Seq<KeyPair>)
    requires
        pairs_below_max(pairs),
    ensures
        values_below_max(key_sections(t, owner, pairs)),
{
    let secs = key_sections(t, owner, pairs);
    assert forall|i: int, j: int| 0 <= i < secs.len() && 0 <= j < secs[i].len() implies #[trigger] secs[i][j] < u64::MAX by {
        if i == 2 {
            assert(pairs[j / 2].exponent < u64::MAX && pairs[j / 2].modulus < u64::MAX);
        }
    }
}

impl KeyFile {
    /// Serialize this key in the chicken or minichicken format.
    pub fn to_chicken_format(&self, minichicken: bool) -> (text: String)
        requires
            pairs_below_max(self.pairs@),
        ensures
            text@ == serialize_spec(key_sections(self.key_type, self.owner@, self.pairs@), minichicken),
    {
        let mut type_section: Vec<u64> = Vec::new();
        type_section.push(key_type_marker(self.key_type));
        let owner_section = owner_to_values(self.owner.as_str());
        let data_section = pairs_to_values(&self.pairs);
        let mut sections: Vec<Vec<u64>> = Vec::new();
        sections.push(type_section);
        sections.push(owner_section);
        sections.push(data_section);
        proof {
            lemma_key_sections_below_max(self.key_type, self.owner@, self.pairs@);
            assert(value_rows(sections@) =~= key_sections(self.key_type, self.owner@, self.pairs@));
        }
        serialize_chicken_sections(&sections, minichicken)
    }

    /// Parse a plain (not password-protected) chicken / minichicken key file.
    pub fn from_chicken_format(input: &str) -> (res: Result<Self, String>)
        ensures
            key_text_view(res) == with_message(key_from_text(input@)),
    {
        match parse_key(input) {
            Ok(k) => Ok(k),
            Err(e) => Err(e.message()),
        }
    }

    /// Parse a password-protected chicken / minichicken key file, decrypt it,
    /// and return a plain `Private` key.
    ///
    /// Returns an error if the password is incorrect or the file is malformed.
    pub fn from_protected_chicken_format(input: &str, password: &str) -> (res: Result<Self, String>)
        ensures
            key_text_view(res) == with_message(protected_key_from_text(input@, encode_utf8(password@))),
    {
        match parse_protected_key(input, password) {
            Ok(k) => Ok(k),
            Err(e) => Err(e.message()),
        }
    }

    /// Serialize this private key as a password-protected chicken / minichicken file.
    ///
    /// The output is valid chicken format: key type marker 3, owner section,
    /// verification section (8 hash bytes), and XOR-encrypted key data.
    pub fn to_protected_chicken_format(&self, password: &str, minichicken: bool) -> (text: String)
        requires
            values_below_max(protected_sections(self.owner@, self.pairs@, encode_utf8(password@))),
        ensures
            text@ == serialize_spec(protected_sections(self.owner@, self.pairs@, encode_utf8(password@)), minichicken),
    {
        let mut type_section: Vec<u64> = Vec::new();
        type_section.push(key_type_marker(KeyType::PasswordProtected));
        let owner_section = owner_to_values(self.owner.as_str());
        let verify_section = password_verify_values(password);
        let data_section = pairs_to_values(&self.pairs);
        let encrypted_data = password_xor(&data_section, password);
        let mut sections: Vec<Vec<u64>> = Vec::new();
        sections.push(type_section);
        sections.push(owner_section);
        sections.push(verify_section);
        sections.push(encrypted_data);
        assert(value_rows(sections@) =~= protected_sections(self.owner@, self.pairs@, encode_utf8(password@)));
        serialize_chicken_sections(&sections, minichicken)
    }
}

/// Read a plain key file, with the reason when it holds none.
fn parse_key(input: &str) -> (res: Result<KeyFile, ChickenError>)
    ensures
        key_view(res) == key_from_text(input@),
{
    let chars = str_chars(input);
    let sections = match parse_chicken_sections(&chars) {
        Ok(s) => s,
        Err(e) => return Err(e),
    };
    let ghost secs = value_rows(sections@);
    // Detect password-protected key before the section-count check.
    if sections.len() > 0 && sections[0].len() > 0 && sections[0][0] == 3 {
        return Err(ChickenError::PasswordProtected);
    }
    if sections.len() != 3 {
        return Err(ChickenError::KeySectionCount(sections.len()));
    }
    assert(secs[0] == sections[0]@ && secs[1] == sections[1]@ && secs[2] == sections[2]@);
    let key_type = if sections[0].len() == 1 && sections[0][0] == 1 {
        assert(secs[0] =~= seq![1u64]);
        KeyType::Public
    } else if sections[0].len() == 1 && sections[0][0] == 2 {
        assert(secs[0] =~= seq![2u64]);
        KeyType::Private
    } else {
        assert(secs[0] != seq![1u64] && secs[0] != seq![2u64]) by {
            if secs[0] == seq![1u64] || secs[0] == seq![2u64] {
                assert(secs[0].len() == 1);
            }
        }
        return Err(ChickenError::InvalidKeyType(sections[0].clone()));
    };
    let owner = match values_to_owner(&sections[1]) {
        Ok(o) => o,
        Err(e) => return Err(e),
    };
    let data = &sections[2];
    if data.len() % 2 != 0 {
        return Err(ChickenError::OddKeyData(data.len()));
    }
    let pairs = values_to_pairs(data);
    Ok(KeyFile { key_type, owner, pairs })
}

/// Read and decrypt a password-protected key file, with the reason when it
/// holds no key for this password.
fn parse_protected_key(input: &str, password: &str) -> (res: Result<KeyFile, ChickenError>)
    ensures
        key_view(res) == protected_key_from_text(input@, encode_utf8(password@)),
{
    let chars = str_chars(input);
    let sections = match parse_chicken_sections(&chars) {
        Ok(s) => s,
        Err(e) => return Err(e),
    };
    let ghost secs = value_rows(sections@);
    if sections.len() != 4 {
        return Err(ChickenError::ProtectedSectionCount(sections.len()));
    }
    assert(secs[0] == sections[0]@ && secs[1] == sections[1]@ && secs[2] == sections[2]@ && secs[3] == sections[3]@);
    if !(sections[0].len() == 1 && sections[0][0] == 3) {
        assert(secs[0] != seq![3u64]) by {
            if secs[0] == seq![3u64] {
                assert(secs[0].len() == 1);
            }
        }
        return Err(ChickenError::NotPasswordProtected);
    }
    assert(secs[0] =~= seq![3u64]);
    let owner = match values_to_owner(&sections[1]) {
        Ok(o) => o,
        Err(e) => return Err(e),
    };
    let expected_verify = password_verify_values(password);
    if !u64_vec_eq(&sections[2], &expected_verify) {
        return Err(ChickenError::IncorrectPassword);
    }
    let data = password_xor(&sections[3], password);
    if data.len() % 2 != 0 {
        return Err(ChickenError::OddDecryptedData(data.len()));
    }
    let pairs = values_to_pairs(&data);
    Ok(KeyFile { key_type: KeyType::Private, owner, pairs })
}

/// Whether two value vectors are equal.
pub(crate) fn u64_vec_eq(a: &Vec<u64>, b: &Vec<u64>) -> (res: bool)
    ensures
        res == (a@ == b@),
{
    if a.len() != b.len() {
        return false;
    }
    let mut i: usize = 0;
    while i < a.len()
        invariant
            a.len() == b.len(),
            i <= a.len(),
            forall|k: int| 0 <= k < i ==> a@[k] == b@[k],
        decreases a.len() - i,
    {
        if a[i] != b[i] {
            return false;
        }
        i += 1;
    }
    assert(a@ =~= b@);
    true
}

} // verus!

verus! {

/// Return `true` if `input` is in minichicken (single-line) format.
pub fn is_minichicken_format(input: &str) -> (res: bool)
    ensures
        res == is_minichicken_spec(input@),
{
    let chars = str_chars(input);
    let toks = crate::text::split_whitespace(&chars);
    if toks.len() == 0 {
        return false;
    }
    assert(crate::text::char_rows(toks@)[0] == toks[0]@);
    !crate::format::is_chicken_word(&toks[0])
}

/// The text parses and its first section starts with the protected marker 3.
pub open spec fn is_protected_spec(input: Seq<char>) -> bool {
    match parse_spec(input) {
        Ok(secs) => secs.len() > 0 && secs[0].len() > 0 && secs[0][0] == 3,
        Err(_) => false,
    }
}

/// Return `true` if `input` appears to be a password-protected key file
/// (key type marker == `PasswordProtected`).
pub fn is_password_protected(input: &str) -> (res: bool)
    ensures
        res == is_protected_spec(input@),
{
    let chars = str_chars(input);
    match parse_chicken_sections(&chars) {
        Ok(sections) => {
            proof {
                if sections.len() > 0 {
                    assert(value_rows(sections@)[0] == sections[0]@);
                }
            }
            sections.len() > 0 && sections[0].len() > 0 && sections[0][0] == key_type_marker(KeyType::PasswordProtected)
        },
        Err(_) => false,
    }
}

} // verus!
