//! Laws of the key and ciphertext files: what reading gives back of writing.
use vstd::prelude::*;
use vstd::utf8::{encode_utf8, encode_utf8_valid_utf8, encode_utf8_decode_utf8};
use crate::cipher::{cipher_sections, cipher_from_text, seq_below_max, lemma_cipher_sections_below_max};
use crate::error::ErrorView;
use crate::format::{serialize_spec, values_below_max, is_minichicken_spec, parse_spec};
use crate::format_laws::{
    lemma_sections_roundtrip, all_sections_nonempty, lemma_chicken_read, lemma_nonempty_sections_first,
    lemma_nonempty_sections_count, nonempty_sections,
};
use crate::hash::chicken_hash_spec;
use crate::hash::lemma_chicken_hash_len;
use crate::keys::{
    KeyType, KeyPair, KeyContent, owner_values_spec, owner_from_values, first_non_byte, pairs_values,
    pairs_from_values, key_sections, protected_sections, key_from_text, protected_key_from_text,
    pairs_below_max, is_protected_spec, verify_values_spec, xor_values, lemma_xor_involution,
    lemma_key_sections_below_max, key_block, key_stream_spec, protected_key_from_sections,
};

verus! {

proof fn lemma_no_non_byte(vals: Seq<u64>, i: int)
    requires
        forall|j: int| 0 <= j < vals.len() ==> #[trigger] vals[j] <= 255,
    ensures
        first_non_byte(vals, i) == None::<u64>,
    decreases vals.len() - i,
{
    if 0 <= i < vals.len() {
        lemma_no_non_byte(vals, i + 1);
    }
}

proof fn lemma_encode_nonempty(owner: Seq<char>)
    requires
        owner.len() > 0,
    ensures
        owner_values_spec(owner).len() > 0,
{
    assert(encode_utf8(owner) == vstd::utf8::encode_scalar(owner[0] as u32) + encode_utf8(owner.drop_first()));
}

/// Reading the owner section written for an owner gives the owner back.
pub proof fn lemma_owner_roundtrip(owner: Seq<char>)
    ensures
        owner_from_values(owner_values_spec(owner)) == Ok::<Seq<char>, ErrorView>(owner),
{
    let vals = owner_values_spec(owner);
    lemma_no_non_byte(vals, 0);
    let bytes = vals.map_values(|v: u64| v as u8);
    assert(bytes =~= encode_utf8(owner));
    encode_utf8_valid_utf8(owner);
    encode_utf8_decode_utf8(owner);
}

/// Reading the interleaved values of pairs gives the pairs back.
pub proof fn lemma_pairs_roundtrip(pairs: Seq<KeyPair>)
    ensures
        pairs_values(pairs).len() == 2 * pairs.len(),
        pairs_from_values(pairs_values(pairs)) == pairs,
{
    let d = pairs_values(pairs);
    assert forall|i: int| 0 <= i < pairs.len() implies #[trigger] pairs_from_values(d)[i] == pairs[i] by {
        assert((2 * i) % 2 == 0 && (2 * i) / 2 == i);
        assert((2 * i + 1) % 2 == 1 && (2 * i + 1) / 2 == i);
    }
    assert(pairs_from_values(d) =~= pairs);
}

/// A plain key written in either format reads back as the same key. The
/// chicken format has no way to write an empty section, so there the owner
/// and the pairs must not be empty.
#[verifier::spinoff_prover]
pub proof fn lemma_key_roundtrip(t: KeyType, owner: Seq<char>, pairs: Seq<KeyPair>, minichicken: bool)
    requires
        t != KeyType::PasswordProtected,
        pairs_below_max(pairs),
        minichicken || (owner.len() > 0 && pairs.len() > 0),
    ensures
        key_from_text(serialize_spec(key_sections(t, owner, pairs), minichicken))
            == Ok::<KeyContent, ErrorView>((t, owner, pairs)),
{
    let secs = key_sections(t, owner, pairs);
    lemma_key_sections_below_max(t, owner, pairs);
    lemma_pairs_roundtrip(pairs);
    lemma_owner_roundtrip(owner);
    if !minichicken {
        lemma_encode_nonempty(owner);
        assert(all_sections_nonempty(secs));
    }
    lemma_sections_roundtrip(secs, minichicken);
}

proof fn lemma_protected_sections(owner: Seq<char>, pairs: Seq<KeyPair>, pw: Seq<u8>, other: Seq<u8>)
    ensures
        crate::keys::protected_key_from_sections(protected_sections(owner, pairs, pw), pw)
            == Ok::<KeyContent, ErrorView>((KeyType::Private, owner, pairs)),
        verify_values_spec(other) != verify_values_spec(pw) ==> crate::keys::protected_key_from_sections(
            protected_sections(owner, pairs, pw),
            other,
        ) == Err::<KeyContent, ErrorView>(ErrorView::IncorrectPassword),
        crate::keys::key_from_sections(protected_sections(owner, pairs, pw))
            == Err::<KeyContent, ErrorView>(ErrorView::PasswordProtected),
        protected_sections(owner, pairs, pw)[0][0] == 3,
{
    lemma_pairs_roundtrip(pairs);
    lemma_owner_roundtrip(owner);
    lemma_xor_involution(pairs_values(pairs), pw);
}

#[verifier::spinoff_prover]
proof fn lemma_protected_text(owner: Seq<char>, pairs: Seq<KeyPair>, pw: Seq<u8>, minichicken: bool)
    requires
        values_below_max(protected_sections(owner, pairs, pw)),
        minichicken || (owner.len() > 0 && pairs.len() > 0),
    ensures
        crate::format::parse_spec(serialize_spec(protected_sections(owner, pairs, pw), minichicken))
            == Ok::<Seq<Seq<u64>>, ErrorView>(protected_sections(owner, pairs, pw)),
{
    let secs = protected_sections(owner, pairs, pw);
    lemma_chicken_hash_len(pw);
    if !minichicken {
        lemma_encode_nonempty(owner);
        assert(secs[3].len() == 2 * pairs.len());
        assert(all_sections_nonempty(secs));
    }
    lemma_sections_roundtrip(secs, minichicken);
}

/// A password-protected key written in either format reads back, with the
/// same password, as the private key with the same owner and pairs. The
/// chicken format has no way to write an empty section, so there the owner
/// and the pairs must not be empty.
pub proof fn lemma_protected_roundtrip(owner: Seq<char>, pairs: Seq<KeyPair>, pw: Seq<u8>, minichicken: bool)
    requires
        values_below_max(protected_sections(owner, pairs, pw)),
        minichicken || (owner.len() > 0 && pairs.len() > 0),
    ensures
        protected_key_from_text(serialize_spec(protected_sections(owner, pairs, pw), minichicken), pw)
            == Ok::<KeyContent, ErrorView>((KeyType::Private, owner, pairs)),
{
    lemma_protected_text(owner, pairs, pw, minichicken);
    lemma_protected_sections(owner, pairs, pw, pw);
}

/// A password-protected key read with a password whose verification values
/// differ from those of the password it was written with is refused as an
/// incorrect password.
pub proof fn lemma_protected_wrong_password(
    owner: Seq<char>,
    pairs: Seq<KeyPair>,
    pw: Seq<u8>,
    other: Seq<u8>,
    minichicken: bool,
)
    requires
        values_below_max(protected_sections(owner, pairs, pw)),
        minichicken || (owner.len() > 0 && pairs.len() > 0),
        verify_values_spec(other) != verify_values_spec(pw),
    ensures
        protected_key_from_text(serialize_spec(protected_sections(owner, pairs, pw), minichicken), other)
            == Err::<KeyContent, ErrorView>(ErrorView::IncorrectPassword),
{
    lemma_protected_text(owner, pairs, pw, minichicken);
    lemma_protected_sections(owner, pairs, pw, other);
}

/// A ciphertext written in either format reads back with the same owner,
/// values and signature. The chicken format has no way to write an empty
/// section, so there the owner, the values and a signature must not be empty.
pub proof fn lemma_cipher_roundtrip(owner: Seq<char>, values: Seq<u64>, sig: Option<Seq<u64>>, minichicken: bool)
    requires
        seq_below_max(values),
        sig matches Some(s) ==> seq_below_max(s),
        minichicken || (owner.len() > 0 && values.len() > 0 && (sig matches Some(s) ==> s.len() > 0)),
    ensures
        cipher_from_text(serialize_spec(cipher_sections(owner, values, sig), minichicken))
            == Ok::<(Seq<char>, Seq<u64>, Option<Seq<u64>>), ErrorView>((owner, values, sig)),
{
    let secs = cipher_sections(owner, values, sig);
    lemma_cipher_sections_below_max(owner, values, sig);
    lemma_owner_roundtrip(owner);
    if !minichicken {
        lemma_encode_nonempty(owner);
        assert(all_sections_nonempty(secs));
    }
    lemma_sections_roundtrip(secs, minichicken);
}

// ---------------------------------------------------------------------------
// Format detection, for every written file
// ---------------------------------------------------------------------------

/// A written file of at least two sections is recognised in the format it
/// was written in.
proof fn lemma_written_format(secs: Seq<Seq<u64>>, minichicken: bool)
    requires
        values_below_max(secs),
        secs.len() >= 2,
    ensures
        is_minichicken_spec(serialize_spec(secs, minichicken)) == minichicken,
{
    if minichicken {
        lemma_sections_roundtrip(secs, true);
    } else {
        lemma_chicken_read(secs);
    }
}

/// A written file whose first section holds a value reads with that first
/// section first.
proof fn lemma_written_first_section(secs: Seq<Seq<u64>>, minichicken: bool)
    requires
        values_below_max(secs),
        secs.len() >= 2,
        secs[0].len() > 0,
    ensures
        match parse_spec(serialize_spec(secs, minichicken)) {
            Ok(s) => s.len() > 0 && s[0] == secs[0],
            Err(_) => false,
        },
{
    if minichicken {
        lemma_sections_roundtrip(secs, true);
    } else {
        lemma_chicken_read(secs);
        lemma_nonempty_sections_first(secs);
    }
}

/// A key written in either format, whatever its owner and pairs, is
/// recognised in the format it was written in, and is taken for a
/// password-protected key exactly when its type is the protected one.
pub proof fn lemma_key_detected(t: KeyType, owner: Seq<char>, pairs: Seq<KeyPair>, minichicken: bool)
    requires
        pairs_below_max(pairs),
    ensures
        is_minichicken_spec(serialize_spec(key_sections(t, owner, pairs), minichicken)) == minichicken,
        is_protected_spec(serialize_spec(key_sections(t, owner, pairs), minichicken)) == (t
            == KeyType::PasswordProtected),
{
    let secs = key_sections(t, owner, pairs);
    lemma_key_sections_below_max(t, owner, pairs);
    lemma_written_format(secs, minichicken);
    lemma_written_first_section(secs, minichicken);
}

/// A password-protected key written in either format, whatever its owner
/// and pairs, is recognised in the format it was written in and as password
/// protected, and the plain key reader refuses it as such.
pub proof fn lemma_protected_detected(owner: Seq<char>, pairs: Seq<KeyPair>, pw: Seq<u8>, minichicken: bool)
    requires
        values_below_max(protected_sections(owner, pairs, pw)),
    ensures
        is_minichicken_spec(serialize_spec(protected_sections(owner, pairs, pw), minichicken)) == minichicken,
        is_protected_spec(serialize_spec(protected_sections(owner, pairs, pw), minichicken)),
        key_from_text(serialize_spec(protected_sections(owner, pairs, pw), minichicken))
            == Err::<KeyContent, ErrorView>(ErrorView::PasswordProtected),
{
    let secs = protected_sections(owner, pairs, pw);
    lemma_written_format(secs, minichicken);
    lemma_written_first_section(secs, minichicken);
}

/// A ciphertext written in either format, whatever its owner, values and
/// signature, is recognised in the format it was written in.
pub proof fn lemma_cipher_detected(owner: Seq<char>, values: Seq<u64>, sig: Option<Seq<u64>>, minichicken: bool)
    requires
        seq_below_max(values),
        sig matches Some(s) ==> seq_below_max(s),
    ensures
        is_minichicken_spec(serialize_spec(cipher_sections(owner, values, sig), minichicken)) == minichicken,
{
    lemma_cipher_sections_below_max(owner, values, sig);
    lemma_written_format(cipher_sections(owner, values, sig), minichicken);
}

// ---------------------------------------------------------------------------
// What a password protects
// ---------------------------------------------------------------------------

/// The key stream of a password depends only on the chicken hash of the
/// whole password.
proof fn lemma_key_block_by_hash(pw: Seq<u8>, other: Seq<u8>, k: nat)
    requires
        chicken_hash_spec(pw) == chicken_hash_spec(other),
    ensures
        key_block(pw, k) == key_block(other, k),
    decreases k,
{
    if k > 0 {
        lemma_key_block_by_hash(pw, other, (k - 1) as nat);
    }
}

proof fn lemma_xor_by_hash(data: Seq<u64>, pw: Seq<u8>, other: Seq<u8>)
    requires
        chicken_hash_spec(pw) == chicken_hash_spec(other),
    ensures
        xor_values(data, pw) == xor_values(data, other),
{
    assert forall|i: int| 0 <= i < data.len() implies #[trigger] key_stream_spec(pw, data.len())[i]
        == key_stream_spec(other, data.len())[i] by {
        lemma_key_block_by_hash(pw, other, (i / 8) as nat);
    }
    assert(key_stream_spec(pw, data.len()) =~= key_stream_spec(other, data.len()));
    assert(xor_values(data, pw) =~= xor_values(data, other));
}

/// Equal verification values come from equal password hashes.
proof fn lemma_verify_values_hash(pw: Seq<u8>, other: Seq<u8>)
    requires
        verify_values_spec(pw) == verify_values_spec(other),
    ensures
        chicken_hash_spec(pw) == chicken_hash_spec(other),
{
    lemma_chicken_hash_len(pw);
    lemma_chicken_hash_len(other);
    let a = chicken_hash_spec(pw);
    let b = chicken_hash_spec(other);
    assert forall|i: int| 0 <= i < 8 implies a[i] == b[i] by {
        assert(verify_values_spec(pw)[i] == a[i] as u64);
        assert(verify_values_spec(other)[i] == b[i] as u64);
    }
    assert(a =~= b);
}

/// The sections of a protected key read with password `other`: read only
/// when the two password hashes agree, and then as the key written.
proof fn lemma_protected_sections_other(owner: Seq<char>, pairs: Seq<KeyPair>, pw: Seq<u8>, other: Seq<u8>)
    ensures
        protected_key_from_sections(protected_sections(owner, pairs, pw), other) is Ok ==> chicken_hash_spec(other)
            == chicken_hash_spec(pw),
        protected_key_from_sections(protected_sections(owner, pairs, pw), other) is Ok
            ==> protected_key_from_sections(protected_sections(owner, pairs, pw), other) == Ok::<KeyContent, ErrorView>(
            (KeyType::Private, owner, pairs),
        ),
{
    let secs = protected_sections(owner, pairs, pw);
    if protected_key_from_sections(secs, other) is Ok {
        assert(secs[2] == verify_values_spec(other));
        lemma_verify_values_hash(pw, other);
        lemma_xor_by_hash(xor_values(pairs_values(pairs), pw), pw, other);
        lemma_protected_sections(owner, pairs, pw, pw);
        assert(protected_key_from_sections(secs, other) == protected_key_from_sections(secs, pw));
    }
}

/// A protected key file that reads at all reads whole: with a section lost
/// there would be fewer than four.
proof fn lemma_protected_read_whole(owner: Seq<char>, pairs: Seq<KeyPair>, pw: Seq<u8>, other: Seq<u8>, minichicken: bool)
    requires
        values_below_max(protected_sections(owner, pairs, pw)),
    ensures
        protected_key_from_text(serialize_spec(protected_sections(owner, pairs, pw), minichicken), other) is Ok
            ==> parse_spec(serialize_spec(protected_sections(owner, pairs, pw), minichicken)) == Ok::<
            Seq<Seq<u64>>,
            ErrorView,
        >(protected_sections(owner, pairs, pw)),
{
    let secs = protected_sections(owner, pairs, pw);
    lemma_chicken_hash_len(pw);
    if minichicken {
        lemma_sections_roundtrip(secs, true);
    } else {
        lemma_chicken_read(secs);
        lemma_nonempty_sections_first(secs);
        lemma_nonempty_sections_count(secs);
    }
}

/// A password-protected key file written with password `pw`, in either
/// format and whatever its owner and pairs, is read with a password `other`
/// only when the chicken hashes of the two whole passwords are equal; and
/// whenever it is read, it gives the private key that was written.
pub proof fn lemma_protected_password_needed(
    owner: Seq<char>,
    pairs: Seq<KeyPair>,
    pw: Seq<u8>,
    other: Seq<u8>,
    minichicken: bool,
)
    requires
        values_below_max(protected_sections(owner, pairs, pw)),
    ensures
        protected_key_from_text(serialize_spec(protected_sections(owner, pairs, pw), minichicken), other) is Ok
            ==> chicken_hash_spec(other) == chicken_hash_spec(pw),
        protected_key_from_text(serialize_spec(protected_sections(owner, pairs, pw), minichicken), other) is Ok
            ==> protected_key_from_text(serialize_spec(protected_sections(owner, pairs, pw), minichicken), other)
            == Ok::<KeyContent, ErrorView>((KeyType::Private, owner, pairs)),
{
    lemma_protected_read_whole(owner, pairs, pw, other, minichicken);
    lemma_protected_sections_other(owner, pairs, pw, other);
}

} // verus!
