//! Errors of parsing chicken files and of the cipher operations.
use vstd::prelude::*;
use crate::outside::{debug_string, debug_text};
use crate::text::{dec, push_decimal};

verus! {

/// What went wrong while reading a chicken file or checking a ciphertext.
#[derive(Debug, Clone, PartialEq, Eq)]
pub enum ChickenError {
    /// The input holds no token at all.
    EmptyInput,
    /// A word other than `chicken` in a chicken line.
    UnexpectedToken(String),
    /// A chicken line without words.
    EmptyChickenLine,
    /// A minichicken token that is not a decimal number.
    InvalidNumber(String),
    /// A minichicken value below the offset of 1.
    BelowOffset(u64),
    /// A password-protected key handed to the plain key reader.
    PasswordProtected,
    /// A key file without exactly 3 sections (type, owner, data).
    KeySectionCount(usize),
    /// A key type section other than `[1]` or `[2]`.
    InvalidKeyType(Vec<u64>),
    /// An owner value that is not a byte.
    OwnerByteOutOfRange(u64),
    /// Owner bytes that are not UTF-8, with what the UTF-8 decoder reported.
    InvalidOwnerUtf8(String),
    /// Key data with an odd number of values.
    OddKeyData(usize),
    /// A password-protected key file without exactly 4 sections.
    ProtectedSectionCount(usize),
    /// A 4-section file whose type section is not `[3]`.
    NotPasswordProtected,
    /// The password does not match the stored verification values.
    IncorrectPassword,
    /// Decrypted key data with an odd number of values.
    OddDecryptedData(usize),
    /// A ciphertext without 2 or 3 sections.
    CipherSectionCount(usize),
    /// The decrypted prefix is not the magic prefix.
    DecryptionFailed,
    /// Verification of a ciphertext that carries no signature.
    NotSigned,
    /// The signature does not match the ciphertext.
    SignatureMismatch,
}

/// The mathematical content of a [`ChickenError`].
pub enum ErrorView {
    EmptyInput,
    UnexpectedToken(Seq<char>),
    EmptyChickenLine,
    InvalidNumber(Seq<char>),
    BelowOffset(u64),
    PasswordProtected,
    KeySectionCount(nat),
    InvalidKeyType(Seq<u64>),
    OwnerByteOutOfRange(u64),
    InvalidOwnerUtf8(Seq<char>),
    OddKeyData(nat),
    ProtectedSectionCount(nat),
    NotPasswordProtected,
    IncorrectPassword,
    OddDecryptedData(nat),
    CipherSectionCount(nat),
    DecryptionFailed,
    NotSigned,
    SignatureMismatch,
}

impl View for ChickenError {
    type V = ErrorView;

    open spec fn view(&self) -> ErrorView {
        match self {
            ChickenError::EmptyInput => ErrorView::EmptyInput,
            ChickenError::UnexpectedToken(s) => ErrorView::UnexpectedToken(s@),
            ChickenError::EmptyChickenLine => ErrorView::EmptyChickenLine,
            ChickenError::InvalidNumber(s) => ErrorView::InvalidNumber(s@),
            ChickenError::BelowOffset(v) => ErrorView::BelowOffset(*v),
            ChickenError::PasswordProtected => ErrorView::PasswordProtected,
            ChickenError::KeySectionCount(n) => ErrorView::KeySectionCount(*n as nat),
            ChickenError::InvalidKeyType(v) => ErrorView::InvalidKeyType(v@),
            ChickenError::OwnerByteOutOfRange(v) => ErrorView::OwnerByteOutOfRange(*v),
            ChickenError::InvalidOwnerUtf8(t) => ErrorView::InvalidOwnerUtf8(t@),
            ChickenError::OddKeyData(n) => ErrorView::OddKeyData(*n as nat),
            ChickenError::ProtectedSectionCount(n) => ErrorView::ProtectedSectionCount(*n as nat),
            ChickenError::NotPasswordProtected => ErrorView::NotPasswordProtected,
            ChickenError::IncorrectPassword => ErrorView::IncorrectPassword,
            ChickenError::OddDecryptedData(n) => ErrorView::OddDecryptedData(*n as nat),
            ChickenError::CipherSectionCount(n) => ErrorView::CipherSectionCount(*n as nat),
            ChickenError::DecryptionFailed => ErrorView::DecryptionFailed,
            ChickenError::NotSigned => ErrorView::NotSigned,
            ChickenError::SignatureMismatch => ErrorView::SignatureMismatch,
        }
    }
}

/// A `Result` with its error taken by view.
pub open spec fn result_view<T>(r: Result<T, ChickenError>) -> Result<T, ErrorView> {
    match r {
        Ok(v) => Ok(v),
        Err(e) => Err(e@),
    }
}

} // verus!

verus! {

broadcast use vstd::string::group_string_axioms;

/// Decimal numerals of values separated by `", "`.
pub open spec fn joined_numbers(vals: Seq<u64>) -> Seq<char>
    decreases vals.len(),
{
    if vals.len() == 0 {
        seq![]
    } else if vals.len() == 1 {
        dec(vals[0] as nat)
    } else {
        joined_numbers(vals.drop_last()) + seq![',', ' '] + dec(vals.last() as nat)
    }
}

/// What `Debug` writes for a list of values: `[1, 2, 3]`.
pub open spec fn debug_values(vals: Seq<u64>) -> Seq<char> {
    seq!['['] + joined_numbers(vals) + seq![']']
}

/// The message that describes an error.
pub open spec fn message_spec(e: ErrorView) -> Seq<char> {
    match e {
        ErrorView::EmptyInput => "empty input"@,
        ErrorView::UnexpectedToken(t) => "unexpected token in chicken line: "@ + debug_text(t),
        ErrorView::EmptyChickenLine => "empty chicken line"@,
        ErrorView::InvalidNumber(t) => "invalid number token: "@ + debug_text(t),
        ErrorView::BelowOffset(v) => "stored value "@ + dec(v as nat) + " below offset"@,
        ErrorView::PasswordProtected => "this key is password-protected; provide a password to decrypt it"@,
        ErrorView::KeySectionCount(n) => "key file must have 3 sections (type, owner, data), got "@ + dec(n),
        ErrorView::InvalidKeyType(v) => "invalid key type marker: "@ + debug_values(v),
        ErrorView::OwnerByteOutOfRange(v) => "owner byte value "@ + dec(v as nat) + " out of range"@,
        ErrorView::InvalidOwnerUtf8(t) => "invalid UTF-8 in owner: "@ + t,
        ErrorView::OddKeyData(n) => "key file must contain an even number of data values, got "@ + dec(n),
        ErrorView::ProtectedSectionCount(n) => "password-protected key file must have 4 sections, got "@ + dec(n),
        ErrorView::NotPasswordProtected => "not a password-protected key file"@,
        ErrorView::IncorrectPassword => "incorrect password"@,
        ErrorView::OddDecryptedData(n) => "decrypted key data must contain an even number of values, got "@ + dec(n),
        ErrorView::CipherSectionCount(n) => "ciphertext must have 2 or 3 sections (owner, data[, signature]), got "@
            + dec(n),
        ErrorView::DecryptionFailed => "decryption failed: wrong key or corrupted data"@,
        ErrorView::NotSigned => "ciphertext is not signed"@,
        ErrorView::SignatureMismatch => "signature verification failed: hash mismatch"@,
    }
}

/// A result with its error replaced by the error's message.
pub open spec fn with_message<T>(r: Result<T, ErrorView>) -> Result<T, Seq<char>> {
    match r {
        Ok(v) => Ok(v),
        Err(e) => Err(message_spec(e)),
    }
}

fn push_debug_values(out: &mut String, vals: &Vec<u64>)
    ensures
        final(out)@ == old(out)@ + debug_values(vals@),
{
    let ghost start = out@;
    out.append("[");
    proof {
        reveal_strlit("[");
        reveal_strlit(", ");
        reveal_strlit("]");
    }
    let mut i: usize = 0;
    while i < vals.len()
        invariant
            i <= vals.len(),
            out@ == start + seq!['['] + joined_numbers(vals@.take(i as int)),
        decreases vals.len() - i,
    {
        let ghost before = out@;
        if i > 0 {
            out.append(", ");
        }
        push_decimal(out, vals[i]);
        proof {
            reveal_strlit(", ");
            let next = vals@.take(i + 1);
            assert(next.drop_last() =~= vals@.take(i as int));
            assert(next.last() == vals@[i as int]);
            if i == 0 {
                assert(next[0] == vals@[0]);
                assert(out@ =~= before + dec(vals@[0] as nat));
            } else {
                assert(out@ =~= before + seq![',', ' '] + dec(vals@[i as int] as nat));
            }
            assert(out@ =~= start + seq!['['] + joined_numbers(next));
        }
        i += 1;
    }
    assert(vals@.take(vals.len() as int) =~= vals@);
    out.append("]");
}

fn push_count(out: &mut String, lead: &str, n: usize)
    ensures
        final(out)@ == old(out)@ + lead@ + dec(n as nat),
{
    out.append(lead);
    push_decimal(out, n as u64);
}

impl ChickenError {
    /// The message that describes this error.
    pub fn message(&self) -> (m: String)
        ensures
            m@ == message_spec(self@),
    {
        let mut m = String::new();
        match self {
            ChickenError::EmptyInput => m.append("empty input"),
            ChickenError::UnexpectedToken(t) => {
                m.append("unexpected token in chicken line: ");
                let d = debug_string(t.as_str());
                m.append(d.as_str());
            },
            ChickenError::EmptyChickenLine => m.append("empty chicken line"),
            ChickenError::InvalidNumber(t) => {
                m.append("invalid number token: ");
                let d = debug_string(t.as_str());
                m.append(d.as_str());
            },
            ChickenError::BelowOffset(v) => {
                m.append("stored value ");
                push_decimal(&mut m, *v);
                m.append(" below offset");
            },
            ChickenError::PasswordProtected => m.append(
                "this key is password-protected; provide a password to decrypt it",
            ),
            ChickenError::KeySectionCount(n) => push_count(
                &mut m,
                "key file must have 3 sections (type, owner, data), got ",
                *n,
            ),
            ChickenError::InvalidKeyType(v) => {
                m.append("invalid key type marker: ");
                push_debug_values(&mut m, v);
            },
            ChickenError::OwnerByteOutOfRange(v) => {
                m.append("owner byte value ");
                push_decimal(&mut m, *v);
                m.append(" out of range");
            },
            ChickenError::InvalidOwnerUtf8(t) => {
                m.append("invalid UTF-8 in owner: ");
                m.append(t.as_str());
            },
            ChickenError::OddKeyData(n) => push_count(
                &mut m,
                "key file must contain an even number of data values, got ",
                *n,
            ),
            ChickenError::ProtectedSectionCount(n) => push_count(
                &mut m,
                "password-protected key file must have 4 sections, got ",
                *n,
            ),
            ChickenError::NotPasswordProtected => m.append("not a password-protected key file"),
            ChickenError::IncorrectPassword => m.append("incorrect password"),
            ChickenError::OddDecryptedData(n) => push_count(
                &mut m,
                "decrypted key data must contain an even number of values, got ",
                *n,
            ),
            ChickenError::CipherSectionCount(n) => push_count(
                &mut m,
                "ciphertext must have 2 or 3 sections (owner, data[, signature]), got ",
                *n,
            ),
            ChickenError::DecryptionFailed => m.append("decryption failed: wrong key or corrupted data"),
            ChickenError::NotSigned => m.append("ciphertext is not signed"),
            ChickenError::SignatureMismatch => m.append("signature verification failed: hash mismatch"),
        }
        m
    }
}

} // verus!
