//! Calls into std and outside crates whose behaviour Verus takes on trust.
use vstd::prelude::*;
use vstd::utf8::{valid_utf8, decode_utf8};
use rand::seq::SliceRandom;

verus! {

/// What `String::from_utf8` reports, through its `Display`, of bytes that
/// are not valid UTF-8 (where the first bad sequence starts, and how long it is).
pub uninterp spec fn utf8_error_text(bytes: Seq<u8>) -> Seq<char>;

/// What `Debug` writes for a string: the string in double quotes, with
/// quotes, backslashes and unprintable characters escaped.
pub uninterp spec fn debug_text(s: Seq<char>) -> Seq<char>;

/// What `Path::file_name` gives for a path, on the platform the crate is
/// built for: its last component, or none when the path ends in `..` or is a
/// root or empty.
pub uninterp spec fn path_file_name(path: Seq<char>) -> Option<Seq<char>>;

/// `Path::new(path).file_name()`, turned back into a string.
#[verifier::external_body]
pub(crate) fn file_name_of(path: &str) -> (name: Option<String>)
    ensures
        match name {
            Some(n) => path_file_name(path@) == Some(n@),
            None => path_file_name(path@) is None,
        },
{
    match std::path::Path::new(path).file_name() {
        Some(n) => Some(n.to_string_lossy().into_owned()),
        None => None,
    }
}

/// `String::from_iter` over characters: the string made of exactly these
/// characters, in order.
#[verifier::external_body]
pub(crate) fn chars_to_string(chars: &Vec<char>) -> (s: String)
    ensures
        s@ == chars@,
{
    chars.iter().collect()
}

/// `String::from_utf8`: succeeds exactly on valid UTF-8, and then holds the
/// decoded characters; otherwise the error's `Display` text, which depends on
/// the bytes alone.
#[verifier::external_body]
pub(crate) fn string_from_utf8(bytes: Vec<u8>) -> (res: Result<String, String>)
    ensures
        res is Ok <==> valid_utf8(bytes@),
        res matches Ok(s) ==> s@ == decode_utf8(bytes@),
        res matches Err(t) ==> t@ == utf8_error_text(bytes@),
{
    match String::from_utf8(bytes) {
        Ok(s) => Ok(s),
        Err(e) => Err(format!("{e}")),
    }
}

/// `format!("{:?}", s)` for a string: the `Debug` text of its characters.
#[verifier::external_body]
pub(crate) fn debug_string(s: &str) -> (t: String)
    ensures
        t@ == debug_text(s@),
{
    format!("{s:?}")
}

} // verus!

verus! {

#[verifier::external_type_specification]
#[verifier::external_body]
pub struct ExThreadRng(rand::rngs::ThreadRng);

/// `rand::thread_rng`: a handle to the thread-local random generator.
/// Nothing is claimed of it.
#[verifier::external_body]
pub(crate) fn thread_rng() -> rand::rngs::ThreadRng {
    rand::thread_rng()
}

/// `SliceRandom::choose` on a slice of prime pairs: `None` exactly when the
/// slice is empty, otherwise one of its elements. Which element is chosen
/// depends on the generator and is left unsaid.
#[verifier::external_body]
pub(crate) fn choose_pair(pairs: &Vec<(u64, u64)>, rng: &mut rand::rngs::ThreadRng) -> (res: Option<(u64, u64)>)
    ensures
        match res {
            Some(x) => pairs@.contains(x),
            None => pairs.len() == 0,
        },
{
    pairs.choose(rng).copied()
}

} // verus!
