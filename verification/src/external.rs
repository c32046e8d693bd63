//! Trusted boundary: the few calls into outside crates and std that the
//! library makes. Each wrapper's contract is believed, not proved.

use vstd::prelude::*;

verus! {

/// The lowercase hexadecimal MD5 digest of a character sequence. The digest
/// is a function of the input alone, so it is given a name rather than a
/// definition.
pub uninterp spec fn md5_hex_of(s: Seq<char>) -> Seq<char>;

/// Relies on md5::compute and the `LowerHex` impl of md5::Digest: two
/// lowercase hex digits per digest byte, 32 characters in all, a pure
/// function of the input bytes.
#[verifier::external_body]
pub(crate) fn md5_hex(s: &str) -> (r: String)
    ensures
        r@ == md5_hex_of(s@),
        r@.len() == 32,
{
    format!("{:x}", md5::compute(s.as_bytes()))
}

/// Relies on uuid::Uuid::new_v4 and its `Display` impl: a random identifier
/// in the hyphenated form, which is always 36 characters long.
#[verifier::external_body]
pub(crate) fn fresh_skill_id() -> (r: String)
    ensures
        r@.len() == 36,
{
    uuid::Uuid::new_v4().to_string()
}

/// Relies on dirs::home_dir: the user's home directory, if the platform
/// reports one. The result depends on the environment.
#[verifier::external_body]
pub(crate) fn home_dir_string() -> Option<String> {
    dirs::home_dir().map(|p| p.to_string_lossy().to_string())
}

/// Relies on dirs::cache_dir: the user's cache directory, if the platform
/// reports one. The result depends on the environment.
#[verifier::external_body]
pub(crate) fn cache_dir_string() -> Option<String> {
    dirs::cache_dir().map(|p| p.to_string_lossy().to_string())
}

/// Relies on dirs::data_local_dir: the user's local data directory, if the
/// platform reports one. The result depends on the environment.
#[verifier::external_body]
pub(crate) fn data_local_dir_string() -> Option<String> {
    dirs::data_local_dir().map(|p| p.to_string_lossy().to_string())
}

/// Relies on std's String::push: appends the given character to the end of
/// the string.
#[verifier::external_body]
pub(crate) fn push_char(s: &mut String, c: char)
    ensures
        final(s)@ == old(s)@.push(c),
{
    s.push(c);
}

} // verus!
