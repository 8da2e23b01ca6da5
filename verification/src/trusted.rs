//! The calls that leave the library: into `chrono` for the time, into `uuid`
//! for random identifiers, and into parts of the standard library that have
//! no specification. Nothing here is proved; each contract says what is
//! relied on, and everything else in the library is proved from that.

use vstd::prelude::*;

verus! {

/// Calls `chrono::Utc::now` and reads the seconds since the Unix epoch off the
/// result with `DateTime::timestamp`. Relied on: the reading is not negative
/// (`now` does not return for a clock set before the epoch) and lies below
/// 2^48 (`timestamp` multiplies a day number that fits in `i32` by 86,400 and
/// adds less than a day). Two readings need not agree, nor rise.
#[verifier::external_body]
pub(crate) fn unix_now() -> (now: i64)
    ensures
        0 <= now < 0x1_0000_0000_0000,
{
    chrono::Utc::now().timestamp()
}

/// Calls `uuid::Uuid::new_v4` and writes the result out with its `Display`
/// impl. Relied on: the text is the hyphenated form, 36 characters long. That
/// two calls give different texts is likely, and not relied on. The call
/// does not return where the system has no random numbers to give.
#[verifier::external_body]
pub(crate) fn random_id() -> (id: String)
    ensures
        id@.len() == 36,
{
    uuid::Uuid::new_v4().to_string()
}

/// The lower-case form of a text, as the standard library's Unicode case
/// mapping gives it.
pub uninterp spec fn lowercase(s: Seq<char>) -> Seq<char>;

/// Calls `str::to_lowercase`. Relied on: the result is the lower-case form of
/// the argument and depends on nothing else. Which characters that mapping
/// changes is not stated.
#[verifier::external_body]
pub(crate) fn to_lowercase(s: &str) -> (r: String)
    ensures
        r@ == lowercase(s@),
{
    s.to_lowercase()
}

/// Calls `std::path::Path::extension` on the path and hands the extension
/// out as text. Nothing is relied on: which part of a path is its file name
/// depends on the separators of the platform.
#[verifier::external_body]
pub(crate) fn extension_of(file_path: &str) -> (r: Option<String>) {
    std::path::Path::new(file_path).extension().and_then(|e| e.to_str()).map(|e| e.to_owned())
}

} // verus!
