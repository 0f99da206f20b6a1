//! Small helpers: the wall clock, fresh identifiers, the host name, and
//! content-addressed artifact names.

use vstd::prelude::*;

use vstd::string::StringSliceAdditionalSpecFns;

use crate::bytes::ascii_bytes;
use crate::toast::header::Header;

verus! {

/// The hex digest that names an artifact's bytes; depends on the bytes
/// alone.
pub uninterp spec fn md5_hex_of(data: Seq<u8>) -> Seq<u8>;

/// Milliseconds since the Unix epoch, read from the wall clock. Used as the
/// `id` stamp of packets; the value is transport metadata and nothing is
/// promised of it.
///
/// Relies on `std::time::SystemTime::now` and
/// `Duration::as_millis`, as their documentation describes them. A clock
/// that reads before the epoch yields zero rather than a panic.
#[verifier::external_body]
pub fn unix_ts_ms() -> u64 {
    std::time::SystemTime::now()
        .duration_since(std::time::UNIX_EPOCH)
        .map(|d| d.as_millis() as u64)
        .unwrap_or(0)
}

/// A fresh random identifier in hyphenated form.
///
/// Relies on `uuid::Uuid::new_v4` and `Uuid::to_string`: the hyphenated
/// form of a UUID is 36 ASCII characters. The value is random; nothing
/// more is promised.
#[verifier::external_body]
pub fn new_uuid_bytes() -> (r: Vec<u8>)
    ensures
        r@.len() == 36,
{
    uuid::Uuid::new_v4().to_string().into_bytes()
}

/// The host's name as UTF-8 bytes, advertised as this peer's device name.
///
/// Relies on `gethostname::gethostname`; the value depends on the machine
/// and nothing is promised of it.
#[verifier::external_body]
pub fn hostname_bytes() -> Vec<u8> {
    gethostname::gethostname().to_string_lossy().to_string().into_bytes()
}

/// The lowercase hex digest of `data`.
///
/// Relies on `md5::compute`: the digest is a function of the bytes alone,
/// and its hex form is 32 characters.
#[verifier::external_body]
fn md5_hex(data: &Vec<u8>) -> (r: Vec<u8>)
    ensures
        r@ == md5_hex_of(data@),
        r@.len() == 32,
{
    format!("{:x}", md5::compute(data.as_slice())).into_bytes()
}

/// The cache name of an artifact: the digest of its bytes followed by an
/// extension such as `.png`. Equal bytes always yield the same name, so the
/// payload cache stores each artifact once.
pub fn artifact_cache_name(data: &Vec<u8>, extension: &[u8]) -> (r: Vec<u8>)
    ensures
        r@ == md5_hex_of(data@) + extension@,
        r@.len() == 32 + extension@.len(),
{
    let mut r = md5_hex(data);
    let n: usize = extension.len();
    let mut i: usize = 0;
    while i < n
        invariant
            n == extension@.len(),
            0 <= i <= n,
            r@ =~= md5_hex_of(data@) + extension@.subrange(0, i as int),
        decreases n - i,
    {
        r.push(extension[i]);
        i = i + 1;
    }
    proof {
        assert(extension@.subrange(0, n as int) =~= extension@);
    }
    r
}

/// The toast header that groups this application's own notifications: a
/// fixed id and title, and the click argument the host hands back.
pub fn global_toast_header() -> (r: Header)
    ensures
        r.id@ == ("kdeconnect").spec_bytes(),
        r.title@ == ("KDE Connect").spec_bytes(),
        r.arguments@ == ("action=headerClick").spec_bytes(),
        r.activation_type is None,
{
    Header::new(
        ascii_bytes("kdeconnect"),
        ascii_bytes("KDE Connect"),
        ascii_bytes("action=headerClick"),
    )
}

/// Whether a fallible step failed; the caller logs the error text when it
/// did. The result itself is never altered.
pub fn log_if_error<R, E>(res: &Result<R, E>) -> (failed: bool)
    ensures
        failed == (res is Err),
{
    match res {
        Ok(_) => false,
        Err(_) => true,
    }
}

} // verus!
