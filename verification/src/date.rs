//! Dates as HTTP writes them. Reading and writing them is `httpdate`'s.
use vstd::prelude::*;

verus! {

/// The first second, counted from the Unix epoch, that no HTTP date can name: the year 10000.
pub const END_OF_DATES: i64 = 253_402_300_800;

/// An HTTP date can name the second.
pub open spec fn writable(secs: i64) -> bool {
    0 <= secs < END_OF_DATES
}

/// The second, counted from the Unix epoch, that an HTTP date names, if the text is one.
pub uninterp spec fn http_date(s: Seq<char>) -> Option<i64>;

/// The HTTP date that names a second counted from the Unix epoch.
pub uninterp spec fn http_date_text(secs: i64) -> Seq<char>;

/// `httpdate::parse_http_date` reads an HTTP date of the years 1970 to 9999, in any of the three
/// forms that HTTP knows. It refuses any other text.
#[verifier::external_body]
pub(crate) fn parse_http_date(s: &str) -> (r: Option<i64>)
    ensures
        r == http_date(s@),
        r matches Some(secs) ==> writable(secs),
{
    let time = httpdate::parse_http_date(s).ok()?;
    let since = time.duration_since(std::time::UNIX_EPOCH).ok()?;
    Some(since.as_secs() as i64)
}

/// `httpdate::fmt_http_date` writes the HTTP date of a second, which reads back as that second.
/// It panics on times before the epoch, and on the year 10000 and later.
#[verifier::external_body]
pub(crate) fn fmt_http_date(secs: i64) -> (r: String)
    requires
        writable(secs),
    ensures
        r@ == http_date_text(secs),
        http_date(r@) == Some(secs),
{
    httpdate::fmt_http_date(std::time::UNIX_EPOCH + std::time::Duration::from_secs(secs as u64))
}

} // verus!
