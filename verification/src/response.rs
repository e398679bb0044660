//! The HTTP side: which path asks for what, and what is sent back.
use vstd::prelude::*;
use crate::date;
use crate::service::{CacheResult, CacheResultView};
use crate::text;

verus! {

/// An HTTP response.
#[derive(Debug, PartialEq, Eq)]
pub struct HttpResponse {
    pub status: u16,
    pub headers: Vec<(&'static str, String)>,
    pub body: Vec<u8>,
}

/// An [`HttpResponse`], as text and bytes.
pub struct HttpResponseView {
    pub status: u16,
    pub headers: Seq<(Seq<char>, Seq<char>)>,
    pub body: Seq<u8>,
}

impl View for HttpResponse {
    type V = HttpResponseView;

    open spec fn view(&self) -> HttpResponseView {
        HttpResponseView {
            status: self.status,
            headers: self.headers@.map_values(|h: (&'static str, String)| (h.0@, h.1@)),
            body: self.body@,
        }
    }
}

/// What a path asks for.
#[derive(Debug, Clone, Copy, PartialEq, Eq, Structural)]
pub enum Route {
    /// The rules for crawlers.
    Robots,
    /// The counters.
    Stats,
    /// Anything else may be an image.
    Image,
}

/// The response to a file.
pub open spec fn file_response(
    content_type: Seq<char>,
    date: Seq<char>,
    body: Seq<u8>,
) -> HttpResponseView {
    HttpResponseView {
        status: 200,
        headers: seq![
            ("content-type"@, content_type),
            ("last-modified"@, date),
            ("cache-control"@, "public, max-age=31556926"@),
        ],
        body,
    }
}

/// The response without headers.
pub open spec fn bare_response(status: u16, body: Seq<char>) -> HttpResponseView {
    HttpResponseView {
        status,
        headers: Seq::<(Seq<char>, Seq<char>)>::empty(),
        body: vstd::utf8::encode_utf8(body),
    }
}

/// The response to what a request came to, where `date` is the time of modification as text.
pub open spec fn response_of(result: CacheResultView, date: Seq<char>) -> HttpResponseView {
    match result {
        CacheResultView::Hit(kind, _, body) => file_response(kind, date, body),
        CacheResultView::Miss(kind, _, body) => file_response(kind, date, body),
        CacheResultView::Redirect(target) => HttpResponseView {
            status: 307,
            headers: seq![("location"@, target)],
            body: vstd::utf8::encode_utf8("Redirecting to "@ + target),
        },
        CacheResultView::NotFound => bare_response(404, "Not Found"@),
    }
}

/// The time of modification that goes with a file.
pub open spec fn mtime_of(result: CacheResultView) -> Option<i64> {
    match result {
        CacheResultView::Hit(_, mtime, _) => Some(mtime),
        CacheResultView::Miss(_, mtime, _) => Some(mtime),
        _ => None,
    }
}

/// A file can be sent where an HTTP date can name its time of modification.
pub open spec fn sendable(result: CacheResultView) -> bool {
    mtime_of(result) matches Some(mtime) ==> date::writable(mtime)
}

/// What `path` asks for.
pub fn route(path: &str) -> (r: Route)
    ensures
        r == if path@ == "/robots.txt"@ {
            Route::Robots
        } else if path@ == "/stats.json"@ {
            Route::Stats
        } else {
            Route::Image
        },
{
    if text::same(path, "/robots.txt") {
        Route::Robots
    } else if text::same(path, "/stats.json") {
        Route::Stats
    } else {
        Route::Image
    }
}

fn bare(status: u16, body: &str) -> (r: HttpResponse)
    ensures
        r@ == bare_response(status, body@),
{
    let r = HttpResponse { status, headers: Vec::new(), body: body.as_bytes_vec() };
    assert(r@.headers =~= Seq::<(Seq<char>, Seq<char>)>::empty());
    r
}

/// The rules for crawlers.
pub fn robots_response() -> (r: HttpResponse)
    ensures
        r@ == bare_response(200, "User-agent: *\nDisallow: /_thumbs/\nAllow: /\n"@),
{
    bare(200, "User-agent: *\nDisallow: /_thumbs/\nAllow: /\n")
}

/// The counters, which come as text.
pub fn stats_response(data: &str) -> (r: HttpResponse)
    ensures
        r@ == bare_response(200, data@),
{
    bare(200, data)
}

/// Whether a result can be sent.
pub fn is_sendable(result: &CacheResult) -> (r: bool)
    ensures
        r == sendable(result@),
{
    match result {
        CacheResult::Hit(_, mtime, _) => 0 <= *mtime && *mtime < date::END_OF_DATES,
        CacheResult::Miss(_, mtime, _) => 0 <= *mtime && *mtime < date::END_OF_DATES,
        _ => true,
    }
}

fn file(content_type: &'static str, date: String, body: Vec<u8>) -> (r: HttpResponse)
    ensures
        r@ == file_response(content_type@, date@, body@),
{
    let mut headers: Vec<(&'static str, String)> = Vec::new();
    headers.push(("content-type", content_type.to_owned()));
    headers.push(("last-modified", date));
    headers.push(("cache-control", "public, max-age=31556926".to_owned()));
    let r = HttpResponse { status: 200, headers, body };
    assert(r@.headers =~= file_response(content_type@, date@, body@).headers);
    r
}

/// The response to a result, given its time of modification as text.
pub fn respond(result: CacheResult, date: String) -> (r: HttpResponse)
    ensures
        r@ == response_of(result@, date@),
{
    match result {
        CacheResult::Hit(kind, _, body) => file(kind, date, body),
        CacheResult::Miss(kind, _, body) => file(kind, date, body),
        CacheResult::Redirect(target) => {
            let mut body = "Redirecting to ".to_owned();
            body.append(target.as_str());
            let mut headers: Vec<(&'static str, String)> = Vec::new();
            headers.push(("location", target));
            let r = HttpResponse { status: 307, headers, body: body.as_str().as_bytes_vec() };
            assert(r@.headers =~= seq![("location"@, target@)]);
            r
        },
        CacheResult::NotFound => bare(404, "Not Found"),
    }
}

/// The response to a result. The date of a file's response names the file's time of modification.
pub fn cache_result_to_http(result: CacheResult) -> (r: HttpResponse)
    requires
        sendable(result@),
    ensures
        match mtime_of(result@) {
            Some(mtime) => {
                &&& r@ == response_of(result@, date::http_date_text(mtime))
                &&& date::http_date(r@.headers[1].1) == Some(mtime)
            },
            None => r@ == response_of(result@, Seq::<char>::empty()),
        },
{
    let date = match &result {
        CacheResult::Hit(_, mtime, _) => date::fmt_http_date(*mtime),
        CacheResult::Miss(_, mtime, _) => date::fmt_http_date(*mtime),
        _ => String::new(),
    };
    respond(result, date)
}

/// A file is sent whole, as what it is and with its date, whether it was a hit or a miss.
pub proof fn law_file_is_sent_whole(kind: Seq<char>, mtime: i64, body: Seq<u8>, date: Seq<char>)
    ensures
        ({
            let hit = response_of(CacheResultView::Hit(kind, mtime, body), date);
            let miss = response_of(CacheResultView::Miss(kind, mtime, body), date);
            &&& hit == miss
            &&& hit.status == 200
            &&& hit.body.len() == body.len()
            &&& forall|i: int| 0 <= i < body.len() ==> #[trigger] hit.body[i] == body[i]
            &&& hit.headers.contains(("content-type"@, kind))
            &&& hit.headers.contains(("last-modified"@, date))
            &&& hit.headers.contains(("cache-control"@, "public, max-age=31556926"@))
            &&& hit.headers.len() == 3
            &&& mtime_of(CacheResultView::Hit(kind, mtime, body)) == Some(mtime)
            &&& mtime_of(CacheResultView::Miss(kind, mtime, body)) == Some(mtime)
        }),
{
    let hit = response_of(CacheResultView::Hit(kind, mtime, body), date);
    assert(hit.headers[0] == ("content-type"@, kind));
    assert(hit.headers[1] == ("last-modified"@, date));
    assert(hit.headers[2] == ("cache-control"@, "public, max-age=31556926"@));
}

/// A redirect sends the client to its whole target, and says so. Nothing that is not a file has a
/// time of modification.
pub proof fn law_redirect_leads_to_target(target: Seq<char>, date: Seq<char>)
    ensures
        ({
            let r = response_of(CacheResultView::Redirect(target), date);
            let told = vstd::utf8::decode_utf8(r.body);
            &&& r.status == 307
            &&& r.headers.len() == 1
            &&& r.headers[0].0 == "location"@
            &&& r.headers[0].1 == target
            &&& told == "Redirecting to "@ + target
        }),
        mtime_of(CacheResultView::Redirect(target)) is None,
        mtime_of(CacheResultView::NotFound) is None,
        response_of(CacheResultView::NotFound, date).status == 404,
        response_of(CacheResultView::NotFound, date).headers.len() == 0,
        vstd::utf8::decode_utf8(response_of(CacheResultView::NotFound, date).body) == "Not Found"@,
{
    vstd::utf8::encode_utf8_decode_utf8("Redirecting to "@ + target);
    vstd::utf8::encode_utf8_decode_utf8("Not Found"@);
}

/// A text is sent whole.
pub proof fn law_text_is_sent_whole(status: u16, text: Seq<char>)
    ensures
        bare_response(status, text).status == status,
        bare_response(status, text).headers.len() == 0,
        vstd::utf8::decode_utf8(bare_response(status, text).body) == text,
{
    vstd::utf8::encode_utf8_decode_utf8(text);
}

} // verus!
