use shm_cached::response::{
    cache_result_to_http, is_sendable, respond, robots_response, route, stats_response, Route,
};
use shm_cached::service::CacheResult;
use shm_cached::uri::{fetch_target, fetch_url, UriParts};

#[test]
fn routes() {
    assert_eq!(route("/robots.txt"), Route::Robots);
    assert_eq!(route("/stats.json"), Route::Stats);
    assert_eq!(route("/_images/ab25bc2/x.jpg"), Route::Image);
    assert_eq!(route("/"), Route::Image);
    assert_eq!(route("/robots.txt/"), Route::Image);
    assert_eq!(route("robots.txt"), Route::Image);
}

#[test]
fn rules_for_crawlers() {
    let r = robots_response();
    assert_eq!(r.status, 200);
    assert!(r.headers.is_empty());
    assert_eq!(r.body, b"User-agent: *\nDisallow: /_thumbs/\nAllow: /\n");
}

#[test]
fn counters_as_a_response() {
    let r = stats_response("{}");
    assert_eq!((r.status, r.headers.len()), (200, 0));
    assert_eq!(r.body, b"{}");
}

#[test]
fn file_response() {
    let expected_headers = vec![
        ("content-type", "image/png".to_string()),
        ("last-modified", "Sun, 06 Nov 1994 08:49:37 GMT".to_string()),
        ("cache-control", "public, max-age=31556926".to_string()),
    ];
    let hit = cache_result_to_http(CacheResult::Hit("image/png", 784111777, vec![7, 8]));
    assert_eq!(hit.status, 200);
    assert_eq!(hit.headers, expected_headers);
    assert_eq!(hit.body, vec![7, 8]);
    let miss = cache_result_to_http(CacheResult::Miss("image/png", 784111777, vec![7, 8]));
    assert_eq!(miss, hit);
}

#[test]
fn dates_at_the_ends() {
    let first = cache_result_to_http(CacheResult::Hit("image/gif", 0, vec![]));
    assert_eq!(first.headers[1].1, "Thu, 01 Jan 1970 00:00:00 GMT");
    let last = CacheResult::Hit("image/gif", 253402300799, vec![]);
    assert!(is_sendable(&last));
    let last = cache_result_to_http(last);
    assert_eq!(last.headers[1].1, "Fri, 31 Dec 9999 23:59:59 GMT");
    assert!(!is_sendable(&CacheResult::Hit("image/gif", -1, vec![])));
    assert!(!is_sendable(&CacheResult::Miss("image/gif", 253402300800, vec![])));
    assert!(is_sendable(&CacheResult::NotFound));
    assert!(is_sendable(&CacheResult::Redirect("x".to_string())));
}

#[test]
fn redirect_response() {
    let target = "https://b.paheal.net/_images/ab25bc2/image.jpg";
    let r = cache_result_to_http(CacheResult::Redirect(target.to_string()));
    assert_eq!(r.status, 307);
    assert_eq!(r.headers, vec![("location", target.to_string())]);
    assert_eq!(r.body, format!("Redirecting to {}", target).into_bytes());
}

#[test]
fn missing_response() {
    let r = cache_result_to_http(CacheResult::NotFound);
    assert_eq!((r.status, r.headers.len()), (404, 0));
    assert_eq!(r.body, b"Not Found");
}

#[test]
fn response_given_the_date() {
    let r = respond(CacheResult::Hit("image/gif", 1, vec![1]), "some day".to_string());
    assert_eq!(r.headers[1], ("last-modified", "some day".to_string()));
    assert_eq!(r.body, vec![1]);
}

#[test]
fn addresses_of_the_backend() {
    let t = fetch_url("http://localhost:81/_images/ab/human.jpg").unwrap();
    assert_eq!((t.addr.as_str(), t.host.as_str()), ("localhost:81", "localhost:81"));
    let t = fetch_url("http://example.com/x").unwrap();
    assert_eq!((t.addr.as_str(), t.host.as_str()), ("example.com:80", "example.com"));
    let t = fetch_url("http://user@example.com:8080/x").unwrap();
    assert_eq!((t.addr.as_str(), t.host.as_str()), ("example.com:8080", "user@example.com:8080"));
    assert!(fetch_url("/only/a/path").is_none());
    assert!(fetch_url("").is_none());
    assert!(fetch_url("http://a b/").is_none());
}

#[test]
fn addresses_of_given_parts() {
    let parts = |host: Option<&str>, port, authority: Option<&str>| UriParts {
        host: host.map(|s| s.to_string()),
        port,
        authority: authority.map(|s| s.to_string()),
    };
    let t = fetch_target(&parts(Some("h"), Some(65535), Some("h:65535"))).unwrap();
    assert_eq!((t.addr.as_str(), t.host.as_str()), ("h:65535", "h:65535"));
    let t = fetch_target(&parts(Some("h"), None, Some("h"))).unwrap();
    assert_eq!((t.addr.as_str(), t.host.as_str()), ("h:80", "h"));
    assert!(fetch_target(&parts(None, Some(1), None)).is_none());
}
