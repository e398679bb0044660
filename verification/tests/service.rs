use shm_cached::args::Args;
use shm_cached::db::clean;
use shm_cached::registry::Registry;
use shm_cached::service::{
    cache_request, content_type, decide, handle_request_inner, parse_request, CacheResult, Fault,
    ImageRequest, Lookup, Step,
};
use shm_cached::silos::{configured_link, populate_silo, GlobalSilos};
use shm_cached::stats::{GlobalStats, Stats};
use shm_cached::transfer::{Answered, Reply, Source};
use shm_cached::uri::UriParts;

const ILINK: &str = "https://mirror-{a=5,b=5,c=10}.mysite.com/_images/$hash/$id-$tags.$ext";
const DATE: &str = "Sun, 06 Nov 1994 08:49:37 GMT";

fn args() -> Args {
    Args {
        cache: "/data/shm_cache/".to_string(),
        backend: "http://localhost:81".to_string(),
        dsn: "user=test host=localhost".to_string(),
        user: None,
        name: None,
        address: "0.0.0.0".to_string(),
        port: None,
        sport: None,
        tls: None,
        fqdn: None,
        no_stats: false,
        version: false,
    }
}

fn world() -> (GlobalSilos, GlobalStats) {
    let mut silos: GlobalSilos = Registry::new();
    populate_silo(&mut silos, "_thumbs", ILINK).unwrap();
    populate_silo(&mut silos, "_images", ILINK).unwrap();
    let mut stats: GlobalStats = Registry::new();
    stats.insert("_thumbs", Stats::default());
    stats.insert("_images", Stats::default());
    (silos, stats)
}

fn request(silo: &str, hash: &str, human: &str) -> ImageRequest {
    ImageRequest { silo: silo.to_string(), hash: hash.to_string(), human: human.to_string() }
}

fn parts() -> Option<UriParts> {
    Some(UriParts {
        host: Some("localhost".to_string()),
        port: Some(81),
        authority: Some("localhost:81".to_string()),
    })
}

fn done(step: Step) -> CacheResult {
    match step {
        Step::Done(result) => result,
        other => panic!("{:?}", other),
    }
}

fn lookup(step: Step) -> Lookup {
    match step {
        Step::Lookup(lookup) => lookup,
        other => panic!("{:?}", other),
    }
}

fn fault(step: Step) -> Fault {
    match step {
        Step::Fault(fault) => fault,
        other => panic!("{:?}", other),
    }
}

#[test]
fn reading_a_path() {
    let q = parse_request("/_images/ab25bc2/42-tagme.jpg").unwrap();
    assert_eq!(
        (q.silo.as_str(), q.hash.as_str(), q.human.as_str()),
        ("_images", "ab25bc2", "42-tagme.jpg")
    );
    assert!(parse_request("/").is_none());
    assert!(parse_request("").is_none());
    assert!(parse_request("/_images/ab25bc2").is_none());
    assert!(parse_request("/_images/ab25bc2/x/y").is_none());
    let q = parse_request("a///").unwrap();
    assert_eq!((q.silo.as_str(), q.hash.as_str(), q.human.as_str()), ("", "", ""));
}

#[test]
fn content_types() {
    assert_eq!(content_type("a.mp4"), "video/mp4");
    assert_eq!(content_type("a.webm"), "video/webm");
    assert_eq!(content_type("a.gif"), "image/gif");
    assert_eq!(content_type("a.b.png"), "image/png");
    assert_eq!(content_type("webp"), "image/webp");
    assert_eq!(content_type("a.jpg"), "image/jpeg");
    assert_eq!(content_type("a.PNG"), "image/jpeg");
    assert_eq!(content_type("png."), "image/jpeg");
    assert_eq!(content_type(""), "image/jpeg");
}

#[test]
fn unserved_requests_are_not_counted() {
    let (silos, mut stats) = world();
    for path in ["/", "/_images/ab25bc2", "/other/ab25bc2/x.jpg"] {
        let step = cache_request("a", &args(), path, None, &silos, &mut stats);
        assert_eq!(done(step), CacheResult::NotFound);
    }
    // counters without a ring, and a ring without counters
    stats.insert("counted", Stats::default());
    let step = cache_request("a", &args(), "/counted/ab25bc2/x", None, &silos, &mut stats);
    assert_eq!(done(step), CacheResult::NotFound);
    for silo in ["_images", "_thumbs", "counted"] {
        assert_eq!(*stats.get(silo).unwrap(), Stats::default());
    }
    let (mut silos, mut stats) = world();
    populate_silo(&mut silos, "ringed", "{a=1}").unwrap();
    let step = cache_request("a", &args(), "/ringed/ab25bc2/x", None, &silos, &mut stats);
    assert_eq!(done(step), CacheResult::NotFound);
}

#[test]
fn another_host_redirects_to_the_first_owner() {
    let (silos, mut stats) = world();
    // b and c own ab25bc2
    let step =
        cache_request("a", &args(), "/_thumbs/ab25bc2/42-tagme.jpg", None, &silos, &mut stats);
    assert_eq!(
        done(step),
        CacheResult::Redirect("https://mirror-b.mysite.com/_thumbs/ab25bc2/image.jpg".to_string())
    );
    let expected = Stats { requests: 1, redirect: 1, ..Stats::default() };
    assert_eq!(*stats.get("_thumbs").unwrap(), expected);
    assert_eq!(*stats.get("_images").unwrap(), Stats::default());
}

#[test]
fn both_owners_serve() {
    for me in ["b", "c"] {
        let (silos, mut stats) = world();
        let step =
            cache_request(me, &args(), "/_images/ab25bc2/42-tagme.png", None, &silos, &mut stats);
        let l = lookup(step);
        assert_eq!(l.silo, "_images");
        assert_eq!(l.content_type, "image/png");
        assert_eq!(l.path, "/data/shm_cache/_images/ab/25/ab25bc2");
        assert_eq!(l.url, "http://localhost:81/_images/ab25bc2/human.jpg");
        let target = l.target.unwrap();
        assert_eq!(target.addr, "localhost:81");
        assert_eq!(target.host, "localhost:81");
        let expected = Stats { requests: 1, norefer: 1, inflight: 1, ..Stats::default() };
        assert_eq!(*stats.get("_images").unwrap(), expected);
    }
}

#[test]
fn referers_are_counted_for_full_images() {
    let cases = [
        (None, Stats { norefer: 1, ..Stats::default() }),
        (Some("https://rule34.paheal.net/"), Stats { paheal: 1, ..Stats::default() }),
        (Some("https://paheal.net/?google"), Stats { paheal: 1, ..Stats::default() }),
        (Some("https://example.com/"), Stats { external: 1, ..Stats::default() }),
        (Some(""), Stats { external: 1, ..Stats::default() }),
    ];
    for (referer, counted) in cases {
        let (silos, mut stats) = world();
        let step =
            cache_request("b", &args(), "/_images/ab25bc2/x", referer, &silos, &mut stats);
        lookup(step);
        let expected = Stats { requests: 1, inflight: 1, ..counted };
        assert_eq!(*stats.get("_images").unwrap(), expected);
        // thumbnails do not tell
        let step =
            cache_request("b", &args(), "/_thumbs/ab25bc2/x", referer, &silos, &mut stats);
        lookup(step);
        let expected = Stats { requests: 1, inflight: 1, ..Stats::default() };
        assert_eq!(*stats.get("_thumbs").unwrap(), expected);
    }
}

#[test]
fn search_engines_see_the_thumbnail() {
    for me in ["a", "b", "nobody"] {
        let (silos, mut stats) = world();
        let referer = Some("https://www.google.com/search");
        let step = cache_request(me, &args(), "/_images/ab25bc2/x", referer, &silos, &mut stats);
        assert_eq!(
            done(step),
            CacheResult::Redirect("https://holly.paheal.net/_thumbs/ab25bc2/thumb.jpg".to_string())
        );
        let expected = Stats { requests: 1, google: 1, ..Stats::default() };
        assert_eq!(*stats.get("_images").unwrap(), expected);
    }
    // even for a hash that could not be looked up
    let (silos, mut stats) = world();
    let step = cache_request("b", &args(), "/_images/a/x", Some("google"), &silos, &mut stats);
    assert_eq!(
        done(step),
        CacheResult::Redirect("https://holly.paheal.net/_thumbs/a/thumb.jpg".to_string())
    );
}

#[test]
fn faults_at_the_beginning() {
    let (mut silos, mut stats) = world();
    let step = cache_request("b", &args(), "/_images/abc/x", None, &silos, &mut stats);
    assert_eq!(fault(step), Fault::ShortHash);
    // the request is never answered, so it stays in flight
    let expected = Stats { requests: 1, norefer: 1, inflight: 1, ..Stats::default() };
    assert_eq!(*stats.get("_images").unwrap(), expected);

    let broken = Args { backend: "http://\u{e4} x".to_string(), ..args() };
    let step = cache_request("b", &broken, "/_images/ab25bc2/x", None, &silos, &mut stats);
    assert_eq!(fault(step), Fault::InvalidUrl);

    populate_silo(&mut silos, "_images", "{a=0,b=0}").unwrap();
    let step = cache_request("b", &args(), "/_images/ab25bc2/x", None, &silos, &mut stats);
    assert_eq!(fault(step), Fault::NoOwner);
}

#[test]
fn deciding_on_given_owners() {
    let q = request("_images", "ab25bc2", "x.gif");
    let owners = vec!["p".to_string(), "s".to_string()];
    let link = configured_link(ILINK);
    let mut s = Stats::default();
    let r = decide(&q, &args(), &mut s, &owners, &link, "x", None, parts());
    assert_eq!(
        done(r),
        CacheResult::Redirect("https://mirror-p.mysite.com/_images/ab25bc2/image.jpg".to_string())
    );
    assert_eq!(s, Stats { requests: 1, norefer: 1, redirect: 1, ..Stats::default() });
    for me in ["p", "s"] {
        let mut s = Stats::default();
        let l = lookup(decide(&q, &args(), &mut s, &owners, &link, me, None, parts()));
        assert_eq!(l.content_type, "image/gif");
        assert_eq!(s, Stats { requests: 1, norefer: 1, ..Stats::default() });
    }
    let r = decide(&q, &args(), &mut s, &owners, &link, "p", None, None);
    assert_eq!(fault(r), Fault::InvalidUrl);
    let r = decide(&q, &args(), &mut s, &Vec::new(), &link, "p", None, parts());
    assert_eq!(fault(r), Fault::NoOwner);
    let short = request("_images", "ab2", "x.gif");
    let r = decide(&short, &args(), &mut s, &owners, &link, "p", None, None);
    assert_eq!(fault(r), Fault::ShortHash);
}

#[test]
fn missing_second_owner() {
    let q = request("_thumbs", "ab25bc2", "x");
    let owners = vec!["p".to_string()];
    let link = configured_link(ILINK);
    let mut s = Stats::default();
    lookup(handle_request_inner(&q, &args(), &mut s, &owners, &link, "p", None));
    done(handle_request_inner(&q, &args(), &mut s, &owners, &link, "x", None));
    // the name that stands for no second owner
    lookup(handle_request_inner(&q, &args(), &mut s, &owners, &link, "no-backup", None));
    assert_eq!(s, Stats { requests: 3, redirect: 1, ..Stats::default() });
}

fn begun(me: &str) -> (Lookup, Stats) {
    let (silos, mut stats) = world();
    let step = cache_request(me, &args(), "/_images/ab25bc2/x.webm", None, &silos, &mut stats);
    (lookup(step), *stats.get("_images").unwrap())
}

#[test]
fn file_on_disk_is_a_hit() {
    let (l, mut s) = begun("b");
    let read = match l.looked(true, &mut s) {
        Source::Disk(read) => read,
        other => panic!("{:?}", other),
    };
    assert_eq!((s.block_disk, s.block_net, s.inflight), (1, 0, 1));
    assert_eq!(read.path, "/data/shm_cache/_images/ab/25/ab25bc2");
    let r: Result<CacheResult, String> = read.read(Ok((784111777, vec![1, 2, 3])), &mut s);
    assert_eq!(r, Ok(CacheResult::Hit("video/webm", 784111777, vec![1, 2, 3])));
    assert_eq!(s, Stats { requests: 1, norefer: 1, hits: 1, ..Stats::default() });
}

#[test]
fn file_that_cannot_be_read_is_a_hit_too() {
    let (l, mut s) = begun("b");
    let read = match l.looked(true, &mut s) {
        Source::Disk(read) => read,
        other => panic!("{:?}", other),
    };
    let r: Result<CacheResult, String> = read.read(Err("gone".to_string()), &mut s);
    assert_eq!(r, Err("gone".to_string()));
    assert_eq!(s, Stats { requests: 1, norefer: 1, hits: 1, ..Stats::default() });
}

#[test]
fn file_from_the_backend_is_a_miss_and_is_stored() {
    let (l, mut s) = begun("c");
    let fetch = match l.looked(false, &mut s) {
        Source::Backend(fetch) => fetch,
        other => panic!("{:?}", other),
    };
    assert_eq!((s.block_disk, s.block_net, s.inflight), (0, 1, 1));
    assert_eq!(fetch.url, "http://localhost:81/_images/ab25bc2/human.jpg");
    assert_eq!(fetch.target.addr, "localhost:81");
    let reply = Reply { status: 200, last_modified: Some(DATE.to_string()) };
    let mut download = match fetch.answered::<String>(Ok(reply), &mut s) {
        Answered::Body(download) => download,
        other => panic!("{:?}", other),
    };
    assert_eq!((s.block_net, s.inflight, s.misses), (0, 1, 0));
    assert_eq!(download.mtime, 784111777);
    download.push(&[1, 2]);
    download.push(&[]);
    download.push(&[3]);
    let (store, result) = download.finish::<String>(Ok(()), &mut s).unwrap();
    assert_eq!(result, CacheResult::Miss("video/webm", 784111777, vec![1, 2, 3]));
    assert_eq!(store.path, "/data/shm_cache/_images/ab/25/ab25bc2");
    assert_eq!(store.body, vec![1, 2, 3]);
    assert_eq!(store.mtime, 784111777);
    assert_eq!(s, Stats { requests: 1, norefer: 1, misses: 1, ..Stats::default() });
}

#[test]
fn backend_without_the_image() {
    for status in [404, 500, 301, 204] {
        let (l, mut s) = begun("c");
        let fetch = match l.looked(false, &mut s) {
            Source::Backend(fetch) => fetch,
            other => panic!("{:?}", other),
        };
        let reply = Reply { status, last_modified: None };
        match fetch.answered::<String>(Ok(reply), &mut s) {
            Answered::Done(result) => assert_eq!(result, CacheResult::NotFound),
            other => panic!("{:?}", other),
        }
        assert_eq!(s, Stats { requests: 1, norefer: 1, missing: 1, ..Stats::default() });
    }
}

#[test]
fn backend_that_fails() {
    let (l, mut s) = begun("c");
    let fetch = match l.looked(false, &mut s) {
        Source::Backend(fetch) => fetch,
        other => panic!("{:?}", other),
    };
    match fetch.answered(Err("refused".to_string()), &mut s) {
        Answered::Failed(e) => assert_eq!(e, "refused"),
        other => panic!("{:?}", other),
    }
    assert_eq!(s, Stats { requests: 1, norefer: 1, ..Stats::default() });

    let (l, mut s) = begun("c");
    let fetch = match l.looked(false, &mut s) {
        Source::Backend(fetch) => fetch,
        other => panic!("{:?}", other),
    };
    let reply = Reply { status: 200, last_modified: Some(DATE.to_string()) };
    let download = match fetch.answered::<String>(Ok(reply), &mut s) {
        Answered::Body(download) => download,
        other => panic!("{:?}", other),
    };
    let r = download.finish(Err("broken".to_string()), &mut s);
    assert_eq!(r.err(), Some("broken".to_string()));
    assert_eq!(s, Stats { requests: 1, norefer: 1, ..Stats::default() });
}

#[test]
fn backend_without_a_date() {
    let cases = [(None, Fault::NoDate), (Some("yesterday".to_string()), Fault::InvalidDate)];
    for (last_modified, expected) in cases {
        let (l, mut s) = begun("c");
        let fetch = match l.looked(false, &mut s) {
            Source::Backend(fetch) => fetch,
            other => panic!("{:?}", other),
        };
        match fetch.answered::<String>(Ok(Reply { status: 200, last_modified }), &mut s) {
            Answered::Fault(fault) => assert_eq!(fault, expected),
            other => panic!("{:?}", other),
        }
        assert_eq!((s.block_net, s.inflight), (0, 1));
    }
}

#[test]
fn backend_given_the_date() {
    let (l, mut s) = begun("c");
    let fetch = match l.looked(false, &mut s) {
        Source::Backend(fetch) => fetch,
        other => panic!("{:?}", other),
    };
    match fetch.accept::<String>(200, Ok(5), &mut s) {
        Answered::Body(d) => assert_eq!((d.mtime, d.body.len()), (5, 0)),
        other => panic!("{:?}", other),
    }
}

#[test]
fn backend_without_a_host() {
    let (silos, mut stats) = world();
    let local = Args { backend: "/files".to_string(), ..args() };
    let step = cache_request("b", &local, "/_images/ab25bc2/x", None, &silos, &mut stats);
    let l = lookup(step);
    assert_eq!(l.url, "/files/_images/ab25bc2/human.jpg");
    assert!(l.target.is_none());
    let s = stats.get_mut("_images").unwrap();
    match l.looked(false, s) {
        Source::Fault(fault) => assert_eq!(fault, Fault::NoHost),
        other => panic!("{:?}", other),
    }
    assert_eq!((s.block_net, s.inflight), (1, 1));
}

#[test]
fn purging_reaches_what_a_request_looks_for() {
    let (silos, mut stats) = world();
    for path in ["/_images/ab25bc2/x.png", "/_thumbs/ab25bc2/x.png"] {
        let l = lookup(cache_request("b", &args(), path, None, &silos, &mut stats));
        assert!(clean("/data/shm_cache/", &silos, "ab25bc2").contains(&l.path));
        assert!(!clean("/data/shm_cache/", &silos, "ab25bc3").contains(&l.path));
    }
}

#[test]
fn second_owner_keeps_its_files_when_the_first_is_pulled_out() {
    // the owners are b and c
    let path = "/_images/ab25bc2/x.png";
    let (mut silos, mut stats) = world();
    let before = lookup(cache_request("c", &args(), path, None, &silos, &mut stats));
    populate_silo(&mut silos, "_images", "https://mirror-{a=5,c=10}.mysite.com/").unwrap();
    let after = lookup(cache_request("c", &args(), path, None, &silos, &mut stats));
    assert_eq!(before.path, after.path);
    // every other host now sends to c
    let step = cache_request("b", &args(), path, None, &silos, &mut stats);
    assert_eq!(
        done(step),
        CacheResult::Redirect("https://mirror-c.mysite.com/_images/ab25bc2/image.jpg".to_string())
    );
}

#[test]
fn redirect_goes_to_the_owning_mirror() {
    let q = request("_images", "ab25bc2", "42-tagme.jpg");
    let owners = vec!["a".to_string(), "b".to_string()];
    let mut s = Stats::default();
    let cases = [
        (ILINK, "https://mirror-a.mysite.com/_images/ab25bc2/image.jpg"),
        ("http://{a=1}", "http://a/_images/ab25bc2/image.jpg"),
        ("//{a=1}.x:81/y", "//a.x:81/_images/ab25bc2/image.jpg"),
        // a value without an address leaves those of the site
        ("{a=1}", "https://a.paheal.net/_images/ab25bc2/image.jpg"),
    ];
    for (value, target) in cases {
        let link = configured_link(value);
        let r = decide(&q, &args(), &mut s, &owners, &link, "c", None, parts());
        assert_eq!(done(r), CacheResult::Redirect(target.to_string()));
    }
}

#[test]
fn silos_have_links_of_their_own() {
    let (mut silos, mut stats) = world();
    let tlink = "https://{a=5,b=5,c=10}.thumbs.net/_thumbs/$hash/thumb.jpg";
    populate_silo(&mut silos, "_thumbs", tlink).unwrap();
    let step = cache_request("a", &args(), "/_thumbs/ab25bc2/x", None, &silos, &mut stats);
    assert_eq!(
        done(step),
        CacheResult::Redirect("https://b.thumbs.net/_thumbs/ab25bc2/image.jpg".to_string())
    );
    let step = cache_request("a", &args(), "/_images/ab25bc2/x", None, &silos, &mut stats);
    assert_eq!(
        done(step),
        CacheResult::Redirect("https://mirror-b.mysite.com/_images/ab25bc2/image.jpg".to_string())
    );
}

#[test]
fn hosts_share_the_images_out() {
    let clusters: [(&[&str], &str); 3] = [
        (&["a"], "https://m-{a=1}.x/"),
        (&["a", "b"], "https://m-{a=1,b=1}.x/"),
        (&["a", "b", "c", "d"], "https://m-{a=1,b=2,c=1,d=3}.x/"),
    ];
    for (hosts, value) in clusters {
        let (mut silos, mut stats) = world();
        populate_silo(&mut silos, "_images", value).unwrap();
        for hash in ["ab25bc2", "cafebabe", "0123456789abcdef"] {
            let owners = silos.get("_images").unwrap().lookup_list(hash, 2);
            let path = format!("/_images/{}/x.jpg", hash);
            let target = format!("https://m-{}.x/_images/{}/image.jpg", owners[0], hash);
            let mut serving: Vec<String> = Vec::new();
            for me in hosts {
                match cache_request(me, &args(), &path, None, &silos, &mut stats) {
                    Step::Lookup(_) => serving.push(me.to_string()),
                    step => assert_eq!(done(step), CacheResult::Redirect(target.clone())),
                }
            }
            assert_eq!(serving.len(), hosts.len().min(2));
            assert!(serving.contains(&owners[0]));
        }
    }
}
