use shm_cached::path;
use std::path::Path;

#[test]
fn joining_is_that_of_unix_paths() {
    let samples = ["", "/", "a", "a/", "/a", "a/b", "http://localhost:81", "..", "//"];
    for base in samples {
        for part in samples {
            let expected = Path::new(base).join(part);
            assert_eq!(path::join(base, part), expected.to_str().unwrap(), "{} {}", base, part);
        }
    }
}

#[test]
fn joining_exactly() {
    assert_eq!(path::join("/data/shm_cache/", "_images"), "/data/shm_cache/_images");
    assert_eq!(path::join("/data", "x"), "/data/x");
    assert_eq!(path::join("/data", "/x"), "/x");
    assert_eq!(path::join("/data", ""), "/data/");
}

#[test]
fn hashes_that_can_be_cut() {
    assert!(path::is_shardable("abcd"));
    assert!(path::is_shardable("ab25bc2"));
    assert!(!path::is_shardable("abc"));
    assert!(!path::is_shardable(""));
    // two bytes each
    assert!(path::is_shardable("\u{e4}\u{f6}"));
    // a character across the second byte
    assert!(!path::is_shardable("a\u{e4}bcd"));
    // a character across the fourth byte
    assert!(!path::is_shardable("abc\u{e4}d"));
}

#[test]
fn file_of_an_image() {
    assert_eq!(
        path::cache_path("/data/shm_cache/", "_images", "ab25bc2"),
        "/data/shm_cache/_images/ab/25/ab25bc2"
    );
    assert_eq!(path::cache_path("/c", "_thumbs", "abcd"), "/c/_thumbs/ab/cd/abcd");
    assert_eq!(
        path::cache_path("/c", "s", "\u{e4}\u{f6}x"),
        "/c/s/\u{e4}/\u{f6}/\u{e4}\u{f6}x"
    );
    // a hash that is an absolute path replaces what came before
    assert_eq!(path::cache_path("/c", "s", "/abc"), "/abc");
}

#[test]
fn file_is_that_of_unix_paths() {
    for hash in ["ab25bc2", "....", "ab/d", "abc/", "\u{e4}\u{f6}"] {
        let expected = Path::new("/c").join("s").join(&hash[0..2]).join(&hash[2..4]).join(hash);
        assert_eq!(path::cache_path("/c", "s", hash), expected.to_str().unwrap());
    }
}

#[test]
fn files_stay_apart_and_below_the_cache() {
    let a = path::cache_path("/c/", "_images", "ab25bc2");
    let b = path::cache_path("/c/", "_images", "ab25bc3");
    let c = path::cache_path("/c/", "_thumbs", "ab25bc2");
    assert_ne!(a, b);
    assert_ne!(a, c);
    for p in [&a, &b, &c] {
        assert!(p.starts_with("/c/"));
    }
    assert!(a.ends_with("/ab25bc2"));
}

#[test]
fn url_at_the_backend() {
    assert_eq!(
        path::url_of("http://localhost:81", "_images", "ab25bc2"),
        "http://localhost:81/_images/ab25bc2/human.jpg"
    );
    assert_eq!(
        path::url_of("http://localhost:81/", "_thumbs", "cd"),
        "http://localhost:81/_thumbs/cd/human.jpg"
    );
}
