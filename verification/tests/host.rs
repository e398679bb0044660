use shm_cached::args::{await_all, short_sha, Args, NoListener};
use shm_cached::db::{balancer_plan, clean, count_silos, notified, populate_plan, startup_plan, DbStep};
use shm_cached::registry::Registry;
use shm_cached::silos::{populate_silo, GlobalSilos};
use shm_cached::stats::{GlobalStats, Stats};

fn args() -> Args {
    Args {
        cache: "/data/shm_cache".to_string(),
        backend: "http://localhost:81".to_string(),
        dsn: "user=test host=localhost".to_string(),
        user: None,
        name: None,
        address: "0.0.0.0".to_string(),
        port: None,
        sport: None,
        tls: None,
        fqdn: None,
        no_stats: false,
        version: false,
    }
}

#[test]
fn names_of_a_host() {
    assert_eq!(args().host_name("mirror-a.mysite.com"), "mirror-a");
    assert_eq!(args().host_name("localhost"), "localhost");
    assert_eq!(args().host_name(".x"), "");
    let named = Args { name: Some("other.x".to_string()), ..args() };
    assert_eq!(named.host_name("mirror-a.mysite.com"), "other.x");
}

#[test]
fn settings_for_https() {
    let both = Args { sport: Some(8443), tls: Some("me@example.com".to_string()), ..args() };
    let t = both.tls_settings().unwrap();
    assert_eq!(t.port, 8443);
    assert_eq!(t.cache_dir, "/data/shm_cache/.tls");
    assert_eq!(t.contact, "mailto:me@example.com");
    assert!(Args { sport: Some(8443), ..args() }.tls_settings().is_none());
    assert!(Args { tls: Some("x".to_string()), ..args() }.tls_settings().is_none());
    assert!(args().tls_settings().is_none());
}

#[test]
fn version_is_abbreviated() {
    assert_eq!(short_sha("0123456789abcdef"), "0123456");
    assert_eq!(short_sha("012"), "012");
}

#[test]
fn listeners_to_wait_for() {
    assert_eq!(await_all(vec![Some(1), Some(2)]), Ok(vec![1, 2]));
    assert_eq!(await_all(vec![None, Some(2)]), Ok(vec![2]));
    assert_eq!(await_all::<u8>(vec![None, None]), Err(NoListener));
    assert_eq!(await_all::<u8>(vec![]), Err(NoListener));
    assert_eq!(
        NoListener.message(),
        "No listener provided, use -p and / or -s for HTTP or HTTPS listener"
    );
}

#[test]
fn starting() {
    let thumbs = DbStep::Populate("_thumbs", "image_tlink");
    let images = DbStep::Populate("_images", "image_ilink");
    assert_eq!(
        startup_plan("mirror-a"),
        vec![
            DbStep::Query("SET application_name TO 'shm-cached [mirror-a]'".to_string()),
            DbStep::Query("LISTEN config".to_string()),
            thumbs,
            images,
            DbStep::CountSilos,
            DbStep::Query("LISTEN shm_image_bans".to_string()),
            DbStep::CleanAll(
                "SELECT hash FROM image_hash_bans WHERE date > now() - interval '7 days' ORDER BY hash",
            ),
        ]
    );
}

#[test]
fn balancing() {
    let plan = balancer_plan();
    assert_eq!(plan[0], DbStep::Query("LISTEN config".to_string()));
    assert_eq!(plan[1..], populate_plan()[..]);
    assert_eq!(
        populate_plan(),
        vec![
            DbStep::Populate("_thumbs", "image_tlink"),
            DbStep::Populate("_images", "image_ilink"),
        ]
    );
}

#[test]
fn notifications() {
    assert_eq!(notified("config", "anything"), populate_plan());
    assert_eq!(notified("shm_image_bans", "ab25bc2"), vec![DbStep::Clean("ab25bc2".to_string())]);
    assert!(notified("other", "ab25bc2").is_empty());
    assert!(notified("", "").is_empty());
}

#[test]
fn counting_starts() {
    let mut stats: GlobalStats = Registry::new();
    stats.insert("_images", Stats { hits: 3, ..Stats::default() });
    stats.insert("else", Stats { hits: 4, ..Stats::default() });
    count_silos(&mut stats);
    assert_eq!(stats.len(), 3);
    assert_eq!(stats.name_at(0), "_images");
    assert_eq!(stats.name_at(1), "else");
    assert_eq!(stats.name_at(2), "_thumbs");
    assert_eq!(*stats.get("_thumbs").unwrap(), Stats::default());
    assert_eq!(*stats.get("_images").unwrap(), Stats::default());
    assert_eq!(stats.get("else").unwrap().hits, 4);
}

#[test]
fn purging() {
    let mut silos: GlobalSilos = Registry::new();
    // without silos there is nothing to cut the hash for
    assert!(clean("/c", &silos, "a").is_empty());
    populate_silo(&mut silos, "_thumbs", "{a=1}").unwrap();
    populate_silo(&mut silos, "_images", "{a=1}").unwrap();
    assert_eq!(
        clean("/c", &silos, "ab25bc2"),
        vec!["/c/_thumbs/ab/25/ab25bc2", "/c/_images/ab/25/ab25bc2"]
    );
}
