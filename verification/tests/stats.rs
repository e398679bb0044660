use shm_cached::registry::Registry;
use shm_cached::stats::{all_measurable, count_down, count_up, summaries, GlobalStats, Stats};

fn sample() -> Stats {
    Stats {
        requests: 1,
        hits: 20,
        misses: 3,
        redirect: 4,
        missing: 5,
        paheal: 6,
        google: 7,
        norefer: 8,
        external: 9,
        inflight: 10,
        block_disk: 11,
        block_net: 12,
        last_hit: 17,
        last_miss: 2,
        last_hitrate: 50,
    }
}

#[test]
fn counters_wrap() {
    assert_eq!(count_up(0), 1);
    assert_eq!(count_up(usize::MAX), 0);
    assert_eq!(count_down(1), 0);
    assert_eq!(count_down(0), usize::MAX);
}

#[test]
fn counters_start_at_zero() {
    let s = Stats::default();
    assert_eq!(
        s.to_text(),
        "requests=0,hits=0,misses=0,redirect=0,missing=0,paheal=0,google=0,norefer=0,\
         external=0,inflight=0,block_net=0,block_disk=0"
    );
    assert_eq!((s.last_hit, s.last_miss, s.last_hitrate), (0, 0, 0));
}

#[test]
fn counters_as_a_line() {
    assert_eq!(
        sample().to_text(),
        "requests=1,hits=20,misses=3,redirect=4,missing=5,paheal=6,google=7,norefer=8,\
         external=9,inflight=10,block_net=11,block_disk=12"
    );
}

#[test]
fn summary_of_a_silo() {
    let mut s = sample();
    assert!(s.is_measurable());
    // 3 hits and 1 miss since the last summary
    assert_eq!(
        s.summary("mirror-a", "_images"),
        "shm_cached,name=mirror-a,silo=_images requests=1,hits=20,misses=3,redirect=4,missing=5,\
         paheal=6,google=7,norefer=8,external=9,inflight=10,block_net=11,block_disk=12,hitrate=75"
    );
    assert_eq!((s.last_hit, s.last_miss, s.last_hitrate), (20, 3, 75));
    assert_eq!(s.hits, 20);
}

#[test]
fn hit_rate_is_rounded_down() {
    let mut s = Stats { hits: 2, misses: 1, ..Stats::default() };
    assert!(s.summary("a", "s").ends_with(",hitrate=66"));
    let mut s = Stats { hits: 0, misses: 9, ..Stats::default() };
    assert!(s.summary("a", "s").ends_with(",hitrate=0"));
    let mut s = Stats { hits: 9, misses: 0, ..Stats::default() };
    assert!(s.summary("a", "s").ends_with(",hitrate=100"));
}

#[test]
fn quiet_summary_repeats() {
    let mut s = sample();
    let first = s.summary("a", "s");
    let between = s;
    let second = s.summary("a", "s");
    assert_eq!(first, second);
    assert_eq!(between, s);
}

#[test]
fn what_cannot_be_measured() {
    assert!(!Stats { hits: 1, last_hit: 2, ..Stats::default() }.is_measurable());
    assert!(!Stats { misses: 1, last_miss: 2, ..Stats::default() }.is_measurable());
    assert!(!Stats { hits: 1, misses: usize::MAX, ..Stats::default() }.is_measurable());
    assert!(!Stats { hits: usize::MAX, ..Stats::default() }.is_measurable());
    assert!(Stats { misses: usize::MAX, ..Stats::default() }.is_measurable());
    assert!(Stats { hits: usize::MAX, last_hit: usize::MAX, ..Stats::default() }.is_measurable());
}

#[test]
fn summaries_of_all_silos() {
    let mut stats: GlobalStats = Registry::new();
    assert!(summaries("a", &mut stats).is_empty());
    stats.insert("_thumbs", sample());
    stats.insert("_images", Stats { hits: 1, misses: 1, ..Stats::default() });
    assert!(all_measurable(&stats));
    let lines = summaries("a", &mut stats);
    assert_eq!(lines.len(), 2);
    assert!(lines[0].starts_with("shm_cached,name=a,silo=_thumbs requests=1,hits=20,"));
    assert!(lines[0].ends_with(",hitrate=75"));
    assert!(lines[1].starts_with("shm_cached,name=a,silo=_images requests=0,hits=1,"));
    assert!(lines[1].ends_with(",hitrate=50"));
    assert_eq!(stats.get("_images").unwrap().last_hitrate, 50);
    assert_eq!(stats.get("_thumbs").unwrap().last_hit, 20);
    stats.insert("broken", Stats { last_hit: 1, ..Stats::default() });
    assert!(!all_measurable(&stats));
}

#[test]
fn registry_keeps_values_by_name() {
    let mut r: Registry<u32> = Registry::new();
    assert_eq!(r.len(), 0);
    assert!(r.get("a").is_none());
    r.insert("a", 1);
    r.insert("b", 2);
    r.insert("a", 3);
    assert_eq!(r.len(), 2);
    assert_eq!(r.get("a"), Some(&3));
    assert_eq!(r.get("b"), Some(&2));
    assert_eq!(r.name_at(0), "a");
    assert_eq!(r.name_at(1), "b");
    *r.get_mut("b").unwrap() += 5;
    assert_eq!(r.get("b"), Some(&7));
    assert_eq!(r.get("a"), Some(&3));
    assert!(r.get_mut("c").is_none());
}

#[test]
fn sane_counters_measure() {
    let most = usize::MAX / 100;
    assert!(Stats { hits: most, ..Stats::default() }.is_measurable());
    assert!(Stats { hits: most, last_hit: most, ..Stats::default() }.is_measurable());
    assert!(Stats { hits: 1, misses: most - 1, last_miss: 7, ..Stats::default() }.is_measurable());
}
