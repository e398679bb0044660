use flexihash::Flexihash;
use shm_cached::registry::Registry;
use shm_cached::ring::Ring;
use shm_cached::silos::{
    configured_link, configured_list, configured_ring, populate_silo, ConfigError, GlobalSilos,
};
use shm_cached::text::NumberError;

const ILINK: &str = "https://mirror-{a=5,b=5,c=10}.mysite.com/_images/$hash/$id-$tags.$ext";

#[test]
fn owners_of_an_image() {
    let ring = configured_ring(ILINK).ok().unwrap();
    assert_eq!(ring.lookup_list("ab25bc2", 2), vec!["b", "c"]);
    assert_eq!(ring.lookup_list("cafebabe", 2), vec!["a", "b"]);
    assert_eq!(ring.lookup_list("0123456789abcdef", 2), vec!["b", "a"]);
    assert_eq!(ring.lookup_list("ffeeddcc", 1), vec!["a"]);
    assert_eq!(ring.lookup_list("ffeeddcc", 9), vec!["a", "c", "b"]);
}

#[test]
fn owners_are_those_of_the_ring_crate() {
    let ring = Ring::new().with_target("x", 1).with_target("y", 3).with_target("z", 2);
    let mut fh = Flexihash::new();
    fh.add_target("x", 1);
    fh.add_target("y", 3);
    fh.add_target("z", 2);
    for i in 0..200 {
        let hash = format!("{:032x}", i * 7919);
        let owners = ring.lookup_list(&hash, 2);
        assert_eq!(owners, fh.lookup_list(hash, 2));
        assert_eq!(owners.len(), 2);
        assert_ne!(owners[0], owners[1]);
    }
}

#[test]
fn second_owner_takes_over_when_the_first_is_pulled_out() {
    for hash in ["ab25bc2", "0123456789abcdef", "deadbeef", "cafebabe", "00112233", "ffeeddcc"] {
        let owners = configured_ring(ILINK).ok().unwrap().lookup_list(hash, 2);
        let mut rest = Ring::new();
        for (name, weight) in [("a", 5), ("b", 5), ("c", 10)] {
            if name != owners[0] {
                rest = rest.with_target(name, weight);
            }
        }
        assert_eq!(rest.lookup_list(hash, 1), vec![owners[1].clone()]);
    }
}

#[test]
fn rings_with_few_targets() {
    assert!(Ring::new().lookup_list("abcd", 2).is_empty());
    let lone = Ring::new().with_target("a", 0);
    assert_eq!(lone.lookup_list("abcd", 2), vec!["a"]);
    let weightless = Ring::new().with_target("a", 0).with_target("b", 0);
    assert!(weightless.lookup_list("abcd", 2).is_empty());
    let half = Ring::new().with_target("a", 0).with_target("b", 1);
    assert_eq!(half.lookup_list("abcd", 2), vec!["b"]);
}

#[test]
fn values_that_give_no_ring() {
    let error = |value: &str| configured_ring(value).err();
    assert_eq!(error("https://example.com/"), Some(ConfigError::NoTargetList));
    assert_eq!(error(""), Some(ConfigError::NoTargetList));
    assert_eq!(error("{}"), Some(ConfigError::InvalidTarget));
    assert_eq!(error("{a}"), Some(ConfigError::InvalidTarget));
    assert_eq!(error("{a=1=2}"), Some(ConfigError::InvalidTarget));
    assert_eq!(error("{a=1,}"), Some(ConfigError::InvalidTarget));
    assert_eq!(error("{a=}"), Some(ConfigError::InvalidWeight(NumberError::Empty)));
    assert_eq!(error("{a=x}"), Some(ConfigError::InvalidWeight(NumberError::InvalidDigit)));
    assert_eq!(error("{a= 1}"), Some(ConfigError::InvalidWeight(NumberError::InvalidDigit)));
    assert_eq!(
        error("{a=4294967296}"),
        Some(ConfigError::InvalidWeight(NumberError::TooLarge))
    );
    assert_eq!(error("{a=1,a=2}"), Some(ConfigError::DuplicateTarget));
    assert_eq!(error("{a=67108864}"), Some(ConfigError::WeightTooLarge));
    // the first entry that cannot be taken decides
    assert_eq!(error("{a=1,b=x,c}"), Some(ConfigError::InvalidWeight(NumberError::InvalidDigit)));
    assert_eq!(error("{a=1,c,b=x}"), Some(ConfigError::InvalidTarget));
}

#[test]
fn values_that_give_a_ring() {
    // any brace opens and any brace closes the list, and what follows does not count
    for value in ["{a=1}", "}a=1{", "x{a=1}y{b=2}", "x{a=1", "x{a=+01}"] {
        let ring = configured_ring(value).ok().unwrap();
        assert_eq!(ring.lookup_list("abcd", 2), vec!["a"]);
    }
    // an empty name is a name
    let ring = configured_ring("{=1}").ok().unwrap();
    assert_eq!(ring.lookup_list("abcd", 2), vec![""]);
}

#[test]
fn populating() {
    let mut silos: GlobalSilos = Registry::new();
    assert_eq!(populate_silo(&mut silos, "_thumbs", "{t=1}"), Ok(()));
    assert_eq!(populate_silo(&mut silos, "_images", ILINK), Ok(()));
    assert_eq!(silos.len(), 2);
    assert_eq!(silos.get("_images").unwrap().lookup_list("ab25bc2", 2), vec!["b", "c"]);
    assert_eq!(silos.get("_thumbs").unwrap().lookup_list("ab25bc2", 2), vec!["t"]);
    // a change replaces the ring of that silo alone
    assert_eq!(populate_silo(&mut silos, "_images", "{new=3}"), Ok(()));
    assert_eq!(silos.len(), 2);
    assert_eq!(silos.get("_images").unwrap().lookup_list("ab25bc2", 2), vec!["new"]);
    assert_eq!(silos.get("_thumbs").unwrap().lookup_list("ab25bc2", 2), vec!["t"]);
    // a value that gives no ring changes nothing
    assert_eq!(
        populate_silo(&mut silos, "_images", "{new=?}"),
        Err(ConfigError::InvalidWeight(NumberError::InvalidDigit))
    );
    assert_eq!(populate_silo(&mut silos, "_other", "none"), Err(ConfigError::NoTargetList));
    assert_eq!(silos.len(), 2);
    assert_eq!(silos.get("_images").unwrap().lookup_list("ab25bc2", 2), vec!["new"]);
}

#[test]
fn lists_and_links() {
    assert_eq!(configured_list(ILINK), Some("a=5,b=5,c=10".to_string()));
    assert_eq!(configured_list("x{a=1"), Some("a=1".to_string()));
    assert_eq!(configured_list("none"), None);
    let link = |value: &str| {
        let l = configured_link(value);
        (l.before, l.after)
    };
    let pair = |before: &str, after: &str| (before.to_string(), after.to_string());
    assert_eq!(link(ILINK), pair("https://mirror-", ".mysite.com"));
    assert_eq!(link("http://{a=1}"), pair("http://", ""));
    assert_eq!(link("http://{a=1}.x{y}/z"), pair("http://", ".x"));
    // no address, or a list that nothing closes
    assert_eq!(link("{a=1}.x/"), pair("https://", ".paheal.net"));
    assert_eq!(link("/{a=1}/"), pair("https://", ".paheal.net"));
    assert_eq!(link("http://{a=1"), pair("https://", ".paheal.net"));
    assert_eq!(link("none"), pair("https://", ".paheal.net"));
}

#[test]
fn targets_on_the_ring() {
    let ring = configured_ring("{a=5,b=5,c=10,z=0}").ok().unwrap();
    for name in ["a", "b", "c"] {
        assert!(ring.has_target(name));
        assert!(ring.is_placed(name));
        assert!(ring.is_apart(name));
    }
    // a target without a weight takes nothing, and so shares nothing
    assert!(ring.has_target("z"));
    assert!(!ring.is_placed("z"));
    assert!(ring.is_apart("z"));
    assert!(!ring.has_target("y"));
    assert!(!ring.is_placed("y"));
    assert!(ring.is_apart("y"));
    // x followed by 10 is x1 followed by 0
    let ring = Ring::new().with_target("x", 1).with_target("x1", 1).with_target("a", 1);
    assert!(!ring.is_apart("x"));
    assert!(!ring.is_apart("x1"));
    assert!(ring.is_apart("a"));
    assert!(ring.is_placed("x"));
    assert!(ring.is_placed("x1"));
}

#[test]
fn two_weighted_targets_give_two_owners() {
    let ring = Ring::new().with_target("a", 1).with_target("b", 1);
    for i in 0..100 {
        let hash = format!("{:08x}", i * 7919);
        assert_eq!(ring.lookup_list(&hash, 2).len(), 2);
        // no more than there are
        assert_eq!(ring.lookup_list(&hash, 5).len(), 2);
    }
}

fn ring_of(targets: &[(&str, u32)], gone: &str) -> Ring {
    let mut ring = Ring::new();
    for (name, weight) in targets {
        if *name != gone {
            ring = ring.with_target(name, *weight);
        }
    }
    ring
}

#[test]
fn pulling_out_a_target_leaves_other_owners() {
    let targets = [("a", 1), ("b", 2), ("c", 1), ("d", 1), ("x", 1), ("x1", 2)];
    let all = ring_of(&targets, "none of them");
    for (gone, _) in targets {
        let rest = ring_of(&targets, gone);
        for i in 0..200 {
            let hash = format!("{:08x}", i * 7919);
            let owners = all.lookup_list(&hash, 2);
            let after = rest.lookup_list(&hash, 2);
            if !owners.contains(&gone.to_string()) {
                assert_eq!(after, owners);
            } else if owners[0] != gone {
                assert_eq!(after[0], owners[0]);
            }
        }
    }
}

#[test]
fn second_owner_takes_over_unless_a_shared_position_comes_before() {
    // x followed by 10 is x1 followed by 0: both hash there, and x1 has the position
    let targets = [("x", 1), ("x1", 1), ("a", 1)];
    let all = ring_of(&targets, "none of them");
    // what x has falls to nobody
    let rest = ring_of(&targets, "x");
    for i in 0..1000 {
        let hash = format!("{:08x}", i);
        let owners = all.lookup_list(&hash, 2);
        if owners[0] == "x" {
            assert_eq!(rest.lookup_list(&hash, 1), vec![owners[1].clone()]);
        }
    }
    // some of what x1 has falls to x, here before the second owner
    assert_eq!(all.lookup_list("0000000d", 2), vec!["x1", "a"]);
    assert_eq!(ring_of(&targets, "x1").lookup_list("0000000d", 1), vec!["x"]);
}

#[test]
fn owners_in_the_order_of_the_walk() {
    // the soonest position of each target on the way up from the resource, and around
    let targets = [("a", 1), ("b", 2), ("c", 1)];
    let ring = ring_of(&targets, "");
    let position = |s: &str| flexihash::hash(&flexihash::Hasher::Crc32, s);
    for i in 0..100 {
        let hash = format!("{:08x}", i * 104729);
        let from = position(&hash);
        let mut ways: Vec<(u128, &str)> = Vec::new();
        for (name, weight) in targets {
            for n in 0..64 * weight {
                let p = position(&format!("{}{}", name, n));
                ways.push((if p >= from { p - from } else { (1 << 32) + p - from }, name));
            }
        }
        ways.sort();
        let mut expected: Vec<&str> = Vec::new();
        for (_, name) in ways {
            if !expected.contains(&name) {
                expected.push(name);
            }
        }
        assert_eq!(ring.lookup_list(&hash, 3), expected);
    }
}
