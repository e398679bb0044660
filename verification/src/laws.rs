//! What holds of a request as a whole.
use vstd::prelude::*;
use crate::date;
use crate::db;
use crate::db::DbStepView;
use crate::path;
use crate::response;
use crate::service;
use crate::service::{CacheResultView, ImageRequestView, LookupView, StepView};
use crate::silos::Silo;
use crate::stats;
use crate::stats::Stats;
use crate::text;
use crate::transfer;
use crate::uri;
use crate::walk;

verus! {

/// What the work outside the library came to, for an image that this host is to serve.
pub enum Outcome {
    /// The file is on disk, and it was read or it could not be.
    OnDisk,
    /// The backend gave no answer.
    Unreachable,
    /// The backend has no such image.
    Refused,
    /// The body did not come whole.
    Broken,
    /// The image came from the backend.
    Fetched,
}

/// The counters at the end of a request that was to look for `l` when they were `s`.
pub open spec fn ended(l: LookupView, s: Stats, outcome: Outcome) -> Stats {
    let at_disk = transfer::looked_up(l, true, s).1;
    let answered = transfer::after_wait(transfer::looked_up(l, false, s).1);
    match outcome {
        Outcome::OnDisk => transfer::after_read(at_disk),
        Outcome::Unreachable => service::left(answered),
        Outcome::Refused => transfer::after_missing(answered),
        Outcome::Broken => service::left(answered),
        Outcome::Fetched => transfer::after_miss(answered),
    }
}

/// The counters of what is going on, and those of the last summary, are the same in both.
pub open spec fn settled(before: Stats, after: Stats) -> bool {
    &&& after.inflight == before.inflight
    &&& after.block_disk == before.block_disk
    &&& after.block_net == before.block_net
    &&& after.last_hit == before.last_hit
    &&& after.last_miss == before.last_miss
    &&& after.last_hitrate == before.last_hitrate
}

/// `n` counts one more than `m` where `counted` holds, and the same where not.
pub open spec fn counts(m: usize, n: usize, counted: bool) -> bool {
    n == if counted {
        stats::up(m)
    } else {
        m
    }
}

/// A request that has its answer was counted once, leaves nothing in flight and nothing waiting,
/// and counts as what it was: a redirect to another host, a hit, a miss, a missing image, or none
/// of these where the backend failed or a search engine was sent to the thumbnail.
pub proof fn law_request_counted_once(
    q: ImageRequestView,
    cache: Seq<char>,
    backend: Seq<char>,
    s: Stats,
    owners: Seq<Seq<char>>,
    link: (Seq<char>, Seq<char>),
    me: Seq<char>,
    referer: Option<Seq<char>>,
    parts: Option<uri::UriPartsView>,
    outcome: Outcome,
)
    ensures
        ({
            let (step, begun) = service::decided(
                q,
                cache,
                backend,
                service::entered(s),
                owners,
                link,
                me,
                referer,
                parts,
            );
            match step {
                StepView::Done(_) => {
                    let t = service::left(begun);
                    &&& settled(s, t)
                    &&& counts(s.requests, t.requests, true)
                    &&& counts(s.redirect, t.redirect, !service::from_search(q.silo, referer))
                    &&& counts(s.hits, t.hits, false)
                    &&& counts(s.misses, t.misses, false)
                    &&& counts(s.missing, t.missing, false)
                },
                StepView::Lookup(l) => {
                    let t = ended(l, begun, outcome);
                    &&& settled(s, t)
                    &&& counts(s.requests, t.requests, true)
                    &&& counts(s.redirect, t.redirect, false)
                    &&& counts(s.hits, t.hits, outcome is OnDisk)
                    &&& counts(s.misses, t.misses, outcome is Fetched)
                    &&& counts(s.missing, t.missing, outcome is Refused)
                },
                StepView::Fault(_) => counts(s.requests, begun.requests, true),
            }
        }),
{
}

/// A request for a full image is counted by exactly one of the four kinds of referer, and a
/// request for anything else by none.
pub proof fn law_referer_counted_once(s: Stats, silo: Seq<char>, referer: Option<Seq<char>>)
    ensures
        ({
            let t = service::referred(s, silo, referer);
            let full = silo == "_images"@;
            let site = full && referer is Some && service::from_site(referer->0);
            let search = service::from_search(silo, referer);
            &&& counts(s.norefer, t.norefer, full && referer is None)
            &&& counts(s.paheal, t.paheal, site)
            &&& counts(s.google, t.google, search)
            &&& counts(s.external, t.external, full && referer is Some && !site && !search)
        }),
{
}

/// The counters stay fit for a summary whatever a request comes to, as long as the hits and the
/// misses do not wrap around.
pub proof fn law_request_keeps_sane(
    q: ImageRequestView,
    cache: Seq<char>,
    backend: Seq<char>,
    s: Stats,
    owners: Seq<Seq<char>>,
    link: (Seq<char>, Seq<char>),
    me: Seq<char>,
    referer: Option<Seq<char>>,
    parts: Option<uri::UriPartsView>,
    outcome: Outcome,
)
    requires
        stats::sane(s),
        s.hits < usize::MAX,
        s.misses < usize::MAX,
    ensures
        ({
            let (step, begun) = service::decided(
                q,
                cache,
                backend,
                service::entered(s),
                owners,
                link,
                me,
                referer,
                parts,
            );
            &&& stats::sane(begun)
            &&& step matches StepView::Lookup(l) ==> stats::sane(ended(l, begun, outcome))
        }),
{
}

/// A request that a path does not name an image for, or whose silo is not served, finds nothing
/// and counts nowhere. Any other counts in its own silo alone.
pub proof fn law_counts_own_silo_alone(
    me: Seq<char>,
    cache: Seq<char>,
    backend: Seq<char>,
    path: Seq<char>,
    referer: Option<Seq<char>>,
    silos: Map<Seq<char>, Silo>,
    counters: Map<Seq<char>, Stats>,
    other: Seq<char>,
)
    ensures
        ({
            let (step, after) = service::requested(
                me,
                cache,
                backend,
                path,
                referer,
                silos,
                counters,
            );
            &&& after.dom() == counters.dom()
            &&& match service::read_request(path) {
                Some(q) => {
                    &&& other != q.silo ==> after[other] == counters[other]
                    &&& !service::served(q.silo, silos, counters) ==> step == StepView::Done(
                        CacheResultView::NotFound,
                    ) && after == counters
                },
                None => step == StepView::Done(CacheResultView::NotFound) && after == counters,
            }
        }),
{
    let (step, after) = service::requested(me, cache, backend, path, referer, silos, counters);
    assert(after.dom() =~= counters.dom());
}

/// The host that a request is redirected to serves it: neither the first nor the second owner
/// ever redirects to another host. So two hosts with the same ring never redirect in a circle.
pub proof fn law_owners_serve(
    q: ImageRequestView,
    cache: Seq<char>,
    backend: Seq<char>,
    s: Stats,
    owners: Seq<Seq<char>>,
    link: (Seq<char>, Seq<char>),
    me: Seq<char>,
    referer: Option<Seq<char>>,
    parts: Option<uri::UriPartsView>,
)
    requires
        owners.contains(me),
        owners.len() <= 2,
        path::shardable(q.hash),
        parts is Some,
        !service::from_search(q.silo, referer),
    ensures
        service::decided(q, cache, backend, s, owners, link, me, referer, parts).0 is Lookup,
{
}

/// A host that is neither owner redirects to the first owner, at the address that the link makes of
/// the owner's name. (A host can pass for the missing
/// second owner only by the name that stands for none.)
pub proof fn law_others_redirect(
    q: ImageRequestView,
    cache: Seq<char>,
    backend: Seq<char>,
    s: Stats,
    owners: Seq<Seq<char>>,
    link: (Seq<char>, Seq<char>),
    me: Seq<char>,
    referer: Option<Seq<char>>,
    parts: Option<uri::UriPartsView>,
)
    requires
        owners.len() > 0,
        !owners.contains(me),
        me != "no-backup"@,
        path::shardable(q.hash),
        parts is Some,
        !service::from_search(q.silo, referer),
    ensures
        service::decided(q, cache, backend, s, owners, link, me, referer, parts).0 == StepView::Done(
            CacheResultView::Redirect(service::owner_url(link, owners[0], q.silo, q.hash)),
        ),
{
}

/// A target that is alone on the ring owns every image.
pub proof fn law_lone_target_owns_all(target: (Seq<char>, u32), resource: Seq<char>, count: u32)
    ensures
        walk::ring_owners(seq![target], resource, count) == seq![target.0],
{
    walk::lemma_owners(seq![target], resource, seq![target.0], count);
}

/// Where two targets can own something, every image has a first and a second owner.
pub proof fn law_two_owners(
    targets: Seq<(Seq<char>, u32)>,
    resource: Seq<char>,
    a: Seq<char>,
    b: Seq<char>,
)
    requires
        walk::can_own(targets, a),
        walk::can_own(targets, b),
        a != b,
    ensures
        walk::ring_owners(targets, resource, 2).len() == 2,
        walk::ring_owners(targets, resource, 2)[0] != walk::ring_owners(targets, resource, 2)[1],
{
    let owners = walk::ring_owners(targets, resource, 2);
    walk::law_owners_sound(targets, resource, 2);
    if owners.len() < 2 {
        assert(owners[owners.index_of(a)] == a);
        assert(owners[owners.index_of(b)] == b);
    }
}

/// The names of the targets.
pub open spec fn hosts(targets: Seq<(Seq<char>, u32)>) -> Seq<Seq<char>> {
    targets.map_values(|t: (Seq<char>, u32)| t.0)
}

/// At least two of the targets can own something.
pub open spec fn two_can_own(targets: Seq<(Seq<char>, u32)>) -> bool {
    exists|i: int, j: int|
        0 <= i < j < targets.len() && walk::can_own(targets, (#[trigger] targets[i]).0)
            && walk::can_own(targets, (#[trigger] targets[j]).0)
}

/// The host `me` answers the request for `path` itself.
pub open spec fn serves(
    me: Seq<char>,
    cache: Seq<char>,
    backend: Seq<char>,
    path: Seq<char>,
    referer: Option<Seq<char>>,
    silos: Map<Seq<char>, Silo>,
    counters: Map<Seq<char>, Stats>,
) -> bool {
    service::requested(me, cache, backend, path, referer, silos, counters).0 is Lookup
}

/// Hosts that share a configuration share the images out: of the targets of a silo, two serve an
/// image, its first and its second owner, or the only target does where there is but one. All the
/// others redirect to the first owner. Left out are a ring of several targets of which no two can
/// own something, and a backend whose URL of the image cannot be read.
pub proof fn law_hosts_share_images(
    cache: Seq<char>,
    backend: Seq<char>,
    path: Seq<char>,
    referer: Option<Seq<char>>,
    silos: Map<Seq<char>, Silo>,
    counters: Map<Seq<char>, Stats>,
    q: ImageRequestView,
)
    requires
        service::read_request(path) == Some(q),
        service::served(q.silo, silos, counters),
        path::shardable(q.hash),
        !service::from_search(q.silo, referer),
        silos[q.silo]@.targets.len() > 0,
        walk::distinct(silos[q.silo]@.targets),
    ensures
        ({
            let targets = silos[q.silo]@.targets;
            let owners = walk::ring_owners(targets, q.hash, 2);
            let all = hosts(targets);
            uri::uri_parts(path::backend_url(backend, q.silo, q.hash)) is Some && (targets.len() == 1
                || two_can_own(targets)) ==> {
                let serving = all.to_set().filter(
                    |me: Seq<char>| serves(me, cache, backend, path, referer, silos, counters),
                );
                &&& serving == owners.to_set()
                &&& serving.len() == if targets.len() == 1 {
                    1nat
                } else {
                    2nat
                }
                &&& serving.contains(owners[0])
                &&& forall|me: Seq<char>|
                    all.contains(me) && !owners.contains(me) ==> (#[trigger] service::requested(
                        me,
                        cache,
                        backend,
                        path,
                        referer,
                        silos,
                        counters,
                    )).0 == StepView::Done(
                        CacheResultView::Redirect(
                            service::owner_url(silos[q.silo]@.link, owners[0], q.silo, q.hash),
                        ),
                    )
            }
        }),
{
    let targets = silos[q.silo]@.targets;
    let owners = walk::ring_owners(targets, q.hash, 2);
    let all = hosts(targets);
    walk::law_owners_sound(targets, q.hash, 2);
    if uri::uri_parts(path::backend_url(backend, q.silo, q.hash)) is Some && (targets.len() == 1
        || two_can_own(targets)) {
        let serving = all.to_set().filter(
            |me: Seq<char>| serves(me, cache, backend, path, referer, silos, counters),
        );
        if targets.len() == 1 {
            assert(targets =~= seq![targets[0]]);
            law_lone_target_owns_all(targets[0], q.hash, 2);
        } else {
            let (i, j) = choose|i: int, j: int|
                0 <= i < j < targets.len() && walk::can_own(targets, (#[trigger] targets[i]).0)
                    && walk::can_own(targets, (#[trigger] targets[j]).0);
            law_two_owners(targets, q.hash, targets[i].0, targets[j].0);
        }
        assert forall|i: int| 0 <= i < owners.len() implies all.contains(#[trigger] owners[i]) by {
            let k = walk::lemma_owner_is_target(targets, q.hash, 2, i);
            assert(all[k] == owners[i]);
        }
        assert(owners.contains(owners[0]));
        assert forall|me: Seq<char>| all.contains(me) implies (#[trigger] serves(
            me,
            cache,
            backend,
            path,
            referer,
            silos,
            counters,
        ) <==> owners.contains(me)) by {
            if owners.contains(me) {
                let i = owners.index_of(me);
                assert(owners[i] == me);
            }
        }
        assert(serving =~= owners.to_set());
        owners.unique_seq_to_set();
    }
}

/// A host can be pulled out: the second owner of an image that it was the first owner of looks for
/// it in the file that it kept it in before, and is the first owner now. This is so exactly where
/// the second owner gets what the first had on the ring, or comes before it: a position to which
/// several hosts hash falls to the next of them, and that one may come before the second owner.
pub proof fn law_second_owner_takes_over(
    q: ImageRequestView,
    cache: Seq<char>,
    backend: Seq<char>,
    s1: Stats,
    s2: Stats,
    targets: Seq<(Seq<char>, u32)>,
    i: int,
    link: (Seq<char>, Seq<char>),
    referer1: Option<Seq<char>>,
    referer2: Option<Seq<char>>,
    parts: Option<uri::UriPartsView>,
)
    requires
        walk::distinct(targets),
        0 <= i < targets.len(),
        walk::ring_owners(targets, q.hash, 2).len() == 2,
        walk::ring_owners(targets, q.hash, 2)[0] == targets[i].0,
        path::shardable(q.hash),
        parts is Some,
        !service::from_search(q.silo, referer1),
        !service::from_search(q.silo, referer2),
    ensures
        ({
            let owners = walk::ring_owners(targets, q.hash, 2);
            let after = walk::ring_owners(targets.remove(i), q.hash, 2);
            let me = owners[1];
            let step1 = service::decided(q, cache, backend, s1, owners, link, me, referer1, parts).0;
            let step2 = service::decided(q, cache, backend, s2, after, link, me, referer2, parts).0;
            &&& after.len() > 0
            &&& after[0] == me <==> walk::yields(targets, i, me, q.hash)
            &&& step1 is Lookup
            &&& walk::yields(targets, i, me, q.hash) ==> step2 == step1
        }),
{
    walk::law_second_succeeds(targets, q.hash, 2, i, 2);
}

/// A host that is pulled out takes no image along that it was not the first owner of: the first
/// owner of any other image stays the first, and it goes on to serve the image from the same file.
pub proof fn law_first_owner_stays(
    q: ImageRequestView,
    cache: Seq<char>,
    backend: Seq<char>,
    s1: Stats,
    s2: Stats,
    targets: Seq<(Seq<char>, u32)>,
    i: int,
    link: (Seq<char>, Seq<char>),
    referer1: Option<Seq<char>>,
    referer2: Option<Seq<char>>,
    parts: Option<uri::UriPartsView>,
)
    requires
        0 <= i < targets.len(),
        walk::ring_owners(targets, q.hash, 2).len() > 0,
        walk::ring_owners(targets, q.hash, 2)[0] != targets[i].0,
        path::shardable(q.hash),
        parts is Some,
        !service::from_search(q.silo, referer1),
        !service::from_search(q.silo, referer2),
    ensures
        ({
            let owners = walk::ring_owners(targets, q.hash, 2);
            let after = walk::ring_owners(targets.remove(i), q.hash, 2);
            let me = owners[0];
            let step1 = service::decided(q, cache, backend, s1, owners, link, me, referer1, parts).0;
            let step2 = service::decided(q, cache, backend, s2, after, link, me, referer2, parts).0;
            &&& after.len() > 0
            &&& after[0] == me
            &&& step1 is Lookup
            &&& step2 == step1
        }),
{
    walk::law_first_stays(targets, q.hash, 2, i, 2);
}

/// When a host is pulled out, nothing changes for an image that it did not own: every host begins
/// a request for it as before.
pub proof fn law_other_images_stay(
    q: ImageRequestView,
    cache: Seq<char>,
    backend: Seq<char>,
    s: Stats,
    targets: Seq<(Seq<char>, u32)>,
    i: int,
    link: (Seq<char>, Seq<char>),
    me: Seq<char>,
    referer: Option<Seq<char>>,
)
    requires
        0 <= i < targets.len(),
        walk::ring_owners(targets, q.hash, 2).len() > 0,
        !walk::ring_owners(targets, q.hash, 2).contains(targets[i].0),
    ensures
        ({
            let owners = walk::ring_owners(targets, q.hash, 2);
            let after = walk::ring_owners(targets.remove(i), q.hash, 2);
            &&& after == owners
            &&& service::handled(q, cache, backend, s, after, link, me, referer)
                == service::handled(q, cache, backend, s, owners, link, me, referer)
        }),
{
    walk::law_others_stay(targets, q.hash, 2, i);
}

/// A host of weight zero owns nothing, unless it is alone on the ring.
pub proof fn law_weightless_target_owns_nothing(
    targets: Seq<(Seq<char>, u32)>,
    resource: Seq<char>,
    count: u32,
    me: Seq<char>,
)
    requires
        count > 0,
        targets.len() != 1,
        forall|i: int|
            0 <= i < targets.len() && (#[trigger] targets[i]).0 == me ==> targets[i].1 == 0,
    ensures
        !walk::ring_owners(targets, resource, count).contains(me),
{
    let owners = walk::ring_owners(targets, resource, count);
    walk::law_owners_sound(targets, resource, count);
    if owners.contains(me) {
        assert(walk::can_own(targets, owners[owners.index_of(me)]));
        let p = choose|p: u128| walk::held(targets, me, p);
        let i = choose|i: int|
            0 <= i < targets.len() && (#[trigger] targets[i]).0 == me && walk::has_position(
                targets,
                i,
                p,
            );
        assert(walk::takes(targets[i], p));
    }
}

/// A search engine is sent to the thumbnail of the full image by every host, whoever owns it.
pub proof fn law_search_sees_thumbnail(
    q: ImageRequestView,
    cache: Seq<char>,
    backend: Seq<char>,
    s: Stats,
    owners: Seq<Seq<char>>,
    link: (Seq<char>, Seq<char>),
    me: Seq<char>,
    referer: Option<Seq<char>>,
    parts: Option<uri::UriPartsView>,
)
    requires
        service::from_search(q.silo, referer),
    ensures
        service::decided(q, cache, backend, s, owners, link, me, referer, parts).0 == StepView::Done(
            CacheResultView::Redirect(service::thumb_url(q.hash)),
        ),
{
}

/// A file from disk is answered as it was when it came from the backend: where its content, its
/// time of modification and its content type are the same, so is the response.
pub proof fn law_hit_repeats_miss(kind: Seq<char>, mtime: i64, body: Seq<u8>, date: Seq<char>)
    ensures
        response::response_of(CacheResultView::Hit(kind, mtime, body), date)
            == response::response_of(CacheResultView::Miss(kind, mtime, body), date),
{
}

/// Two requests for one image look for it in one file, whatever the counters, the referers and
/// the readable parts of the links, so that the second finds what the first one stored. Of the
/// readable parts only the extension counts, for the content type.
pub proof fn law_same_image_same_file(
    q1: ImageRequestView,
    q2: ImageRequestView,
    cache: Seq<char>,
    backend: Seq<char>,
    s1: Stats,
    s2: Stats,
    owners1: Seq<Seq<char>>,
    owners2: Seq<Seq<char>>,
    link: (Seq<char>, Seq<char>),
    me: Seq<char>,
    referer1: Option<Seq<char>>,
    referer2: Option<Seq<char>>,
    parts: Option<uri::UriPartsView>,
)
    requires
        q1.silo == q2.silo,
        q1.hash == q2.hash,
    ensures
        ({
            let step1 = service::decided(q1, cache, backend, s1, owners1, link, me, referer1, parts).0;
            let step2 = service::decided(q2, cache, backend, s2, owners2, link, me, referer2, parts).0;
            match (step1, step2) {
                (StepView::Lookup(l1), StepView::Lookup(l2)) => {
                    &&& l1.path == l2.path
                    &&& l1.path == path::cached_path(cache, q1.silo, q1.hash)
                    &&& l1.url == l2.url
                    &&& service::content_type_of(q1.human) == service::content_type_of(q2.human)
                        ==> l1.content_type == l2.content_type
                },
                _ => true,
            }
        }),
{
}

/// The silo and the hash that a request names are path components. So where they name entries of
/// directories, what the request reads or stores lies below the cache directory, in a file that is
/// named by the hash.
pub proof fn law_request_kept_below_cache(path: Seq<char>, cache: Seq<char>, q: ImageRequestView)
    requires
        service::read_request(path) == Some(q),
        path::shardable(q.hash),
        path::entry_name(q.silo),
        path::byte_range(q.hash, 0, 2) != ".."@,
        path::byte_range(q.hash, 2, 4) != ".."@,
    ensures
        path::entry_name(path::byte_range(q.hash, 0, 2)),
        path::entry_name(path::byte_range(q.hash, 2, 4)),
        path::entry_name(q.hash),
        path::cached_path(cache, q.silo, q.hash) == path::directory(cache) + q.silo.push('/')
            + path::byte_range(q.hash, 0, 2).push('/') + path::byte_range(q.hash, 2, 4).push('/')
            + q.hash,
{
    let parts = text::fields(path, set!['/']);
    text::lemma_fields_free(path, set!['/']);
    assert(text::free_of(parts[2], set!['/']));
    assert(forall|i: int| 0 <= i < parts[2].len() ==> !set!['/'].contains(parts[2][i]));
    path::law_kept_below_cache(cache, q.silo, q.hash);
}

/// Purging an image reaches every request for it: the file that a request would look for is among
/// those that are removed, whatever the silo.
pub proof fn law_purge_reaches_cache(
    me: Seq<char>,
    cache: Seq<char>,
    backend: Seq<char>,
    path: Seq<char>,
    referer: Option<Seq<char>>,
    silos: Map<Seq<char>, Silo>,
    counters: Map<Seq<char>, Stats>,
    names: Seq<Seq<char>>,
)
    requires
        forall|silo: Seq<char>| #[trigger] silos.contains_key(silo) ==> names.contains(silo),
    ensures
        ({
            let step = service::requested(me, cache, backend, path, referer, silos, counters).0;
            match (service::read_request(path), step) {
                (Some(q), StepView::Lookup(l)) => names.map_values(
                    |silo: Seq<char>| path::cached_path(cache, silo, q.hash),
                ).contains(l.path),
                _ => true,
            }
        }),
{
    let step = service::requested(me, cache, backend, path, referer, silos, counters).0;
    if let (Some(q), StepView::Lookup(l)) = (service::read_request(path), step) {
        let files = names.map_values(|silo: Seq<char>| path::cached_path(cache, silo, q.hash));
        assert(silos.contains_key(q.silo));
        let i = names.index_of(q.silo);
        assert(files[i] == l.path);
    }
}

/// `word` stands somewhere in `s`.
pub open spec fn mentions(s: Seq<char>, word: Seq<char>) -> bool {
    exists|a: Seq<char>, b: Seq<char>| s == #[trigger] (a + word + b)
}

proof fn lemma_mentions(s: Seq<char>, word: Seq<char>)
    ensures
        mentions(s, word) <==> text::holds(s, word),
{
    text::law_holds_where_cut(s, word, s, s);
    if mentions(s, word) {
        let (a, b) = choose|a: Seq<char>, b: Seq<char>| s == #[trigger] (a + word + b);
        text::law_holds_where_cut(s, word, a, b);
    }
}

/// The path of an image: its silo, its hash and a readable part.
pub open spec fn image_path(silo: Seq<char>, hash: Seq<char>, human: Seq<char>) -> Seq<char> {
    seq!['/'] + silo + seq!['/'] + hash + seq!['/'] + human
}

proof fn lemma_component_free(s: Seq<char>)
    requires
        path::one_component(s),
    ensures
        text::free_of(s, set!['/']),
{
    assert forall|i: int| 0 <= i < s.len() implies !set!['/'].contains(#[trigger] s[i]) by {
        assert(s.contains(s[i]));
    }
}

/// The fields of a path of four components.
proof fn lemma_four_fields(a: Seq<char>, b: Seq<char>, c: Seq<char>, d: Seq<char>)
    requires
        path::one_component(a),
        path::one_component(b),
        path::one_component(c),
        path::one_component(d),
    ensures
        text::fields(a + seq!['/'] + b + seq!['/'] + c + seq!['/'] + d, set!['/']) == seq![a, b, c, d],
{
    let sep = set!['/'];
    lemma_component_free(a);
    lemma_component_free(b);
    lemma_component_free(c);
    lemma_component_free(d);
    text::lemma_fields_of_free(a, sep);
    text::lemma_fields_of_free(b, sep);
    text::lemma_fields_of_free(c, sep);
    text::lemma_fields_of_free(d, sep);
    text::lemma_fields_concat(c, '/', d, sep);
    text::lemma_fields_concat(b, '/', c.push('/') + d, sep);
    text::lemma_fields_concat(a, '/', b.push('/') + (c.push('/') + d), sep);
    assert(a + seq!['/'] + b + seq!['/'] + c + seq!['/'] + d =~= a.push('/') + (b.push('/') + (c.push(
        '/',
    ) + d)));
    assert(text::fields(a + seq!['/'] + b + seq!['/'] + c + seq!['/'] + d, sep) =~= seq![a, b, c, d]);
}

/// A path of four components names an image by the last three, each taken whole. No other path
/// names one.
pub proof fn law_path_names_image(
    path: Seq<char>,
    first: Seq<char>,
    silo: Seq<char>,
    hash: Seq<char>,
    human: Seq<char>,
)
    requires
        path::one_component(first),
        path::one_component(silo),
        path::one_component(hash),
        path::one_component(human),
    ensures
        service::read_request(
            first + seq!['/'] + silo + seq!['/'] + hash + seq!['/'] + human,
        ) == Some(ImageRequestView { silo, hash, human }),
        service::read_request(path) matches Some(q) ==> {
            &&& path::one_component(q.silo)
            &&& path::one_component(q.hash)
            &&& path::one_component(q.human)
            &&& exists|start: Seq<char>|
                path::one_component(start) && path == #[trigger] (start + seq!['/']) + q.silo + seq!['/']
                    + q.hash + seq!['/'] + q.human
        },
{
    lemma_four_fields(first, silo, hash, human);
    if let Some(q) = service::read_request(path) {
        let sep = set!['/'];
        let parts = text::fields(path, sep);
        text::law_fields_rejoin(path, '/');
        assert forall|k: int| 0 <= k < 4 implies path::one_component(#[trigger] parts[k]) by {
            assert(text::free_of(parts[k], sep));
            if parts[k].contains('/') {
                let i = parts[k].index_of('/');
                assert(sep.contains(parts[k][i]));
            }
        }
        let three = parts.drop_last();
        let two = three.drop_last();
        let one = two.drop_last();
        assert(text::rejoined(one, '/') == parts[0]);
        assert(text::rejoined(two, '/') == parts[0].push('/') + parts[1]);
        assert(text::rejoined(three, '/') == text::rejoined(two, '/').push('/') + parts[2]);
        assert(text::rejoined(parts, '/') == text::rejoined(three, '/').push('/') + parts[3]);
        assert(path =~= (parts[0] + seq!['/']) + q.silo + seq!['/'] + q.hash + seq!['/'] + q.human);
    }
}

/// A redirect to an owner is a request to the owner's host for the same image: past the address,
/// the target reads as a path with the silo and the whole hash.
pub proof fn law_redirect_names_image(
    link: (Seq<char>, Seq<char>),
    owner: Seq<char>,
    silo: Seq<char>,
    hash: Seq<char>,
)
    requires
        path::one_component(silo),
        path::one_component(hash),
    ensures
        ({
            let url = service::owner_url(link, owner, silo, hash);
            let address = link.0 + owner + link.1;
            let rest = url.skip(address.len() as int);
            &&& address.is_prefix_of(url)
            &&& rest.len() > 0 && rest[0] == '/'
            &&& service::read_request(rest) matches Some(q)
            &&& q.silo == silo
            &&& q.hash == hash
            &&& service::content_type_of(q.human) == "image/jpeg"@
        }),
{
    reveal_strlit("/");
    reveal_strlit("image.jpg");
    reveal_strlit("/image.jpg");
    let none = Seq::<char>::empty();
    let human = "image.jpg"@;
    let url = service::owner_url(link, owner, silo, hash);
    let address = link.0 + owner + link.1;
    let rest = url.skip(address.len() as int);
    assert("/image.jpg"@ =~= seq!['/'] + human);
    assert("/"@ =~= seq!['/']);
    assert(rest =~= none + seq!['/'] + silo + seq!['/'] + hash + seq!['/'] + human);
    assert(url.take(address.len() as int) =~= address);
    assert(path::one_component(human));
    lemma_four_fields(none, silo, hash, human);
    reveal_strlit("image");
    reveal_strlit("jpg");
    assert(human =~= "image"@.push('.') + "jpg"@);
    law_content_type_by_extension("image"@, "jpg"@);
    lemma_jpg();
}

/// The extension of a JPEG is none of the others.
proof fn lemma_jpg()
    ensures
        text::free_of("jpg"@, set!['.']),
        "jpg"@ != "mp4"@,
        "jpg"@ != "webm"@,
        "jpg"@ != "gif"@,
        "jpg"@ != "png"@,
        "jpg"@ != "webp"@,
{
    reveal_strlit("jpg");
    reveal_strlit("mp4");
    reveal_strlit("webm");
    reveal_strlit("gif");
    reveal_strlit("png");
    reveal_strlit("webp");
    assert("jpg"@[0] != "mp4"@[0]);
    assert("jpg"@[0] != "webm"@[0]);
    assert("jpg"@[0] != "gif"@[0]);
    assert("jpg"@[0] != "png"@[0]);
    assert("jpg"@[0] != "webp"@[0]);
}

/// The thumbnail that a search engine is sent to is that of the image: past the host, the target
/// reads as a path with the silo of the thumbnails and the whole hash.
pub proof fn law_thumbnail_names_image(hash: Seq<char>)
    requires
        path::one_component(hash),
    ensures
        ({
            let url = service::thumb_url(hash);
            let host = "https://holly.paheal.net"@;
            let rest = url.skip(host.len() as int);
            &&& host.is_prefix_of(url)
            &&& rest.len() > 0 && rest[0] == '/'
            &&& service::read_request(rest) matches Some(q)
            &&& q.silo == "_thumbs"@
            &&& q.hash == hash
            &&& q.human == "thumb.jpg"@
        }),
{
    reveal_strlit("https://holly.paheal.net");
    reveal_strlit("https://holly.paheal.net/_thumbs/");
    reveal_strlit("_thumbs");
    reveal_strlit("thumb.jpg");
    reveal_strlit("/thumb.jpg");
    let none = Seq::<char>::empty();
    let host = "https://holly.paheal.net"@;
    let url = service::thumb_url(hash);
    let rest = url.skip(host.len() as int);
    assert("https://holly.paheal.net/_thumbs/"@ =~= host + seq!['/'] + "_thumbs"@ + seq!['/']);
    assert("/thumb.jpg"@ =~= seq!['/'] + "thumb.jpg"@);
    assert(rest =~= none + seq!['/'] + "_thumbs"@ + seq!['/'] + hash + seq!['/'] + "thumb.jpg"@);
    assert(url.take(host.len() as int) =~= host);
    assert(path::one_component("_thumbs"@));
    assert(path::one_component("thumb.jpg"@));
    lemma_four_fields(none, "_thumbs"@, hash, "thumb.jpg"@);
}

/// The content type goes by what follows the last dot, or by the whole name where there is none.
/// What is before the dot does not count, and an extension that is not known is that of a JPEG.
pub proof fn law_content_type_by_extension(stem: Seq<char>, ext: Seq<char>)
    requires
        text::free_of(ext, set!['.']),
    ensures
        service::content_type_of(stem.push('.') + ext) == service::content_type_of(ext),
        ext == "mp4"@ ==> service::content_type_of(ext) == "video/mp4"@,
        ext == "webm"@ ==> service::content_type_of(ext) == "video/webm"@,
        ext == "gif"@ ==> service::content_type_of(ext) == "image/gif"@,
        ext == "png"@ ==> service::content_type_of(ext) == "image/png"@,
        ext == "webp"@ ==> service::content_type_of(ext) == "image/webp"@,
        ext != "mp4"@ && ext != "webm"@ && ext != "gif"@ && ext != "png"@ && ext != "webp"@
            ==> service::content_type_of(ext) == "image/jpeg"@,
{
    let sep = set!['.'];
    text::lemma_fields_of_free(ext, sep);
    text::lemma_fields_concat(stem, '.', ext, sep);
    text::lemma_fields_len(stem, sep);
    reveal_strlit("mp4");
    reveal_strlit("webm");
    reveal_strlit("gif");
    reveal_strlit("png");
    reveal_strlit("webp");
    assert("mp4"@[0] != "webm"@[0]);
    assert("mp4"@[0] != "gif"@[0]);
    assert("mp4"@[0] != "png"@[0]);
    assert("mp4"@[0] != "webp"@[0]);
    assert("webm"@[0] != "gif"@[0]);
    assert("webm"@[0] != "png"@[0]);
    assert("webm"@[3] != "webp"@[3]);
    assert("gif"@[0] != "png"@[0]);
    assert("gif"@[0] != "webp"@[0]);
    assert("png"@[0] != "webp"@[0]);
}

/// A visitor whose referer mentions `google` anywhere, and does not mention `paheal.net`, is sent
/// from a full image to its thumbnail by every host, and is counted as coming from Google.
pub proof fn law_google_visitor_sees_thumbnail(
    q: ImageRequestView,
    cache: Seq<char>,
    backend: Seq<char>,
    s: Stats,
    owners: Seq<Seq<char>>,
    link: (Seq<char>, Seq<char>),
    me: Seq<char>,
    referer: Seq<char>,
    parts: Option<uri::UriPartsView>,
)
    requires
        q.silo == "_images"@,
        mentions(referer, "google"@),
        !mentions(referer, "paheal.net"@),
    ensures
        ({
            let (step, t) = service::decided(
                q,
                cache,
                backend,
                s,
                owners,
                link,
                me,
                Some(referer),
                parts,
            );
            &&& step == StepView::Done(
                CacheResultView::Redirect(
                    "https://holly.paheal.net/_thumbs/"@ + q.hash + "/thumb.jpg"@,
                ),
            )
            &&& t == Stats { requests: stats::up(s.requests), google: stats::up(s.google), ..s }
        }),
{
    lemma_mentions(referer, "google"@);
    lemma_mentions(referer, "paheal.net"@);
}

/// Every other visitor is not sent to the thumbnail, and is counted by where the visitor comes
/// from: from the site where the referer mentions it, from outside where it mentions neither, and
/// as without a referer where there is none. Only visitors of full images are counted so.
pub proof fn law_visitors_counted_by_referer(
    s: Stats,
    silo: Seq<char>,
    referer: Option<Seq<char>>,
)
    ensures
        ({
            let t = service::referred(s, silo, referer);
            if silo != "_images"@ {
                t == s && !service::from_search(silo, referer)
            } else {
                match referer {
                    None => t == Stats { norefer: stats::up(s.norefer), ..s }
                        && !service::from_search(silo, referer),
                    Some(r) => if mentions(r, "paheal.net"@) {
                        t == Stats { paheal: stats::up(s.paheal), ..s } && !service::from_search(
                            silo,
                            referer,
                        )
                    } else if mentions(r, "google"@) {
                        t == Stats { google: stats::up(s.google), ..s } && service::from_search(
                            silo,
                            referer,
                        )
                    } else {
                        t == Stats { external: stats::up(s.external), ..s }
                            && !service::from_search(silo, referer)
                    },
                }
            }
        }),
{
    if let Some(r) = referer {
        lemma_mentions(r, "google"@);
        lemma_mentions(r, "paheal.net"@);
    }
}

/// An owner looks for the image that the path names: in the file below the cache directory that
/// is named by the whole hash, or else at the backend's URL for the whole hash, as the content
/// type that goes with the path. Left out are the hashes that name the directory above by their
/// first or second two bytes.
pub proof fn law_owner_looks_for_image(
    me: Seq<char>,
    cache: Seq<char>,
    backend: Seq<char>,
    silo: Seq<char>,
    hash: Seq<char>,
    human: Seq<char>,
    referer: Option<Seq<char>>,
    silos: Map<Seq<char>, Silo>,
    counters: Map<Seq<char>, Stats>,
)
    requires
        path::entry_name(silo),
        path::one_component(hash),
        path::one_component(human),
        path::shardable(hash),
        path::byte_range(hash, 0, 2) != ".."@,
        path::byte_range(hash, 2, 4) != ".."@,
        silos.contains_key(silo),
        counters.contains_key(silo),
        silo == "_images"@ && referer is Some ==> !mentions(referer->0, "google"@) || mentions(
            referer->0,
            "paheal.net"@,
        ),
        walk::ring_owners(silos[silo]@.targets, hash, 2).contains(me),
    ensures
        ({
            let path = image_path(silo, hash, human);
            let url = path::directory(backend) + silo + seq!['/'] + hash + "/human.jpg"@;
            let step = service::requested(me, cache, backend, path, referer, silos, counters).0;
            match uri::uri_parts(url) {
                Some(parts) => {
                    &&& step matches StepView::Lookup(l)
                    &&& l.silo == silo
                    &&& l.content_type == service::content_type_of(human)
                    &&& l.path == path::directory(cache) + silo + seq!['/'] + path::byte_range(
                        hash,
                        0,
                        2,
                    ) + seq!['/'] + path::byte_range(hash, 2, 4) + seq!['/'] + hash
                    &&& l.url == url
                    &&& l.target == uri::target_of(parts)
                },
                None => step == StepView::Fault(service::Fault::InvalidUrl),
            }
        }),
{
    let path = image_path(silo, hash, human);
    let none = Seq::<char>::empty();
    let url = path::directory(backend) + silo + seq!['/'] + hash + "/human.jpg"@;
    let owners = walk::ring_owners(silos[silo]@.targets, hash, 2);
    assert(path =~= none + seq!['/'] + silo + seq!['/'] + hash + seq!['/'] + human);
    law_path_names_image(path, none, silo, hash, human);
    law_visitors_counted_by_referer(counters[silo], silo, referer);
    walk::law_owners_sound(silos[silo]@.targets, hash, 2);
    assert(owners[owners.index_of(me)] == me);
    path::law_kept_below_cache(cache, silo, hash);
    path::law_url_names_image(backend, silo, hash);
    assert(path::backend_url(backend, silo, hash) =~= url);
    assert(path::directory(cache) + silo.push('/') + path::byte_range(hash, 0, 2).push('/')
        + path::byte_range(hash, 2, 4).push('/') + hash =~= path::directory(cache) + silo
        + seq!['/'] + path::byte_range(hash, 0, 2) + seq!['/'] + path::byte_range(hash, 2, 4)
        + seq!['/'] + hash);
}

/// Any other host redirects to the first owner's host, for the image that the path names.
pub proof fn law_other_host_redirects_to_image(
    me: Seq<char>,
    cache: Seq<char>,
    backend: Seq<char>,
    silo: Seq<char>,
    hash: Seq<char>,
    human: Seq<char>,
    referer: Option<Seq<char>>,
    silos: Map<Seq<char>, Silo>,
    counters: Map<Seq<char>, Stats>,
)
    requires
        path::one_component(silo),
        path::one_component(hash),
        path::one_component(human),
        path::shardable(hash),
        silos.contains_key(silo),
        counters.contains_key(silo),
        silo == "_images"@ && referer is Some ==> !mentions(referer->0, "google"@) || mentions(
            referer->0,
            "paheal.net"@,
        ),
        walk::ring_owners(silos[silo]@.targets, hash, 2).len() > 0,
        !walk::ring_owners(silos[silo]@.targets, hash, 2).contains(me),
        me != "no-backup"@,
    ensures
        ({
            let path = image_path(silo, hash, human);
            let owner = walk::ring_owners(silos[silo]@.targets, hash, 2)[0];
            let link = silos[silo]@.link;
            let address = link.0 + owner + link.1;
            let step = service::requested(me, cache, backend, path, referer, silos, counters).0;
            uri::uri_parts(path::backend_url(backend, silo, hash)) is Some ==> {
                &&& step matches StepView::Done(CacheResultView::Redirect(target))
                &&& address.is_prefix_of(target)
                &&& service::read_request(target.skip(address.len() as int)) matches Some(q)
                &&& q.silo == silo
                &&& q.hash == hash
            }
        }),
{
    let path = image_path(silo, hash, human);
    let none = Seq::<char>::empty();
    let owners = walk::ring_owners(silos[silo]@.targets, hash, 2);
    assert(path =~= none + seq!['/'] + silo + seq!['/'] + hash + seq!['/'] + human);
    law_path_names_image(path, none, silo, hash, human);
    law_visitors_counted_by_referer(counters[silo], silo, referer);
    law_redirect_names_image(silos[silo]@.link, owners[0], silo, hash);
    assert(owners.contains(owners[0]));
    assert(owners.len() > 1 ==> owners.contains(owners[1]));
}

/// The files that purging the image of `hash` removes, one for each silo.
pub open spec fn purged(cache: Seq<char>, names: Seq<Seq<char>>, hash: Seq<char>) -> Seq<Seq<char>> {
    names.map_values(|silo: Seq<char>| path::cached_path(cache, silo, hash))
}

/// A ban ends the serving of its image from the cache: among the files that its notification
/// removes is the one that a request for the hash that it names looks for.
pub proof fn law_ban_reaches_request(
    payload: Seq<char>,
    me: Seq<char>,
    cache: Seq<char>,
    backend: Seq<char>,
    path: Seq<char>,
    referer: Option<Seq<char>>,
    silos: Map<Seq<char>, Silo>,
    counters: Map<Seq<char>, Stats>,
    names: Seq<Seq<char>>,
    q: ImageRequestView,
    l: LookupView,
)
    requires
        forall|silo: Seq<char>| #[trigger] silos.contains_key(silo) ==> names.contains(silo),
        service::read_request(path) == Some(q),
        q.hash == payload,
        service::requested(me, cache, backend, path, referer, silos, counters).0
            == StepView::Lookup(l),
    ensures
        exists|k: int, hash: Seq<char>|
            0 <= k < db::notified_steps("shm_image_bans"@, payload).len() && #[trigger]
            db::notified_steps("shm_image_bans"@, payload)[k] == DbStepView::Clean(hash)
                && #[trigger] purged(cache, names, hash).contains(l.path),
{
    let work = db::notified_steps("shm_image_bans"@, payload);
    db::law_ban_purges_its_image(payload);
    law_purge_reaches_cache(me, cache, backend, path, referer, silos, counters, names);
    let hash = work[0]->Clean_0;
    assert(hash =~= payload);
    assert(work[0] == DbStepView::Clean(hash));
    assert(purged(cache, names, hash).contains(l.path));
}

/// Where the image comes from: from the file that was looked for where that is on disk, and else
/// from the URL and the address that were worked out, to be kept in that file. A backend without a
/// host leads nowhere.
pub proof fn law_image_comes_from_disk_or_backend(l: LookupView, s: Stats)
    ensures
        transfer::looked_up(l, true, s).0 == transfer::SourceView::Disk(l.content_type, l.path),
        match l.target {
            Some(target) => {
                &&& transfer::looked_up(l, false, s).0 matches transfer::SourceView::Backend(f)
                &&& f.content_type == l.content_type
                &&& f.path == l.path
                &&& f.url == l.url
                &&& f.target == target
            },
            None => transfer::looked_up(l, false, s).0 == transfer::SourceView::Fault(
                service::Fault::NoHost,
            ),
        },
        transfer::looked_up(l, true, s).1.block_disk == stats::up(s.block_disk),
        transfer::looked_up(l, false, s).1.block_net == stats::up(s.block_net),
{
}

/// The time of modification of an image from the backend is the one that the backend's date names.
pub proof fn law_reply_date_is_backends(last_modified: Option<Seq<char>>)
    ensures
        last_modified is None ==> transfer::reply_date(last_modified) == Err::<i64, service::Fault>(
            service::Fault::NoDate,
        ),
        last_modified matches Some(s) ==> match date::http_date(s) {
            Some(secs) => transfer::reply_date(last_modified) == Ok::<i64, service::Fault>(secs),
            None => transfer::reply_date(last_modified) == Err::<i64, service::Fault>(
                service::Fault::InvalidDate,
            ),
        },
{
}

/// A request ends without an answer only where its hash cannot be cut, the backend's URL cannot be
/// read, or nobody owns the image, and for the first of these reasons that there is.
pub proof fn law_faults_have_reasons(
    q: ImageRequestView,
    cache: Seq<char>,
    backend: Seq<char>,
    s: Stats,
    owners: Seq<Seq<char>>,
    link: (Seq<char>, Seq<char>),
    me: Seq<char>,
    referer: Option<Seq<char>>,
    parts: Option<uri::UriPartsView>,
)
    ensures
        ({
            let step = service::decided(q, cache, backend, s, owners, link, me, referer, parts).0;
            let search = service::from_search(q.silo, referer);
            &&& step is Fault <==> !search && (!path::shardable(q.hash) || parts is None
                || owners.len() == 0)
            &&& step matches StepView::Fault(f) ==> {
                &&& f == service::Fault::ShortHash <==> !path::shardable(q.hash)
                &&& f == service::Fault::InvalidUrl <==> path::shardable(q.hash) && parts is None
                &&& f == service::Fault::NoOwner <==> path::shardable(q.hash) && parts is Some
            }
        }),
{
}

} // verus!
