//! How a request for an image is answered.
//!
//! The answer takes work outside the library: a look at the disk, a read, a fetch. The functions
//! here decide between the pieces of that work. A request goes from [`cache_request`] to a
//! [`Lookup`], from there to a [`DiskRead`] or a [`Fetch`], and from a [`Fetch`] to a
//! [`Download`]; each takes what the outside work came to and says what is next.
use vstd::prelude::*;
use crate::args::Args;
use crate::path;
use crate::silos::{GlobalSilos, Link, Silo};
use crate::stats;
use crate::stats::{GlobalStats, Stats};
use crate::text;
use crate::uri;
use crate::uri::{FetchTarget, UriParts};
use crate::walk;

verus! {

/// What a request comes to. A file goes with its content type and its time of modification, in
/// seconds since the Unix epoch.
#[derive(Debug, PartialEq, Eq)]
pub enum CacheResult {
    /// The file was on disk.
    Hit(&'static str, i64, Vec<u8>),
    /// The file came from the backend.
    Miss(&'static str, i64, Vec<u8>),
    /// The client should ask elsewhere.
    Redirect(String),
    /// There is no such file.
    NotFound,
}

/// A [`CacheResult`], as text and bytes.
pub enum CacheResultView {
    Hit(Seq<char>, i64, Seq<u8>),
    Miss(Seq<char>, i64, Seq<u8>),
    Redirect(Seq<char>),
    NotFound,
}

impl View for CacheResult {
    type V = CacheResultView;

    open spec fn view(&self) -> CacheResultView {
        match self {
            CacheResult::Hit(kind, mtime, body) => CacheResultView::Hit(kind@, *mtime, body@),
            CacheResult::Miss(kind, mtime, body) => CacheResultView::Miss(kind@, *mtime, body@),
            CacheResult::Redirect(target) => CacheResultView::Redirect(target@),
            CacheResult::NotFound => CacheResultView::NotFound,
        }
    }
}

/// What ends the task that serves a request: it cannot go on, and it gives no answer.
#[derive(Debug, Clone, Copy, PartialEq, Eq, Structural)]
pub enum Fault {
    /// The hash cannot be cut after its second and fourth byte.
    ShortHash,
    /// The backend's URL for the image is no URI.
    InvalidUrl,
    /// The ring has no owner for the image.
    NoOwner,
    /// The backend's URL has no host.
    NoHost,
    /// The backend does not say when the image was modified.
    NoDate,
    /// The backend's time of modification is no HTTP date.
    InvalidDate,
}

/// The image that a request names.
#[derive(Debug)]
pub struct ImageRequest {
    pub silo: String,
    pub hash: String,
    /// The readable part of the link. Only its extension counts.
    pub human: String,
}

/// An [`ImageRequest`], as text.
pub struct ImageRequestView {
    pub silo: Seq<char>,
    pub hash: Seq<char>,
    pub human: Seq<char>,
}

impl View for ImageRequest {
    type V = ImageRequestView;

    open spec fn view(&self) -> ImageRequestView {
        ImageRequestView { silo: self.silo@, hash: self.hash@, human: self.human@ }
    }
}

/// An image that this host is to serve. Whether it is on disk is the next question.
#[derive(Debug)]
pub struct Lookup {
    pub silo: String,
    pub content_type: &'static str,
    /// The file that keeps the image.
    pub path: String,
    /// Where the backend serves it.
    pub url: String,
    /// Where a request for it goes.
    pub target: Option<FetchTarget>,
}

/// A [`Lookup`], as text.
pub struct LookupView {
    pub silo: Seq<char>,
    pub content_type: Seq<char>,
    pub path: Seq<char>,
    pub url: Seq<char>,
    pub target: Option<(Seq<char>, Seq<char>)>,
}

impl View for Lookup {
    type V = LookupView;

    open spec fn view(&self) -> LookupView {
        LookupView {
            silo: self.silo@,
            content_type: self.content_type@,
            path: self.path@,
            url: self.url@,
            target: uri::optional_target(self.target),
        }
    }
}

/// How a request begins.
#[derive(Debug)]
pub enum Step {
    /// It is answered.
    Done(CacheResult),
    /// The file is looked for on disk.
    Lookup(Lookup),
    /// Its task ends.
    Fault(Fault),
}

/// A [`Step`], as text.
pub enum StepView {
    Done(CacheResultView),
    Lookup(LookupView),
    Fault(Fault),
}

impl View for Step {
    type V = StepView;

    open spec fn view(&self) -> StepView {
        match self {
            Step::Done(result) => StepView::Done(result@),
            Step::Lookup(lookup) => StepView::Lookup(lookup@),
            Step::Fault(fault) => StepView::Fault(*fault),
        }
    }
}

/// The image that a path names: `/silo/hash/human`.
pub open spec fn read_request(path: Seq<char>) -> Option<ImageRequestView> {
    let parts = text::fields(path, set!['/']);
    if parts.len() == 4 {
        Some(ImageRequestView { silo: parts[1], hash: parts[2], human: parts[3] })
    } else {
        None
    }
}

/// The content type that goes with the extension of `human`.
pub open spec fn content_type_of(human: Seq<char>) -> Seq<char> {
    let ext = text::fields(human, set!['.']).last();
    if ext == "mp4"@ {
        "video/mp4"@
    } else if ext == "webm"@ {
        "video/webm"@
    } else if ext == "gif"@ {
        "image/gif"@
    } else if ext == "png"@ {
        "image/png"@
    } else if ext == "webp"@ {
        "image/webp"@
    } else {
        "image/jpeg"@
    }
}

/// A link of the site itself leads to the image.
pub open spec fn from_site(referer: Seq<char>) -> bool {
    text::holds(referer, "paheal.net"@)
}

/// A search engine leads to the full image. It is sent to the thumbnail.
pub open spec fn from_search(silo: Seq<char>, referer: Option<Seq<char>>) -> bool {
    &&& silo == "_images"@
    &&& referer matches Some(r) && !from_site(r) && text::holds(r, "google"@)
}

/// The counters after a full image was asked for by way of `referer`. Those of other silos do not
/// tell.
pub open spec fn referred(s: Stats, silo: Seq<char>, referer: Option<Seq<char>>) -> Stats {
    if silo != "_images"@ {
        s
    } else {
        match referer {
            None => Stats { norefer: stats::up(s.norefer), ..s },
            Some(r) => if from_site(r) {
                Stats { paheal: stats::up(s.paheal), ..s }
            } else if text::holds(r, "google"@) {
                Stats { google: stats::up(s.google), ..s }
            } else {
                Stats { external: stats::up(s.external), ..s }
            },
        }
    }
}

/// Where the thumbnail of an image is.
pub open spec fn thumb_url(hash: Seq<char>) -> Seq<char> {
    "https://holly.paheal.net/_thumbs/"@ + hash + "/thumb.jpg"@
}

/// Where the host `owner` serves an image, given the link by which the hosts are addressed.
pub open spec fn owner_url(
    link: (Seq<char>, Seq<char>),
    owner: Seq<char>,
    silo: Seq<char>,
    hash: Seq<char>,
) -> Seq<char> {
    link.0 + owner + link.1 + "/"@ + silo + "/"@ + hash + "/image.jpg"@
}

/// The second owner of an image.
pub open spec fn backup_of(owners: Seq<Seq<char>>) -> Seq<char> {
    if owners.len() > 1 {
        owners[1]
    } else {
        "no-backup"@
    }
}

/// The host `me` is the first or the second owner.
pub open spec fn owned_by(owners: Seq<Seq<char>>, me: Seq<char>) -> bool {
    owners[0] == me || backup_of(owners) == me
}

/// How the host `me` begins the request `q`, given the owners of the image, the link by which they
/// are addressed and the parts of the image's URL at the backend, and the counters after that.
pub open spec fn decided(
    q: ImageRequestView,
    cache: Seq<char>,
    backend: Seq<char>,
    s: Stats,
    owners: Seq<Seq<char>>,
    link: (Seq<char>, Seq<char>),
    me: Seq<char>,
    referer: Option<Seq<char>>,
    parts: Option<uri::UriPartsView>,
) -> (StepView, Stats) {
    let s = referred(Stats { requests: stats::up(s.requests), ..s }, q.silo, referer);
    if from_search(q.silo, referer) {
        (StepView::Done(CacheResultView::Redirect(thumb_url(q.hash))), s)
    } else if !path::shardable(q.hash) {
        (StepView::Fault(Fault::ShortHash), s)
    } else if parts is None {
        (StepView::Fault(Fault::InvalidUrl), s)
    } else if owners.len() == 0 {
        (StepView::Fault(Fault::NoOwner), s)
    } else if !owned_by(owners, me) {
        (
            StepView::Done(CacheResultView::Redirect(owner_url(link, owners[0], q.silo, q.hash))),
            Stats { redirect: stats::up(s.redirect), ..s },
        )
    } else {
        (
            StepView::Lookup(
                LookupView {
                    silo: q.silo,
                    content_type: content_type_of(q.human),
                    path: path::cached_path(cache, q.silo, q.hash),
                    url: path::backend_url(backend, q.silo, q.hash),
                    target: uri::target_of(parts->0),
                },
            ),
            s,
        )
    }
}

/// How the host `me` begins the request `q`, given the owners of the image and the link by which
/// they are addressed, and the counters after that.
pub open spec fn handled(
    q: ImageRequestView,
    cache: Seq<char>,
    backend: Seq<char>,
    s: Stats,
    owners: Seq<Seq<char>>,
    link: (Seq<char>, Seq<char>),
    me: Seq<char>,
    referer: Option<Seq<char>>,
) -> (StepView, Stats) {
    let parts = uri::uri_parts(path::backend_url(backend, q.silo, q.hash));
    decided(q, cache, backend, s, owners, link, me, referer, parts)
}

/// The counters when a request is taken up.
pub open spec fn entered(s: Stats) -> Stats {
    Stats { inflight: stats::up(s.inflight), ..s }
}

/// The counters when a request has its answer.
pub open spec fn left(s: Stats) -> Stats {
    Stats { inflight: stats::down(s.inflight), ..s }
}

/// The silo has counters and a ring.
pub open spec fn served(
    silo: Seq<char>,
    silos: Map<Seq<char>, Silo>,
    stats: Map<Seq<char>, Stats>,
) -> bool {
    stats.contains_key(silo) && silos.contains_key(silo)
}

/// How the host `me` begins a request for `path`, and the counters of all silos after that.
pub open spec fn requested(
    me: Seq<char>,
    cache: Seq<char>,
    backend: Seq<char>,
    path: Seq<char>,
    referer: Option<Seq<char>>,
    silos: Map<Seq<char>, Silo>,
    stats: Map<Seq<char>, Stats>,
) -> (StepView, Map<Seq<char>, Stats>) {
    match read_request(path) {
        None => (StepView::Done(CacheResultView::NotFound), stats),
        Some(q) => if !served(q.silo, silos, stats) {
            (StepView::Done(CacheResultView::NotFound), stats)
        } else {
            let owners = walk::ring_owners(silos[q.silo]@.targets, q.hash, 2);
            let (step, s) = handled(
                q,
                cache,
                backend,
                entered(stats[q.silo]),
                owners,
                silos[q.silo]@.link,
                me,
                referer,
            );
            let s = if step is Done {
                left(s)
            } else {
                s
            };
            (step, stats.insert(q.silo, s))
        },
    }
}

/// The view of a referer that may be missing.
pub open spec fn optional_str(s: Option<&str>) -> Option<Seq<char>> {
    match s {
        Some(s) => Some(s@),
        None => None,
    }
}

/// Reads the image that a path names.
pub fn parse_request(path: &str) -> (r: Option<ImageRequest>)
    ensures
        match r {
            Some(q) => read_request(path@) == Some(q@),
            None => read_request(path@) is None,
        },
{
    let parts = text::split(path, '/');
    assert(text::texts(parts@).len() == parts@.len());
    if parts.len() != 4 {
        return None;
    }
    assert(text::texts(parts@)[1] == parts@[1]@);
    assert(text::texts(parts@)[2] == parts@[2]@);
    assert(text::texts(parts@)[3] == parts@[3]@);
    Some(ImageRequest { silo: parts[1].clone(), hash: parts[2].clone(), human: parts[3].clone() })
}

/// The content type that goes with the extension of `human`.
pub fn content_type(human: &str) -> (r: &'static str)
    ensures
        r@ == content_type_of(human@),
{
    let ext = text::last_field(human, '.');
    if text::same(ext.as_str(), "mp4") {
        "video/mp4"
    } else if text::same(ext.as_str(), "webm") {
        "video/webm"
    } else if text::same(ext.as_str(), "gif") {
        "image/gif"
    } else if text::same(ext.as_str(), "png") {
        "image/png"
    } else if text::same(ext.as_str(), "webp") {
        "image/webp"
    } else {
        "image/jpeg"
    }
}

fn thumb_target(hash: &str) -> (r: String)
    ensures
        r@ == thumb_url(hash@),
{
    let mut r = "https://holly.paheal.net/_thumbs/".to_owned();
    r.append(hash);
    r.append("/thumb.jpg");
    r
}

fn owner_target(link: &Link, owner: &str, silo: &str, hash: &str) -> (r: String)
    ensures
        r@ == owner_url(link@, owner@, silo@, hash@),
{
    let mut r = link.before.clone();
    r.append(owner);
    r.append(link.after.as_str());
    r.append("/");
    r.append(silo);
    r.append("/");
    r.append(hash);
    r.append("/image.jpg");
    r
}

/// Counts the referer of a request. Says whether a search engine leads to the full image.
fn count_referer(silo: &str, stats: &mut Stats, referer: Option<&str>) -> (r: bool)
    ensures
        *final(stats) == referred(*old(stats), silo@, optional_str(referer)),
        r == from_search(silo@, optional_str(referer)),
{
    if !text::same(silo, "_images") {
        return false;
    }
    match referer {
        None => {
            stats.norefer = stats::count_up(stats.norefer);
            false
        },
        Some(referer) => if text::contains(referer, "paheal.net") {
            stats.paheal = stats::count_up(stats.paheal);
            false
        } else if text::contains(referer, "google") {
            stats.google = stats::count_up(stats.google);
            true
        } else {
            stats.external = stats::count_up(stats.external);
            false
        },
    }
}

/// Begins a request, given the owners of the image, the link by which they are addressed and the
/// parts of the image's URL at the backend.
pub fn decide(
    q: &ImageRequest,
    args: &Args,
    stats: &mut Stats,
    owners: &Vec<String>,
    link: &Link,
    me: &str,
    referer: Option<&str>,
    parts: Option<UriParts>,
) -> (r: Step)
    ensures
        (r@, *final(stats)) == decided(
            q@,
            args.cache@,
            args.backend@,
            *old(stats),
            text::texts(owners@),
            link@,
            me@,
            optional_str(referer),
            match parts {
                Some(p) => Some(p@),
                None => None,
            },
        ),
{
    stats.requests = stats::count_up(stats.requests);
    if count_referer(q.silo.as_str(), stats, referer) {
        return Step::Done(CacheResult::Redirect(thumb_target(q.hash.as_str())));
    }
    if !path::is_shardable(q.hash.as_str()) {
        return Step::Fault(Fault::ShortHash);
    }
    let parts = match parts {
        Some(parts) => parts,
        None => return Step::Fault(Fault::InvalidUrl),
    };
    if owners.len() == 0 {
        return Step::Fault(Fault::NoOwner);
    }
    assert(text::texts(owners@)[0] == owners@[0]@);
    let owner = owners[0].as_str();
    let backup = if owners.len() > 1 {
        assert(text::texts(owners@)[1] == owners@[1]@);
        owners[1].as_str()
    } else {
        "no-backup"
    };
    if !text::same(owner, me) && !text::same(backup, me) {
        let target = owner_target(link, owner, q.silo.as_str(), q.hash.as_str());
        stats.redirect = stats::count_up(stats.redirect);
        return Step::Done(CacheResult::Redirect(target));
    }
    Step::Lookup(
        Lookup {
            silo: q.silo.clone(),
            content_type: content_type(q.human.as_str()),
            path: path::cache_path(args.cache.as_str(), q.silo.as_str(), q.hash.as_str()),
            url: path::url_of(args.backend.as_str(), q.silo.as_str(), q.hash.as_str()),
            target: uri::fetch_target(&parts),
        },
    )
}

/// Begins a request, given the owners of the image and the link by which they are addressed.
pub fn handle_request_inner(
    q: &ImageRequest,
    args: &Args,
    stats: &mut Stats,
    owners: &Vec<String>,
    link: &Link,
    me: &str,
    referer: Option<&str>,
) -> (r: Step)
    ensures
        (r@, *final(stats)) == handled(
            q@,
            args.cache@,
            args.backend@,
            *old(stats),
            text::texts(owners@),
            link@,
            me@,
            optional_str(referer),
        ),
{
    let url = path::url_of(args.backend.as_str(), q.silo.as_str(), q.hash.as_str());
    let parts = uri::parse_uri(url.as_str());
    decide(q, args, stats, owners, link, me, referer, parts)
}

/// Begins the request for `path` that the host `name` received.
///
/// A request for a silo that the host does not serve is answered without being counted. Any other
/// is counted as in flight until it has its answer. An image has an owner where some target of
/// the ring can own something, and two where two can. A redirect leads to the host of the first,
/// by the link of the silo.
pub fn cache_request(
    name: &str,
    args: &Args,
    path: &str,
    referer: Option<&str>,
    silos: &GlobalSilos,
    stats: &mut GlobalStats,
) -> (r: Step)
    requires
        silos.wf(),
        old(stats).wf(),
    ensures
        final(stats).wf(),
        final(stats).names() == old(stats).names(),
        (r@, final(stats)@) == requested(
            name@,
            args.cache@,
            args.backend@,
            path@,
            optional_str(referer),
            silos@,
            old(stats)@,
        ),
        match read_request(path@) {
            Some(q) => served(q.silo, silos@, old(stats)@) ==> {
                let targets = silos@[q.silo]@.targets;
                let owners = walk::ring_owners(targets, q.hash, 2);
                &&& walk::distinct(targets)
                &&& walk::sound_owners(targets, owners, 2)
            },
            None => true,
        },
{
    let q = match parse_request(path) {
        Some(q) => q,
        None => return Step::Done(CacheResult::NotFound),
    };
    let silo = q.silo.as_str();
    if stats.get(silo).is_none() {
        return Step::Done(CacheResult::NotFound);
    }
    let (owners, link) = match silos.get(silo) {
        Some(s) => (s.lookup_list(q.hash.as_str(), 2), &s.link),
        None => return Step::Done(CacheResult::NotFound),
    };
    match stats.get_mut(silo) {
        Some(s) => {
            s.inflight = stats::count_up(s.inflight);
            let step = handle_request_inner(&q, args, s, &owners, link, name, referer);
            if let Step::Done(_) = step {
                s.inflight = stats::count_down(s.inflight);
            }
            step
        },
        None => Step::Done(CacheResult::NotFound),
    }
}

} // verus!
