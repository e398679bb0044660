//! What a call of the library gives, in terms of what it was given. These laws are about the
//! functions that a server calls: they hold of every result that a call can have.
use vstd::prelude::*;
use crate::args;
use crate::args::{Args, NoListener, TlsSettings};
use crate::date;
use crate::db;
use crate::db::DbStep;
use crate::laws;
use crate::path;
use crate::response;
use crate::response::{HttpResponse, Route};
use crate::service;
use crate::service::{CacheResult, Step};
use crate::silos;
use crate::silos::{ConfigError, GlobalSilos};
use crate::stats;
use crate::stats::{GlobalStats, Stats};
use crate::text;
use crate::transfer::{Answered, DiskRead, Download, Fetch, Reply, Store};
use crate::uri;
use crate::uri::{FetchTarget, UriParts};
use crate::walk;

verus! {

/// A referer does not have the visitor sent to the thumbnail: it is missing, or does not mention
/// `google`, or mentions the site.
pub open spec fn not_from_google(referer: Option<&str>) -> bool {
    referer matches Some(r) ==> !laws::mentions(r@, "google"@) || laws::mentions(
        r@,
        "paheal.net"@,
    )
}

/// A request that reaches a host that does not own the image is redirected to the first owner's
/// address, for the same silo and the whole hash, and counts as a redirect.
pub proof fn law_other_host_redirects(
    name: &str,
    args: &Args,
    path: &str,
    referer: Option<&str>,
    silos: &GlobalSilos,
    counters: &mut GlobalStats,
    r: Step,
    silo: Seq<char>,
    hash: Seq<char>,
    human: Seq<char>,
)
    requires
        call_ensures(service::cache_request, (name, args, path, referer, silos, counters), r),
        path@ == laws::image_path(silo, hash, human),
        path::one_component(silo),
        path::one_component(hash),
        path::one_component(human),
        path::shardable(hash),
        silos@.contains_key(silo),
        old(counters)@.contains_key(silo),
        silo != "_images"@ || not_from_google(referer),
        walk::ring_owners(silos@[silo]@.targets, hash, 2).len() > 0,
        !walk::ring_owners(silos@[silo]@.targets, hash, 2).contains(name@),
        name@ != "no-backup"@,
    ensures
        ({
            let owner = walk::ring_owners(silos@[silo]@.targets, hash, 2)[0];
            let link = silos@[silo]@.link;
            let address = link.0 + owner + link.1;
            uri::uri_parts(path::backend_url(args.backend@, silo, hash)) is Some ==> {
                &&& r matches Step::Done(CacheResult::Redirect(target))
                &&& address.is_prefix_of(target@)
                &&& service::read_request(target@.skip(address.len() as int)) matches Some(q)
                &&& q.silo == silo
                &&& q.hash == hash
                &&& final(counters)@[silo].redirect == stats::up(old(counters)@[silo].redirect)
                &&& final(counters)@[silo].requests == stats::up(old(counters)@[silo].requests)
                &&& final(counters)@[silo].inflight == old(counters)@[silo].inflight
            }
        }),
{
    let refer = service::optional_str(referer);
    laws::law_other_host_redirects_to_image(
        name@,
        args.cache@,
        args.backend@,
        silo,
        hash,
        human,
        refer,
        silos@,
        old(counters)@,
    );
    let none = Seq::<char>::empty();
    assert(path@ =~= none + seq!['/'] + silo + seq!['/'] + hash + seq!['/'] + human);
    laws::law_path_names_image(path@, none, silo, hash, human);
    laws::law_visitors_counted_by_referer(old(counters)@[silo], silo, refer);
}

/// A request that reaches an owner has it look for the file of the whole hash, and for the whole
/// hash at the backend. It counts as a request, and stays in flight until it has its answer.
pub proof fn law_owner_serves(
    name: &str,
    args: &Args,
    path: &str,
    referer: Option<&str>,
    silos: &GlobalSilos,
    counters: &mut GlobalStats,
    r: Step,
    silo: Seq<char>,
    hash: Seq<char>,
    human: Seq<char>,
)
    requires
        call_ensures(service::cache_request, (name, args, path, referer, silos, counters), r),
        path@ == laws::image_path(silo, hash, human),
        path::entry_name(silo),
        path::one_component(hash),
        path::one_component(human),
        path::shardable(hash),
        path::byte_range(hash, 0, 2) != ".."@,
        path::byte_range(hash, 2, 4) != ".."@,
        silos@.contains_key(silo),
        old(counters)@.contains_key(silo),
        silo != "_images"@ || not_from_google(referer),
        walk::ring_owners(silos@[silo]@.targets, hash, 2).contains(name@),
    ensures
        ({
            let url = path::directory(args.backend@) + silo + seq!['/'] + hash + "/human.jpg"@;
            uri::uri_parts(url) matches Some(parts) ==> {
                &&& r matches Step::Lookup(l)
                &&& l.silo@ == silo
                &&& l.content_type@ == service::content_type_of(human)
                &&& l.path@ == path::directory(args.cache@) + silo + seq!['/'] + path::byte_range(
                    hash,
                    0,
                    2,
                ) + seq!['/'] + path::byte_range(hash, 2, 4) + seq!['/'] + hash
                &&& l.url@ == url
                &&& uri::optional_target(l.target) == uri::target_of(parts)
                &&& final(counters)@[silo].requests == stats::up(old(counters)@[silo].requests)
                &&& final(counters)@[silo].inflight == stats::up(old(counters)@[silo].inflight)
                &&& final(counters)@[silo].redirect == old(counters)@[silo].redirect
            }
        }),
{
    let refer = service::optional_str(referer);
    laws::law_owner_looks_for_image(
        name@,
        args.cache@,
        args.backend@,
        silo,
        hash,
        human,
        refer,
        silos@,
        old(counters)@,
    );
    let none = Seq::<char>::empty();
    assert(path@ =~= none + seq!['/'] + silo + seq!['/'] + hash + seq!['/'] + human);
    laws::law_path_names_image(path@, none, silo, hash, human);
    laws::law_visitors_counted_by_referer(old(counters)@[silo], silo, refer);
}

/// A visitor from Google who asks any host for a full image is sent to the thumbnail of the whole
/// hash, and is counted.
pub proof fn law_google_visitor_redirected(
    name: &str,
    args: &Args,
    path: &str,
    referer: &str,
    silos: &GlobalSilos,
    counters: &mut GlobalStats,
    r: Step,
    hash: Seq<char>,
    human: Seq<char>,
)
    requires
        call_ensures(service::cache_request, (name, args, path, Some(referer), silos, counters), r),
        path@ == laws::image_path("_images"@, hash, human),
        path::one_component(hash),
        path::one_component(human),
        silos@.contains_key("_images"@),
        old(counters)@.contains_key("_images"@),
        laws::mentions(referer@, "google"@),
        !laws::mentions(referer@, "paheal.net"@),
    ensures
        r matches Step::Done(CacheResult::Redirect(target)) && target@
            == "https://holly.paheal.net/_thumbs/"@ + hash + "/thumb.jpg"@,
        final(counters)@["_images"@].google == stats::up(old(counters)@["_images"@].google),
        final(counters)@["_images"@].external == old(counters)@["_images"@].external,
        final(counters)@["_images"@].requests == stats::up(old(counters)@["_images"@].requests),
        final(counters)@["_images"@].inflight == old(counters)@["_images"@].inflight,
{
    reveal_strlit("_images");
    let silo = "_images"@;
    let none = Seq::<char>::empty();
    assert(path::one_component(silo));
    assert(path@ =~= none + seq!['/'] + silo + seq!['/'] + hash + seq!['/'] + human);
    laws::law_path_names_image(path@, none, silo, hash, human);
    let q = service::ImageRequestView { silo, hash, human };
    laws::law_google_visitor_sees_thumbnail(
        q,
        args.cache@,
        args.backend@,
        service::entered(old(counters)@[silo]),
        walk::ring_owners(silos@[silo]@.targets, hash, 2),
        silos@[silo]@.link,
        name@,
        referer@,
        uri::uri_parts(path::backend_url(args.backend@, silo, hash)),
    );
}

/// A path that does not have four components, or names a silo that is not served, finds nothing and
/// leaves every counter as it was.
pub proof fn law_unserved_finds_nothing(
    name: &str,
    args: &Args,
    path: &str,
    referer: Option<&str>,
    silos: &GlobalSilos,
    counters: &mut GlobalStats,
    r: Step,
)
    requires
        call_ensures(service::cache_request, (name, args, path, referer, silos, counters), r),
        forall|a: Seq<char>, silo: Seq<char>, hash: Seq<char>, human: Seq<char>|
            path@ == #[trigger] (a + seq!['/'] + silo + seq!['/'] + hash + seq!['/'] + human)
                && path::one_component(a) && path::one_component(silo) && path::one_component(hash)
                && path::one_component(human) ==> !silos@.contains_key(silo) || !old(counters)@.contains_key(silo),
    ensures
        r == Step::Done(CacheResult::NotFound),
        final(counters)@ == old(counters)@,
{
    let none = Seq::<char>::empty();
    laws::law_path_names_image(path@, none, none, none, none);
}

/// An image that is on disk is answered with all that was read, and counts as a hit.
pub proof fn law_hit_answers_file<E>(
    read: DiskRead,
    mtime: i64,
    body: Vec<u8>,
    counters: &mut Stats,
    r: Result<CacheResult, E>,
)
    requires
        call_ensures(DiskRead::read::<E>, (read, Ok::<(i64, Vec<u8>), E>((mtime, body)), counters), r),
    ensures
        r matches Ok(CacheResult::Hit(kind, time, bytes)) && kind == read.content_type && time == mtime
            && bytes@ == body@,
        final(counters).hits == stats::up(old(counters).hits),
        final(counters).misses == old(counters).misses,
{
}

/// What comes of the body is kept piece by piece, in order.
pub proof fn law_download_keeps_pieces(download: &mut Download, chunk: &[u8])
    requires
        call_ensures(Download::push, (download, chunk), ()),
    ensures
        final(download).body@.len() == old(download).body@.len() + chunk@.len(),
        final(download).body@.take(old(download).body@.len() as int) == old(download).body@,
        final(download).body@.skip(old(download).body@.len() as int) == chunk@,
        final(download).path == old(download).path,
        final(download).mtime == old(download).mtime,
        final(download).content_type == old(download).content_type,
{
    let before = old(download).body@;
    let after = final(download).body@;
    assert(after.take(before.len() as int) =~= before);
    assert(after.skip(before.len() as int) =~= chunk@);
}

/// A download that ends is answered with all that came, and the same is stored, in the file that
/// was looked for and with the backend's time, so that the next request finds it. It counts as a
/// miss.
pub proof fn law_download_is_answered_and_stored<E>(
    download: Download,
    counters: &mut Stats,
    r: Result<(Store, CacheResult), E>,
)
    requires
        call_ensures(Download::finish::<E>, (download, Ok::<(), E>(()), counters), r),
    ensures
        r matches Ok((store, CacheResult::Miss(kind, time, bytes))) && {
            &&& kind == download.content_type
            &&& time == download.mtime
            &&& bytes@ == download.body@
            &&& store.path@ == download.path@
            &&& store.body@ == download.body@
            &&& store.mtime == download.mtime
        },
        final(counters).misses == stats::up(old(counters).misses),
        final(counters).hits == old(counters).hits,
{
}

/// The backend's answer is taken where its status is 200, with its date, and begins an empty body
/// for the file that was looked for. Any other status means that there is no such image.
pub proof fn law_backend_answer_is_taken<E>(
    fetch: Fetch,
    reply: Reply,
    counters: &mut Stats,
    r: Answered<E>,
)
    requires
        call_ensures(Fetch::answered::<E>, (fetch, Ok::<Reply, E>(reply), counters), r),
    ensures
        reply.status != 200 ==> r == Answered::<E>::Done(CacheResult::NotFound)
            && final(counters).missing == stats::up(old(counters).missing),
        reply.status == 200 ==> final(counters).missing == old(counters).missing,
        reply.status == 200 && reply.last_modified is Some ==> match date::http_date(
            reply.last_modified->0@,
        ) {
            Some(secs) => {
                &&& r matches Answered::Body(d)
                &&& d.path == fetch.path
                &&& d.content_type == fetch.content_type
                &&& d.mtime == secs
                &&& d.body@.len() == 0
            },
            None => r == Answered::<E>::Fault(service::Fault::InvalidDate),
        },
        reply.status == 200 && reply.last_modified is None ==> r == Answered::<E>::Fault(
            service::Fault::NoDate,
        ),
{
}

/// A file is sent whole, with status 200, its content type and a date that names its time of
/// modification, whether a hit or a miss.
pub proof fn law_file_reaches_client(
    kind: &'static str,
    mtime: i64,
    body: Vec<u8>,
    hit: bool,
    r: HttpResponse,
)
    requires
        call_ensures(
            response::cache_result_to_http,
            (if hit {
                CacheResult::Hit(kind, mtime, body)
            } else {
                CacheResult::Miss(kind, mtime, body)
            },),
            r,
        ),
    ensures
        r.status == 200,
        r.body@ == body@,
        r.headers@.len() == 3,
        r.headers@[0].0@ == "content-type"@ && r.headers@[0].1@ == kind@,
        r.headers@[1].0@ == "last-modified"@ && date::http_date(r.headers@[1].1@) == Some(mtime),
        r.headers@[2].0@ == "cache-control"@ && r.headers@[2].1@ == "public, max-age=31556926"@,
{
    let d = date::http_date_text(mtime);
    response::law_file_is_sent_whole(kind@, mtime, body@, d);
    assert(r@.body =~= body@);
    assert(r@.headers[0] == (r.headers@[0].0@, r.headers@[0].1@));
    assert(r@.headers[1] == (r.headers@[1].0@, r.headers@[1].1@));
    assert(r@.headers[2] == (r.headers@[2].0@, r.headers@[2].1@));
}

/// A redirect leads the client to its whole target, and what is not there is answered so.
pub proof fn law_redirect_reaches_client(target: String, r: HttpResponse, missing: HttpResponse)
    requires
        call_ensures(response::cache_result_to_http, (CacheResult::Redirect(target),), r),
        call_ensures(response::cache_result_to_http, (CacheResult::NotFound,), missing),
    ensures
        r.status == 307,
        r.headers@.len() == 1,
        r.headers@[0].0@ == "location"@ && r.headers@[0].1@ == target@,
        vstd::utf8::decode_utf8(r.body@) == "Redirecting to "@ + target@,
        missing.status == 404,
        missing.headers@.len() == 0,
        vstd::utf8::decode_utf8(missing.body@) == "Not Found"@,
{
    response::law_redirect_leads_to_target(target@, Seq::<char>::empty());
    assert(r@.headers[0] == (r.headers@[0].0@, r.headers@[0].1@));
}

/// A path asks for the rules for crawlers, or for the counters, only where it is theirs. Both come
/// as text, whole.
pub proof fn law_fixed_paths(
    path: &str,
    route: Route,
    data: &str,
    counters: HttpResponse,
    robots: HttpResponse,
)
    requires
        call_ensures(response::route, (path,), route),
        call_ensures(response::stats_response, (data,), counters),
        call_ensures(response::robots_response, (), robots),
    ensures
        route is Robots <==> path@ == "/robots.txt"@,
        route is Stats <==> path@ == "/stats.json"@,
        counters.status == 200,
        vstd::utf8::decode_utf8(counters.body@) == data@,
        robots.status == 200,
        vstd::utf8::decode_utf8(robots.body@)
            == "User-agent: *\nDisallow: /_thumbs/\nAllow: /\n"@,
{
    reveal_strlit("/robots.txt");
    reveal_strlit("/stats.json");
    assert("/robots.txt"@[1] != "/stats.json"@[1]);
    response::law_text_is_sent_whole(200, data@);
    response::law_text_is_sent_whole(200, "User-agent: *\nDisallow: /_thumbs/\nAllow: /\n"@);
}

/// A ban brings one step, which purges its whole payload. A change of the configuration sets up
/// both silos by their own keys.
pub proof fn law_notifications(payload: &str, bans: Vec<DbStep>, config: Vec<DbStep>)
    requires
        call_ensures(db::notified, ("shm_image_bans", payload), bans),
        call_ensures(db::notified, ("config", payload), config),
    ensures
        bans@.len() == 1,
        bans@[0] matches DbStep::Clean(hash) && hash@ == payload@,
        config@.len() == 2,
        config@[0] matches DbStep::Populate(silo, key) && silo@ == "_thumbs"@ && key@
            == "image_tlink"@,
        config@[1] matches DbStep::Populate(silo, key) && silo@ == "_images"@ && key@
            == "image_ilink"@,
{
    db::law_ban_purges_its_image(payload@);
    assert(db::steps(bans@)[0] == bans@[0]@);
    assert(bans@[0]@->Clean_0 =~= payload@);
    assert(db::steps(config@) == db::populate_steps());
    assert(db::steps(config@).len() == config@.len());
    assert(db::steps(config@)[0] == config@[0]@);
    assert(db::steps(config@)[1] == config@[1]@);
}

/// Purging an image removes, for every silo there is, the file that a request for it looks for.
pub proof fn law_purge_removes_file_of_every_silo(
    cache: &str,
    silos: &GlobalSilos,
    hash: &str,
    files: Vec<String>,
    silo: &str,
    file: String,
)
    requires
        call_ensures(db::clean, (cache, silos, hash), files),
        call_ensures(path::cache_path, (cache, silo, hash), file),
        silos.wf(),
        silos@.contains_key(silo@),
    ensures
        exists|k: int| 0 <= k < files@.len() && (#[trigger] files@[k])@ == file@,
{
    silos.lemma_names();
    let k = silos.names().index_of(silo@);
    assert(silos.names()[k] == silo@);
    assert(text::texts(files@).len() == files@.len());
    assert(text::texts(files@)[k] == file@);
    assert(text::texts(files@)[k] == files@[k]@);
}

/// The file and the URL of an image go by its whole hash.
pub proof fn law_file_and_url_of_image(
    cache: &str,
    backend: &str,
    silo: &str,
    hash: &str,
    file: String,
    url: String,
)
    requires
        call_ensures(path::cache_path, (cache, silo, hash), file),
        call_ensures(path::url_of, (backend, silo, hash), url),
        path::shardable(hash@),
        path::one_component(hash@),
        path::entry_name(silo@),
        path::byte_range(hash@, 0, 2) != ".."@,
        path::byte_range(hash@, 2, 4) != ".."@,
    ensures
        file@ == path::directory(cache@) + silo@ + seq!['/'] + path::byte_range(hash@, 0, 2)
            + seq!['/'] + path::byte_range(hash@, 2, 4) + seq!['/'] + hash@,
        url@ == path::directory(backend@) + silo@ + seq!['/'] + hash@ + "/human.jpg"@,
{
    path::law_kept_below_cache(cache@, silo@, hash@);
    path::law_url_names_image(backend@, silo@, hash@);
    assert(file@ =~= path::directory(cache@) + silo@ + seq!['/'] + path::byte_range(hash@, 0, 2)
        + seq!['/'] + path::byte_range(hash@, 2, 4) + seq!['/'] + hash@);
    assert(url@ =~= path::directory(backend@) + silo@ + seq!['/'] + hash@ + "/human.jpg"@);
}

/// A connection goes to the whole host, at its port or at 80, and asks for the authority.
pub proof fn law_connection_goes_to_host(parts: &UriParts, r: Option<FetchTarget>)
    requires
        call_ensures(uri::fetch_target, (parts,), r),
    ensures
        r is Some <==> parts.host is Some && parts.authority is Some,
        r matches Some(t) ==> {
            let host = parts.host->0@;
            &&& t.host@ == parts.authority->0@
            &&& t.addr@.take(host.len() as int) == host
            &&& t.addr@[host.len() as int] == ':'
            &&& text::number(t.addr@.skip(host.len() as int + 1)) == Ok::<nat, text::NumberError>(
                match parts.port {
                    Some(p) => p as nat,
                    None => 80nat,
                },
            )
        },
{
    uri::law_target_is_host_and_port(parts@);
}

/// A value with targets between its braces and an address around them sets the silo up with those
/// targets and that address, and leaves every other silo as it was.
pub proof fn law_silo_is_set_up_by_value(
    all: &mut GlobalSilos,
    name: &str,
    value: &str,
    r: Result<(), ConfigError>,
    before: Seq<char>,
    targets: Seq<(Seq<char>, u32)>,
    after: Seq<char>,
    rest: Seq<char>,
    other: Seq<char>,
)
    requires
        call_ensures(silos::populate_silo, (all, name, value), r),
        value@ == before + seq!['{'] + silos::list_text(targets) + seq!['}'] + after + seq!['/']
            + rest,
        text::free_of(before, set!['{', '}']),
        laws::mentions(before, "//"@),
        targets.len() > 0,
        silos::listable(targets),
        text::free_of(after, set!['{', '}', '/']),
    ensures
        r is Ok,
        final(all)@.contains_key(name@),
        final(all)@[name@]@.targets == targets,
        final(all)@[name@]@.link == (before, after),
        other != name@ ==> final(all)@.contains_key(other) == old(all)@.contains_key(other),
        other != name@ && old(all)@.contains_key(other) ==> final(all)@[other] == old(all)@[other],
{
    let list = silos::list_text(targets);
    let suffix = after.push('/') + rest;
    assert(value@ =~= before.push('{') + (list.push('}') + suffix));
    silos::law_config_reads_back(before, targets, suffix);
    silos::lemma_list(targets);
    let (a, b) = choose|a: Seq<char>, b: Seq<char>| before == #[trigger] (a + "//"@ + b);
    text::law_holds_where_cut(before, "//"@, a, b);
    silos::law_link_reads_back(before, list, after, rest);
    silos::law_silo_is_targets_and_link(value@);
}

/// A value that sets up no silo leaves all as they were.
pub proof fn law_bad_value_changes_nothing(
    all: &mut GlobalSilos,
    name: &str,
    value: &str,
    r: Result<(), ConfigError>,
)
    requires
        call_ensures(silos::populate_silo, (all, name, value), r),
    ensures
        r is Err ==> *final(all) == *old(all),
        r is Err <==> silos::config_targets(value@) is Err,
        text::free_of(value@, set!['{', '}']) ==> r == Err::<(), ConfigError>(
            ConfigError::NoTargetList,
        ),
{
    silos::law_silo_is_targets_and_link(value@);
    if text::free_of(value@, set!['{', '}']) {
        silos::law_value_without_list_or_address(value@, Seq::<char>::empty(), value@);
    }
}

/// A summary names the host and the silo, and tells every counter in full, as well as the hit rate
/// that it leaves behind.
pub proof fn law_summary_of_silo(s: &mut Stats, name: &str, silo: &str, r: String, line: String)
    requires
        call_ensures(Stats::summary, (s, name, silo), r),
        call_ensures(Stats::to_text, (&*old(s),), line),
        stats::measurable(*old(s)),
        text::free_of(name@, set![',']),
        text::free_of(silo@, set![',']),
    ensures
        ({
            let parts = text::fields(r@, set![',']);
            let told = text::fields(line@, set![',']);
            &&& told.len() == 12
            &&& parts.len() == 15
            &&& parts[1] == "name="@ + name@
            &&& parts[2] == "silo="@ + silo@ + " "@ + told[0]
            &&& parts.subrange(3, 14) == told.skip(1)
            &&& parts[14] == "hitrate="@ + text::decimal(final(s).last_hitrate as nat)
        }),
{
    let was = *old(s);
    stats::law_summary_tells_all(name@, silo@, was);
    stats::law_line_tells_counters(was);
    stats::lemma_hitrate_fits(was);
    stats::law_summary_starts_anew(was);
}

/// A summary leaves behind the share of recent hits, rounded down, and starts to measure anew. What
/// was counted is as it was.
pub proof fn law_summary_measures(s: &mut Stats, name: &str, silo: &str, r: String)
    requires
        call_ensures(Stats::summary, (s, name, silo), r),
        stats::measurable(*old(s)),
    ensures
        ({
            let was = *old(s);
            let hits = was.hits - was.last_hit;
            let total = hits + was.misses - was.last_miss;
            let rate = final(s).last_hitrate;
            &&& total > 0 ==> rate * total <= 100 * hits < (rate + 1) * total
            &&& total == 0 ==> rate == was.last_hitrate
            &&& final(s).last_hit == was.hits
            &&& final(s).last_miss == was.misses
            &&& final(s).hits == was.hits
            &&& final(s).misses == was.misses
            &&& final(s).requests == was.requests
        }),
{
    let was = *old(s);
    stats::law_hitrate_is_share_of_hits(was);
    stats::lemma_hitrate_fits(was);
    stats::law_summary_starts_anew(was);
}

/// The counters of both silos start at zero, and those of any other are left.
pub proof fn law_counting_starts_at_zero(all: &mut GlobalStats, other: Seq<char>)
    requires
        call_ensures(db::count_silos, (all,), ()),
    ensures
        final(all)@.contains_key("_thumbs"@) && final(all)@["_thumbs"@] == stats::zero(),
        final(all)@.contains_key("_images"@) && final(all)@["_images"@] == stats::zero(),
        other != "_thumbs"@ && other != "_images"@ && old(all)@.contains_key(other) ==> final(all)@[other] == old(all)@[other],
        stats::zero().requests == 0 && stats::zero().hits == 0 && stats::zero().misses == 0,
{
    reveal_strlit("_thumbs");
    reveal_strlit("_images");
    assert("_thumbs"@[1] != "_images"@[1]);
}

/// A host is known on the ring by the name that it was given, or else by its full name up to the
/// first dot.
pub proof fn law_name_of_host(args: &Args, fqdn: &str, r: String)
    requires
        call_ensures(Args::host_name, (args, fqdn), r),
    ensures
        args.name matches Some(name) ==> r@ == name@,
        args.name is None ==> r@.is_prefix_of(fqdn@) && !r@.contains('.') && (r@.len()
            < fqdn@.len() ==> fqdn@[r@.len() as int] == '.'),
{
    if args.name is None {
        let sep = set!['.'];
        let parts = text::fields(fqdn@, sep);
        text::lemma_fields_len(fqdn@, sep);
        text::lemma_fields_free(fqdn@, sep);
        assert(text::free_of(parts[0], sep));
        if r@.contains('.') {
            assert(sep.contains(r@[r@.index_of('.')]));
        }
        text::lemma_first_field(fqdn@, '.');
    }
}

/// There is an HTTPS listener exactly where its port and a contact are set. It keeps certificates
/// below the cache directory, and its contact is the whole address.
pub proof fn law_https_listener(args: &Args, r: Option<TlsSettings>)
    requires
        call_ensures(Args::tls_settings, (args,), r),
    ensures
        r is Some <==> args.sport is Some && args.tls is Some,
        r matches Some(t) ==> {
            &&& t.port == args.sport->0
            &&& t.cache_dir@ == args.cache@ + "/.tls"@
            &&& t.contact@ == "mailto:"@ + args.tls->0@
        },
{
}

/// The abbreviation of a commit is how it begins.
pub proof fn law_commit_is_abbreviated(sha: &str, r: String)
    requires
        call_ensures(args::short_sha, (sha,), r),
    ensures
        r@.is_prefix_of(sha@),
        r@.len() == 7 || (r@.len() < 7 && r@ == sha@),
{
}

/// The listeners that were started are waited for, all and in order, and it is an error that there
/// is none.
pub proof fn law_listeners_are_waited_for<T>(
    servers: Vec<Option<T>>,
    r: Result<Vec<T>, NoListener>,
)
    requires
        call_ensures(args::await_all::<T>, (servers,), r),
    ensures
        r is Err <==> (forall|i: int| 0 <= i < servers@.len() ==> (#[trigger] servers@[i]) is None),
        r matches Ok(started) ==> forall|i: int|
            0 <= i < servers@.len() && (#[trigger] servers@[i]) is Some ==> started@.contains(servers@[i]->0),
{
    args::lemma_present(servers@);
}

/// A failure of the outside work is passed on as it is, and ends the request: a file that could not
/// be read is a hit all the same, and a backend that failed counts for nothing.
pub proof fn law_failures_are_passed_on<E>(
    read: DiskRead,
    fetch: Fetch,
    download: Download,
    e: E,
    at_disk: &mut Stats,
    at_backend: &mut Stats,
    at_body: &mut Stats,
    r1: Result<CacheResult, E>,
    r2: Answered<E>,
    r3: Result<(Store, CacheResult), E>,
)
    requires
        call_ensures(DiskRead::read::<E>, (read, Err::<(i64, Vec<u8>), E>(e), at_disk), r1),
        call_ensures(Fetch::answered::<E>, (fetch, Err::<Reply, E>(e), at_backend), r2),
        call_ensures(Download::finish::<E>, (download, Err::<(), E>(e), at_body), r3),
    ensures
        r1 == Err::<CacheResult, E>(e),
        r2 == Answered::<E>::Failed(e),
        r3 == Err::<(Store, CacheResult), E>(e),
        *final(at_disk) == (Stats {
            hits: stats::up(old(at_disk).hits),
            block_disk: stats::down(old(at_disk).block_disk),
            inflight: stats::down(old(at_disk).inflight),
            ..*old(at_disk)
        }),
        *final(at_backend) == (Stats {
            block_net: stats::down(old(at_backend).block_net),
            inflight: stats::down(old(at_backend).inflight),
            ..*old(at_backend)
        }),
        *final(at_body) == (Stats {
            inflight: stats::down(old(at_body).inflight),
            ..*old(at_body)
        }),
{
}

/// A request that has no answer yet, or never gets one, stays in flight. Any other does not. In
/// every case the counters of other silos are left.
pub proof fn law_unanswered_stays_in_flight(
    name: &str,
    args: &Args,
    path: &str,
    referer: Option<&str>,
    silos: &GlobalSilos,
    counters: &mut GlobalStats,
    r: Step,
    q: service::ImageRequestView,
    other: Seq<char>,
)
    requires
        call_ensures(service::cache_request, (name, args, path, referer, silos, counters), r),
        service::read_request(path@) == Some(q),
        silos@.contains_key(q.silo),
        old(counters)@.contains_key(q.silo),
    ensures
        final(counters)@[q.silo].inflight == if r is Done {
            old(counters)@[q.silo].inflight
        } else {
            stats::up(old(counters)@[q.silo].inflight)
        },
        final(counters)@[q.silo].requests == stats::up(old(counters)@[q.silo].requests),
        final(counters)@[q.silo].hits == old(counters)@[q.silo].hits,
        final(counters)@[q.silo].misses == old(counters)@[q.silo].misses,
        other != q.silo && old(counters)@.contains_key(other) ==> final(counters)@[other]
            == old(counters)@[other],
{
}

/// Every time that an HTTP date can name is sent: from the epoch to the end of the year 9999.
pub proof fn law_every_date_is_sent(
    kind: &'static str,
    mtime: i64,
    body: Vec<u8>,
    hit: bool,
    miss: bool,
)
    requires
        call_ensures(response::is_sendable, (&CacheResult::Hit(kind, mtime, body),), hit),
        call_ensures(response::is_sendable, (&CacheResult::Miss(kind, mtime, body),), miss),
    ensures
        hit <==> 0 <= mtime < 253_402_300_800,
        miss <==> 0 <= mtime < 253_402_300_800,
{
}

/// Every silo gets its own summary, and starts to measure anew. No silo is lost.
pub proof fn law_every_silo_is_summarised(
    name: &str,
    all: &mut GlobalStats,
    r: Vec<String>,
    k: int,
)
    requires
        call_ensures(stats::summaries, (name, all), r),
        0 <= k < old(all).names().len(),
        text::free_of(name@, set![',']),
        text::free_of(old(all).names()[k], set![',']),
    ensures
        ({
            let silo = old(all).names()[k];
            let was = old(all)@[silo];
            let parts = text::fields(r@[k]@, set![',']);
            &&& r@.len() == old(all).names().len()
            &&& final(all).names() == old(all).names()
            &&& parts.len() == 15
            &&& parts[1] == "name="@ + name@
            &&& parts[2] == "silo="@ + silo + " "@ + ("requests="@ + text::decimal(
                was.requests as nat,
            ))
            &&& old(all)@.contains_key(silo) ==> final(all)@[silo].last_hit == was.hits
                && final(all)@[silo].last_miss == was.misses && final(all)@[silo].hits == was.hits
        }),
{
    let silo = old(all).names()[k];
    let was = old(all)@[silo];
    stats::law_summary_tells_all(name@, silo, was);
    stats::law_line_tells_counters(was);
    assert(text::texts(r@).len() == r@.len());
    assert(text::texts(r@)[k] == r@[k]@);
}

/// A host that starts tells the database its whole name, then listens for changes, sets up both
/// silos by their own keys, counts, listens for bans, and purges what was banned.
pub proof fn law_start_of_host(name: &str, r: Vec<DbStep>, balancer: Vec<DbStep>)
    requires
        call_ensures(db::startup_plan, (name,), r),
        call_ensures(db::balancer_plan, (), balancer),
    ensures
        r@.len() == 7,
        r@[0] matches DbStep::Query(sql) && sql@ == "SET application_name TO 'shm-cached ["@ + name@
            + "]'"@,
        r@[1] matches DbStep::Query(sql) && sql@ == "LISTEN config"@,
        r@[2] matches DbStep::Populate(silo, key) && silo@ == "_thumbs"@ && key@ == "image_tlink"@,
        r@[3] matches DbStep::Populate(silo, key) && silo@ == "_images"@ && key@ == "image_ilink"@,
        r@[4] is CountSilos,
        r@[5] matches DbStep::Query(sql) && sql@ == "LISTEN shm_image_bans"@,
        r@[6] is CleanAll,
        balancer@.len() == 3,
        forall|i: int| 0 <= i < 3 ==> (#[trigger] balancer@[i])@ == r@[i + 1]@,
{
    let all = db::steps(r@);
    let some = db::steps(balancer@);
    assert(all.len() == r@.len());
    assert(some.len() == balancer@.len());
    assert(forall|i: int| 0 <= i < 7 ==> #[trigger] all[i] == r@[i]@);
    assert(forall|i: int| 0 <= i < 3 ==> #[trigger] some[i] == balancer@[i]@);
    assert(all[0] == r@[0]@ && all[1] == r@[1]@ && all[2] == r@[2]@ && all[3] == r@[3]@);
    assert(all[4] == r@[4]@ && all[5] == r@[5]@ && all[6] == r@[6]@);
    assert(some[0] == balancer@[0]@ && some[1] == balancer@[1]@ && some[2] == balancer@[2]@);
}

} // verus!
