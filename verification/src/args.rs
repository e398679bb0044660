//! The settings that a host is started with, and what follows from them.
use vstd::prelude::*;
use crate::text;

verus! {

/// The settings of a host.
#[derive(Debug, Clone)]
pub struct Args {
    /// Where the cached files are stored.
    pub cache: String,
    /// Where files are fetched from that there is no local copy of.
    pub backend: String,
    /// Where the load balancer's settings are found.
    pub dsn: String,
    /// The user to switch to after binding sockets.
    pub user: Option<String>,
    /// This host's name for lookups on the ring.
    pub name: Option<String>,
    /// The IP address to bind to.
    pub address: String,
    /// The HTTP port.
    pub port: Option<u16>,
    /// The HTTPS port.
    pub sport: Option<u16>,
    /// The contact address for HTTPS certificates.
    pub tls: Option<String>,
    /// This host's full name for HTTPS certificates.
    pub fqdn: Option<String>,
    /// Whether no stats are sent to dashboards.
    pub no_stats: bool,
    /// Whether only the version is shown.
    pub version: bool,
}

/// What an HTTPS listener needs besides the host's full name.
#[derive(Debug)]
pub struct TlsSettings {
    pub port: u16,
    /// The directory that keeps the certificates.
    pub cache_dir: String,
    /// The contact, as a URL.
    pub contact: String,
}

/// None of the listeners was asked for.
#[derive(Debug, Clone, Copy, PartialEq, Eq, Structural)]
pub struct NoListener;

impl NoListener {
    /// What to tell whoever started the host.
    pub fn message(&self) -> (r: &'static str)
        ensures
            r@ == "No listener provided, use -p and / or -s for HTTP or HTTPS listener"@,
    {
        "No listener provided, use -p and / or -s for HTTP or HTTPS listener"
    }
}

/// The values that are there, in their order.
pub open spec fn present<T>(items: Seq<Option<T>>) -> Seq<T>
    decreases items.len(),
{
    if items.len() == 0 {
        Seq::<T>::empty()
    } else {
        match items.last() {
            Some(item) => present(items.drop_last()).push(item),
            None => present(items.drop_last()),
        }
    }
}

impl Args {
    /// The host's name on the ring: the one that was set, or else the first label of the full
    /// name.
    pub fn host_name(&self, fqdn: &str) -> (r: String)
        ensures
            r@ == match self.name {
                Some(name) => name@,
                None => text::fields(fqdn@, set!['.']).first(),
            },
    {
        match &self.name {
            Some(name) => name.clone(),
            None => text::first_field(fqdn, '.'),
        }
    }

    /// The settings of the HTTPS listener. There is one where both its port and a contact are
    /// set.
    pub fn tls_settings(&self) -> (r: Option<TlsSettings>)
        ensures
            match r {
                Some(t) => {
                    &&& self.sport == Some(t.port)
                    &&& self.tls is Some
                    &&& t.cache_dir@ == self.cache@ + "/.tls"@
                    &&& t.contact@ == "mailto:"@ + self.tls->0@
                },
                None => self.sport is None || self.tls is None,
            },
    {
        match (self.sport, &self.tls) {
            (Some(port), Some(mailto)) => {
                let mut cache_dir = self.cache.clone();
                cache_dir.append("/.tls");
                let mut contact = "mailto:".to_owned();
                contact.append(mailto.as_str());
                Some(TlsSettings { port, cache_dir, contact })
            },
            _ => None,
        }
    }
}

/// The abbreviation of a commit that the version shows: its first seven characters.
pub fn short_sha(sha: &str) -> (r: String)
    ensures
        r@ == sha@.take(if sha@.len() < 7 { sha@.len() as int } else { 7int }),
{
    text::first_chars(sha, 7)
}

/// The listeners to wait for: those that were started, of which there must be one.
pub fn await_all<T>(servers: Vec<Option<T>>) -> (r: Result<Vec<T>, NoListener>)
    ensures
        match r {
            Ok(started) => started@ == present(servers@) && started@.len() > 0,
            Err(_) => present(servers@).len() == 0,
        },
{
    let ghost all = servers@;
    let mut started: Vec<T> = Vec::new();
    for server in it: servers
        invariant
            it.seq() == all,
            started@ == present(all.take(it.index() as int)),
    {
        assert(all.take(it.index() + 1).drop_last() =~= all.take(it.index() as int));
        match server {
            Some(s) => started.push(s),
            None => {},
        }
    }
    assert(all.take(all.len() as int) =~= all);
    if started.len() == 0 {
        Err(NoListener)
    } else {
        Ok(started)
    }
}

/// The values that are there are kept, each in its place, and nothing else is.
pub proof fn law_present_keeps_all<T>(a: Seq<Option<T>>, b: Seq<Option<T>>, item: T)
    ensures
        present(a + b) == present(a) + present(b),
        present(seq![Some(item)]) == seq![item],
        present(seq![None::<T>]) == Seq::<T>::empty(),
    decreases b.len(),
{
    reveal_with_fuel(present, 2);
    assert(seq![Some(item)].drop_last() =~= Seq::<Option<T>>::empty());
    assert(seq![None::<T>].drop_last() =~= Seq::<Option<T>>::empty());
    assert(present(seq![Some(item)]) =~= seq![item]);
    if b.len() == 0 {
        assert(a + b =~= a);
        assert(present(a + b) =~= present(a) + present(b));
    } else {
        law_present_keeps_all(a, b.drop_last(), item);
        assert((a + b).drop_last() =~= a + b.drop_last());
        assert((a + b).last() == b.last());
        assert(present(a + b) =~= present(a) + present(b));
    }
}

/// Nothing is there exactly where no value is, and every value that is there is kept.
pub proof fn lemma_present<T>(items: Seq<Option<T>>)
    ensures
        present(items).len() == 0 <==> (forall|i: int|
            0 <= i < items.len() ==> (#[trigger] items[i]) is None),
        forall|i: int|
            0 <= i < items.len() && (#[trigger] items[i]) is Some ==> present(items).contains(
                items[i]->0,
            ),
    decreases items.len(),
{
    if items.len() > 0 {
        let front = items.drop_last();
        lemma_present(front);
        assert forall|i: int| 0 <= i < items.len() && (#[trigger] items[i]) is Some implies present(
            items,
        ).contains(items[i]->0) by {
            if i < front.len() {
                assert(front[i] == items[i]);
                let k = present(front).index_of(items[i]->0);
                assert(present(items)[k] == items[i]->0);
            } else {
                assert(present(items).last() == items[i]->0);
            }
        }
        if present(items).len() == 0 {
            assert forall|i: int| 0 <= i < items.len() implies (#[trigger] items[i]) is None by {
                if i < front.len() {
                    assert(front[i] == items[i]);
                }
            }
        } else if forall|i: int| 0 <= i < items.len() ==> (#[trigger] items[i]) is None {
            assert forall|i: int| 0 <= i < front.len() implies (#[trigger] front[i]) is None by {
                assert(front[i] == items[i]);
            }
            assert(items[items.len() - 1] is None);
        }
    }
}

} // verus!
