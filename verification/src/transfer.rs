//! How an image that this host is to serve gets from the disk, or from the backend, to the answer.
use vstd::prelude::*;
use crate::date;
use crate::service;
use crate::service::{CacheResult, Fault, Lookup};
use crate::stats;
use crate::stats::Stats;
use crate::uri;
use crate::uri::FetchTarget;

verus! {

/// A file that is read from disk.
#[derive(Debug)]
pub struct DiskRead {
    pub content_type: &'static str,
    pub path: String,
}

/// An image that is fetched from the backend.
#[derive(Debug)]
pub struct Fetch {
    pub content_type: &'static str,
    /// The file that will keep the image.
    pub path: String,
    pub url: String,
    pub target: FetchTarget,
}

/// A [`Fetch`], as text.
pub struct FetchView {
    pub content_type: Seq<char>,
    pub path: Seq<char>,
    pub url: Seq<char>,
    pub target: (Seq<char>, Seq<char>),
}

impl View for Fetch {
    type V = FetchView;

    open spec fn view(&self) -> FetchView {
        FetchView {
            content_type: self.content_type@,
            path: self.path@,
            url: self.url@,
            target: self.target@,
        }
    }
}

/// Where an image comes from.
#[derive(Debug)]
pub enum Source {
    Disk(DiskRead),
    Backend(Fetch),
    Fault(Fault),
}

/// A [`Source`], as text. A file on disk goes with its content type and its path.
pub enum SourceView {
    Disk(Seq<char>, Seq<char>),
    Backend(FetchView),
    Fault(Fault),
}

impl View for Source {
    type V = SourceView;

    open spec fn view(&self) -> SourceView {
        match self {
            Source::Disk(read) => SourceView::Disk(read.content_type@, read.path@),
            Source::Backend(fetch) => SourceView::Backend(fetch@),
            Source::Fault(fault) => SourceView::Fault(*fault),
        }
    }
}

/// The head of the backend's answer: its status, and its time of modification where there is one
/// that can be read as text.
#[derive(Debug)]
pub struct Reply {
    pub status: u16,
    pub last_modified: Option<String>,
}

/// An image whose body is on its way from the backend.
#[derive(Debug)]
pub struct Download {
    pub content_type: &'static str,
    /// The file that will keep the image.
    pub path: String,
    pub mtime: i64,
    /// What has come of the body.
    pub body: Vec<u8>,
}

/// What the backend's answer leads to.
#[derive(Debug)]
pub enum Answered<E> {
    /// There was no answer.
    Failed(E),
    /// The request is answered.
    Done(CacheResult),
    /// The body is read.
    Body(Download),
    /// The task of the request ends.
    Fault(Fault),
}

/// A file to write: its content, and the time of modification that it gets.
#[derive(Debug)]
pub struct Store {
    pub path: String,
    pub body: Vec<u8>,
    pub mtime: i64,
}

/// Where the image comes from, after the look at the disk, and the counters after that.
pub open spec fn looked_up(l: service::LookupView, on_disk: bool, s: Stats) -> (SourceView, Stats) {
    if on_disk {
        (
            SourceView::Disk(l.content_type, l.path),
            Stats { block_disk: stats::up(s.block_disk), ..s },
        )
    } else {
        (
            match l.target {
                Some(target) => SourceView::Backend(
                    FetchView { content_type: l.content_type, path: l.path, url: l.url, target },
                ),
                None => SourceView::Fault(Fault::NoHost),
            },
            Stats { block_net: stats::up(s.block_net), ..s },
        )
    }
}

/// The counters after a file was read, or could not be.
pub open spec fn after_read(s: Stats) -> Stats {
    service::left(Stats { block_disk: stats::down(s.block_disk), hits: stats::up(s.hits), ..s })
}

/// The counters when the backend has answered, or could not be reached.
pub open spec fn after_wait(s: Stats) -> Stats {
    Stats { block_net: stats::down(s.block_net), ..s }
}

/// The counters after the backend had no such image.
pub open spec fn after_missing(s: Stats) -> Stats {
    service::left(Stats { missing: stats::up(s.missing), ..s })
}

/// The counters after the whole body came from the backend.
pub open spec fn after_miss(s: Stats) -> Stats {
    service::left(Stats { misses: stats::up(s.misses), ..s })
}

/// The time of modification that the backend gives, if it gives one.
pub open spec fn reply_date(last_modified: Option<Seq<char>>) -> Result<i64, Fault> {
    match last_modified {
        None => Err(Fault::NoDate),
        Some(s) => match date::http_date(s) {
            Some(secs) => Ok(secs),
            None => Err(Fault::InvalidDate),
        },
    }
}

impl Lookup {
    /// Says where the image comes from, after the look at the disk.
    pub fn looked(self, on_disk: bool, stats: &mut Stats) -> (r: Source)
        ensures
            (r@, *final(stats)) == looked_up(self@, on_disk, *old(stats)),
    {
        if on_disk {
            stats.block_disk = stats::count_up(stats.block_disk);
            Source::Disk(DiskRead { content_type: self.content_type, path: self.path })
        } else {
            stats.block_net = stats::count_up(stats.block_net);
            match self.target {
                Some(target) => Source::Backend(
                    Fetch {
                        content_type: self.content_type,
                        path: self.path,
                        url: self.url,
                        target,
                    },
                ),
                None => Source::Fault(Fault::NoHost),
            }
        }
    }
}

impl DiskRead {
    /// Answers the request with the file, its time of modification first. A file that could not be
    /// read is a hit too.
    pub fn read<E>(self, file: Result<(i64, Vec<u8>), E>, stats: &mut Stats) -> (r: Result<
        CacheResult,
        E,
    >)
        ensures
            *final(stats) == after_read(*old(stats)),
            match file {
                Ok((mtime, body)) => r == Ok::<CacheResult, E>(
                    CacheResult::Hit(self.content_type, mtime, body),
                ),
                Err(e) => r == Err::<CacheResult, E>(e),
            },
    {
        stats.block_disk = stats::count_down(stats.block_disk);
        stats.hits = stats::count_up(stats.hits);
        stats.inflight = stats::count_down(stats.inflight);
        match file {
            Ok((mtime, body)) => Ok(CacheResult::Hit(self.content_type, mtime, body)),
            Err(e) => Err(e),
        }
    }
}

impl Reply {
    /// The time of modification that the backend gives.
    pub fn date(&self) -> (r: Result<i64, Fault>)
        ensures
            r == reply_date(uri::optional_text(self.last_modified)),
            r matches Ok(secs) ==> date::writable(secs),
    {
        match &self.last_modified {
            None => Err(Fault::NoDate),
            Some(s) => match date::parse_http_date(s.as_str()) {
                Some(secs) => Ok(secs),
                None => Err(Fault::InvalidDate),
            },
        }
    }
}

impl Fetch {
    /// Takes the backend's answer, given its status and its time of modification. Any status but
    /// 200 means that there is no such image.
    pub fn accept<E>(self, status: u16, date: Result<i64, Fault>, stats: &mut Stats) -> (r: Answered<
        E,
    >)
        ensures
            if status != 200 {
                &&& r == Answered::<E>::Done(CacheResult::NotFound)
                &&& *final(stats) == after_missing(after_wait(*old(stats)))
            } else {
                &&& *final(stats) == after_wait(*old(stats))
                &&& match date {
                    Ok(mtime) => {
                        &&& r matches Answered::Body(d)
                        &&& d.content_type == self.content_type
                        &&& d.path == self.path
                        &&& d.mtime == mtime
                        &&& d.body@ == Seq::<u8>::empty()
                    },
                    Err(fault) => r == Answered::<E>::Fault(fault),
                }
            },
    {
        stats.block_net = stats::count_down(stats.block_net);
        if status != 200 {
            stats.missing = stats::count_up(stats.missing);
            stats.inflight = stats::count_down(stats.inflight);
            return Answered::Done(CacheResult::NotFound);
        }
        match date {
            Ok(mtime) => Answered::Body(
                Download {
                    content_type: self.content_type,
                    path: self.path,
                    mtime,
                    body: Vec::new(),
                },
            ),
            Err(fault) => Answered::Fault(fault),
        }
    }

    /// Takes the backend's answer, or the failure to get one.
    pub fn answered<E>(self, reply: Result<Reply, E>, stats: &mut Stats) -> (r: Answered<E>)
        ensures
            match reply {
                Err(e) => {
                    &&& r == Answered::<E>::Failed(e)
                    &&& *final(stats) == service::left(after_wait(*old(stats)))
                },
                Ok(reply) => if reply.status != 200 {
                    &&& r == Answered::<E>::Done(CacheResult::NotFound)
                    &&& *final(stats) == after_missing(after_wait(*old(stats)))
                } else {
                    &&& *final(stats) == after_wait(*old(stats))
                    &&& match reply_date(uri::optional_text(reply.last_modified)) {
                        Ok(mtime) => {
                            &&& r matches Answered::Body(d)
                            &&& d.content_type == self.content_type
                            &&& d.path == self.path
                            &&& d.mtime == mtime
                            &&& date::writable(mtime)
                            &&& d.body@ == Seq::<u8>::empty()
                        },
                        Err(fault) => r == Answered::<E>::Fault(fault),
                    }
                },
            },
    {
        match reply {
            Err(e) => {
                stats.block_net = stats::count_down(stats.block_net);
                stats.inflight = stats::count_down(stats.inflight);
                Answered::Failed(e)
            },
            Ok(reply) => {
                let date = reply.date();
                self.accept(reply.status, date, stats)
            },
        }
    }
}

impl Download {
    /// Takes a piece of the body.
    pub fn push(&mut self, chunk: &[u8])
        ensures
            final(self).body@ == old(self).body@ + chunk@,
            final(self).content_type == old(self).content_type,
            final(self).path == old(self).path,
            final(self).mtime == old(self).mtime,
    {
        self.body.extend_from_slice(chunk);
        assert(self.body@ =~= old(self).body@ + chunk@);
    }

    /// Ends the download: with the answer, and the file to write so that the next request finds
    /// it on disk, or with the failure to get the whole body.
    pub fn finish<E>(self, end: Result<(), E>, stats: &mut Stats) -> (r: Result<
        (Store, CacheResult),
        E,
    >)
        ensures
            match end {
                Err(e) => {
                    &&& r == Err::<(Store, CacheResult), E>(e)
                    &&& *final(stats) == service::left(*old(stats))
                },
                Ok(_) => {
                    &&& r matches Ok((store, result))
                    &&& result == CacheResult::Miss(self.content_type, self.mtime, self.body)
                    &&& store.path == self.path
                    &&& store.body@ == self.body@
                    &&& store.mtime == self.mtime
                    &&& *final(stats) == after_miss(*old(stats))
                },
            },
    {
        match end {
            Err(e) => {
                stats.inflight = stats::count_down(stats.inflight);
                Err(e)
            },
            Ok(_) => {
                let store = Store { path: self.path, body: self.body.clone(), mtime: self.mtime };
                assert(store.body@ =~= self.body@);
                stats.misses = stats::count_up(stats.misses);
                stats.inflight = stats::count_down(stats.inflight);
                Ok((store, CacheResult::Miss(self.content_type, self.mtime, self.body)))
            },
        }
    }
}

} // verus!
