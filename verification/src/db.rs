//! What the gallery's database has a host do: when it starts, and on each notification.
use vstd::prelude::*;
use crate::path;
use crate::silos::GlobalSilos;
use crate::stats;
use crate::stats::{GlobalStats, Stats};
use crate::text;

verus! {

/// A piece of work on the database, or on its behalf.
#[derive(Debug, PartialEq, Eq)]
pub enum DbStep {
    /// Run a statement.
    Query(String),
    /// Set a silo up by the configured value of a key: the silo first.
    Populate(&'static str, &'static str),
    /// Start counting for the silos.
    CountSilos,
    /// Purge every image whose hash this statement gives.
    CleanAll(&'static str),
    /// Purge the image of this hash.
    Clean(String),
}

/// A [`DbStep`], as text.
pub enum DbStepView {
    Query(Seq<char>),
    Populate(Seq<char>, Seq<char>),
    CountSilos,
    CleanAll(Seq<char>),
    Clean(Seq<char>),
}

impl View for DbStep {
    type V = DbStepView;

    open spec fn view(&self) -> DbStepView {
        match self {
            DbStep::Query(sql) => DbStepView::Query(sql@),
            DbStep::Populate(silo, key) => DbStepView::Populate(silo@, key@),
            DbStep::CountSilos => DbStepView::CountSilos,
            DbStep::CleanAll(sql) => DbStepView::CleanAll(sql@),
            DbStep::Clean(hash) => DbStepView::Clean(hash@),
        }
    }
}

/// The views of a list of steps.
pub open spec fn steps(v: Seq<DbStep>) -> Seq<DbStepView> {
    v.map_values(|s: DbStep| s@)
}

/// The statement that names the connection after the host.
pub open spec fn name_statement(name: Seq<char>) -> Seq<char> {
    "SET application_name TO 'shm-cached ["@ + name + "]'"@
}

/// The statement that gives the hashes of the images that were banned in the last seven days.
pub open spec fn recent_bans() -> Seq<char> {
    "SELECT hash FROM image_hash_bans WHERE date > now() - interval '7 days' ORDER BY hash"@
}

/// Both silos are set up.
pub open spec fn populate_steps() -> Seq<DbStepView> {
    seq![
        DbStepView::Populate("_thumbs"@, "image_tlink"@),
        DbStepView::Populate("_images"@, "image_ilink"@),
    ]
}

/// The work of a host that starts. It listens for changes before it reads what may change.
pub open spec fn startup_steps(name: Seq<char>) -> Seq<DbStepView> {
    seq![DbStepView::Query(name_statement(name)), DbStepView::Query("LISTEN config"@)]
        + populate_steps() + seq![
        DbStepView::CountSilos,
        DbStepView::Query("LISTEN shm_image_bans"@),
        DbStepView::CleanAll(recent_bans()),
    ]
}

/// The work that a notification brings.
pub open spec fn notified_steps(channel: Seq<char>, payload: Seq<char>) -> Seq<DbStepView> {
    if channel == "config"@ {
        populate_steps()
    } else if channel == "shm_image_bans"@ {
        seq![DbStepView::Clean(payload)]
    } else {
        Seq::<DbStepView>::empty()
    }
}

/// The work that sets both silos up.
pub fn populate_plan() -> (r: Vec<DbStep>)
    ensures
        steps(r@) == populate_steps(),
{
    let mut r: Vec<DbStep> = Vec::new();
    r.push(DbStep::Populate("_thumbs", "image_tlink"));
    r.push(DbStep::Populate("_images", "image_ilink"));
    assert(steps(r@) =~= populate_steps());
    r
}

/// The work of the host `name` when it starts, in order.
pub fn startup_plan(name: &str) -> (r: Vec<DbStep>)
    ensures
        steps(r@) == startup_steps(name@),
{
    let mut sql = "SET application_name TO 'shm-cached [".to_owned();
    sql.append(name);
    sql.append("]'");
    let mut r: Vec<DbStep> = Vec::new();
    r.push(DbStep::Query(sql));
    r.push(DbStep::Query("LISTEN config".to_owned()));
    r.push(DbStep::Populate("_thumbs", "image_tlink"));
    r.push(DbStep::Populate("_images", "image_ilink"));
    r.push(DbStep::CountSilos);
    r.push(DbStep::Query("LISTEN shm_image_bans".to_owned()));
    r.push(
        DbStep::CleanAll(
            "SELECT hash FROM image_hash_bans WHERE date > now() - interval '7 days' ORDER BY hash",
        ),
    );
    assert(steps(r@) =~= startup_steps(name@));
    r
}

/// The work of a host that only balances, when it starts. Every message after that has it set up
/// both silos anew.
pub fn balancer_plan() -> (r: Vec<DbStep>)
    ensures
        steps(r@) == seq![DbStepView::Query("LISTEN config"@)] + populate_steps(),
{
    let mut r: Vec<DbStep> = Vec::new();
    r.push(DbStep::Query("LISTEN config".to_owned()));
    r.push(DbStep::Populate("_thumbs", "image_tlink"));
    r.push(DbStep::Populate("_images", "image_ilink"));
    assert(steps(r@) =~= seq![DbStepView::Query("LISTEN config"@)] + populate_steps());
    r
}

/// The work that a notification on `channel` brings.
pub fn notified(channel: &str, payload: &str) -> (r: Vec<DbStep>)
    ensures
        steps(r@) == notified_steps(channel@, payload@),
{
    if text::same(channel, "config") {
        return populate_plan();
    }
    let mut r: Vec<DbStep> = Vec::new();
    if text::same(channel, "shm_image_bans") {
        r.push(DbStep::Clean(payload.to_owned()));
    }
    assert(steps(r@) =~= notified_steps(channel@, payload@));
    r
}

/// The names, with `name` at the end where it is new.
pub open spec fn named_too(names: Seq<Seq<char>>, name: Seq<char>) -> Seq<Seq<char>> {
    if names.contains(name) {
        names
    } else {
        names.push(name)
    }
}

/// Starts counting for the silos, from zero. A silo that is new comes after those that are known.
pub fn count_silos(stats: &mut GlobalStats)
    requires
        old(stats).wf(),
    ensures
        final(stats).wf(),
        final(stats)@ == old(stats)@.insert("_thumbs"@, stats::zero()).insert(
            "_images"@,
            stats::zero(),
        ),
        final(stats).names() == named_too(named_too(old(stats).names(), "_thumbs"@), "_images"@),
{
    proof {
        stats.lemma_names();
    }
    stats.insert("_thumbs", Stats::default());
    proof {
        stats.lemma_names();
    }
    stats.insert("_images", Stats::default());
}

/// The files that may keep the image of `hash`, one for each silo. Purging the image removes those
/// of them that are there.
pub fn clean(cache: &str, silos: &GlobalSilos, hash: &str) -> (r: Vec<String>)
    requires
        silos.wf(),
        silos.names().len() > 0 ==> path::shardable(hash@),
    ensures
        text::texts(r@) == silos.names().map_values(
            |silo: Seq<char>| path::cached_path(cache@, silo, hash@),
        ),
{
    let mut r: Vec<String> = Vec::new();
    let mut i: usize = 0;
    while i < silos.len()
        invariant
            i <= silos.names().len(),
            i == r@.len(),
            silos.names().len() > 0 ==> path::shardable(hash@),
            forall|j: int|
                0 <= j < i ==> (#[trigger] r@[j])@ == path::cached_path(
                    cache@,
                    silos.names()[j],
                    hash@,
                ),
        decreases silos.names().len() - i,
    {
        r.push(path::cache_path(cache, silos.name_at(i).as_str(), hash));
        i = i + 1;
    }
    assert(text::texts(r@) =~= silos.names().map_values(
        |silo: Seq<char>| path::cached_path(cache@, silo, hash@),
    ));
    r
}

/// A host listens for changes of the configuration before it reads the configuration, and for bans
/// before it purges what is banned, so that it misses neither.
pub proof fn law_listens_before_reading(name: Seq<char>, i: int)
    requires
        0 <= i < startup_steps(name).len(),
    ensures
        startup_steps(name)[i] is Populate ==> startup_steps(name).take(i).contains(
            DbStepView::Query("LISTEN config"@),
        ),
        startup_steps(name)[i] is CleanAll ==> startup_steps(name).take(i).contains(
            DbStepView::Query("LISTEN shm_image_bans"@),
        ),
{
    let all = startup_steps(name);
    if i > 1 {
        assert(all.take(i)[1] == DbStepView::Query("LISTEN config"@));
    }
    if i > 5 {
        assert(all.take(i)[5] == DbStepView::Query("LISTEN shm_image_bans"@));
    }
}

/// A ban purges the image that it names, by its whole hash, and does nothing else.
pub proof fn law_ban_purges_its_image(payload: Seq<char>)
    ensures
        ({
            let work = notified_steps("shm_image_bans"@, payload);
            &&& work.len() == 1
            &&& work[0] matches DbStepView::Clean(hash) && hash.len() == payload.len() && forall|
                i: int,
            |
                0 <= i < payload.len() ==> #[trigger] hash[i] == payload[i]
        }),
{
    reveal_strlit("shm_image_bans");
    reveal_strlit("config");
    assert("shm_image_bans"@.len() != "config"@.len());
}

/// A change of the configuration sets up anew whatever was set up at the start, in that order, and
/// does nothing else. On any other channel but that of the bans there is nothing to do.
pub proof fn law_config_change_sets_up_all(name: Seq<char>, channel: Seq<char>, payload: Seq<char>)
    ensures
        notified_steps("config"@, payload) == startup_steps(name).filter(
            |s: DbStepView| s is Populate,
        ),
        channel != "config"@ && channel != "shm_image_bans"@ ==> notified_steps(
            channel,
            payload,
        ).len() == 0,
{
    let all = startup_steps(name);
    let pred = |s: DbStepView| s is Populate;
    assert(all.len() == 7);
    reveal_with_fuel(Seq::filter, 8);
    assert(all.drop_last().len() == 6);
    let a6 = all.drop_last();
    let a5 = a6.drop_last();
    let a4 = a5.drop_last();
    let a3 = a4.drop_last();
    let a2 = a3.drop_last();
    let a1 = a2.drop_last();
    let a0 = a1.drop_last();
    assert(a0.filter(pred) =~= Seq::<DbStepView>::empty());
    assert(a1.filter(pred) =~= Seq::<DbStepView>::empty());
    assert(a2.filter(pred) =~= Seq::<DbStepView>::empty());
    assert(a3.filter(pred) =~= seq![all[2]]);
    assert(a4.filter(pred) =~= seq![all[2], all[3]]);
    assert(a5.filter(pred) =~= seq![all[2], all[3]]);
    assert(a6.filter(pred) =~= seq![all[2], all[3]]);
    assert(all.filter(pred) =~= seq![all[2], all[3]]);
    assert(populate_steps() =~= seq![all[2], all[3]]);
}

/// A host that starts tells the database its whole name, sets up each silo by the key of its own
/// links, counts, and purges what was banned.
pub proof fn law_startup_does_all(name: Seq<char>)
    ensures
        ({
            let all = startup_steps(name);
            &&& all[0] == DbStepView::Query(
                "SET application_name TO 'shm-cached ["@ + name + "]'"@,
            )
            &&& all.contains(DbStepView::Populate("_thumbs"@, "image_tlink"@))
            &&& all.contains(DbStepView::Populate("_images"@, "image_ilink"@))
            &&& all.contains(DbStepView::CountSilos)
            &&& all.last() is CleanAll
        }),
{
    let all = startup_steps(name);
    assert(all[2] == DbStepView::Populate("_thumbs"@, "image_tlink"@));
    assert(all[3] == DbStepView::Populate("_images"@, "image_ilink"@));
    assert(all[4] == DbStepView::CountSilos);
}

} // verus!
