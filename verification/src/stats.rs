//! What a host counts of the requests that it serves, silo by silo.
use vstd::prelude::*;
use crate::registry::Registry;
use crate::text;

verus! {

/// The counters of one silo. Those that a request moves wrap around at the ends of their range.
#[derive(Debug, Clone, Copy, PartialEq, Eq, Structural)]
pub struct Stats {
    pub requests: usize,
    pub hits: usize,
    pub misses: usize,
    pub redirect: usize,
    pub missing: usize,
    pub paheal: usize,
    pub google: usize,
    pub norefer: usize,
    pub external: usize,
    pub inflight: usize,
    pub block_disk: usize,
    pub block_net: usize,
    pub last_hit: usize,
    pub last_miss: usize,
    pub last_hitrate: usize,
}

/// The counters of every silo.
pub type GlobalStats = Registry<Stats>;

/// One more than `n`, or zero after the largest value.
pub open spec fn up(n: usize) -> usize {
    if n == usize::MAX {
        0
    } else {
        (n + 1) as usize
    }
}

/// One less than `n`, or the largest value before zero.
pub open spec fn down(n: usize) -> usize {
    if n == 0 {
        usize::MAX
    } else {
        (n - 1) as usize
    }
}

/// Counts one up.
pub fn count_up(n: usize) -> (r: usize)
    ensures
        r == up(n),
{
    n.wrapping_add(1)
}

/// Counts one down.
pub fn count_down(n: usize) -> (r: usize)
    ensures
        r == down(n),
{
    n.wrapping_sub(1)
}

/// Counters that have counted nothing.
pub open spec fn zero() -> Stats {
    Stats {
        requests: 0,
        hits: 0,
        misses: 0,
        redirect: 0,
        missing: 0,
        paheal: 0,
        google: 0,
        norefer: 0,
        external: 0,
        inflight: 0,
        block_disk: 0,
        block_net: 0,
        last_hit: 0,
        last_miss: 0,
        last_hitrate: 0,
    }
}

impl Default for Stats {
    fn default() -> (r: Stats)
        ensures
            r == zero(),
    {
        Stats {
            requests: 0,
            hits: 0,
            misses: 0,
            redirect: 0,
            missing: 0,
            paheal: 0,
            google: 0,
            norefer: 0,
            external: 0,
            inflight: 0,
            block_disk: 0,
            block_net: 0,
            last_hit: 0,
            last_miss: 0,
            last_hitrate: 0,
        }
    }
}

/// The counters as one line. The field `block_net` shows the requests that wait for the disk and
/// the field `block_disk` those that wait for the network.
pub open spec fn stats_line(s: Stats) -> Seq<char> {
    "requests="@ + text::decimal(s.requests as nat) + ",hits="@ + text::decimal(s.hits as nat)
        + ",misses="@ + text::decimal(s.misses as nat) + ",redirect="@ + text::decimal(
        s.redirect as nat,
    ) + ",missing="@ + text::decimal(s.missing as nat) + ",paheal="@ + text::decimal(
        s.paheal as nat,
    ) + ",google="@ + text::decimal(s.google as nat) + ",norefer="@ + text::decimal(
        s.norefer as nat,
    ) + ",external="@ + text::decimal(s.external as nat) + ",inflight="@ + text::decimal(
        s.inflight as nat,
    ) + ",block_net="@ + text::decimal(s.block_disk as nat) + ",block_disk="@ + text::decimal(
        s.block_net as nat,
    )
}

/// The requests answered from disk since the last summary.
pub open spec fn recent_hits(s: Stats) -> int {
    s.hits - s.last_hit
}

/// The requests answered from disk or from the backend since the last summary.
pub open spec fn recent_total(s: Stats) -> int {
    s.hits - s.last_hit + s.misses - s.last_miss
}

/// The hit rate can be worked out, term by term, without leaving the range of a counter.
pub open spec fn measurable(s: Stats) -> bool {
    &&& s.last_hit <= s.hits
    &&& recent_hits(s) + s.misses <= usize::MAX
    &&& recent_total(s) >= 0
    &&& recent_total(s) > 0 ==> recent_hits(s) * 100 <= usize::MAX
}

/// The percentage of recent requests that were answered from disk. Where there were none, the
/// rate of the last summary stands.
pub open spec fn hitrate(s: Stats) -> int {
    if recent_total(s) > 0 {
        recent_hits(s) * 100 / recent_total(s)
    } else {
        s.last_hitrate as int
    }
}

/// The summary that is sent for a silo.
pub open spec fn summary_line(name: Seq<char>, silo: Seq<char>, s: Stats) -> Seq<char> {
    "shm_cached,name="@ + name + ",silo="@ + silo + " "@ + stats_line(s) + ",hitrate="@
        + text::decimal(hitrate(s) as nat)
}

/// The counters after a summary: the next one measures from here.
pub open spec fn summarised(s: Stats) -> Stats {
    Stats {
        last_hit: s.hits,
        last_miss: s.misses,
        last_hitrate: hitrate(s) as usize,
        ..s
    }
}

impl Stats {
    /// The counters as one line, as [`stats_line`] says.
    pub fn to_text(&self) -> (r: String)
        ensures
            r@ == stats_line(*self),
    {
        let mut r = "requests=".to_owned();
        r.append(text::decimal_text(self.requests).as_str());
        r.append(",hits=");
        r.append(text::decimal_text(self.hits).as_str());
        r.append(",misses=");
        r.append(text::decimal_text(self.misses).as_str());
        r.append(",redirect=");
        r.append(text::decimal_text(self.redirect).as_str());
        r.append(",missing=");
        r.append(text::decimal_text(self.missing).as_str());
        r.append(",paheal=");
        r.append(text::decimal_text(self.paheal).as_str());
        r.append(",google=");
        r.append(text::decimal_text(self.google).as_str());
        r.append(",norefer=");
        r.append(text::decimal_text(self.norefer).as_str());
        r.append(",external=");
        r.append(text::decimal_text(self.external).as_str());
        r.append(",inflight=");
        r.append(text::decimal_text(self.inflight).as_str());
        r.append(",block_net=");
        r.append(text::decimal_text(self.block_disk).as_str());
        r.append(",block_disk=");
        r.append(text::decimal_text(self.block_net).as_str());
        r
    }

    /// Whether a summary can be made.
    pub fn is_measurable(&self) -> (r: bool)
        ensures
            r == measurable(*self),
    {
        if self.last_hit > self.hits {
            return false;
        }
        let hits: usize = self.hits - self.last_hit;
        match hits.checked_add(self.misses) {
            None => false,
            Some(sum) => if self.last_miss > sum {
                false
            } else {
                sum == self.last_miss || hits.checked_mul(100).is_some()
            },
        }
    }

    /// Makes the summary of the silo, and starts to measure anew.
    pub fn summary(&mut self, name: &str, silo: &str) -> (r: String)
        requires
            measurable(*old(self)),
        ensures
            r@ == summary_line(name@, silo@, *old(self)),
            *final(self) == summarised(*old(self)),
    {
        let hits: usize = self.hits - self.last_hit;
        let total: usize = hits + self.misses - self.last_miss;
        let rate: usize = if total > 0 {
            proof {
                lemma_quotient(hits as int * 100, total as int);
            }
            hits * 100 / total
        } else {
            self.last_hitrate
        };
        let mut r = "shm_cached,name=".to_owned();
        r.append(name);
        r.append(",silo=");
        r.append(silo);
        r.append(" ");
        r.append(self.to_text().as_str());
        r.append(",hitrate=");
        r.append(text::decimal_text(rate).as_str());
        self.last_hit = self.hits;
        self.last_miss = self.misses;
        self.last_hitrate = rate;
        r
    }
}

/// Whether the summary of every silo can be made.
pub fn all_measurable(stats: &GlobalStats) -> (r: bool)
    requires
        stats.wf(),
    ensures
        r == (forall|silo: Seq<char>| stats@.contains_key(silo) ==> measurable(#[trigger] stats@[silo])),
{
    proof {
        stats.lemma_names();
    }
    let mut i: usize = 0;
    while i < stats.len()
        invariant
            stats.wf(),
            i <= stats.names().len(),
            forall|silo: Seq<char>|
                stats.names().contains(silo) <==> #[trigger] stats@.contains_key(silo),
            forall|j: int| 0 <= j < i ==> measurable(stats@[#[trigger] stats.names()[j]]),
        decreases stats.names().len() - i,
    {
        assert(stats.names().contains(stats.names()[i as int]));
        let found = stats.get(stats.name_at(i).as_str());
        match found {
            Some(s) => {
                if !s.is_measurable() {
                    return false;
                }
            },
            None => {},
        }
        i = i + 1;
    }
    assert forall|silo: Seq<char>| stats@.contains_key(silo) implies measurable(
        #[trigger] stats@[silo],
    ) by {
        let j = stats.names().index_of(silo);
        assert(stats.names()[j] == silo);
    }
    true
}

/// Makes the summary of every silo, in the order of the names, and starts to measure anew.
pub fn summaries(name: &str, stats: &mut GlobalStats) -> (r: Vec<String>)
    requires
        old(stats).wf(),
        forall|silo: Seq<char>|
            old(stats)@.contains_key(silo) ==> measurable(#[trigger] old(stats)@[silo]),
    ensures
        final(stats).wf(),
        final(stats).names() == old(stats).names(),
        final(stats)@ == old(stats)@.map_values(|s: Stats| summarised(s)),
        text::texts(r@) == old(stats).names().map_values(
            |silo: Seq<char>| summary_line(name@, silo, old(stats)@[silo]),
        ),
{
    let ghost before = *stats;
    let ghost names = stats.names();
    proof {
        stats.lemma_names();
    }
    let mut r: Vec<String> = Vec::new();
    let mut i: usize = 0;
    while i < stats.len()
        invariant
            stats.wf(),
            stats.names() == names,
            names.no_duplicates(),
            i <= names.len(),
            r@.len() == i,
            stats@.dom() == before@.dom(),
            forall|silo: Seq<char>| names.contains(silo) <==> #[trigger] before@.contains_key(silo),
            forall|silo: Seq<char>|
                before@.contains_key(silo) ==> measurable(#[trigger] before@[silo]),
            forall|j: int|
                0 <= j < i ==> stats@[#[trigger] names[j]] == summarised(before@[names[j]]),
            forall|j: int| i <= j < names.len() ==> stats@[#[trigger] names[j]] == before@[names[j]],
            forall|j: int|
                0 <= j < i ==> (#[trigger] r@[j])@ == summary_line(
                    name@,
                    names[j],
                    before@[names[j]],
                ),
        decreases names.len() - i,
    {
        let silo = stats.name_at(i).clone();
        let ghost was = stats@;
        assert(names.contains(names[i as int]));
        assert(before@.contains_key(silo@));
        match stats.get_mut(silo.as_str()) {
            Some(s) => {
                r.push(s.summary(name, silo.as_str()));
            },
            None => {
                assert(false);
            },
        }
        assert(stats@ =~= was.insert(silo@, summarised(before@[silo@])));
        assert(stats@.dom() =~= before@.dom());
        i = i + 1;
    }
    assert forall|silo: Seq<char>| #[trigger] before@.contains_key(silo) implies stats@[silo]
        == summarised(before@[silo]) by {
        let j = names.index_of(silo);
        assert(names[j] == silo);
    }
    assert(stats@ =~= before@.map_values(|s: Stats| summarised(s)));
    assert(text::texts(r@) =~= names.map_values(
        |silo: Seq<char>| summary_line(name@, silo, before@[silo]),
    ));
    r
}

proof fn lemma_quotient(a: int, b: int)
    requires
        a >= 0,
        b > 0,
    ensures
        0 <= a / b <= a,
{
    assert(0 <= a / b <= a) by (nonlinear_arith)
        requires
            a >= 0,
            b > 0,
    ;
}

/// The last summary lies in the past, and its hit rate is a percentage.
pub open spec fn sane(s: Stats) -> bool {
    &&& s.last_hit <= s.hits
    &&& s.last_miss <= s.misses
    &&& s.last_hitrate <= 100
}

/// Sane counters can be summarised, unless they come near the end of their range.
pub proof fn law_sane_counters_measure(s: Stats)
    requires
        sane(s),
        s.hits + s.misses <= usize::MAX / 100,
    ensures
        measurable(s),
{
}

/// The hit rate is a percentage, and a summary leaves the counters so that the next one is too.
pub proof fn law_hitrate_is_percentage(s: Stats)
    requires
        sane(s),
    ensures
        0 <= hitrate(s) <= 100,
        sane(summarised(s)),
{
    let hits = recent_hits(s);
    let total = recent_total(s);
    if total > 0 {
        assert(0 <= hits * 100 / total <= 100) by (nonlinear_arith)
            requires
                0 <= hits <= total,
                total > 0,
        ;
    }
}

/// Where nothing was served from disk or backend in between, a second summary says what the first
/// one said, and changes nothing.
pub proof fn law_quiet_summary_repeats(name: Seq<char>, silo: Seq<char>, s: Stats)
    requires
        measurable(s),
    ensures
        measurable(summarised(s)),
        summary_line(name, silo, summarised(s)) == summary_line(name, silo, s),
        summarised(summarised(s)) == summarised(s),
{
    if recent_total(s) > 0 {
        lemma_quotient(recent_hits(s) * 100, recent_total(s));
    }
}

/// A label with a number after it holds no comma.
proof fn lemma_part(part: Seq<char>, label: Seq<char>, n: nat)
    requires
        part == label + text::decimal(n),
        text::free_of(label, set![',']),
    ensures
        text::fields(part, set![',']) == seq![part],
{
    let digits = text::decimal(n);
    text::lemma_decimal_digits(n);
    assert forall|i: int| 0 <= i < part.len() implies !set![','].contains(#[trigger] part[i]) by {
        if i < label.len() {
            assert(part[i] == label[i]);
        } else {
            assert(text::is_digit(digits[i - label.len()]));
        }
    }
    text::lemma_fields_of_free(part, set![',']);
}

/// A label with a number is one field more.
proof fn lemma_next_part(line: Seq<char>, comma: Seq<char>, label: Seq<char>, n: nat)
    requires
        comma == seq![','] + label,
        text::free_of(label, set![',']),
    ensures
        text::fields(line + comma + text::decimal(n), set![',']) == text::fields(
            line,
            set![','],
        ).push(label + text::decimal(n)),
{
    let part = label + text::decimal(n);
    lemma_part(part, label, n);
    assert(line + comma + text::decimal(n) =~= line.push(',') + part);
    text::lemma_fields_concat(line, ',', part, set![',']);
    assert(text::fields(line, set![',']) + seq![part] =~= text::fields(line, set![',']).push(part));
}

/// The fields of the line tell each counter in full.
pub proof fn law_line_tells_counters(s: Stats)
    ensures
        text::fields(stats_line(s), set![',']) == seq![
            "requests="@ + text::decimal(s.requests as nat),
            "hits="@ + text::decimal(s.hits as nat),
            "misses="@ + text::decimal(s.misses as nat),
            "redirect="@ + text::decimal(s.redirect as nat),
            "missing="@ + text::decimal(s.missing as nat),
            "paheal="@ + text::decimal(s.paheal as nat),
            "google="@ + text::decimal(s.google as nat),
            "norefer="@ + text::decimal(s.norefer as nat),
            "external="@ + text::decimal(s.external as nat),
            "inflight="@ + text::decimal(s.inflight as nat),
            "block_net="@ + text::decimal(s.block_disk as nat),
            "block_disk="@ + text::decimal(s.block_net as nat),
        ],
{
    let l0 = "requests="@ + text::decimal(s.requests as nat);
    reveal_strlit("requests=");
    lemma_part(l0, "requests="@, s.requests as nat);
    let l1 = l0 + ",hits="@ + text::decimal(s.hits as nat);
    reveal_strlit("hits=");
    reveal_strlit(",hits=");
    assert(",hits="@ =~= seq![','] + "hits="@);
    lemma_next_part(l0, ",hits="@, "hits="@, s.hits as nat);
    let l2 = l1 + ",misses="@ + text::decimal(s.misses as nat);
    reveal_strlit("misses=");
    reveal_strlit(",misses=");
    assert(",misses="@ =~= seq![','] + "misses="@);
    lemma_next_part(l1, ",misses="@, "misses="@, s.misses as nat);
    let l3 = l2 + ",redirect="@ + text::decimal(s.redirect as nat);
    reveal_strlit("redirect=");
    reveal_strlit(",redirect=");
    assert(",redirect="@ =~= seq![','] + "redirect="@);
    lemma_next_part(l2, ",redirect="@, "redirect="@, s.redirect as nat);
    let l4 = l3 + ",missing="@ + text::decimal(s.missing as nat);
    reveal_strlit("missing=");
    reveal_strlit(",missing=");
    assert(",missing="@ =~= seq![','] + "missing="@);
    lemma_next_part(l3, ",missing="@, "missing="@, s.missing as nat);
    let l5 = l4 + ",paheal="@ + text::decimal(s.paheal as nat);
    reveal_strlit("paheal=");
    reveal_strlit(",paheal=");
    assert(",paheal="@ =~= seq![','] + "paheal="@);
    lemma_next_part(l4, ",paheal="@, "paheal="@, s.paheal as nat);
    let l6 = l5 + ",google="@ + text::decimal(s.google as nat);
    reveal_strlit("google=");
    reveal_strlit(",google=");
    assert(",google="@ =~= seq![','] + "google="@);
    lemma_next_part(l5, ",google="@, "google="@, s.google as nat);
    let l7 = l6 + ",norefer="@ + text::decimal(s.norefer as nat);
    reveal_strlit("norefer=");
    reveal_strlit(",norefer=");
    assert(",norefer="@ =~= seq![','] + "norefer="@);
    lemma_next_part(l6, ",norefer="@, "norefer="@, s.norefer as nat);
    let l8 = l7 + ",external="@ + text::decimal(s.external as nat);
    reveal_strlit("external=");
    reveal_strlit(",external=");
    assert(",external="@ =~= seq![','] + "external="@);
    lemma_next_part(l7, ",external="@, "external="@, s.external as nat);
    let l9 = l8 + ",inflight="@ + text::decimal(s.inflight as nat);
    reveal_strlit("inflight=");
    reveal_strlit(",inflight=");
    assert(",inflight="@ =~= seq![','] + "inflight="@);
    lemma_next_part(l8, ",inflight="@, "inflight="@, s.inflight as nat);
    let l10 = l9 + ",block_net="@ + text::decimal(s.block_disk as nat);
    reveal_strlit("block_net=");
    reveal_strlit(",block_net=");
    assert(",block_net="@ =~= seq![','] + "block_net="@);
    lemma_next_part(l9, ",block_net="@, "block_net="@, s.block_disk as nat);
    let l11 = l10 + ",block_disk="@ + text::decimal(s.block_net as nat);
    reveal_strlit("block_disk=");
    reveal_strlit(",block_disk=");
    assert(",block_disk="@ =~= seq![','] + "block_disk="@);
    lemma_next_part(l10, ",block_disk="@, "block_disk="@, s.block_net as nat);
    assert(l11 == stats_line(s));
    assert(text::fields(l11, set![',']) =~= seq![
            "requests="@ + text::decimal(s.requests as nat),
            "hits="@ + text::decimal(s.hits as nat),
            "misses="@ + text::decimal(s.misses as nat),
            "redirect="@ + text::decimal(s.redirect as nat),
            "missing="@ + text::decimal(s.missing as nat),
            "paheal="@ + text::decimal(s.paheal as nat),
            "google="@ + text::decimal(s.google as nat),
            "norefer="@ + text::decimal(s.norefer as nat),
            "external="@ + text::decimal(s.external as nat),
            "inflight="@ + text::decimal(s.inflight as nat),
            "block_net="@ + text::decimal(s.block_disk as nat),
            "block_disk="@ + text::decimal(s.block_net as nat),
    ]);
}

/// A summary names the host and the silo, has the line of the counters, and ends in the hit rate.
pub proof fn law_summary_tells_all(name: Seq<char>, silo: Seq<char>, s: Stats)
    requires
        text::free_of(name, set![',']),
        text::free_of(silo, set![',']),
    ensures
        ({
            let parts = text::fields(summary_line(name, silo, s), set![',']);
            let line = text::fields(stats_line(s), set![',']);
            &&& parts.len() == line.len() + 3
            &&& parts[0] == "shm_cached"@
            &&& parts[1] == "name="@ + name
            &&& parts[2] == "silo="@ + silo + " "@ + line[0]
            &&& parts.subrange(3, line.len() as int + 2) == line.skip(1)
            &&& parts.last() == "hitrate="@ + text::decimal(hitrate(s) as nat)
        }),
{
    let sep = set![','];
    let line = text::fields(stats_line(s), sep);
    law_line_tells_counters(s);
    text::law_fields_rejoin(stats_line(s), ',');
    reveal_strlit("shm_cached,name=");
    reveal_strlit("shm_cached");
    reveal_strlit("name=");
    reveal_strlit(",silo=");
    reveal_strlit("silo=");
    reveal_strlit(" ");
    reveal_strlit("hitrate=");
    reveal_strlit(",hitrate=");
    assert("shm_cached,name="@ =~= "shm_cached"@.push(',') + "name="@);
    assert(",silo="@ =~= seq![','] + "silo="@);
    assert(",hitrate="@ =~= seq![','] + "hitrate="@);
    let start = "silo="@ + silo + " "@;
    let tail = start + stats_line(s);
    let whole = "shm_cached"@.push(',') + (("name="@ + name).push(',') + tail);
    assert forall|i: int| 0 <= i < start.len() implies !sep.contains(#[trigger] start[i]) by {
        if 5 <= i < 5 + silo.len() {
            assert(start[i] == silo[i - 5]);
        }
    }
    let named = "name="@ + name;
    assert forall|i: int| 0 <= i < named.len() implies !sep.contains(#[trigger] named[i]) by {
        if 5 <= i {
            assert(named[i] == name[i - 5]);
        }
    }
    text::lemma_fields_after(start, stats_line(s), sep);
    text::lemma_fields_of_free("shm_cached"@, sep);
    text::lemma_fields_of_free(named, sep);
    text::lemma_fields_concat("shm_cached"@, ',', named.push(',') + tail, sep);
    text::lemma_fields_concat(named, ',', tail, sep);
    assert(summary_line(name, silo, s) =~= whole + ",hitrate="@ + text::decimal(hitrate(s) as nat));
    lemma_next_part(whole, ",hitrate="@, "hitrate="@, hitrate(s) as nat);
    let parts = text::fields(summary_line(name, silo, s), sep);
    assert(parts.subrange(3, line.len() as int + 2) =~= line.skip(1));
}

/// The hit rate is the share of recent hits in hundredths, rounded down.
pub proof fn law_hitrate_is_share_of_hits(s: Stats)
    ensures
        ({
            let hits = s.hits - s.last_hit;
            let total = hits + s.misses - s.last_miss;
            &&& hits >= 0 && total > 0 ==> hitrate(s) * total <= 100 * hits < (hitrate(s) + 1) * total
            &&& total == 0 ==> hitrate(s) == s.last_hitrate
        }),
{
    let hits = s.hits - s.last_hit;
    let total = hits + s.misses - s.last_miss;
    if hits >= 0 && total > 0 {
        let rate = hits * 100 / total;
        assert(rate * total <= 100 * hits < (rate + 1) * total) by (nonlinear_arith)
            requires
                total > 0,
                rate == hits * 100 / total,
        ;
    }
}

/// After a summary nothing is recent, and what was counted is as it was.
pub proof fn law_summary_starts_anew(s: Stats)
    requires
        0 <= hitrate(s) <= usize::MAX,
    ensures
        ({
            let t = summarised(s);
            &&& t.last_hit == s.hits
            &&& t.last_miss == s.misses
            &&& t.last_hitrate == hitrate(s)
            &&& (t.requests, t.hits, t.misses, t.redirect, t.missing) == (
                s.requests,
                s.hits,
                s.misses,
                s.redirect,
                s.missing,
            )
            &&& (t.paheal, t.google, t.norefer, t.external) == (
                s.paheal,
                s.google,
                s.norefer,
                s.external,
            )
            &&& (t.inflight, t.block_disk, t.block_net) == (s.inflight, s.block_disk, s.block_net)
        }),
{
}

/// Counting up and down undo each other, and move by one.
pub proof fn law_counting_up_and_down(n: usize)
    ensures
        down(up(n)) == n,
        up(down(n)) == n,
        n < usize::MAX ==> up(n) == n + 1,
{
}

/// The hit rate of counters that can be summarised fits in a counter.
pub proof fn lemma_hitrate_fits(s: Stats)
    requires
        measurable(s),
    ensures
        0 <= hitrate(s) <= usize::MAX,
{
    if recent_total(s) > 0 {
        lemma_quotient(recent_hits(s) * 100, recent_total(s));
    }
}

} // verus!
