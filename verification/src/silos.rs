//! The silos, as the gallery's configuration sets them up.
//!
//! A configured value looks like `https://mirror-{a=5,b=5,c=10}.example.com/...`: the list between
//! the braces names the targets of the ring and gives each a weight. A target's name in place of
//! the list makes the address of its host, such as `https://mirror-a.example.com`.
use vstd::prelude::*;
use crate::registry::Registry;
use crate::ring;
use crate::ring::Ring;
use crate::text;
use crate::text::NumberError;
use crate::walk;

verus! {

/// A link to an image, cut at the list of targets. The name of a target between the two parts makes
/// the address of its host.
#[derive(Debug)]
pub struct Link {
    /// What stands before the list.
    pub before: String,
    /// What follows the list, as far as it belongs to the address.
    pub after: String,
}

impl View for Link {
    type V = (Seq<char>, Seq<char>);

    open spec fn view(&self) -> (Seq<char>, Seq<char>) {
        (self.before@, self.after@)
    }
}

/// What the configuration says of a silo: who owns its images, and how the hosts are addressed.
pub struct Silo {
    pub ring: Ring,
    pub link: Link,
}

/// A [`Silo`], as its targets and the two parts of its link.
pub struct SiloView {
    pub targets: Seq<(Seq<char>, u32)>,
    pub link: (Seq<char>, Seq<char>),
}

impl View for Silo {
    type V = SiloView;

    open spec fn view(&self) -> SiloView {
        SiloView { targets: self.ring@, link: self.link@ }
    }
}

impl Silo {
    /// The owners of `resource`, the first owner first, at most `count` of them.
    pub fn lookup_list(&self, resource: &str, count: u32) -> (r: Vec<String>)
        requires
            count > 0,
        ensures
            text::texts(r@) == walk::ring_owners(self@.targets, resource@, count),
            walk::distinct(self@.targets),
            walk::sound_owners(self@.targets, text::texts(r@), count),
    {
        self.ring.lookup_list(resource, count)
    }
}

/// Every silo that is set up.
pub type GlobalSilos = Registry<Silo>;

/// Why a configured value sets up no silo. `InvalidWeight` is an error to report. The others are
/// faults that nothing can go on after.
#[derive(Debug, Clone, Copy, PartialEq, Eq, Structural)]
pub enum ConfigError {
    /// The value has no brace.
    NoTargetList,
    /// An entry of the list is not of the form `name=weight`.
    InvalidTarget,
    /// A weight is not a number.
    InvalidWeight(NumberError),
    /// A target occurs twice.
    DuplicateTarget,
    /// A weight is too large for the ring.
    WeightTooLarge,
}

/// The list of targets in a configured value: what follows the first brace, up to the next one.
pub open spec fn target_list(value: Seq<char>) -> Option<Seq<char>> {
    let parts = text::fields(value, set!['{', '}']);
    if parts.len() > 1 {
        Some(parts[1])
    } else {
        None
    }
}

/// The target and the weight that an entry of the list gives.
pub open spec fn read_target(entry: Seq<char>) -> Result<(Seq<char>, u32), ConfigError> {
    let parts = text::fields(entry, set!['=']);
    if parts.len() != 2 {
        Err(ConfigError::InvalidTarget)
    } else {
        match text::number(parts[1]) {
            Err(e) => Err(ConfigError::InvalidWeight(e)),
            Ok(weight) => Ok((parts[0], weight as u32)),
        }
    }
}

/// The targets that the entries give. The first entry that cannot be taken decides the error.
pub open spec fn read_targets(entries: Seq<Seq<char>>) -> Result<
    Seq<(Seq<char>, u32)>,
    ConfigError,
>
    decreases entries.len(),
{
    if entries.len() == 0 {
        Ok(Seq::<(Seq<char>, u32)>::empty())
    } else {
        match read_targets(entries.drop_last()) {
            Err(e) => Err(e),
            Ok(targets) => match read_target(entries.last()) {
                Err(e) => Err(e),
                Ok(target) => if walk::is_target(targets, target.0) {
                    Err(ConfigError::DuplicateTarget)
                } else if target.1 > ring::MAX_WEIGHT {
                    Err(ConfigError::WeightTooLarge)
                } else {
                    Ok(targets.push(target))
                },
            },
        }
    }
}

/// The targets that a configured value sets up.
pub open spec fn config_targets(value: Seq<char>) -> Result<Seq<(Seq<char>, u32)>, ConfigError> {
    match target_list(value) {
        None => Err(ConfigError::NoTargetList),
        Some(list) => read_targets(text::fields(list, set![','])),
    }
}

/// The link in a configured value: what stands before the list, and what follows it up to the next
/// slash or brace. There is none where nothing closes the list, or where no `//` before the list
/// says that an address follows.
pub open spec fn link_of(value: Seq<char>) -> Option<(Seq<char>, Seq<char>)> {
    let parts = text::fields(value, set!['{', '}']);
    if parts.len() > 2 && text::holds(parts[0], "//"@) {
        Some((parts[0], text::fields(parts[2], set!['/']).first()))
    } else {
        None
    }
}

/// The link by which the hosts of a silo are addressed. A value that has none leaves the addresses
/// of the site.
pub open spec fn config_link(value: Seq<char>) -> (Seq<char>, Seq<char>) {
    match link_of(value) {
        Some(link) => link,
        None => ("https://"@, ".paheal.net"@),
    }
}

/// The silo that a configured value sets up.
pub open spec fn config_silo(value: Seq<char>) -> Result<SiloView, ConfigError> {
    match config_targets(value) {
        Ok(targets) => Ok(SiloView { targets, link: config_link(value) }),
        Err(e) => Err(e),
    }
}

/// The list of targets in a configured value, as [`target_list`] says.
pub fn configured_list(value: &str) -> (r: Option<String>)
    ensures
        match r {
            Some(list) => target_list(value@) == Some(list@),
            None => target_list(value@) is None,
        },
{
    let parts = text::split_either(value, '{', '}');
    assert(text::texts(parts@).len() == parts@.len());
    if parts.len() < 2 {
        return None;
    }
    assert(text::texts(parts@)[1] == parts@[1]@);
    Some(parts[1].clone())
}

/// The link by which the hosts are addressed, as [`config_link`] says.
pub fn configured_link(value: &str) -> (r: Link)
    ensures
        r@ == config_link(value@),
{
    let parts = text::split_either(value, '{', '}');
    assert(text::texts(parts@).len() == parts@.len());
    if parts.len() > 2 {
        assert(text::texts(parts@)[0] == parts@[0]@);
        assert(text::texts(parts@)[2] == parts@[2]@);
        if text::contains(parts[0].as_str(), "//") {
            return Link {
                before: parts[0].clone(),
                after: text::first_field(parts[2].as_str(), '/'),
            };
        }
    }
    Link { before: "https://".to_owned(), after: ".paheal.net".to_owned() }
}

fn target_of(entry: &str) -> (r: Result<(String, u32), ConfigError>)
    ensures
        match r {
            Ok(t) => read_target(entry@) == Ok::<(Seq<char>, u32), ConfigError>((t.0@, t.1)),
            Err(e) => read_target(entry@) == Err::<(Seq<char>, u32), ConfigError>(e),
        },
{
    let parts = text::split(entry, '=');
    assert(text::texts(parts@).len() == parts@.len());
    if parts.len() != 2 {
        return Err(ConfigError::InvalidTarget);
    }
    assert(text::texts(parts@)[0] == parts@[0]@);
    assert(text::texts(parts@)[1] == parts@[1]@);
    match text::parse_number(parts[1].as_str()) {
        Err(e) => Err(ConfigError::InvalidWeight(e)),
        Ok(weight) => Ok((parts[0].clone(), weight)),
    }
}

/// Entries that give no targets go on to give none, for the same reason, whatever follows.
proof fn lemma_targets_error(entries: Seq<Seq<char>>, k: int, e: ConfigError)
    requires
        0 <= k <= entries.len(),
        read_targets(entries.take(k)) == Err::<Seq<(Seq<char>, u32)>, ConfigError>(e),
    ensures
        read_targets(entries) == Err::<Seq<(Seq<char>, u32)>, ConfigError>(e),
    decreases entries.len() - k,
{
    if k == entries.len() {
        assert(entries.take(k) =~= entries);
    } else {
        assert(entries.take(k + 1).drop_last() =~= entries.take(k));
        lemma_targets_error(entries, k + 1, e);
    }
}

/// The ring that a configured value sets up.
pub fn configured_ring(value: &str) -> (r: Result<Ring, ConfigError>)
    ensures
        match r {
            Ok(ring) => config_targets(value@) == Ok::<Seq<(Seq<char>, u32)>, ConfigError>(ring@),
            Err(e) => config_targets(value@) == Err::<Seq<(Seq<char>, u32)>, ConfigError>(e),
        },
{
    let list = match configured_list(value) {
        Some(list) => list,
        None => return Err(ConfigError::NoTargetList),
    };
    let entries = text::split(list.as_str(), ',');
    let ghost all = text::texts(entries@);
    let mut ring = Ring::new();
    let mut i: usize = 0;
    assert(all.take(0) =~= Seq::<Seq<char>>::empty());
    while i < entries.len()
        invariant
            i <= entries.len(),
            all == text::texts(entries@),
            config_targets(value@) == read_targets(all),
            read_targets(all.take(i as int)) == Ok::<Seq<(Seq<char>, u32)>, ConfigError>(ring@),
        decreases entries.len() - i,
    {
        assert(all.take(i + 1).drop_last() =~= all.take(i as int));
        assert(all.take(i + 1).last() == entries@[i as int]@);
        match target_of(entries[i].as_str()) {
            Err(e) => {
                proof {
                    lemma_targets_error(all, i + 1, e);
                }
                return Err(e);
            },
            Ok((target, weight)) => {
                if ring.has_target(target.as_str()) {
                    proof {
                        lemma_targets_error(all, i + 1, ConfigError::DuplicateTarget);
                    }
                    return Err(ConfigError::DuplicateTarget);
                }
                if weight > ring::MAX_WEIGHT {
                    proof {
                        lemma_targets_error(all, i + 1, ConfigError::WeightTooLarge);
                    }
                    return Err(ConfigError::WeightTooLarge);
                }
                ring = ring.with_target(target.as_str(), weight);
            },
        }
        i = i + 1;
    }
    assert(all.take(i as int) =~= all);
    Ok(ring)
}

/// Sets the silo `name` up by the configured value. A value that sets up none leaves every silo as
/// it was.
pub fn populate_silo(silos: &mut GlobalSilos, name: &str, value: &str) -> (r: Result<
    (),
    ConfigError,
>)
    requires
        old(silos).wf(),
    ensures
        final(silos).wf(),
        match r {
            Ok(_) => {
                &&& final(silos)@ == old(silos)@.insert(name@, final(silos)@[name@])
                &&& config_silo(value@) == Ok::<SiloView, ConfigError>(final(silos)@[name@]@)
                &&& final(silos).names() == if old(silos)@.contains_key(name@) {
                    old(silos).names()
                } else {
                    old(silos).names().push(name@)
                }
            },
            Err(e) => {
                &&& config_silo(value@) == Err::<SiloView, ConfigError>(e)
                &&& *final(silos) == *old(silos)
            },
        },
{
    match configured_ring(value) {
        Err(e) => Err(e),
        Ok(ring) => {
            silos.insert(name, Silo { ring, link: configured_link(value) });
            assert(silos@ =~= old(silos)@.insert(name@, silos@[name@]));
            Ok(())
        },
    }
}

/// The entry of the list for a target.
pub open spec fn entry_text(target: (Seq<char>, u32)) -> Seq<char> {
    target.0.push('=') + text::decimal(target.1 as nat)
}

/// The list for some targets.
pub open spec fn list_text(targets: Seq<(Seq<char>, u32)>) -> Seq<char> {
    text::rejoined(targets.map_values(|t: (Seq<char>, u32)| entry_text(t)), ',')
}

/// The targets can stand in a list: no name holds a character that the list needs, none occurs
/// twice, and no weight is too large.
pub open spec fn listable(targets: Seq<(Seq<char>, u32)>) -> bool {
    &&& forall|i: int|
        0 <= i < targets.len() ==> text::free_of(
            (#[trigger] targets[i]).0,
            set!['{', '}', ',', '='],
        )
    &&& forall|i: int, j: int|
        0 <= i < j < targets.len() ==> (#[trigger] targets[i]).0 != (#[trigger] targets[j]).0
    &&& forall|i: int| 0 <= i < targets.len() ==> (#[trigger] targets[i]).1 <= ring::MAX_WEIGHT
}

/// An entry holds no brace and no comma, and it reads back as the target.
proof fn lemma_entry(target: (Seq<char>, u32))
    requires
        text::free_of(target.0, set!['{', '}', ',', '=']),
    ensures
        text::free_of(entry_text(target), set!['{', '}']),
        text::free_of(entry_text(target), set![',']),
        read_target(entry_text(target)) == Ok::<(Seq<char>, u32), ConfigError>(target),
{
    let weight = text::decimal(target.1 as nat);
    let entry = entry_text(target);
    text::lemma_decimal_digits(target.1 as nat);
    assert forall|i: int| 0 <= i < entry.len() implies entry[i] != ',' && entry[i] != '{'
        && entry[i] != '}' by {
        if i < target.0.len() {
            assert(!set!['{', '}', ',', '='].contains(target.0[i]));
            assert(entry[i] == target.0[i]);
        } else if i > target.0.len() {
            assert(text::is_digit(weight[i - target.0.len() - 1]));
        }
    }
    assert(text::free_of(target.0, set!['='])) by {
        assert forall|i: int| 0 <= i < target.0.len() implies !set!['='].contains(
            #[trigger] target.0[i],
        ) by {
            assert(!set!['{', '}', ',', '='].contains(target.0[i]));
        }
    }
    assert(text::free_of(weight, set!['='])) by {
        assert forall|i: int| 0 <= i < weight.len() implies !set!['='].contains(
            #[trigger] weight[i],
        ) by {
            assert(text::is_digit(weight[i]));
        }
    }
    text::lemma_fields_concat(target.0, '=', weight, set!['=']);
    text::lemma_fields_of_free(target.0, set!['=']);
    text::lemma_fields_of_free(weight, set!['=']);
    assert(text::fields(entry, set!['=']) =~= seq![target.0, weight]);
    text::law_number_reads_decimal(target.1);
}

/// The list for some targets reads back as those targets, and it holds no brace.
pub proof fn lemma_list(targets: Seq<(Seq<char>, u32)>)
    requires
        targets.len() > 0,
        listable(targets),
    ensures
        text::free_of(list_text(targets), set!['{', '}']),
        read_targets(text::fields(list_text(targets), set![','])) == Ok::<
            Seq<(Seq<char>, u32)>,
            ConfigError,
        >(targets),
    decreases targets.len(),
{
    let last = targets.last();
    let front = targets.drop_last();
    let list = list_text(targets);
    let all = targets.map_values(|t: (Seq<char>, u32)| entry_text(t));
    let some = front.map_values(|t: (Seq<char>, u32)| entry_text(t));
    let entries = text::fields(list, set![',']);
    let empty = Seq::<Seq<char>>::empty();
    assert(targets[targets.len() - 1] == last);
    lemma_entry(last);
    text::lemma_fields_of_free(entry_text(last), set![',']);
    assert(all.drop_last() =~= some);
    assert(all.last() == entry_text(last));
    if targets.len() == 1 {
        assert(list == entry_text(last));
        assert(entries.drop_last() =~= empty);
        assert(read_targets(empty) == Ok::<Seq<(Seq<char>, u32)>, ConfigError>(front)) by {
            assert(front =~= Seq::<(Seq<char>, u32)>::empty());
        }
    } else {
        assert(listable(front)) by {
            assert(forall|i: int| 0 <= i < front.len() ==> front[i] == targets[i]);
        }
        lemma_list(front);
        assert(list == list_text(front).push(',') + entry_text(last));
        text::lemma_fields_concat(list_text(front), ',', entry_text(last), set![',']);
        assert(entries =~= text::fields(list_text(front), set![',']).push(entry_text(last)));
        assert(entries.drop_last() =~= text::fields(list_text(front), set![',']));
        assert forall|i: int| 0 <= i < list.len() implies !set!['{', '}'].contains(
            #[trigger] list[i],
        ) by {
            let n = list_text(front).len();
            if i < n {
                assert(list[i] == list_text(front)[i]);
            } else if i > n {
                assert(list[i] == entry_text(last)[i - n - 1]);
            }
        }
    }
    assert(entries.last() == entry_text(last));
    assert(!walk::is_target(front, last.0)) by {
        assert forall|i: int| 0 <= i < front.len() implies (#[trigger] front[i]).0 != last.0 by {
            assert(targets[i].0 != targets[targets.len() - 1].0);
        }
    }
    assert(front.push(last) =~= targets);
}

/// A value with a list of targets between its first braces sets up those targets, in that order,
/// whatever stands around the braces.
pub proof fn law_config_reads_back(
    prefix: Seq<char>,
    targets: Seq<(Seq<char>, u32)>,
    suffix: Seq<char>,
)
    requires
        text::free_of(prefix, set!['{', '}']),
        targets.len() > 0,
        listable(targets),
    ensures
        config_targets(prefix.push('{') + (list_text(targets).push('}') + suffix)) == Ok::<
            Seq<(Seq<char>, u32)>,
            ConfigError,
        >(targets),
{
    let braces = set!['{', '}'];
    let list = list_text(targets);
    lemma_list(targets);
    text::lemma_fields_concat(prefix, '{', list.push('}') + suffix, braces);
    text::lemma_fields_concat(list, '}', suffix, braces);
    text::lemma_fields_of_free(prefix, braces);
    text::lemma_fields_of_free(list, braces);
    text::lemma_fields_len(suffix, braces);
    let parts = text::fields(prefix.push('{') + (list.push('}') + suffix), braces);
    assert(parts == seq![prefix] + (seq![list] + text::fields(suffix, braces)));
    assert(parts[1] == list);
}

/// The first field of a text goes on to the first separator.
proof fn lemma_first_field(a: Seq<char>, b: Seq<char>, seps: Set<char>)
    requires
        text::free_of(a, seps),
    ensures
        text::fields(a + b, seps).first() == a + text::fields(b, seps).first(),
        text::fields(a + b, seps).len() == text::fields(b, seps).len(),
{
    text::lemma_fields_len(b, seps);
    text::lemma_fields_after(a, b, seps);
}

/// A value with an address around its list, `before{..}after/rest`, addresses every host by its
/// name between the two.
pub proof fn law_link_reads_back(
    before: Seq<char>,
    list: Seq<char>,
    after: Seq<char>,
    rest: Seq<char>,
)
    requires
        text::free_of(before, set!['{', '}']),
        text::holds(before, "//"@),
        text::free_of(list, set!['{', '}']),
        text::free_of(after, set!['{', '}', '/']),
    ensures
        config_link(before.push('{') + (list.push('}') + (after.push('/') + rest))) == (
            before,
            after,
        ),
{
    let braces = set!['{', '}'];
    let tail = after.push('/') + rest;
    text::lemma_fields_concat(before, '{', list.push('}') + tail, braces);
    text::lemma_fields_concat(list, '}', tail, braces);
    text::lemma_fields_of_free(before, braces);
    text::lemma_fields_of_free(list, braces);
    text::lemma_fields_len(tail, braces);
    let parts = text::fields(before.push('{') + (list.push('}') + tail), braces);
    assert(parts == seq![before] + (seq![list] + text::fields(tail, braces)));
    assert forall|i: int| 0 <= i < after.len() implies !set!['/'].contains(#[trigger] after[i]) by {
        assert(!set!['{', '}', '/'].contains(after[i]));
    }
    let address = after.push('/');
    assert forall|i: int| 0 <= i < address.len() implies !braces.contains(#[trigger] address[i]) by {
        if i < after.len() {
            assert(!set!['{', '}', '/'].contains(after[i]));
        }
    }
    lemma_first_field(address, rest, braces);
    let more = text::fields(rest, braces).first();
    assert(parts[2] == address + more);
    text::lemma_fields_concat(after, '/', more, set!['/']);
    text::lemma_fields_of_free(after, set!['/']);
}

/// An entry is a name, an equals sign and a weight: its name is taken whole and its weight is the
/// number that it denotes. An entry with no equals sign, or with more than one, is not.
pub proof fn law_entry_is_name_and_weight(name: Seq<char>, weight: Seq<char>, more: Seq<char>)
    requires
        text::free_of(name, set!['=']),
        text::free_of(weight, set!['=']),
    ensures
        read_target(name) == Err::<(Seq<char>, u32), ConfigError>(ConfigError::InvalidTarget),
        match text::number(weight) {
            Ok(n) => read_target(name.push('=') + weight) == Ok::<(Seq<char>, u32), ConfigError>(
                (name, n as u32),
            ),
            Err(e) => read_target(name.push('=') + weight) == Err::<(Seq<char>, u32), ConfigError>(
                ConfigError::InvalidWeight(e),
            ),
        },
        read_target(name.push('=') + (weight.push('=') + more)) == Err::<
            (Seq<char>, u32),
            ConfigError,
        >(ConfigError::InvalidTarget),
{
    let sep = set!['='];
    text::lemma_fields_of_free(name, sep);
    text::lemma_fields_of_free(weight, sep);
    text::lemma_fields_concat(name, '=', weight, sep);
    text::lemma_fields_concat(name, '=', weight.push('=') + more, sep);
    text::lemma_fields_concat(weight, '=', more, sep);
    text::lemma_fields_len(more, sep);
}

/// The first entry that cannot be taken decides, whatever follows it: because it cannot be read,
/// because its target is there already, or because its weight is too large.
pub proof fn law_first_bad_entry_decides(
    good: Seq<Seq<char>>,
    bad: Seq<char>,
    rest: Seq<Seq<char>>,
)
    ensures
        read_targets(good) matches Ok(targets) ==> match read_target(bad) {
            Err(e) => read_targets(good.push(bad) + rest) == Err::<
                Seq<(Seq<char>, u32)>,
                ConfigError,
            >(e),
            Ok(t) => {
                &&& (exists|i: int| 0 <= i < targets.len() && (#[trigger] targets[i]).0 == t.0)
                    ==> read_targets(good.push(bad) + rest) == Err::<
                    Seq<(Seq<char>, u32)>,
                    ConfigError,
                >(ConfigError::DuplicateTarget)
                &&& (forall|i: int| 0 <= i < targets.len() ==> (#[trigger] targets[i]).0 != t.0)
                    && t.1 > 67_108_863 ==> read_targets(good.push(bad) + rest) == Err::<
                    Seq<(Seq<char>, u32)>,
                    ConfigError,
                >(ConfigError::WeightTooLarge)
            },
        },
{
    let all = good.push(bad) + rest;
    let k = good.len() + 1;
    assert(all.take(k as int) =~= good.push(bad));
    assert(good.push(bad).drop_last() =~= good);
    if read_targets(good.push(bad)) is Err {
        lemma_targets_error(all, k as int, read_targets(good.push(bad))->Err_0);
    }
}

/// A value without a brace has no list. A value whose list nothing closes, or without `//` before
/// its first brace, leaves the hosts at the addresses of the site.
pub proof fn law_value_without_list_or_address(before: Seq<char>, list: Seq<char>, rest: Seq<char>)
    requires
        text::free_of(before, set!['{', '}']),
        text::free_of(list, set!['{', '}']),
    ensures
        config_silo(before) == Err::<SiloView, ConfigError>(ConfigError::NoTargetList),
        config_link(before.push('{') + list) == ("https://"@, ".paheal.net"@),
        (forall|x: Seq<char>, y: Seq<char>| before != #[trigger] (x + "//"@ + y)) ==> config_link(
            before.push('{') + rest,
        ) == ("https://"@, ".paheal.net"@),
{
    let braces = set!['{', '}'];
    text::lemma_fields_of_free(before, braces);
    text::lemma_fields_of_free(list, braces);
    text::lemma_fields_concat(before, '{', list, braces);
    text::lemma_fields_concat(before, '{', rest, braces);
    text::law_holds_where_cut(before, "//"@, before, before);
}

/// What a silo is set up by is the value's targets and the value's link.
pub proof fn law_silo_is_targets_and_link(value: Seq<char>)
    ensures
        match config_targets(value) {
            Ok(targets) => config_silo(value) matches Ok(silo) && silo.targets == targets
                && silo.link == config_link(value),
            Err(e) => config_silo(value) == Err::<SiloView, ConfigError>(e),
        },
{
}

} // verus!
