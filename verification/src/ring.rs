//! The ring that shares the images of a silo out among the hosts.
//!
//! The ring itself is `flexihash`'s. This module states what is relied on of it, over [`walk`].
use vstd::prelude::*;
use flexihash::Flexihash;
use crate::text;
use crate::walk;

verus! {

/// `flexihash::Flexihash`, of which nothing is known but what the items below state.
#[verifier::external_type_specification]
#[verifier::external_body]
pub struct ExFlexihash(flexihash::Flexihash);

/// The targets of a ring with their weights, in the order in which they were added. The order
/// counts where two targets hash to one position: the later one has it.
pub uninterp spec fn ring_targets(ring: flexihash::Flexihash) -> Seq<(Seq<char>, u32)>;

/// The ring was made by `Flexihash::new`, which means CRC-32 and 64 positions per unit of weight,
/// and since then targets were only added to it.
pub uninterp spec fn ring_plain(ring: flexihash::Flexihash) -> bool;

/// The largest weight whose positions can be counted in 32 bits.
pub const MAX_WEIGHT: u32 = 67_108_863;

/// `flexihash::Flexihash::new` makes a plain ring without targets.
pub assume_specification[ flexihash::Flexihash::new ]() -> (r: flexihash::Flexihash)
    ensures
        ring_targets(r) == Seq::<(Seq<char>, u32)>::empty(),
        ring_plain(r),
;

/// `flexihash::Flexihash::add_target` adds a target after those that the ring has. It panics on a
/// target that the ring has already, and on a weight whose positions overflow 32 bits.
#[verifier::external_body]
fn ring_add(ring: &mut Flexihash, target: &str, weight: u32)
    requires
        ring_plain(*old(ring)),
        !walk::is_target(ring_targets(*old(ring)), target@),
        weight <= MAX_WEIGHT,
    ensures
        ring_plain(*final(ring)),
        ring_targets(*final(ring)) == ring_targets(*old(ring)).push((target@, weight)),
{
    ring.add_target(target, weight);
}

/// `flexihash::Flexihash::lookup_list` walks the ring up from the position of the resource, and
/// around its end, and gives the different targets that it meets, in that order, until it has
/// `count` of them or has been all the way round. A position to which several targets hash is that
/// of the one added last. A target that is alone is given without a walk. It panics where `count`
/// is zero.
#[verifier::external_body]
fn ring_lookup(ring: &Flexihash, resource: &str, count: u32) -> (r: Vec<String>)
    requires
        ring_plain(*ring),
        count > 0,
    ensures
        walk::walked(ring_targets(*ring), resource@, text::texts(r@), count),
{
    ring.lookup_list(resource, count)
}

/// `flexihash::hash` gives the position of a text, here under CRC-32, which is what a plain ring
/// uses.
#[verifier::external_body]
fn ring_hash(s: &str) -> (r: u128)
    ensures
        r == walk::ring_position(s@),
{
    flexihash::hash(&flexihash::Hasher::Crc32, s)
}

/// The targets of a list, as text.
pub open spec fn named(targets: Seq<(String, u32)>) -> Seq<(Seq<char>, u32)> {
    targets.map_values(|t: (String, u32)| (t.0@, t.1))
}

/// `v` lists the positions that the target hashes to.
spec fn lists_positions(v: Seq<u128>, target: (Seq<char>, u32)) -> bool {
    &&& v.len() == 64 * target.1
    &&& forall|i: int|
        0 <= i < v.len() ==> #[trigger] v[i] == walk::ring_position(
            target.0 + text::decimal(i as nat),
        )
}

proof fn lemma_lists(v: Seq<u128>, target: (Seq<char>, u32), p: u128)
    requires
        lists_positions(v, target),
    ensures
        v.contains(p) <==> walk::takes(target, p),
{
    if v.contains(p) {
        let i = v.index_of(p);
        assert(v[i] == walk::ring_position(target.0 + text::decimal(i as nat)));
    }
    if walk::takes(target, p) {
        let i = choose|i: int|
            0 <= i < 64 * target.1 && p == #[trigger] walk::ring_position(
                target.0 + text::decimal(i as nat),
            );
        assert(v[i] == p);
    }
}

/// The positions that a target hashes to.
fn positions(name: &str, weight: u32) -> (r: Vec<u128>)
    requires
        weight <= MAX_WEIGHT,
    ensures
        lists_positions(r@, (name@, weight)),
{
    let total: u32 = 64 * weight;
    let mut r: Vec<u128> = Vec::new();
    let mut i: u32 = 0;
    while i < total
        invariant
            i <= total,
            r@.len() == i,
            forall|k: int|
                0 <= k < i ==> #[trigger] r@[k] == walk::ring_position(
                    name@ + text::decimal(k as nat),
                ),
        decreases total - i,
    {
        let mut s = name.to_owned();
        s.append(text::decimal_text(i as usize).as_str());
        r.push(ring_hash(s.as_str()));
        i = i + 1;
    }
    r
}

fn has(v: &Vec<u128>, p: u128) -> (r: bool)
    ensures
        r == v@.contains(p),
{
    let mut i: usize = 0;
    while i < v.len()
        invariant
            i <= v.len(),
            forall|k: int| 0 <= k < i ==> v@[k] != p,
        decreases v.len() - i,
    {
        if v[i] == p {
            return true;
        }
        i = i + 1;
    }
    false
}

/// Whether two lists have an element in common.
fn meet(v: &Vec<u128>, w: &Vec<u128>) -> (r: bool)
    ensures
        r == exists|p: u128| v@.contains(p) && w@.contains(p),
{
    let mut i: usize = 0;
    while i < v.len()
        invariant
            i <= v.len(),
            forall|k: int| 0 <= k < i ==> !w@.contains(v@[k]),
        decreases v.len() - i,
    {
        if has(w, v[i]) {
            assert(v@.contains(v@[i as int]));
            return true;
        }
        i = i + 1;
    }
    false
}

/// The ring of one silo. It keeps its targets, too.
pub struct Ring {
    ring: Flexihash,
    targets: Vec<(String, u32)>,
}

impl View for Ring {
    type V = Seq<(Seq<char>, u32)>;

    /// The targets with their weights, in the order in which they were added.
    closed spec fn view(&self) -> Seq<(Seq<char>, u32)> {
        named(self.targets@)
    }
}

impl Ring {
    #[verifier::type_invariant]
    closed spec fn plain(&self) -> bool {
        &&& ring_plain(self.ring)
        &&& ring_targets(self.ring) == named(self.targets@)
        &&& walk::distinct(named(self.targets@))
        &&& forall|i: int| 0 <= i < self.targets@.len() ==> (#[trigger] self.targets@[i]).1
            <= MAX_WEIGHT
    }

    /// A ring without targets.
    pub fn new() -> (r: Ring)
        ensures
            r@ == Seq::<(Seq<char>, u32)>::empty(),
    {
        let targets: Vec<(String, u32)> = Vec::new();
        assert(named(targets@) =~= Seq::<(Seq<char>, u32)>::empty());
        Ring { ring: Flexihash::new(), targets }
    }

    /// Whether `name` is one of the targets.
    pub fn has_target(&self, name: &str) -> (r: bool)
        ensures
            r == walk::is_target(self@, name@),
    {
        let mut i: usize = 0;
        while i < self.targets.len()
            invariant
                i <= self.targets.len(),
                forall|k: int| 0 <= k < i ==> (#[trigger] self@[k]).0 != name@,
            decreases self.targets.len() - i,
        {
            assert(self@[i as int] == (self.targets@[i as int].0@, self.targets@[i as int].1));
            if text::same(self.targets[i].0.as_str(), name) {
                return true;
            }
            i = i + 1;
        }
        false
    }

    /// The ring with one target more.
    pub fn with_target(self, target: &str, weight: u32) -> (r: Ring)
        requires
            !walk::is_target(self@, target@),
            weight <= MAX_WEIGHT,
        ensures
            r@ == self@.push((target@, weight)),
            walk::distinct(r@),
    {
        proof {
            use_type_invariant(&self);
        }
        let ghost before = self.targets@;
        let mut ring = self.ring;
        let mut targets = self.targets;
        ring_add(&mut ring, target, weight);
        targets.push((target.to_owned(), weight));
        assert(named(targets@) =~= named(before).push((target@, weight)));
        Ring { ring, targets }
    }

    /// The owners of `resource`, the first owner first, at most `count` of them.
    pub fn lookup_list(&self, resource: &str, count: u32) -> (r: Vec<String>)
        requires
            count > 0,
        ensures
            text::texts(r@) == walk::ring_owners(self@, resource@, count),
            walk::distinct(self@),
            walk::sound_owners(self@, text::texts(r@), count),
    {
        proof {
            use_type_invariant(self);
        }
        let r = ring_lookup(&self.ring, resource, count);
        proof {
            walk::lemma_owners(self@, resource@, text::texts(r@), count);
            walk::law_owners_sound(self@, resource@, count);
        }
        r
    }

    /// Whether some position that the target at `i` hashes to is left to it by the later ones.
    fn keeps_position(&self, i: usize) -> (r: bool)
        requires
            i < self@.len(),
        ensures
            r == exists|p: u128| walk::has_position(self@, i as int, p),
    {
        proof {
            use_type_invariant(self);
        }
        let n: usize = self.targets.len();
        let (name, weight) = (self.targets[i].0.as_str(), self.targets[i].1);
        let own = positions(name, weight);
        assert(self@[i as int] == (name@, weight));
        let mut k: usize = 0;
        while k < own.len()
            invariant
                n == self.targets@.len(),
                i < n,
                k <= own.len(),
                lists_positions(own@, self@[i as int]),
                forall|j: int| 0 <= j < n ==> (#[trigger] self.targets@[j]).1 <= MAX_WEIGHT,
                forall|a: int| 0 <= a < k ==> !walk::has_position(self@, i as int, #[trigger] own@[a]),
            decreases own.len() - k,
        {
            let p = own[k];
            let mut free = true;
            let mut j: usize = i + 1;
            while j < n
                invariant
                    n == self.targets@.len(),
                    i < j <= n,
                    forall|a: int| 0 <= a < n ==> (#[trigger] self.targets@[a]).1 <= MAX_WEIGHT,
                    free == (forall|a: int| i < a < j ==> !walk::takes(#[trigger] self@[a], p)),
                decreases n - j,
            {
                let (name, weight) = (self.targets[j].0.as_str(), self.targets[j].1);
                assert(self@[j as int] == (name@, weight));
                let other = positions(name, weight);
                proof {
                    lemma_lists(other@, self@[j as int], p);
                }
                if has(&other, p) {
                    free = false;
                }
                j = j + 1;
            }
            proof {
                assert(own@.contains(own@[k as int]));
                lemma_lists(own@, self@[i as int], p);
            }
            if free {
                assert(walk::has_position(self@, i as int, p));
                return true;
            }
            k = k + 1;
        }
        assert forall|p: u128| !walk::has_position(self@, i as int, p) by {
            lemma_lists(own@, self@[i as int], p);
            if own@.contains(p) {
                assert(own@[own@.index_of(p)] == p);
            }
        }
        false
    }

    /// Whether the target `name` has a position on the ring.
    pub fn is_placed(&self, name: &str) -> (r: bool)
        ensures
            r == walk::placed(self@, name@),
    {
        let n: usize = self.targets.len();
        let mut i: usize = 0;
        while i < n
            invariant
                n == self.targets@.len(),
                i <= n,
                forall|k: int, p: u128|
                    0 <= k < i && (#[trigger] self@[k]).0 == name@ ==> !#[trigger] walk::has_position(
                        self@,
                        k,
                        p,
                    ),
            decreases n - i,
        {
            assert(self@[i as int].0 == self.targets@[i as int].0@);
            if text::same(self.targets[i].0.as_str(), name) && self.keeps_position(i) {
                proof {
                    let p = choose|p: u128| walk::has_position(self@, i as int, p);
                    assert(walk::held(self@, name@, p));
                }
                return true;
            }
            i = i + 1;
        }
        false
    }

    /// Whether the target `name` shares no position with another one.
    pub fn is_apart(&self, name: &str) -> (r: bool)
        ensures
            r == walk::apart(self@, name@),
    {
        proof {
            use_type_invariant(self);
        }
        let n: usize = self.targets.len();
        let mut i: usize = 0;
        while i < n
            invariant
                n == self.targets@.len(),
                i <= n,
                forall|k: int| 0 <= k < n ==> (#[trigger] self.targets@[k]).1 <= MAX_WEIGHT,
                forall|k: int, l: int, p: u128|
                    0 <= k < i && 0 <= l < n && self@[k].0 == name@ && self@[l].0 != name@
                        && #[trigger] walk::takes(self@[k], p) ==> !#[trigger] walk::takes(self@[l], p),
            decreases n - i,
        {
            let (target, weight) = (self.targets[i].0.as_str(), self.targets[i].1);
            assert(self@[i as int] == (target@, weight));
            if text::same(target, name) {
                let own = positions(target, weight);
                let mut j: usize = 0;
                while j < n
                    invariant
                        n == self.targets@.len(),
                        i < n,
                        j <= n,
                        self@[i as int].0 == name@,
                        lists_positions(own@, self@[i as int]),
                        forall|k: int|
                            0 <= k < n ==> (#[trigger] self.targets@[k]).1 <= MAX_WEIGHT,
                        forall|l: int, p: u128|
                            0 <= l < j && self@[l].0 != name@ && #[trigger] walk::takes(
                                self@[i as int],
                                p,
                            ) ==> !#[trigger] walk::takes(self@[l], p),
                    decreases n - j,
                {
                    let (other, weight) = (self.targets[j].0.as_str(), self.targets[j].1);
                    assert(self@[j as int] == (other@, weight));
                    if !text::same(other, name) {
                        let theirs = positions(other, weight);
                        proof {
                            assert forall|p: u128|
                                #![trigger walk::takes(self@[i as int], p)]
                                #![trigger walk::takes(self@[j as int], p)]
                                (own@.contains(p) <==> walk::takes(self@[i as int], p)) && (
                                theirs@.contains(p) <==> walk::takes(self@[j as int], p)) by {
                                lemma_lists(own@, self@[i as int], p);
                                lemma_lists(theirs@, self@[j as int], p);
                            }
                        }
                        if meet(&own, &theirs) {
                            proof {
                                let p = choose|p: u128| own@.contains(p) && theirs@.contains(p);
                                lemma_lists(own@, self@[i as int], p);
                                lemma_lists(theirs@, self@[j as int], p);
                            }
                            return false;
                        }
                    }
                    j = j + 1;
                }
            }
            i = i + 1;
        }
        true
    }
}

} // verus!
