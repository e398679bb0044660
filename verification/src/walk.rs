//! How a ring of targets shares resources out.
//!
//! Every target has positions on the ring, and so has every resource. A walk up from a resource
//! meets its owners. This module says so over lists of targets, and what follows when a target is
//! pulled out.
use vstd::prelude::*;
use crate::text;

verus! {

/// `name` is one of the targets.
pub open spec fn is_target(targets: Seq<(Seq<char>, u32)>, name: Seq<char>) -> bool {
    exists|i: int| 0 <= i < targets.len() && (#[trigger] targets[i]).0 == name
}

/// The position on a plain ring that `flexihash::hash` gives a text.
pub uninterp spec fn ring_position(s: Seq<char>) -> u128;

/// The target hashes to the position `p`: its name followed by a number does, of which there are
/// 64 for each unit of its weight.
pub open spec fn takes(target: (Seq<char>, u32), p: u128) -> bool {
    exists|i: int|
        0 <= i < 64 * target.1 && p == #[trigger] ring_position(
            target.0 + text::decimal(i as nat),
        )
}

/// The target at `i` has the position `p`: it hashes to it, and no later target does.
pub open spec fn has_position(targets: Seq<(Seq<char>, u32)>, i: int, p: u128) -> bool {
    &&& takes(targets[i], p)
    &&& forall|j: int| i < j < targets.len() ==> !takes(#[trigger] targets[j], p)
}

/// The target `name` has the position `p`.
pub open spec fn held(targets: Seq<(Seq<char>, u32)>, name: Seq<char>, p: u128) -> bool {
    exists|i: int|
        0 <= i < targets.len() && (#[trigger] targets[i]).0 == name && has_position(targets, i, p)
}

/// The target `name` has a position on the ring.
pub open spec fn placed(targets: Seq<(Seq<char>, u32)>, name: Seq<char>) -> bool {
    exists|p: u128| held(targets, name, p)
}

/// On the way up the ring from `from`, and on from its lowest position after its highest, `p` comes
/// before `q`.
pub open spec fn sooner(from: u128, p: u128, q: u128) -> bool {
    if (p >= from) == (q >= from) {
        p < q
    } else {
        p >= from
    }
}

/// Past the targets `seen`, `name` is the first on the way up from `from`: it is not one of them,
/// and it has the position `p`, which comes before those of all further targets.
pub open spec fn ahead(
    targets: Seq<(Seq<char>, u32)>,
    from: u128,
    seen: Seq<Seq<char>>,
    name: Seq<char>,
    p: u128,
) -> bool {
    &&& !seen.contains(name)
    &&& held(targets, name, p)
    &&& forall|other: Seq<char>, q: u128| #[trigger]
        held(targets, other, q) && other != name && !seen.contains(other) ==> sooner(from, p, q)
}

/// Past the targets `seen`, `name` is the first on the way up from `from`.
pub open spec fn comes_next(
    targets: Seq<(Seq<char>, u32)>,
    from: u128,
    seen: Seq<Seq<char>>,
    name: Seq<char>,
) -> bool {
    exists|p: u128| ahead(targets, from, seen, name, p)
}

/// The owners are the targets that a walk up the ring from `from` meets, in that order, `count` of
/// them or as many as have a position.
pub open spec fn met(
    targets: Seq<(Seq<char>, u32)>,
    from: u128,
    owners: Seq<Seq<char>>,
    count: nat,
) -> bool {
    &&& owners.len() <= count
    &&& forall|k: int|
        0 <= k < owners.len() ==> comes_next(targets, from, owners.take(k), #[trigger] owners[k])
    &&& owners.len() < count ==> forall|name: Seq<char>| #[trigger]
        placed(targets, name) ==> owners.contains(name)
}

/// The owners of a resource, at most `count` of them: those that a walk up from the position of
/// the resource meets. A target that is alone owns everything.
pub open spec fn walked(
    targets: Seq<(Seq<char>, u32)>,
    resource: Seq<char>,
    owners: Seq<Seq<char>>,
    count: u32,
) -> bool {
    if targets.len() == 1 {
        owners == seq![targets[0].0]
    } else {
        met(targets, ring_position(resource), owners, count as nat)
    }
}

/// The owners of a resource, the first owner first, at most `count` of them. There is exactly one
/// such list: see [`lemma_owners`].
pub open spec fn ring_owners(
    targets: Seq<(Seq<char>, u32)>,
    resource: Seq<char>,
    count: u32,
) -> Seq<Seq<char>> {
    choose|owners: Seq<Seq<char>>| walked(targets, resource, owners, count)
}

/// `name` is a target that can own something: it has a position on the ring, or it is alone.
pub open spec fn can_own(targets: Seq<(Seq<char>, u32)>, name: Seq<char>) -> bool {
    placed(targets, name) || (targets.len() == 1 && targets[0].0 == name)
}

/// Some target can own something, so that everything has an owner.
pub open spec fn populated(targets: Seq<(Seq<char>, u32)>) -> bool {
    exists|i: int| 0 <= i < targets.len() && ((#[trigger] targets[i]).1 > 0 || targets.len() == 1)
}

/// The owners of a resource are different targets that can own something, at most `count` of them,
/// and fewer than that only where they are all that can. There is none only where no target can.
pub open spec fn sound_owners(
    targets: Seq<(Seq<char>, u32)>,
    owners: Seq<Seq<char>>,
    count: u32,
) -> bool {
    &&& owners.len() <= count
    &&& owners.no_duplicates()
    &&& forall|i: int| 0 <= i < owners.len() ==> can_own(targets, #[trigger] owners[i])
    &&& owners.len() > 0 <==> populated(targets)
    &&& owners.len() < count ==> forall|name: Seq<char>| #[trigger]
        can_own(targets, name) ==> owners.contains(name)
}

/// No two targets have the same name.
pub open spec fn distinct(targets: Seq<(Seq<char>, u32)>) -> bool {
    forall|i: int, j: int|
        0 <= i < j < targets.len() ==> (#[trigger] targets[i]).0 != (#[trigger] targets[j]).0
}

/// The target `name` shares no position with another one.
pub open spec fn apart(targets: Seq<(Seq<char>, u32)>, name: Seq<char>) -> bool {
    forall|i: int, j: int, p: u128|
        0 <= i < targets.len() && 0 <= j < targets.len() && targets[i].0 == name && targets[j].0
            != name && #[trigger] takes(targets[i], p) ==> !#[trigger] takes(targets[j], p)
}

/// When the target at `i` is pulled out, what it had goes to `heir`, or to nobody, or it lies behind
/// a position of `heir` on the way up from the resource.
pub open spec fn yields(
    targets: Seq<(Seq<char>, u32)>,
    i: int,
    heir: Seq<char>,
    resource: Seq<char>,
) -> bool {
    forall|j: int, q: u128|
        0 <= j < i && targets[j].0 != heir && has_position(targets, i, q)
            && #[trigger] has_position(targets.remove(i), j, q) ==> exists|p: u128|
            held(targets.remove(i), heir, p) && #[trigger] sooner(ring_position(resource), p, q)
}

/// How far up from `from` the position lies, around the end of the ring.
spec fn way(from: u128, p: u128) -> int {
    if p >= from {
        p as int
    } else {
        p + u128::MAX + 1
    }
}

/// A position has one target.
proof fn lemma_one_holder(targets: Seq<(Seq<char>, u32)>, a: Seq<char>, b: Seq<char>, p: u128)
    requires
        held(targets, a, p),
        held(targets, b, p),
    ensures
        a == b,
{
    let i = choose|i: int|
        0 <= i < targets.len() && (#[trigger] targets[i]).0 == a && has_position(targets, i, p);
    let j = choose|j: int|
        0 <= j < targets.len() && (#[trigger] targets[j]).0 == b && has_position(targets, j, p);
    assert(!(i < j) && !(j < i)) by {
        assert(takes(targets[i], p) && takes(targets[j], p));
    }
}

/// Where some target is left, one of them is the first.
proof fn lemma_next_exists(
    targets: Seq<(Seq<char>, u32)>,
    from: u128,
    seen: Seq<Seq<char>>,
    name: Seq<char>,
    p: u128,
)
    requires
        held(targets, name, p),
        !seen.contains(name),
    ensures
        exists|first: Seq<char>| comes_next(targets, from, seen, first),
    decreases way(from, p),
{
    if exists|other: Seq<char>, q: u128|
        #[trigger] held(targets, other, q) && !seen.contains(other) && way(from, q) < way(from, p) {
        let (other, q) = choose|other: Seq<char>, q: u128|
            #[trigger] held(targets, other, q) && !seen.contains(other) && way(from, q) < way(from, p);
        lemma_next_exists(targets, from, seen, other, q);
    } else {
        assert forall|other: Seq<char>, q: u128| #[trigger]
            held(targets, other, q) && other != name && !seen.contains(other) implies sooner(
            from,
            p,
            q,
        ) by {
            if q == p {
                lemma_one_holder(targets, name, other, p);
            }
        }
        assert(ahead(targets, from, seen, name, p));
        assert(comes_next(targets, from, seen, name));
    }
}

/// Only one target is the first.
proof fn lemma_next_unique(
    targets: Seq<(Seq<char>, u32)>,
    from: u128,
    seen: Seq<Seq<char>>,
    a: Seq<char>,
    b: Seq<char>,
)
    requires
        comes_next(targets, from, seen, a),
        comes_next(targets, from, seen, b),
    ensures
        a == b,
{
    let p = choose|p: u128| ahead(targets, from, seen, a, p);
    let q = choose|q: u128| ahead(targets, from, seen, b, q);
    if a != b {
        assert(sooner(from, p, q));
        assert(sooner(from, q, p));
    }
}

/// A walk meets some list of targets.
proof fn lemma_met_exists(targets: Seq<(Seq<char>, u32)>, from: u128, count: nat)
    ensures
        exists|owners: Seq<Seq<char>>| met(targets, from, owners, count),
    decreases count,
{
    if count == 0 {
        assert(met(targets, from, Seq::<Seq<char>>::empty(), 0));
    } else {
        let fewer = (count - 1) as nat;
        lemma_met_exists(targets, from, fewer);
        let short = choose|owners: Seq<Seq<char>>| met(targets, from, owners, fewer);
        if forall|name: Seq<char>| #[trigger] placed(targets, name) ==> short.contains(name) {
            assert(met(targets, from, short, count));
        } else {
            let name = choose|name: Seq<char>| #[trigger]
                placed(targets, name) && !short.contains(name);
            let p = choose|p: u128| held(targets, name, p);
            lemma_next_exists(targets, from, short, name, p);
            let first = choose|first: Seq<char>| comes_next(targets, from, short, first);
            let owners = short.push(first);
            assert forall|k: int| 0 <= k < owners.len() implies comes_next(
                targets,
                from,
                owners.take(k),
                #[trigger] owners[k],
            ) by {
                if k < short.len() {
                    assert(owners.take(k) =~= short.take(k));
                    assert(owners[k] == short[k]);
                } else {
                    assert(owners.take(k) =~= short);
                }
            }
            assert(met(targets, from, owners, count));
        }
    }
}

/// The targets that a walk meets are different.
proof fn lemma_met_different(
    targets: Seq<(Seq<char>, u32)>,
    from: u128,
    owners: Seq<Seq<char>>,
    count: nat,
)
    requires
        met(targets, from, owners, count),
    ensures
        owners.no_duplicates(),
        forall|k: int| 0 <= k < owners.len() ==> placed(targets, #[trigger] owners[k]),
{
    assert forall|k: int| 0 <= k < owners.len() implies placed(targets, #[trigger] owners[k])
        && !owners.take(k).contains(owners[k]) by {
        assert(comes_next(targets, from, owners.take(k), owners[k]));
        let p = choose|p: u128| ahead(targets, from, owners.take(k), owners[k], p);
        assert(held(targets, owners[k], p));
    }
    assert forall|i: int, j: int| 0 <= i < j < owners.len() implies owners[i] != owners[j] by {
        assert(owners.take(j)[i] == owners[i]);
        assert(!owners.take(j).contains(owners[j]));
    }
}

/// Two lists that a walk meets agree as far as both go.
proof fn lemma_met_agree(
    targets: Seq<(Seq<char>, u32)>,
    from: u128,
    a: Seq<Seq<char>>,
    b: Seq<Seq<char>>,
    count: nat,
    k: int,
)
    requires
        met(targets, from, a, count),
        met(targets, from, b, count),
        0 <= k <= a.len(),
        k <= b.len(),
    ensures
        a.take(k) == b.take(k),
    decreases k,
{
    if k > 0 {
        lemma_met_agree(targets, from, a, b, count, k - 1);
        assert(comes_next(targets, from, a.take(k - 1), a[k - 1]));
        assert(comes_next(targets, from, b.take(k - 1), b[k - 1]));
        lemma_next_unique(targets, from, a.take(k - 1), a[k - 1], b[k - 1]);
        assert(a.take(k) =~= a.take(k - 1).push(a[k - 1]));
        assert(b.take(k) =~= b.take(k - 1).push(b[k - 1]));
    } else {
        assert(a.take(0) =~= b.take(0));
    }
}

/// A list that a walk meets is not a part of a longer one.
proof fn lemma_met_no_longer(
    targets: Seq<(Seq<char>, u32)>,
    from: u128,
    a: Seq<Seq<char>>,
    b: Seq<Seq<char>>,
    count: nat,
)
    requires
        met(targets, from, a, count),
        met(targets, from, b, count),
    ensures
        b.len() <= a.len(),
{
    if a.len() < b.len() {
        let n = a.len() as int;
        lemma_met_agree(targets, from, a, b, count, n);
        lemma_met_different(targets, from, b, count);
        assert(placed(targets, b[n]));
        assert(a.contains(b[n]));
        assert(a.take(n) =~= a);
        let m = a.index_of(b[n]);
        assert(b.take(n)[m] == b[m]);
    }
}

/// Every resource has exactly one list of owners.
pub proof fn lemma_owners(
    targets: Seq<(Seq<char>, u32)>,
    resource: Seq<char>,
    owners: Seq<Seq<char>>,
    count: u32,
)
    ensures
        walked(targets, resource, ring_owners(targets, resource, count), count),
        walked(targets, resource, owners, count) ==> owners == ring_owners(
            targets,
            resource,
            count,
        ),
{
    let from = ring_position(resource);
    if targets.len() == 1 {
        assert(walked(targets, resource, seq![targets[0].0], count));
    } else {
        lemma_met_exists(targets, from, count as nat);
        let some = choose|o: Seq<Seq<char>>| met(targets, from, o, count as nat);
        assert(walked(targets, resource, some, count));
        if walked(targets, resource, owners, count) {
            let those = ring_owners(targets, resource, count);
            lemma_met_no_longer(targets, from, owners, those, count as nat);
            lemma_met_no_longer(targets, from, those, owners, count as nat);
            lemma_met_agree(targets, from, owners, those, count as nat, owners.len() as int);
            assert(owners.take(owners.len() as int) =~= owners);
            assert(those.take(owners.len() as int) =~= those);
        }
    }
}

/// Some target with a weight has a position: the last one.
proof fn lemma_weight_placed(targets: Seq<(Seq<char>, u32)>, i: int)
    requires
        0 <= i < targets.len(),
        targets[i].1 > 0,
    ensures
        exists|name: Seq<char>| placed(targets, name),
    decreases targets.len() - i,
{
    if exists|j: int| i < j < targets.len() && (#[trigger] targets[j]).1 > 0 {
        let j = choose|j: int| i < j < targets.len() && (#[trigger] targets[j]).1 > 0;
        lemma_weight_placed(targets, j);
    } else {
        let first: int = 0;
        let p = ring_position(targets[i].0 + text::decimal(first as nat));
        assert(takes(targets[i], p));
        assert(has_position(targets, i, p));
        assert(held(targets, targets[i].0, p));
        assert(placed(targets, targets[i].0));
    }
}

/// The owners of a resource are different targets, and as many as were asked for, unless fewer can
/// own something.
pub proof fn law_owners_sound(targets: Seq<(Seq<char>, u32)>, resource: Seq<char>, count: u32)
    requires
        count > 0,
    ensures
        sound_owners(targets, ring_owners(targets, resource, count), count),
{
    let owners = ring_owners(targets, resource, count);
    lemma_owners(targets, resource, owners, count);
    if targets.len() == 1 {
        assert(owners[0] == targets[0].0);
        assert(can_own(targets, owners[0]));
        assert forall|name: Seq<char>| #[trigger] can_own(targets, name) implies owners.contains(
            name,
        ) by {
            if placed(targets, name) {
                let p = choose|p: u128| held(targets, name, p);
                assert(held(targets, name, p));
            }
            assert(owners[0] == name);
        }
    } else {
        lemma_met_different(targets, ring_position(resource), owners, count as nat);
        assert forall|i: int| 0 <= i < owners.len() implies can_own(targets, #[trigger] owners[i]) by {
            assert(placed(targets, owners[i]));
        }
        if owners.len() > 0 {
            let p = choose|p: u128| held(targets, owners[0], p);
            assert(placed(targets, owners[0]));
            assert(held(targets, owners[0], p));
            let i = choose|i: int|
                0 <= i < targets.len() && (#[trigger] targets[i]).0 == owners[0] && has_position(
                    targets,
                    i,
                    p,
                );
            assert(takes(targets[i], p));
            assert(targets[i].1 > 0);
        }
        if populated(targets) {
            let i = choose|i: int|
                0 <= i < targets.len() && ((#[trigger] targets[i]).1 > 0 || targets.len() == 1);
            lemma_weight_placed(targets, i);
            let name = choose|name: Seq<char>| placed(targets, name);
            assert(owners.len() < count ==> owners.contains(name));
        }
    }
}

/// Where a target goes in the list when the one at `i` is pulled out.
spec fn after_pull(i: int, j: int) -> int {
    if j < i {
        j
    } else {
        j - 1
    }
}

/// A target keeps its positions when another is pulled out.
proof fn lemma_keeps(targets: Seq<(Seq<char>, u32)>, i: int, name: Seq<char>, p: u128)
    requires
        0 <= i < targets.len(),
        held(targets, name, p),
        targets[i].0 != name,
    ensures
        held(targets.remove(i), name, p),
{
    let rest = targets.remove(i);
    let j = choose|j: int|
        0 <= j < targets.len() && (#[trigger] targets[j]).0 == name && has_position(targets, j, p);
    let k = after_pull(i, j);
    assert(rest[k] == targets[j]);
    assert forall|l: int| k < l < rest.len() implies !takes(#[trigger] rest[l], p) by {
        if l < i {
            assert(rest[l] == targets[l]);
        } else {
            assert(rest[l] == targets[l + 1]);
        }
    }
    assert(has_position(rest, k, p));
}

/// A position that a target has when the one at `i` is pulled out, it had before, or the one that
/// is pulled out had it, and stood after it in the list.
proof fn lemma_released(targets: Seq<(Seq<char>, u32)>, i: int, k: int, p: u128)
    requires
        0 <= i < targets.len(),
        0 <= k < targets.remove(i).len(),
        has_position(targets.remove(i), k, p),
    ensures
        held(targets, targets.remove(i)[k].0, p) || (k < i && has_position(targets, i, p)),
{
    let rest = targets.remove(i);
    let j = if k < i {
        k
    } else {
        k + 1
    };
    assert(rest[k] == targets[j]);
    assert forall|l: int| j < l < targets.len() && l != i implies !takes(#[trigger] targets[l], p) by {
        assert(rest[after_pull(i, l)] == targets[l]);
    }
    if j < i && takes(targets[i], p) {
        assert(has_position(targets, i, p));
    } else {
        assert(has_position(targets, j, p));
        assert(held(targets, targets[j].0, p));
    }
}

/// The same, for the name of the target.
proof fn lemma_released_to(targets: Seq<(Seq<char>, u32)>, i: int, name: Seq<char>, p: u128)
    requires
        0 <= i < targets.len(),
        held(targets.remove(i), name, p),
    ensures
        held(targets, name, p) || held(targets, targets[i].0, p),
{
    let rest = targets.remove(i);
    let k = choose|k: int|
        0 <= k < rest.len() && (#[trigger] rest[k]).0 == name && has_position(rest, k, p);
    lemma_released(targets, i, k, p);
}

/// A target that comes next in spite of the one at `i` comes next without it.
proof fn lemma_next_without(
    targets: Seq<(Seq<char>, u32)>,
    from: u128,
    seen: Seq<Seq<char>>,
    name: Seq<char>,
    i: int,
)
    requires
        0 <= i < targets.len(),
        targets[i].0 != name,
        !seen.contains(targets[i].0),
        comes_next(targets, from, seen, name),
    ensures
        comes_next(targets.remove(i), from, seen, name),
{
    let rest = targets.remove(i);
    let p = choose|p: u128| ahead(targets, from, seen, name, p);
    lemma_keeps(targets, i, name, p);
    assert forall|other: Seq<char>, q: u128| #[trigger]
        held(rest, other, q) && other != name && !seen.contains(other) implies sooner(
        from,
        p,
        q,
    ) by {
        lemma_released_to(targets, i, other, q);
    }
    assert(ahead(rest, from, seen, name, p));
}

/// An owner is one of the targets.
pub proof fn lemma_owner_is_target(
    targets: Seq<(Seq<char>, u32)>,
    resource: Seq<char>,
    count: u32,
    k: int,
) -> (i: int)
    requires
        count > 0,
        0 <= k < ring_owners(targets, resource, count).len(),
    ensures
        0 <= i < targets.len(),
        targets[i].0 == ring_owners(targets, resource, count)[k],
{
    let owners = ring_owners(targets, resource, count);
    law_owners_sound(targets, resource, count);
    assert(can_own(targets, owners[k]));
    if placed(targets, owners[k]) {
        let p = choose|p: u128| held(targets, owners[k], p);
        choose|i: int|
            0 <= i < targets.len() && (#[trigger] targets[i]).0 == owners[k] && has_position(
                targets,
                i,
                p,
            )
    } else {
        0
    }
}

/// What a target does not own it can be pulled out of: the owners stay as they are.
pub proof fn law_others_stay(
    targets: Seq<(Seq<char>, u32)>,
    resource: Seq<char>,
    count: u32,
    i: int,
)
    requires
        count > 0,
        0 <= i < targets.len(),
        ring_owners(targets, resource, count).len() > 0,
        !ring_owners(targets, resource, count).contains(targets[i].0),
    ensures
        ring_owners(targets.remove(i), resource, count) == ring_owners(targets, resource, count),
{
    let from = ring_position(resource);
    let rest = targets.remove(i);
    let owners = ring_owners(targets, resource, count);
    lemma_owners(targets, resource, owners, count);
    law_owners_sound(targets, resource, count);
    if targets.len() == 1 {
        assert(owners[0] == targets[0].0);
    } else if rest.len() == 1 {
        assert forall|k: int| 0 <= k < owners.len() implies owners[k] == rest[0].0 by {
            let j = lemma_owner_is_target(targets, resource, count, k);
            assert(rest[after_pull(i, j)] == targets[j]);
        }
        if owners.len() > 1 {
            assert(owners[0] == owners[1]);
        }
        assert(owners =~= seq![rest[0].0]);
    } else {
        assert forall|k: int| 0 <= k < owners.len() implies comes_next(
            rest,
            from,
            owners.take(k),
            #[trigger] owners[k],
        ) by {
            assert(comes_next(targets, from, owners.take(k), owners[k]));
            lemma_next_without(targets, from, owners.take(k), owners[k], i);
        }
        assert forall|name: Seq<char>| #[trigger] placed(rest, name) && owners.len()
            < count implies owners.contains(name) by {
            let p = choose|p: u128| held(rest, name, p);
            lemma_released_to(targets, i, name, p);
            if held(targets, name, p) {
                assert(placed(targets, name));
            } else {
                assert(placed(targets, targets[i].0));
            }
        }
        assert(met(rest, from, owners, count as nat));
    }
    lemma_owners(rest, resource, owners, count);
}

/// The target that comes first on a ring is the first owner.
proof fn lemma_first(targets: Seq<(Seq<char>, u32)>, resource: Seq<char>, count: u32, name: Seq<char>)
    requires
        count > 0,
        targets.len() != 1,
        comes_next(targets, ring_position(resource), Seq::<Seq<char>>::empty(), name),
    ensures
        ring_owners(targets, resource, count).len() > 0,
        ring_owners(targets, resource, count)[0] == name,
{
    let from = ring_position(resource);
    let none = Seq::<Seq<char>>::empty();
    let owners = ring_owners(targets, resource, count);
    lemma_owners(targets, resource, owners, count);
    let p = choose|p: u128| ahead(targets, from, none, name, p);
    assert(held(targets, name, p));
    assert(placed(targets, name));
    assert(owners.len() > 0);
    assert(owners.take(0) =~= none);
    assert(comes_next(targets, from, owners.take(0), owners[0]));
    lemma_next_unique(targets, from, none, owners[0], name);
}

/// The first owner stays the first when any other target is pulled out.
pub proof fn law_first_stays(
    targets: Seq<(Seq<char>, u32)>,
    resource: Seq<char>,
    count: u32,
    i: int,
    after: u32,
)
    requires
        count > 0,
        after > 0,
        0 <= i < targets.len(),
        ring_owners(targets, resource, count).len() > 0,
        ring_owners(targets, resource, count)[0] != targets[i].0,
    ensures
        ring_owners(targets.remove(i), resource, after).len() > 0,
        ring_owners(targets.remove(i), resource, after)[0] == ring_owners(
            targets,
            resource,
            count,
        )[0],
{
    let from = ring_position(resource);
    let rest = targets.remove(i);
    let none = Seq::<Seq<char>>::empty();
    let owners = ring_owners(targets, resource, count);
    lemma_owners(targets, resource, owners, count);
    lemma_owners(rest, resource, owners, after);
    if targets.len() == 1 {
        assert(owners[0] == targets[0].0);
    } else if rest.len() == 1 {
        let j = lemma_owner_is_target(targets, resource, count, 0);
        assert(rest[after_pull(i, j)] == targets[j]);
    } else {
        assert(owners.take(0) =~= none);
        assert(comes_next(targets, from, owners.take(0), owners[0]));
        lemma_next_without(targets, from, none, owners[0], i);
        lemma_first(rest, resource, after, owners[0]);
    }
}

/// A target has a position that comes before all its others.
proof fn lemma_own_first(targets: Seq<(Seq<char>, u32)>, from: u128, name: Seq<char>, p: u128) -> (r:
    u128)
    requires
        held(targets, name, p),
    ensures
        held(targets, name, r),
        forall|q: u128| #[trigger] held(targets, name, q) ==> way(from, r) <= way(from, q),
    decreases way(from, p),
{
    if exists|q: u128| #[trigger] held(targets, name, q) && way(from, q) < way(from, p) {
        let q = choose|q: u128| #[trigger] held(targets, name, q) && way(from, q) < way(from, p);
        lemma_own_first(targets, from, name, q)
    } else {
        p
    }
}

/// When the first owner is pulled out, the second takes its place, exactly where what the first had
/// goes to the second, or lies behind a position of the second.
pub proof fn law_second_succeeds(
    targets: Seq<(Seq<char>, u32)>,
    resource: Seq<char>,
    count: u32,
    i: int,
    after: u32,
)
    requires
        distinct(targets),
        count > 0,
        after > 0,
        0 <= i < targets.len(),
        ring_owners(targets, resource, count).len() > 1,
        ring_owners(targets, resource, count)[0] == targets[i].0,
    ensures
        ring_owners(targets.remove(i), resource, after).len() > 0,
        ring_owners(targets.remove(i), resource, after)[0] == ring_owners(
            targets,
            resource,
            count,
        )[1] <==> yields(targets, i, ring_owners(targets, resource, count)[1], resource),
{
    let from = ring_position(resource);
    let rest = targets.remove(i);
    let none = Seq::<Seq<char>>::empty();
    let owners = ring_owners(targets, resource, count);
    let new = ring_owners(rest, resource, after);
    let gone = targets[i].0;
    let heir = owners[1];
    lemma_owners(targets, resource, owners, count);
    lemma_owners(rest, resource, new, after);
    law_owners_sound(targets, resource, count);
    law_owners_sound(rest, resource, after);
    assert(targets.len() != 1);
    assert(owners.take(1) =~= seq![gone]);
    assert(comes_next(targets, from, owners.take(1), owners[1]));
    let seen = owners.take(1);
    let p0 = choose|p: u128| ahead(targets, from, seen, heir, p);
    assert(seen[0] == gone);
    assert(heir != gone);
    lemma_keeps(targets, i, heir, p0);
    let h = lemma_owner_is_target(targets, resource, count, 1);
    if rest.len() == 1 {
        assert(rest[after_pull(i, h)] == targets[h]);
        assert(new[0] == heir);
        assert forall|j: int, q: u128|
            0 <= j < i && targets[j].0 != heir && has_position(targets, i, q)
                && #[trigger] has_position(rest, j, q) implies exists|p: u128|
            held(rest, heir, p) && #[trigger] sooner(from, p, q) by {
            assert(rest[j] == targets[j]);
        }
    } else {
        if yields(targets, i, heir, resource) {
            let p = lemma_own_first(rest, from, heir, p0);
            assert forall|other: Seq<char>, q: u128| #[trigger]
                held(rest, other, q) && other != heir && !none.contains(other) implies sooner(
                from,
                p,
                q,
            ) by {
                let k = choose|k: int|
                    0 <= k < rest.len() && (#[trigger] rest[k]).0 == other && has_position(
                        rest,
                        k,
                        q,
                    );
                lemma_released(targets, i, k, q);
                if held(targets, other, q) {
                    let j = if k < i {
                        k
                    } else {
                        k + 1
                    };
                    assert(rest[k] == targets[j]);
                    assert(other != gone);
                    assert(!seen.contains(other));
                    assert(sooner(from, p0, q));
                    assert(way(from, p) <= way(from, p0));
                } else {
                    assert(rest[k] == targets[k]);
                    let better = choose|b: u128|
                        held(rest, heir, b) && #[trigger] sooner(from, b, q);
                    assert(way(from, p) <= way(from, better));
                }
            }
            assert(ahead(rest, from, none, heir, p));
            assert(comes_next(rest, from, none, heir));
            lemma_first(rest, resource, after, heir);
        }
        assert(placed(rest, heir));
        assert(can_own(rest, heir));
        assert(new.len() > 0);
        if new[0] == heir {
            assert(new.take(0) =~= none);
            assert(comes_next(rest, from, new.take(0), new[0]));
            let p = choose|p: u128| ahead(rest, from, none, heir, p);
            assert forall|j: int, q: u128|
                0 <= j < i && targets[j].0 != heir && has_position(targets, i, q)
                    && #[trigger] has_position(rest, j, q) implies exists|b: u128|
                held(rest, heir, b) && #[trigger] sooner(from, b, q) by {
                assert(rest[j] == targets[j]);
                assert(held(rest, rest[j].0, q));
                assert(sooner(from, p, q));
            }
        }
    }
}

/// A target that shares no position with an earlier one yields all it had to those that come next.
pub proof fn law_apart_yields(
    targets: Seq<(Seq<char>, u32)>,
    i: int,
    heir: Seq<char>,
    resource: Seq<char>,
)
    requires
        distinct(targets),
        0 <= i < targets.len(),
    ensures
        apart(targets, targets[i].0) ==> yields(targets, i, heir, resource),
        (forall|j: int, p: u128|
            0 <= j < i && #[trigger] takes(targets[i], p) ==> !#[trigger] takes(targets[j], p))
            ==> yields(targets, i, heir, resource),
{
    let rest = targets.remove(i);
    if !yields(targets, i, heir, resource) {
        let (j, q) = choose|j: int, q: u128|
            0 <= j < i && targets[j].0 != heir && has_position(targets, i, q)
                && #[trigger] has_position(rest, j, q) && !(exists|p: u128|
                held(rest, heir, p) && #[trigger] sooner(ring_position(resource), p, q));
        assert(rest[j] == targets[j]);
        assert(takes(targets[i], q) && takes(targets[j], q));
    }
}

/// A target with a weight that shares no position with another one has a position.
pub proof fn law_apart_is_placed(targets: Seq<(Seq<char>, u32)>, i: int)
    requires
        0 <= i < targets.len(),
        targets[i].1 > 0,
        distinct(targets),
    ensures
        apart(targets, targets[i].0) ==> placed(targets, targets[i].0),
{
    let first: int = 0;
    let p = ring_position(targets[i].0 + text::decimal(first as nat));
    assert(takes(targets[i], p));
    if apart(targets, targets[i].0) {
        assert(has_position(targets, i, p));
        assert(held(targets, targets[i].0, p));
    }
}

} // verus!
