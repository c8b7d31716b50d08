use vstd::prelude::*;
use crate::ids::{SortedIds, same_elements, lemma_sorted_unique_is_canonical};

verus! {

/// A membership snapshot: the ids of the cooperating nodes, sorted.
pub type Membership = SortedIds;

/// The partitions of the message stream, by key, sorted.
pub type PartitionSet = SortedIds;

/// The member that owns partition `p` when the sorted member list is
/// `members`: the partition key, taken modulo the number of members, picks
/// a position in the list.
pub open spec fn owner(members: Seq<u64>, p: u64) -> u64
    recommends
        members.len() > 0,
{
    members[(p as int) % (members.len() as int)]
}

/// Each partition, in order, paired with its owner. With no members no
/// partition is assigned.
pub open spec fn assignment(members: Seq<u64>, partitions: Seq<u64>) -> Seq<(u64, u64)> {
    if members.len() == 0 {
        Seq::empty()
    } else {
        partitions.map_values(|p: u64| (p, owner(members, p)))
    }
}

/// Whether partition `p` belongs to the node `me` under `members`.
pub open spec fn owned_by(members: Seq<u64>, p: u64, me: u64) -> bool {
    members.len() > 0 && owner(members, p) == me
}

/// The member that owns partition `p`.
pub fn owner_of(members: &Membership, p: u64) -> (r: u64)
    requires
        members@.len() > 0,
    ensures
        r == owner(members@, p),
{
    let n = members.len();
    let k: u64 = p % (n as u64);
    assert(k < n);
    members.get(k as usize)
}

/// Whether partition `p` belongs to the node `me`.
pub fn is_owned_by(members: &Membership, p: u64, me: u64) -> (r: bool)
    ensures
        r == owned_by(members@, p, me),
{
    if members.is_empty() {
        false
    } else {
        owner_of(members, p) == me
    }
}

/// Maps every partition to its owning member. An empty snapshot assigns
/// nothing.
pub fn assign(members: &Membership, partitions: &PartitionSet) -> (r: Vec<(u64, u64)>)
    ensures
        r@ == assignment(members@, partitions@),
{
    let mut r: Vec<(u64, u64)> = Vec::new();
    if members.is_empty() {
        assert(r@ =~= assignment(members@, partitions@));
        return r;
    }
    let ghost f = |p: u64| (p, owner(members@, p));
    let mut i: usize = 0;
    while i < partitions.len()
        invariant
            i <= partitions@.len(),
            members@.len() > 0,
            f == (|q: u64| (q, owner(members@, q))),
            r@ == partitions@.take(i as int).map_values(f),
        decreases partitions@.len() - i,
    {
        let p = partitions.get(i);
        let o = owner_of(members, p);
        r.push((p, o));
        assert(partitions@.take(i + 1) =~= partitions@.take(i as int).push(p));
        assert(partitions@.take(i + 1).map_values(f) =~= partitions@.take(i as int).map_values(
            f,
        ).push(f(p)));
        assert(f(p) == (p, o));
        assert(r@ =~= partitions@.take(i + 1).map_values(f));
        i += 1;
    }
    assert(partitions@.take(partitions@.len() as int) =~= partitions@);
    assert(r@ =~= assignment(members@, partitions@));
    r
}

/// Two nodes that were given the same members and the same partitions, each
/// in any order and with any repeats, compute the same assignment.
pub proof fn lemma_assignment_deterministic(
    members_a: Membership,
    members_b: Membership,
    parts_a: PartitionSet,
    parts_b: PartitionSet,
)
    requires
        members_a.wf(),
        members_b.wf(),
        parts_a.wf(),
        parts_b.wf(),
        same_elements(members_a@, members_b@),
        same_elements(parts_a@, parts_b@),
    ensures
        assignment(members_a@, parts_a@) == assignment(members_b@, parts_b@),
{
    lemma_sorted_unique_is_canonical(members_a@, members_b@);
    lemma_sorted_unique_is_canonical(parts_a@, parts_b@);
}

/// With at least one member, every partition appears in the assignment
/// exactly once, and each is owned by a member of the snapshot.
pub proof fn lemma_assignment_covers(m: Membership, p: PartitionSet)
    requires
        m.wf(),
        p.wf(),
        m@.len() > 0,
    ensures
        assignment(m@, p@).len() == p@.len(),
        forall|x: u64|
            p@.contains(x) ==> exists|i: int|
                0 <= i < p@.len() && (#[trigger] assignment(m@, p@)[i]).0 == x,
        forall|i: int, j: int|
            0 <= i < p@.len() && 0 <= j < p@.len() && (#[trigger] assignment(m@, p@)[i]).0
                == (#[trigger] assignment(m@, p@)[j]).0 ==> i == j,
        forall|i: int|
            0 <= i < p@.len() ==> p@.contains((#[trigger] assignment(m@, p@)[i]).0)
                && m@.contains(assignment(m@, p@)[i].1),
{
    let a = assignment(m@, p@);
    let n = m@.len() as int;
    assert forall|x: u64| p@.contains(x) implies exists|i: int|
        0 <= i < p@.len() && (#[trigger] assignment(m@, p@)[i]).0 == x by {
        let i = choose|i: int| 0 <= i < p@.len() && p@[i] == x;
        assert(a[i].0 == x);
    }
    assert forall|i: int, j: int|
        0 <= i < p@.len() && 0 <= j < p@.len() && (#[trigger] assignment(m@, p@)[i]).0
            == (#[trigger] assignment(m@, p@)[j]).0 implies i == j by {
        assert(a[i].0 == p@[i]);
        assert(a[j].0 == p@[j]);
    }
    assert forall|i: int| 0 <= i < p@.len() implies p@.contains(
        (#[trigger] assignment(m@, p@)[i]).0,
    ) && m@.contains(assignment(m@, p@)[i].1) by {
        assert(a[i].0 == p@[i]);
        let k = (p@[i] as int) % n;
        assert(0 <= k < n);
        assert(m@[k] == a[i].1);
    }
}

/// After member `x` leaves, recomputing hands every partition, those that
/// `x` owned included, to a member of the new snapshot, and none to `x`.
pub proof fn lemma_removal_reassigns_within(m: Membership, rest: Membership, x: u64, p: PartitionSet)
    requires
        m.wf(),
        rest.wf(),
        p.wf(),
        forall|y: u64| rest@.contains(y) <==> (m@.contains(y) && y != x),
        rest@.len() > 0,
    ensures
        forall|i: int|
            0 <= i < p@.len() ==> rest@.contains((#[trigger] assignment(rest@, p@)[i]).1)
                && assignment(rest@, p@)[i].1 != x,
{
    lemma_assignment_covers(rest, p);
}

} // verus!
