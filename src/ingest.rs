use vstd::prelude::*;
use crate::assignment::{is_owned_by, owned_by, Membership, PartitionSet};
use crate::ids::SortedIds;

verus! {

/// Where this node stands with one partition.
#[derive(Clone, Copy, Debug, PartialEq, Eq, Structural)]
pub enum Phase {
    /// Not assigned here; no cursor is open.
    Unowned,
    /// Assigned here; records are read and decoded.
    Consuming,
    /// No longer assigned here; no new reads, but decoded records are still
    /// on their way downstream.
    Draining,
}

/// The ingest actor's record of one partition.
#[derive(Clone, Copy, Debug, PartialEq, Eq, Structural)]
pub struct PartitionSlot {
    pub partition: u64,
    pub phase: Phase,
    /// Offset of the next record to read.
    pub cursor: u64,
    /// Offset from which a restart resumes: every record before it has been
    /// handed off downstream or skipped.
    pub committed: u64,
    /// Decoded records not yet handed off downstream.
    pub in_flight: u64,
}

/// One decoded record, ready for the scheduler.
#[derive(Clone, Debug, PartialEq, Eq)]
pub struct WorkItem {
    pub partition: u64,
    pub offset: u64,
    pub payload: Vec<u8>,
}

/// What became of a record read from a partition.
#[derive(Clone, Debug, PartialEq, Eq)]
pub enum RecordOutcome {
    /// Decoded: the work item goes downstream.
    Emit(WorkItem),
    /// Malformed: it is passed over and reported; the partition goes on.
    Skipped { partition: u64, offset: u64 },
    /// The partition is not being consumed here; the record is not taken.
    Ignored,
    /// The cursor is at the last representable offset.
    Exhausted,
}

/// The bookkeeping facts that hold of a slot in every phase.
pub open spec fn slot_ok(s: PartitionSlot) -> bool {
    &&& s.phase == Phase::Unowned ==> s.in_flight == 0
    &&& s.phase == Phase::Draining ==> s.in_flight > 0
    &&& s.committed <= s.cursor
    &&& s.in_flight <= s.cursor
}

/// The slot once a snapshot says whether the partition is `owned` here. A
/// newly owned partition reopens at its committed offset; one that is lost
/// drains while decoded records are in flight and is released after; a
/// draining partition that comes back resumes where it stopped.
pub open spec fn after_snapshot(s: PartitionSlot, owned: bool) -> PartitionSlot {
    match s.phase {
        Phase::Unowned => if owned {
            PartitionSlot { phase: Phase::Consuming, cursor: s.committed, ..s }
        } else {
            s
        },
        Phase::Consuming => if owned {
            s
        } else if s.in_flight > 0 {
            PartitionSlot { phase: Phase::Draining, ..s }
        } else {
            PartitionSlot { phase: Phase::Unowned, cursor: s.committed, ..s }
        },
        Phase::Draining => if owned {
            PartitionSlot { phase: Phase::Consuming, ..s }
        } else {
            s
        },
    }
}

/// A new snapshot never drops a decoded record: the count in flight is kept,
/// a partition with records in flight is never released, and one that is
/// lost while consuming moves to draining, or straight to unowned when
/// nothing is in flight.
pub proof fn lemma_snapshot_keeps_in_flight(s: PartitionSlot, owned: bool)
    requires
        slot_ok(s),
    ensures
        slot_ok(after_snapshot(s, owned)),
        after_snapshot(s, owned).in_flight == s.in_flight,
        after_snapshot(s, owned).committed == s.committed,
        s.in_flight > 0 ==> after_snapshot(s, owned).phase != Phase::Unowned,
        s.phase == Phase::Consuming && !owned ==> after_snapshot(s, owned).phase == (if s.in_flight
            > 0 {
            Phase::Draining
        } else {
            Phase::Unowned
        }),
{
}

/// What a record read at the slot's cursor comes to: `decoded` is its
/// payload, or `None` when it could not be decoded.
pub open spec fn record_outcome(s: PartitionSlot, decoded: Option<Vec<u8>>) -> RecordOutcome {
    if s.phase != Phase::Consuming {
        RecordOutcome::Ignored
    } else if s.cursor == u64::MAX {
        RecordOutcome::Exhausted
    } else {
        match decoded {
            Some(payload) => RecordOutcome::Emit(
                WorkItem { partition: s.partition, offset: s.cursor, payload },
            ),
            None => RecordOutcome::Skipped { partition: s.partition, offset: s.cursor },
        }
    }
}

/// The slot after a record was read at its cursor. A skipped record is
/// committed at once when nothing before it is still in flight.
pub open spec fn after_record(s: PartitionSlot, decoded: Option<Vec<u8>>) -> PartitionSlot {
    if s.phase != Phase::Consuming || s.cursor == u64::MAX {
        s
    } else if decoded is Some {
        PartitionSlot { cursor: (s.cursor + 1) as u64, in_flight: (s.in_flight + 1) as u64, ..s }
    } else if s.in_flight == 0 {
        PartitionSlot { cursor: (s.cursor + 1) as u64, committed: (s.cursor + 1) as u64, ..s }
    } else {
        PartitionSlot { cursor: (s.cursor + 1) as u64, ..s }
    }
}

/// Whether a hand-off of the record at `offset` fits the slot: a record was
/// decoded there and is still in flight.
pub open spec fn handoff_accepted(s: PartitionSlot, offset: u64) -> bool {
    s.phase != Phase::Unowned && s.in_flight > 0 && s.committed <= offset < s.cursor
}

/// The slot after the record at `offset` was handed off downstream. The last
/// record of a draining partition releases it.
pub open spec fn after_handoff(s: PartitionSlot, offset: u64) -> PartitionSlot {
    if !handoff_accepted(s, offset) {
        s
    } else {
        let committed = (offset + 1) as u64;
        if s.phase == Phase::Draining && s.in_flight == 1 {
            PartitionSlot {
                phase: Phase::Unowned,
                cursor: committed,
                committed,
                in_flight: 0,
                ..s
            }
        } else {
            PartitionSlot { committed, in_flight: (s.in_flight - 1) as u64, ..s }
        }
    }
}

/// The ingest actor's decisions: which partitions it consumes, which it
/// drains and releases, what each record read becomes, and what offset is
/// committed once work is handed off.
pub struct Ingest {
    me: u64,
    partitions: PartitionSet,
    slots: Vec<PartitionSlot>,
}

impl View for Ingest {
    type V = Seq<PartitionSlot>;

    closed spec fn view(&self) -> Seq<PartitionSlot> {
        self.slots@
    }
}

fn snapshot_step(s: PartitionSlot, owned: bool) -> (r: PartitionSlot)
    ensures
        r == after_snapshot(s, owned),
{
    match s.phase {
        Phase::Unowned => if owned {
            PartitionSlot { phase: Phase::Consuming, cursor: s.committed, ..s }
        } else {
            s
        },
        Phase::Consuming => if owned {
            s
        } else if s.in_flight > 0 {
            PartitionSlot { phase: Phase::Draining, ..s }
        } else {
            PartitionSlot { phase: Phase::Unowned, cursor: s.committed, ..s }
        },
        Phase::Draining => if owned {
            PartitionSlot { phase: Phase::Consuming, ..s }
        } else {
            s
        },
    }
}

impl Ingest {
    /// This node's member id.
    pub closed spec fn node(&self) -> u64 {
        self.me
    }

    /// The partitions of the stream, in increasing order.
    pub closed spec fn partition_keys(&self) -> Seq<u64> {
        self.partitions@
    }

    pub open spec fn wf(&self) -> bool {
        &&& crate::ids::strictly_sorted(self.partition_keys())
        &&& self@.len() == self.partition_keys().len()
        &&& forall|i: int|
            0 <= i < self@.len() ==> (#[trigger] self@[i]).partition == self.partition_keys()[i]
                && slot_ok(self@[i])
    }

    /// An actor for node `me` over `partitions`, owning none of them yet,
    /// with every partition to be read from offset 0.
    pub fn new(me: u64, partitions: PartitionSet) -> (r: Ingest)
        requires
            partitions.wf(),
        ensures
            r.wf(),
            r.node() == me,
            r.partition_keys() == partitions@,
            forall|i: int|
                0 <= i < r@.len() ==> (#[trigger] r@[i]) == (PartitionSlot {
                    partition: partitions@[i],
                    phase: Phase::Unowned,
                    cursor: 0,
                    committed: 0,
                    in_flight: 0,
                }),
    {
        let mut slots: Vec<PartitionSlot> = Vec::new();
        let mut i: usize = 0;
        while i < partitions.len()
            invariant
                i <= partitions@.len(),
                slots@.len() == i,
                forall|k: int|
                    0 <= k < i ==> (#[trigger] slots@[k]) == (PartitionSlot {
                        partition: partitions@[k],
                        phase: Phase::Unowned,
                        cursor: 0,
                        committed: 0,
                        in_flight: 0,
                    }),
            decreases partitions@.len() - i,
        {
            slots.push(
                PartitionSlot {
                    partition: partitions.get(i),
                    phase: Phase::Unowned,
                    cursor: 0,
                    committed: 0,
                    in_flight: 0,
                },
            );
            i += 1;
        }
        Ingest { me, partitions, slots }
    }

    pub fn me(&self) -> (r: u64)
        ensures
            r == self.node(),
    {
        self.me
    }

    pub fn partitions(&self) -> (r: &PartitionSet)
        ensures
            r@ == self.partition_keys(),
    {
        &self.partitions
    }

    pub fn slots(&self) -> (r: &Vec<PartitionSlot>)
        ensures
            r@ == self@,
    {
        &self.slots
    }

    /// The position of `partition` among the slots, if it is one of them.
    pub fn find(&self, partition: u64) -> (r: Option<usize>)
        requires
            self.wf(),
        ensures
            r matches Some(i) ==> i < self@.len() && self@[i as int].partition == partition,
            r is None ==> forall|i: int|
                0 <= i < self@.len() ==> (#[trigger] self@[i]).partition != partition,
    {
        let mut i: usize = 0;
        while i < self.slots.len()
            invariant
                i <= self@.len(),
                forall|k: int| 0 <= k < i ==> (#[trigger] self@[k]).partition != partition,
            decreases self@.len() - i,
        {
            if self.slots[i].partition == partition {
                return Some(i);
            }
            i += 1;
        }
        None
    }

    /// The phase of `partition`, if it is one of the stream's partitions.
    pub fn phase_of(&self, partition: u64) -> (r: Option<Phase>)
        requires
            self.wf(),
        ensures
            r matches Some(p) ==> exists|i: int|
                0 <= i < self@.len() && (#[trigger] self@[i]).partition == partition
                    && self@[i].phase == p,
            r is None <==> forall|i: int|
                0 <= i < self@.len() ==> (#[trigger] self@[i]).partition != partition,
    {
        match self.find(partition) {
            Some(i) => Some(self.slots[i].phase),
            None => None,
        }
    }

    /// Takes in a new membership snapshot and moves every partition to the
    /// phase it calls for. No decoded record in flight is dropped: a lost
    /// partition keeps its count and drains.
    pub fn on_membership(&mut self, snapshot: &Membership)
        requires
            old(self).wf(),
        ensures
            final(self).wf(),
            final(self).node() == old(self).node(),
            final(self).partition_keys() == old(self).partition_keys(),
            final(self)@.len() == old(self)@.len(),
            forall|i: int|
                0 <= i < old(self)@.len() ==> (#[trigger] final(self)@[i]) == after_snapshot(
                    old(self)@[i],
                    owned_by(snapshot@, old(self)@[i].partition, old(self).node()),
                ),
    {
        let ghost before = self.slots@;
        let ghost me0 = self.me;
        let ghost keys0 = self.partitions@;
        let mut i: usize = 0;
        while i < self.slots.len()
            invariant
                self.me == me0,
                self.partitions@ == keys0,
                i <= self.slots@.len(),
                self.slots@.len() == before.len(),
                crate::ids::strictly_sorted(self.partitions@),
                before.len() == self.partitions@.len(),
                forall|k: int|
                    0 <= k < before.len() ==> (#[trigger] before[k]).partition == self.partitions@[k]
                        && slot_ok(before[k]),
                forall|k: int|
                    0 <= k < i ==> (#[trigger] self.slots@[k]) == after_snapshot(
                        before[k],
                        owned_by(snapshot@, before[k].partition, self.me),
                    ),
                forall|k: int| i <= k < before.len() ==> (#[trigger] self.slots@[k]) == before[k],
            decreases before.len() - i,
        {
            let s = self.slots[i];
            let owned = is_owned_by(snapshot, s.partition, self.me);
            let n = snapshot_step(s, owned);
            self.slots[i] = n;
            i += 1;
        }
    }

    /// Takes in the record read at the cursor of `partition`: its payload, or
    /// `None` when it could not be decoded.
    pub fn on_record(&mut self, partition: u64, decoded: Option<Vec<u8>>) -> (r: RecordOutcome)
        requires
            old(self).wf(),
        ensures
            final(self).wf(),
            final(self).node() == old(self).node(),
            final(self).partition_keys() == old(self).partition_keys(),
            final(self)@.len() == old(self)@.len(),
            (forall|i: int| 0 <= i < old(self)@.len() ==> (#[trigger] old(self)@[i]).partition != partition)
                ==> r == RecordOutcome::Ignored && final(self)@ == old(self)@,
            forall|i: int|
                0 <= i < old(self)@.len() && (#[trigger] old(self)@[i]).partition == partition
                    ==> r == record_outcome(old(self)@[i], decoded) && final(self)@ == old(
                    self,
                )@.update(i, after_record(old(self)@[i], decoded)),
    {
        match self.find(partition) {
            None => RecordOutcome::Ignored,
            Some(i) => {
                let s = self.slots[i];
                proof {
                    assert forall|j: int|
                        0 <= j < self@.len() && (#[trigger] self@[j]).partition == partition implies j
                        == i by {
                        if j < i {
                            assert(self.partitions@[j] < self.partitions@[i as int]);
                        } else if j > i {
                            assert(self.partitions@[i as int] < self.partitions@[j]);
                        }
                    }
                }
                if s.phase != Phase::Consuming {
                    RecordOutcome::Ignored
                } else if s.cursor == u64::MAX {
                    RecordOutcome::Exhausted
                } else {
                    match decoded {
                        Some(payload) => {
                            self.slots[i] = PartitionSlot {
                                cursor: s.cursor + 1,
                                in_flight: s.in_flight + 1,
                                ..s
                            };
                            RecordOutcome::Emit(
                                WorkItem { partition: s.partition, offset: s.cursor, payload },
                            )
                        },
                        None => {
                            if s.in_flight == 0 {
                                self.slots[i] = PartitionSlot {
                                    cursor: s.cursor + 1,
                                    committed: s.cursor + 1,
                                    ..s
                                };
                            } else {
                                self.slots[i] = PartitionSlot { cursor: s.cursor + 1, ..s };
                            }
                            RecordOutcome::Skipped { partition: s.partition, offset: s.cursor }
                        },
                    }
                }
            },
        }
    }

    /// Takes in the news that the record at `offset` of `partition` was
    /// handed off downstream. Returns the offset to commit, or `None` when no
    /// such record is in flight.
    pub fn on_handed_off(&mut self, partition: u64, offset: u64) -> (r: Option<u64>)
        requires
            old(self).wf(),
        ensures
            final(self).wf(),
            final(self).node() == old(self).node(),
            final(self).partition_keys() == old(self).partition_keys(),
            final(self)@.len() == old(self)@.len(),
            (forall|i: int| 0 <= i < old(self)@.len() ==> (#[trigger] old(self)@[i]).partition != partition)
                ==> r is None && final(self)@ == old(self)@,
            forall|i: int|
                0 <= i < old(self)@.len() && (#[trigger] old(self)@[i]).partition == partition
                    ==> final(self)@ == old(self)@.update(i, after_handoff(old(self)@[i], offset))
                    && (r is Some <==> handoff_accepted(old(self)@[i], offset))
                    && (r matches Some(c) ==> c == offset + 1),
    {
        match self.find(partition) {
            None => None,
            Some(i) => {
                let s = self.slots[i];
                proof {
                    assert forall|j: int|
                        0 <= j < self@.len() && (#[trigger] self@[j]).partition == partition implies j
                        == i by {
                        if j < i {
                            assert(self.partitions@[j] < self.partitions@[i as int]);
                        } else if j > i {
                            assert(self.partitions@[i as int] < self.partitions@[j]);
                        }
                    }
                }
                if s.phase == Phase::Unowned || s.in_flight == 0 || offset < s.committed
                    || offset >= s.cursor {
                    None
                } else {
                    let committed = offset + 1;
                    if s.phase == Phase::Draining && s.in_flight == 1 {
                        self.slots[i] = PartitionSlot {
                            phase: Phase::Unowned,
                            cursor: committed,
                            committed,
                            in_flight: 0,
                            ..s
                        };
                    } else {
                        self.slots[i] = PartitionSlot {
                            committed,
                            in_flight: s.in_flight - 1,
                            ..s
                        };
                    }
                    Some(committed)
                }
            },
        }
    }

    /// Sets the offset from which `partition` will be read once it is owned,
    /// as restored from the stream's durable checkpoint. Only an unowned
    /// partition takes one; returns whether it did.
    pub fn restore_checkpoint(&mut self, partition: u64, offset: u64) -> (r: bool)
        requires
            old(self).wf(),
        ensures
            final(self).wf(),
            final(self).node() == old(self).node(),
            final(self).partition_keys() == old(self).partition_keys(),
            final(self)@.len() == old(self)@.len(),
            !r ==> final(self)@ == old(self)@,
            r <==> exists|i: int|
                0 <= i < old(self)@.len() && (#[trigger] old(self)@[i]).partition == partition
                    && old(self)@[i].phase == Phase::Unowned,
            forall|i: int|
                0 <= i < old(self)@.len() && (#[trigger] old(self)@[i]).partition == partition
                    && old(self)@[i].phase == Phase::Unowned ==> final(self)@ == old(self)@.update(
                    i,
                    PartitionSlot { cursor: offset, committed: offset, ..old(self)@[i] },
                ),
    {
        match self.find(partition) {
            None => false,
            Some(i) => {
                let s = self.slots[i];
                proof {
                    assert forall|j: int|
                        0 <= j < self@.len() && (#[trigger] self@[j]).partition == partition implies j
                        == i by {
                        if j < i {
                            assert(self.partitions@[j] < self.partitions@[i as int]);
                        } else if j > i {
                            assert(self.partitions@[i as int] < self.partitions@[j]);
                        }
                    }
                }
                if s.phase == Phase::Unowned {
                    self.slots[i] = PartitionSlot { cursor: offset, committed: offset, ..s };
                    true
                } else {
                    false
                }
            },
        }
    }
}

} // verus!
