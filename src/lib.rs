//! Coordination core of a distributed ingestion worker: deterministic
//! partition assignment, the per-partition ingest state machine, a bounded
//! FIFO mailbox, a round-robin work scheduler and the membership provider's
//! publishing decisions.

pub mod assignment;
pub mod ids;
pub mod ingest;
pub mod mailbox;
pub mod memberlist;
pub mod scheduler;

pub use assignment::{assign, is_owned_by, owner_of, Membership, PartitionSet};
pub use ids::SortedIds;
pub use ingest::{Ingest, PartitionSlot, Phase, RecordOutcome, WorkItem};
pub use mailbox::Mailbox;
pub use memberlist::{MemberlistProvider, ProviderAction};
pub use scheduler::RoundRobinScheduler;
