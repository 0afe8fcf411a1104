//! The values the library speaks of and the stores it runs on.

pub mod order;
pub mod queue;

pub use order::{DailyStats, DailyStatsView, OrderRecord, OrderRepository, OrderView};
pub use queue::{
    Enrollment, EntryView, QueueEntry, QueueRepository, StorageError, TenantQueueState,
};
