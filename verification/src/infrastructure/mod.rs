//! Stores and the formats they keep their records in.

pub mod json;
pub mod memory_orders;
pub mod memory_queue;
pub mod records;

pub use memory_orders::MemoryOrderRepository;
pub use memory_queue::MemoryQueueRepository;
pub use records::queue_key;
