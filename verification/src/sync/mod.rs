//! Building blocks: a bitmask, a spinlock, and the history of what is shared.

pub mod bitmask;
pub mod history;
pub mod spinlock;
