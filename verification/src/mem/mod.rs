//! Memory for the data plane: a free-list allocator, an object pool and a
//! bounded queue.

pub mod freelist;
pub mod pool;
pub mod ring;
pub mod size;
