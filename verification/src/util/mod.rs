//! What the server is built from: header values, the queue of messages and the pool of threads.

pub mod header_value;
pub mod task_pool;
pub mod pool_history;
pub mod pool_life;
pub mod messages_queue;
