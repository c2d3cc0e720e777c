//! The core of a small HTTP server: responses and the bytes that are sent of them, the choice of
//! their transfer coding, the queue of requests and the pool of threads.

pub mod ascii_text;
pub mod chunks;
pub mod clock;
pub mod common;
pub mod framing;
pub mod laws;
pub mod message;
pub mod response;
pub mod server;
pub mod text;
pub mod transfer_encoding;
pub mod util;

pub use common::{HTTPDate, HTTPVersion, Header, HeaderField, StatusCode};
pub use response::Response;
pub use server::{Server, ServerConfig, SslConfig};
pub use util::task_pool::TaskPool;
