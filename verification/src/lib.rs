//! service
//!
//! Provides the building blocks for a simple compression service.
//!
//! This service will consume data in ASCII format over a TCP socket
//! and return a compressed version of that data.
//!
//! The service is also able to respond to several other types of `Request`s.
//!
//! The unit of communication is done through a `Message`.
pub mod client;
pub mod compress;
pub mod connection;
pub mod message;
pub mod server;
pub mod state;
pub mod stats;

pub use client::{Test, TestKind, TestResults};
pub use compress::compress_message;
pub use connection::Connection;
pub use message::{Header, Message, Request, Response};
pub use state::State;
pub use stats::Stats;
