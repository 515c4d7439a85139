//! A DNS wire codec and the decisions of an iterative resolver, verified
//! with Verus.
//!
//! The crate does no I/O. Messages are read from and written to a
//! [`BytePacketBuffer`] of 512 bytes; a [`Resolver`] is told each response
//! that came in and says which query to send next; and the query handler is
//! the pair of [`accept_query`] and [`finish_query`] around a resolution.
//!
//! Every function says in its contract what it returns and how it leaves
//! the buffer, on success and on failure. The modules [`round_trip`] and
//! [`bounds`] hold what follows from these contracts: that what is written
//! is read back, and what reading does at most on any input.

pub mod bounds;
pub mod buffer;
pub mod error;
pub mod header;
pub mod name;
pub mod packet;
pub mod question;
pub mod record;
pub mod resolver;
pub mod round_trip;
pub mod server;
pub mod text;

pub use buffer::BytePacketBuffer;
pub use error::BytePacketBufferError;
pub use header::{DnsHeader, ResultCode};
pub use packet::DnsPacket;
pub use question::{DnsQuestion, QueryType};
pub use record::{DnsRecord, Ipv4Address, Ipv6Address};
pub use resolver::{Progress, Resolver};
pub use server::{accept_query, finish_query, Handling};
