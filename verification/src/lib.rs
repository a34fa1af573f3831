//! An event-sourced repository for payment transactions.
//!
//! Domain events are appended to a partitioned key-value store and the most
//! recent event of a partition ("source") can be retrieved. The crate
//! provides the marshaling between typed transactions and the store's
//! untyped attribute items, the parameters of the latest-event query, the
//! repository port, and an in-memory adapter of that port.

pub mod digits;
pub mod errors;
pub mod item;
pub mod memory;
pub mod port;
pub mod query;
pub mod transaction;
