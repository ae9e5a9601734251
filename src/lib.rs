//! Control of remote electrical switches driven by a durable command log.
pub mod entry_id;
pub mod rcs;
pub mod rm8;
pub mod consumer;
