//! A minimal DNS resolver core: a verified wire-format codec for DNS
//! messages (header, questions, answer records, and compressed names),
//! together with the pure decision logic of the two query-handling
//! strategies. Network transport lives outside this crate.

pub mod codec;
pub mod error;
pub mod handlers;
pub mod parser;
pub mod protocol;
pub mod wire;
