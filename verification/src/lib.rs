//! A DNS forwarding proxy core: wire-format codec, TTL-aware answer cache
//! with an expiry index for background prefetch, and the pure decision
//! logic of the upstream destination client (transaction-id rewriting and
//! DNS-over-TLS framing). Transport and listener I/O live outside the
//! library and talk to it through plain values.

pub mod dns;
pub mod cache;
pub mod dest;
pub mod error;
