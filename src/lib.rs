//! Authenticated order execution for a threshold-triggered crypto trading agent:
//! parameter canonicalization, request signing, reply decoding and the trigger loop.
pub mod digest;
pub mod hmac;
pub mod canon;
pub mod signer;
pub mod order;
pub mod trigger;
pub mod price;
pub mod reply;
