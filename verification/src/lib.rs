//! A verified core for a forward HTTP/1.1 proxy: the message codec, the
//! request rewriter, the framing decisions, and the per-connection
//! classification, stated over byte sequences and proved against those
//! statements.

pub mod codec;
pub mod frame;
pub mod laws;
pub mod lit;
pub mod proxy;
pub mod request;
pub mod response;
pub mod rewrite;
pub mod scan;
