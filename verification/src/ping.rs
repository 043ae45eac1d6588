//! The configuration of one ping session.

use vstd::prelude::*;

verus! {

/// Options of a ping session: socket timeouts, packet fields, the send rate
/// and how it is shared, the reporting delay, and an optional per-target cap
/// on the number of probes.
#[derive(Debug)]
pub struct PingOption {
    /// Read and write timeout of the raw socket.
    pub timeout: core::time::Duration,
    /// Time-to-live of every probe.
    pub ttl: u32,
    /// Optional type-of-service value of every probe.
    pub tos: Option<u32>,
    /// ICMP identifier of every probe; replies are matched against it.
    pub ident: u32,
    /// Payload length of every probe; at least 16 bytes, which carry the
    /// embedded send timestamp.
    pub len: usize,
    /// Probes per second.
    pub rate: u64,
    /// When true, one shared rate limit paces each target's probes; when
    /// false, the limit paces each send pass over all targets.
    pub rate_for_all: bool,
    /// Seconds a window must age past before it is finalized, so that late
    /// replies still land.
    pub delay: u64,
    /// Optional cap on the probes sent per target; the session ends once it
    /// is reached.
    pub count: Option<i64>,
}

impl Clone for PingOption {
    fn clone(&self) -> (r: Self)
        ensures
            r.timeout == self.timeout,
            r.ttl == self.ttl,
            r.tos == self.tos,
            r.ident == self.ident,
            r.len == self.len,
            r.rate == self.rate,
            r.rate_for_all == self.rate_for_all,
            r.delay == self.delay,
            r.count == self.count,
    {
        PingOption {
            timeout: self.timeout,
            ttl: self.ttl,
            tos: self.tos,
            ident: self.ident,
            len: self.len,
            rate: self.rate,
            rate_for_all: self.rate_for_all,
            delay: self.delay,
            count: self.count,
        }
    }
}

} // verus!
