//! One probe/reply exchange for one (target, sequence) pair.

use vstd::prelude::*;

verus! {

/// The mathematical value of a [`ProbeResult`]: every field as a plain value,
/// the target as its character sequence.
pub ghost struct ProbeModel {
    pub txts: u128,
    pub rxts: u128,
    pub seq: u16,
    pub target: Seq<char>,
    pub latency: u128,
    pub received: bool,
    pub bitflip: bool,
}

impl ProbeModel {
    /// The composite key that addresses one probe within a bucket.
    pub open spec fn key(self) -> (Seq<char>, u16) {
        (self.target, self.seq)
    }
}

/// One ping result for one target: send and receive timestamps in nanoseconds
/// since the Unix epoch, the sequence number, the derived latency, and whether
/// a (possibly corrupted) reply arrived.
pub struct ProbeResult {
    /// Nanosecond timestamp at which the request was sent.
    pub txts: u128,
    /// Nanosecond timestamp at which the reply arrived; 0 until it does.
    pub rxts: u128,
    /// ICMP sequence number of the request.
    pub seq: u16,
    /// Textual IP address of the target.
    pub target: String,
    /// Derived once both timestamps are set: rxts - txts.
    pub latency: u128,
    /// True once a matching reply arrived.
    pub received: bool,
    /// True when the reply's payload pattern did not match the request's.
    pub bitflip: bool,
}

impl View for ProbeResult {
    type V = ProbeModel;

    open spec fn view(&self) -> ProbeModel {
        ProbeModel {
            txts: self.txts,
            rxts: self.rxts,
            seq: self.seq,
            target: self.target@,
            latency: self.latency,
            received: self.received,
            bitflip: self.bitflip,
        }
    }
}

impl Clone for ProbeResult {
    fn clone(&self) -> (r: Self)
        ensures
            r@ == self@,
    {
        ProbeResult {
            txts: self.txts,
            rxts: self.rxts,
            seq: self.seq,
            target: self.target.clone(),
            latency: self.latency,
            received: self.received,
            bitflip: self.bitflip,
        }
    }
}

impl ProbeResult {
    /// A fresh send-side record: no reply yet, no latency.
    pub fn new_result(txts: u128, target: &str, seq: u16) -> (r: ProbeResult)
        ensures
            r@ == (ProbeModel {
                txts,
                rxts: 0,
                seq,
                target: target@,
                latency: 0,
                received: false,
                bitflip: false,
            }),
    {
        ProbeResult {
            txts,
            rxts: 0,
            seq,
            target: target.to_owned(),
            latency: 0,
            received: false,
            bitflip: false,
        }
    }

    /// Sets the latency to the time between sending and receiving. The
    /// receive timestamp must not precede the send timestamp.
    pub fn calc_latency(&mut self)
        requires
            old(self).rxts >= old(self).txts,
        ensures
            final(self)@ == (ProbeModel { latency: (old(self).rxts - old(self).txts) as u128, ..old(
                self,
            )@ }),
    {
        self.latency = self.rxts - self.txts;
    }
}

} // verus!
