//! Per-target aggregation of one finalized bucket: received and loss counts,
//! summed latency and corruption count for every target that appears in the
//! window.

use crate::bucket::Bucket;
use crate::probe::ProbeModel;
use vstd::prelude::*;

verus! {

/// How many entries address the target t.
pub open spec fn count_target(s: Seq<ProbeModel>, t: Seq<char>) -> nat
    decreases s.len(),
{
    if s.len() == 0 {
        0
    } else {
        count_target(s.drop_last(), t) + if s.last().target == t {
            1nat
        } else {
            0nat
        }
    }
}

/// How many entries address the target t and carry a reply.
pub open spec fn count_received(s: Seq<ProbeModel>, t: Seq<char>) -> nat
    decreases s.len(),
{
    if s.len() == 0 {
        0
    } else {
        count_received(s.drop_last(), t) + if s.last().target == t && s.last().received {
            1nat
        } else {
            0nat
        }
    }
}

/// How many entries address the target t and never saw a reply.
pub open spec fn count_loss(s: Seq<ProbeModel>, t: Seq<char>) -> nat
    decreases s.len(),
{
    if s.len() == 0 {
        0
    } else {
        count_loss(s.drop_last(), t) + if s.last().target == t && !s.last().received {
            1nat
        } else {
            0nat
        }
    }
}

/// How many entries address the target t with a corrupted reply.
pub open spec fn count_bitflip(s: Seq<ProbeModel>, t: Seq<char>) -> nat
    decreases s.len(),
{
    if s.len() == 0 {
        0
    } else {
        count_bitflip(s.drop_last(), t) + if s.last().target == t && s.last().bitflip {
            1nat
        } else {
            0nat
        }
    }
}

/// The summed latency of the entries that address the target t.
pub open spec fn sum_latency(s: Seq<ProbeModel>, t: Seq<char>) -> nat
    decreases s.len(),
{
    if s.len() == 0 {
        0
    } else {
        sum_latency(s.drop_last(), t) + if s.last().target == t {
            s.last().latency as nat
        } else {
            0nat
        }
    }
}

/// The summed latency of all entries, whatever their target.
pub open spec fn total_latency(s: Seq<ProbeModel>) -> nat
    decreases s.len(),
{
    if s.len() == 0 {
        0
    } else {
        total_latency(s.drop_last()) + s.last().latency as nat
    }
}

/// Every probe of a window is either received or lost: the received and loss
/// counts of a target add up to the number of entries that address it.
pub proof fn lemma_received_plus_loss(s: Seq<ProbeModel>, t: Seq<char>)
    ensures
        count_received(s, t) + count_loss(s, t) == count_target(s, t),
    decreases s.len(),
{
    if s.len() > 0 {
        lemma_received_plus_loss(s.drop_last(), t);
    }
}

/// No count exceeds the number of entries, and each refinement is bounded by
/// the target count.
pub proof fn lemma_counts_bounded(s: Seq<ProbeModel>, t: Seq<char>)
    ensures
        count_target(s, t) <= s.len(),
        count_received(s, t) <= count_target(s, t),
        count_loss(s, t) <= count_target(s, t),
        count_bitflip(s, t) <= count_target(s, t),
    decreases s.len(),
{
    if s.len() > 0 {
        lemma_counts_bounded(s.drop_last(), t);
    }
}

/// One target's latency never exceeds the latency of the whole window.
pub proof fn lemma_sum_latency_le_total(s: Seq<ProbeModel>, t: Seq<char>)
    ensures
        sum_latency(s, t) <= total_latency(s),
    decreases s.len(),
{
    if s.len() > 0 {
        lemma_sum_latency_le_total(s.drop_last(), t);
    }
}

/// A prefix of a window carries at most the window's total latency.
proof fn lemma_total_latency_prefix(s: Seq<ProbeModel>, k: int)
    requires
        0 <= k <= s.len(),
    ensures
        total_latency(s.take(k)) <= total_latency(s),
    decreases s.len(),
{
    if k == s.len() {
        assert(s.take(k) =~= s);
    } else if s.len() > 0 {
        assert(s.drop_last().take(k) =~= s.take(k));
        lemma_total_latency_prefix(s.drop_last(), k);
    }
}

/// A target with a positive count appears at some entry.
proof fn lemma_count_target_witness(s: Seq<ProbeModel>, t: Seq<char>)
    requires
        count_target(s, t) > 0,
    ensures
        exists|j: int| 0 <= j < s.len() && s[j].target == t,
    decreases s.len(),
{
    if s.last().target == t {
        assert(s[s.len() - 1].target == t);
    } else {
        lemma_count_target_witness(s.drop_last(), t);
        let j = choose|j: int| 0 <= j < s.drop_last().len() && s.drop_last()[j].target == t;
        assert(s[j].target == t);
    }
}

/// A target that no entry addresses contributes no latency.
proof fn lemma_zero_target_zero_latency(s: Seq<ProbeModel>, t: Seq<char>)
    requires
        count_target(s, t) == 0,
    ensures
        sum_latency(s, t) == 0,
    decreases s.len(),
{
    if s.len() > 0 {
        lemma_zero_target_zero_latency(s.drop_last(), t);
    }
}

/// Extending a prefix by one entry moves every count by that entry's
/// contribution.
proof fn lemma_counts_step(s: Seq<ProbeModel>, k: int, t: Seq<char>)
    requires
        0 <= k < s.len(),
    ensures
        count_target(s.take(k + 1), t) == count_target(s.take(k), t) + if s[k].target == t {
            1nat
        } else {
            0nat
        },
        count_received(s.take(k + 1), t) == count_received(s.take(k), t) + if s[k].target == t
            && s[k].received {
            1nat
        } else {
            0nat
        },
        count_loss(s.take(k + 1), t) == count_loss(s.take(k), t) + if s[k].target == t
            && !s[k].received {
            1nat
        } else {
            0nat
        },
        count_bitflip(s.take(k + 1), t) == count_bitflip(s.take(k), t) + if s[k].target == t
            && s[k].bitflip {
            1nat
        } else {
            0nat
        },
        sum_latency(s.take(k + 1), t) == sum_latency(s.take(k), t) + if s[k].target == t {
            s[k].latency as nat
        } else {
            0nat
        },
{
    assert(s.take(k + 1).drop_last() =~= s.take(k));
    assert(s.take(k + 1).last() == s[k]);
}

/// The aggregated statistics of one target over one finalized window.
pub struct TargetResult {
    /// Textual IP address of the target.
    pub target: String,
    /// Summed latency, in nanoseconds, of the window's entries for this
    /// target.
    pub latency: u128,
    /// Probes of this window that never saw a reply.
    pub loss: u32,
    /// Probes of this window whose reply arrived.
    pub received: u32,
    /// Replies whose payload pattern did not match the request's.
    pub bitflip_count: u32,
}

impl TargetResult {
    /// The mean latency of the window in nanoseconds; zero when no reply was
    /// received, so that an all-loss window reports zero rather than dividing
    /// by zero.
    pub fn mean_latency_ns(&self) -> (r: u128)
        ensures
            r == if self.received == 0 {
                0u128
            } else {
                (self.latency / self.received as u128) as u128
            },
    {
        if self.received == 0 {
            0
        } else {
            self.latency / (self.received as u128)
        }
    }
}

/// Aggregates one finalized bucket: one result per target that appears in the
/// window, carrying that target's received, loss, corruption and summed
/// latency over exactly the bucket's entries.
pub fn aggregate(bucket: &Bucket) -> (r: Vec<TargetResult>)
    requires
        bucket@.entries.len() <= u32::MAX,
        total_latency(bucket@.entries) <= u128::MAX,
    ensures
        forall|i: int, j: int|
            0 <= i < j < r@.len() ==> (#[trigger] r@[i]).target@ != (#[trigger] r@[j]).target@,
        forall|i: int|
            0 <= i < r@.len() ==> {
                let t = (#[trigger] r@[i]).target@;
                &&& count_target(bucket@.entries, t) > 0
                &&& r@[i].received as nat == count_received(bucket@.entries, t)
                &&& r@[i].loss as nat == count_loss(bucket@.entries, t)
                &&& r@[i].bitflip_count as nat == count_bitflip(bucket@.entries, t)
                &&& r@[i].latency as nat == sum_latency(bucket@.entries, t)
            },
        forall|j: int|
            0 <= j < bucket@.entries.len() ==> exists|i: int|
                0 <= i < r@.len() && (#[trigger] r@[i]).target@ == (
                #[trigger] bucket@.entries[j]).target,
{
    let entries = bucket.values();
    let ghost s = bucket@.entries;
    let len: usize = entries.len();
    let mut out: Vec<TargetResult> = Vec::new();
    let mut k: usize = 0;
    while k < len
        invariant
            crate::bucket::seq_model(entries@) =~= s,
            len == s.len() <= u32::MAX,
            total_latency(s) <= u128::MAX,
            k <= len,
            forall|i: int, j: int|
                0 <= i < j < out@.len() ==> (#[trigger] out@[i]).target@ != (
                #[trigger] out@[j]).target@,
            forall|i: int|
                0 <= i < out@.len() ==> {
                    let t = (#[trigger] out@[i]).target@;
                    &&& count_target(s.take(k as int), t) > 0
                    &&& out@[i].received as nat == count_received(s.take(k as int), t)
                    &&& out@[i].loss as nat == count_loss(s.take(k as int), t)
                    &&& out@[i].bitflip_count as nat == count_bitflip(s.take(k as int), t)
                    &&& out@[i].latency as nat == sum_latency(s.take(k as int), t)
                },
            forall|j: int|
                0 <= j < k ==> exists|i: int|
                    0 <= i < out@.len() && (#[trigger] out@[i]).target@ == (#[trigger] s[j]).target,
        decreases len - k,
    {
        let e = &entries[k];
        proof {
            assert(e@ == s[k as int]);
        }
        let found = find_target(&out, &e.target);
        let ghost tk = s[k as int].target;
        proof {
            lemma_counts_step(s, k as int, tk);
            lemma_counts_bounded(s.take(k as int), tk);
            lemma_counts_bounded(s.take(k as int + 1), tk);
            lemma_sum_latency_le_total(s.take(k as int + 1), tk);
            lemma_total_latency_prefix(s, k as int + 1);
            assert(s.take(k as int + 1).len() <= len);
        }
        match found {
            Some(i) => {
                let ghost pre = out@;
                proof {
                    assert(pre[i as int].target@ == tk);
                    assert(sum_latency(s.take(k as int + 1), tk) <= total_latency(s));
                    assert(count_target(s.take(k as int), tk) <= k);
                }
                let cur_target = out[i].target.clone();
                let tr = TargetResult {
                    target: cur_target,
                    latency: out[i].latency + e.latency,
                    loss: if e.received {
                        out[i].loss
                    } else {
                        out[i].loss + 1
                    },
                    received: if e.received {
                        out[i].received + 1
                    } else {
                        out[i].received
                    },
                    bitflip_count: if e.bitflip {
                        out[i].bitflip_count + 1
                    } else {
                        out[i].bitflip_count
                    },
                };
                out[i] = tr;
                proof {
                    assert(out@ == pre.update(i as int, out@[i as int]));
                    assert(out@[i as int].target@ == tk);
                    assert forall|i2: int| 0 <= i2 < out@.len() implies (#[trigger] out@[i2]).target@
                        == pre[i2].target@ by {}
                    assert forall|i2: int| 0 <= i2 < out@.len() implies {
                        let t = (#[trigger] out@[i2]).target@;
                        &&& count_target(s.take(k as int + 1), t) > 0
                        &&& out@[i2].received as nat == count_received(s.take(k as int + 1), t)
                        &&& out@[i2].loss as nat == count_loss(s.take(k as int + 1), t)
                        &&& out@[i2].bitflip_count as nat == count_bitflip(s.take(k as int + 1), t)
                        &&& out@[i2].latency as nat == sum_latency(s.take(k as int + 1), t)
                    } by {
                        lemma_counts_step(s, k as int, out@[i2].target@);
                        if i2 != i as int {
                            assert(out@[i2] == pre[i2]);
                            assert(pre[i2].target@ != tk);
                        }
                    }
                    assert forall|j: int| 0 <= j < k + 1 implies exists|i2: int|
                        0 <= i2 < out@.len() && (#[trigger] out@[i2]).target@ == (
                    #[trigger] s[j]).target by {
                        if j == k {
                            assert(out@[i as int].target@ == s[j].target);
                        } else {
                            let w = choose|i2: int|
                                0 <= i2 < pre.len() && (#[trigger] pre[i2]).target@ == s[j].target;
                            assert(out@[w].target@ == s[j].target);
                        }
                    }
                }
            },
            None => {
                let ghost pre = out@;
                proof {
                    assert(e.target@ == tk);
                    if count_target(s.take(k as int), tk) > 0 {
                        lemma_count_target_witness(s.take(k as int), tk);
                        let j = choose|j: int|
                            0 <= j < s.take(k as int).len() && s.take(k as int)[j].target == tk;
                        assert(s[j].target == tk);
                        assert(exists|i2: int|
                            0 <= i2 < out@.len() && (#[trigger] out@[i2]).target@ == tk);
                        let w = choose|i2: int|
                            0 <= i2 < out@.len() && (#[trigger] out@[i2]).target@ == tk;
                        assert(false);
                    }
                    lemma_zero_target_zero_latency(s.take(k as int), tk);
                }
                let tr = TargetResult {
                    target: e.target.clone(),
                    latency: e.latency,
                    loss: if e.received {
                        0
                    } else {
                        1
                    },
                    received: if e.received {
                        1
                    } else {
                        0
                    },
                    bitflip_count: if e.bitflip {
                        1
                    } else {
                        0
                    },
                };
                out.push(tr);
                proof {
                    assert(out@ == pre.push(out@[pre.len() as int]));
                    assert(out@[pre.len() as int].target@ == tk);
                    assert forall|i2: int| 0 <= i2 < out@.len() implies {
                        let t = (#[trigger] out@[i2]).target@;
                        &&& count_target(s.take(k as int + 1), t) > 0
                        &&& out@[i2].received as nat == count_received(s.take(k as int + 1), t)
                        &&& out@[i2].loss as nat == count_loss(s.take(k as int + 1), t)
                        &&& out@[i2].bitflip_count as nat == count_bitflip(s.take(k as int + 1), t)
                        &&& out@[i2].latency as nat == sum_latency(s.take(k as int + 1), t)
                    } by {
                        lemma_counts_step(s, k as int, out@[i2].target@);
                        lemma_counts_bounded(s.take(k as int), tk);
                        if i2 < pre.len() {
                            assert(out@[i2] == pre[i2]);
                            assert(pre[i2].target@ != tk);
                        }
                    }
                    assert forall|j: int| 0 <= j < k + 1 implies exists|i2: int|
                        0 <= i2 < out@.len() && (#[trigger] out@[i2]).target@ == (
                    #[trigger] s[j]).target by {
                        if j == k {
                            assert(out@[pre.len() as int].target@ == s[j].target);
                        } else {
                            let w = choose|i2: int|
                                0 <= i2 < pre.len() && (#[trigger] pre[i2]).target@ == s[j].target;
                            assert(out@[w].target@ == s[j].target);
                        }
                    }
                }
            },
        }
        k = k + 1;
    }
    proof {
        assert(s.take(len as int) =~= s);
    }
    out
}

/// The index of the result that already carries the target, if any.
fn find_target(out: &Vec<TargetResult>, target: &String) -> (r: Option<usize>)
    ensures
        match r {
            Some(i) => 0 <= i < out@.len() && out@[i as int].target@ == target@,
            None => forall|i: int| 0 <= i < out@.len() ==> (#[trigger] out@[i]).target@ != target@,
        },
{
    let mut i: usize = 0;
    while i < out.len()
        invariant
            i <= out@.len(),
            forall|j: int| 0 <= j < i ==> (#[trigger] out@[j]).target@ != target@,
        decreases out@.len() - i,
    {
        if out[i].target == *target {
            return Some(i);
        }
        i = i + 1;
    }
    None
}

} // verus!
