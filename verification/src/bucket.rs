//! A bucket holds every probe result whose send time falls in one
//! epoch-second. Entries are addressed by the composite key (target,
//! sequence); at most one entry exists per composite key.

use crate::probe::{ProbeModel, ProbeResult};
use vstd::prelude::*;

verus! {

/// The sequence of entry models a vector of probe results stands for.
pub open spec fn seq_model(s: Seq<ProbeResult>) -> Seq<ProbeModel> {
    s.map_values(|p: ProbeResult| p@)
}

/// No two entries share a composite key.
pub open spec fn entries_wf(s: Seq<ProbeModel>) -> bool {
    forall|i: int, j: int| 0 <= i < j < s.len() ==> s[i].key() != s[j].key()
}

/// Some entry carries the composite key (t, q).
pub open spec fn has_key(s: Seq<ProbeModel>, t: Seq<char>, q: u16) -> bool {
    exists|i: int| 0 <= i < s.len() && s[i].target == t && s[i].seq == q
}

/// The index of the entry with composite key (t, q); meaningful only when
/// `has_key` holds (and then unique under `entries_wf`).
pub open spec fn key_index(s: Seq<ProbeModel>, t: Seq<char>, q: u16) -> int {
    choose|i: int| 0 <= i < s.len() && s[i].target == t && s[i].seq == q
}

/// Insert-or-overwrite under the composite key, as a map insertion seen
/// through the entry order: an existing entry is replaced in place, a new
/// key goes to the end.
pub open spec fn insert_entry(s: Seq<ProbeModel>, p: ProbeModel) -> Seq<ProbeModel> {
    if has_key(s, p.target, p.seq) {
        s.update(key_index(s, p.target, p.seq), p)
    } else {
        s.push(p)
    }
}

/// What a reply becomes before it is stored: when a send-side record with the
/// same composite key exists, the reply takes over its send timestamp and the
/// latency follows; an orphan reply is stored as it came.
pub open spec fn completed_reply(s: Seq<ProbeModel>, p: ProbeModel) -> ProbeModel {
    if has_key(s, p.target, p.seq) {
        let q = s[key_index(s, p.target, p.seq)];
        ProbeModel { txts: q.txts, latency: (p.rxts - q.txts) as u128, ..p }
    } else {
        p
    }
}

/// A reply may only be added when its receive timestamp does not precede the
/// send timestamp of the record it completes.
pub open spec fn reply_timestamp_ok(s: Seq<ProbeModel>, p: ProbeModel) -> bool {
    forall|i: int|
        0 <= i < s.len() && s[i].target == p.target && s[i].seq == p.seq ==> p.rxts >= s[i].txts
}

/// The mathematical value of a [`Bucket`].
#[verifier::ext_equal]
pub ghost struct BucketModel {
    pub key: u128,
    pub entries: Seq<ProbeModel>,
}

/// All probe results sent within the epoch-second `key`.
pub struct Bucket {
    key: u128,
    entries: Vec<ProbeResult>,
}

impl View for Bucket {
    type V = BucketModel;

    closed spec fn view(&self) -> BucketModel {
        BucketModel { key: self.key, entries: seq_model(self.entries@) }
    }
}

impl Clone for Bucket {
    fn clone(&self) -> (r: Self)
        ensures
            r@ == self@,
    {
        let r = Bucket { key: self.key, entries: clone_entries(&self.entries) };
        proof {
            assert(r@ =~= self@);
        }
        r
    }
}

fn clone_entries(entries: &Vec<ProbeResult>) -> (r: Vec<ProbeResult>)
    ensures
        seq_model(r@) =~= seq_model(entries@),
{
    let mut r: Vec<ProbeResult> = Vec::new();
    let mut i: usize = 0;
    while i < entries.len()
        invariant
            i <= entries@.len(),
            seq_model(r@) =~= seq_model(entries@).take(i as int),
        decreases entries@.len() - i,
    {
        let ghost pre = r@;
        let c = entries[i].clone();
        proof {
            assert(c@ == seq_model(entries@)[i as int]);
        }
        r.push(c);
        proof {
            assert(seq_model(pre).len() == pre.len());
            assert(pre.len() == i);
            assert(r@ == pre.push(c));
            assert forall|j: int| 0 <= j < r@.len() implies seq_model(r@)[j] == seq_model(
                entries@,
            ).take(i + 1)[j] by {
                if j < i {
                    assert(seq_model(pre)[j] == seq_model(entries@).take(i as int)[j]);
                    assert(r@[j] == pre[j]);
                }
            }
            assert(seq_model(r@) =~= seq_model(entries@).take(i + 1));
        }
        i = i + 1;
    }
    proof {
        assert(seq_model(entries@).take(i as int) =~= seq_model(entries@));
    }
    r
}

impl Bucket {
    /// No two entries share a composite key.
    pub open spec fn wf(self) -> bool {
        entries_wf(self@.entries)
    }

    /// The epoch-second the bucket stands for; never changes after creation.
    pub fn key(&self) -> (k: u128)
        ensures
            k == self@.key,
    {
        self.key
    }

    /// An empty bucket for the given epoch-second.
    pub fn new_bucket(key: u128) -> (b: Bucket)
        ensures
            b@.key == key,
            b@.entries =~= Seq::<ProbeModel>::empty(),
            b.wf(),
    {
        let b = Bucket { key, entries: Vec::new() };
        proof {
            assert(b@.entries =~= Seq::<ProbeModel>::empty());
        }
        b
    }

    /// The index of the entry with the given composite key, if any.
    fn find_index(&self, target: &String, seq: u16) -> (r: Option<usize>)
        requires
            self.wf(),
        ensures
            match r {
                Some(i) => {
                    &&& 0 <= i < self@.entries.len()
                    &&& self@.entries[i as int].target == target@
                    &&& self@.entries[i as int].seq == seq
                    &&& has_key(self@.entries, target@, seq)
                    &&& i == key_index(self@.entries, target@, seq)
                },
                None => !has_key(self@.entries, target@, seq),
            },
    {
        let ghost s = self@.entries;
        let mut i: usize = 0;
        while i < self.entries.len()
            invariant
                self.wf(),
                s == self@.entries,
                i <= s.len(),
                forall|j: int| 0 <= j < i ==> !(s[j].target == target@ && s[j].seq == seq),
            decreases s.len() - i,
        {
            let e = &self.entries[i];
            if e.seq == seq && e.target == *target {
                proof {
                    assert(s[i as int].target == target@ && s[i as int].seq == seq);
                    let ki = key_index(s, target@, seq);
                    assert(0 <= ki < s.len() && s[ki].target == target@ && s[ki].seq == seq);
                    assert(ki == i as int);
                }
                return Some(i);
            }
            i = i + 1;
        }
        proof {
            assert(forall|j: int| 0 <= j < s.len() ==> !(s[j].target == target@ && s[j].seq
                == seq));
        }
        None
    }

    /// Records a send-side probe result, overwriting any entry that already
    /// carries its composite key.
    pub fn add(&mut self, result: ProbeResult)
        requires
            old(self).wf(),
        ensures
            final(self).wf(),
            final(self)@.key == old(self)@.key,
            final(self)@.entries =~= insert_entry(old(self)@.entries, result@),
    {
        let ghost s = self@.entries;
        let found = self.find_index(&result.target, result.seq);
        match found {
            Some(i) => {
                self.entries[i] = result;
                proof {
                    assert(self@.entries =~= s.update(i as int, result@));
                    lemma_insert_entry_wf(s, result@);
                }
            },
            None => {
                self.entries.push(result);
                proof {
                    assert(self@.entries =~= s.push(result@));
                    lemma_insert_entry_wf(s, result@);
                }
            },
        }
    }

    /// Records a reply. When the bucket holds a send-side record with the same
    /// composite key, the reply takes over its send timestamp and the latency
    /// is computed; an orphan reply is stored as it came.
    pub fn add_reply(&mut self, reply: ProbeResult)
        requires
            old(self).wf(),
            reply_timestamp_ok(old(self)@.entries, reply@),
        ensures
            final(self).wf(),
            final(self)@.key == old(self)@.key,
            final(self)@.entries =~= insert_entry(
                old(self)@.entries,
                completed_reply(old(self)@.entries, reply@),
            ),
    {
        let ghost s = self@.entries;
        let ghost c = completed_reply(s, reply@);
        let mut reply = reply;
        let found = self.find_index(&reply.target, reply.seq);
        match found {
            Some(i) => {
                reply.txts = self.entries[i].txts;
                reply.calc_latency();
                proof {
                    assert(reply@ == c);
                    assert(has_key(s, c.target, c.seq));
                    assert(key_index(s, c.target, c.seq) == i as int);
                }
                self.entries[i] = reply;
                proof {
                    assert(self@.entries =~= s.update(i as int, c));
                    lemma_insert_entry_wf(s, c);
                }
            },
            None => {
                proof {
                    assert(reply@ == c);
                }
                self.entries.push(reply);
                proof {
                    assert(self@.entries =~= s.push(c));
                    lemma_insert_entry_wf(s, c);
                }
            },
        }
    }

    /// Corrects the send timestamp of the entry with the given composite key,
    /// when hardware or software transmit timestamping resolves after the
    /// provisional timestamp was recorded. No-op when the entry is absent.
    pub fn update_txts(&mut self, target: String, seq: u16, txts: u128)
        requires
            old(self).wf(),
        ensures
            final(self).wf(),
            final(self)@.key == old(self)@.key,
            has_key(old(self)@.entries, target@, seq) ==> final(self)@.entries =~= old(
                self,
            )@.entries.update(
                key_index(old(self)@.entries, target@, seq),
                ProbeModel {
                    txts,
                    ..old(self)@.entries[key_index(old(self)@.entries, target@, seq)]
                },
            ),
            !has_key(old(self)@.entries, target@, seq) ==> final(self)@.entries =~= old(
                self,
            )@.entries,
    {
        let ghost s = self@.entries;
        let found = self.find_index(&target, seq);
        match found {
            Some(i) => {
                self.entries[i].txts = txts;
                proof {
                    let p = ProbeModel { txts, ..s[i as int] };
                    assert(self@.entries =~= s.update(i as int, p));
                    assert(p.key() == s[i as int].key());
                    lemma_update_same_key_wf(s, i as int, p);
                }
            },
            None => {
                proof {
                    assert(self@.entries =~= s);
                }
            },
        }
    }

    /// The send timestamp recorded under the given composite key, if any: the
    /// value a reply's receive timestamp is measured against.
    pub fn send_txts(&self, target: &String, seq: u16) -> (r: Option<u128>)
        requires
            self.wf(),
        ensures
            match r {
                Some(t) => has_key(self@.entries, target@, seq) && t == self@.entries[key_index(
                    self@.entries,
                    target@,
                    seq,
                )].txts,
                None => !has_key(self@.entries, target@, seq),
            },
    {
        match self.find_index(target, seq) {
            Some(i) => Some(self.entries[i].txts),
            None => None,
        }
    }

    /// All entries of the bucket, in insertion order.
    pub fn values(&self) -> (r: Vec<ProbeResult>)
        ensures
            seq_model(r@) =~= self@.entries,
    {
        clone_entries(&self.entries)
    }
}

/// Insert-or-overwrite keeps the composite keys unique.
proof fn lemma_insert_entry_wf(s: Seq<ProbeModel>, p: ProbeModel)
    requires
        entries_wf(s),
    ensures
        entries_wf(insert_entry(s, p)),
{
    if has_key(s, p.target, p.seq) {
        let ki = key_index(s, p.target, p.seq);
        let r = s.update(ki, p);
        assert forall|i: int, j: int| 0 <= i < j < r.len() implies r[i].key() != r[j].key() by {
            if i != ki && j != ki {
                assert(r[i] == s[i] && r[j] == s[j]);
            } else if i == ki {
                assert(r[j] == s[j]);
                assert(s[j].key() != s[ki].key());
            } else {
                assert(r[i] == s[i]);
                assert(s[i].key() != s[ki].key());
            }
        }
    } else {
        let r = s.push(p);
        assert forall|i: int, j: int| 0 <= i < j < r.len() implies r[i].key() != r[j].key() by {
            if j == s.len() {
                assert(r[i] == s[i]);
                assert(!(s[i].target == p.target && s[i].seq == p.seq));
            } else {
                assert(r[i] == s[i] && r[j] == s[j]);
            }
        }
    }
}

/// After an insert, the entry under the inserted composite key is exactly the
/// inserted one, and every entry under another composite key is untouched.
pub proof fn lemma_insert_entry_found(s: Seq<ProbeModel>, p: ProbeModel)
    requires
        entries_wf(s),
    ensures
        entries_wf(insert_entry(s, p)),
        has_key(insert_entry(s, p), p.target, p.seq),
        insert_entry(s, p)[key_index(insert_entry(s, p), p.target, p.seq)] == p,
        forall|t: Seq<char>, q: u16|
            !(t == p.target && q == p.seq) ==> (#[trigger] has_key(insert_entry(s, p), t, q)
                <==> has_key(s, t, q)),
        forall|t: Seq<char>, q: u16|
            !(t == p.target && q == p.seq) && has_key(s, t, q) ==> insert_entry(s, p)[#[trigger] key_index(
                insert_entry(s, p),
                t,
                q,
            )] == s[key_index(s, t, q)],
{
    lemma_insert_entry_wf(s, p);
    let r = insert_entry(s, p);
    if has_key(s, p.target, p.seq) {
        let ki = key_index(s, p.target, p.seq);
        assert(r[ki] == p);
        assert(has_key(r, p.target, p.seq));
        lemma_key_index_unique(r, p.target, p.seq, ki);
        assert forall|t: Seq<char>, q: u16|
            !(t == p.target && q == p.seq) implies (#[trigger] has_key(r, t, q) <==> has_key(
            s,
            t,
            q,
        )) by {
            if has_key(s, t, q) {
                let i = key_index(s, t, q);
                assert(i != ki);
                assert(r[i] == s[i]);
                assert(has_key(r, t, q));
            }
            if has_key(r, t, q) {
                let i = key_index(r, t, q);
                assert(i != ki);
                assert(s[i] == r[i]);
                assert(has_key(s, t, q));
            }
        }
        assert forall|t: Seq<char>, q: u16|
            !(t == p.target && q == p.seq) && has_key(s, t, q) implies r[#[trigger] key_index(
            r,
            t,
            q,
        )] == s[key_index(s, t, q)] by {
            let i = key_index(s, t, q);
            assert(i != ki);
            assert(r[i] == s[i]);
            assert(has_key(r, t, q));
            lemma_key_index_unique(r, t, q, i);
        }
    } else {
        let n = s.len() as int;
        assert(r[n] == p);
        assert(has_key(r, p.target, p.seq));
        lemma_key_index_unique(r, p.target, p.seq, n);
        assert forall|t: Seq<char>, q: u16|
            !(t == p.target && q == p.seq) implies (#[trigger] has_key(r, t, q) <==> has_key(
            s,
            t,
            q,
        )) by {
            if has_key(s, t, q) {
                let i = key_index(s, t, q);
                assert(r[i] == s[i]);
                assert(has_key(r, t, q));
            }
            if has_key(r, t, q) {
                let i = key_index(r, t, q);
                assert(i != n);
                assert(s[i] == r[i]);
                assert(has_key(s, t, q));
            }
        }
        assert forall|t: Seq<char>, q: u16|
            !(t == p.target && q == p.seq) && has_key(s, t, q) implies r[#[trigger] key_index(
            r,
            t,
            q,
        )] == s[key_index(s, t, q)] by {
            let i = key_index(s, t, q);
            assert(r[i] == s[i]);
            assert(has_key(r, t, q));
            lemma_key_index_unique(r, t, q, i);
        }
    }
}

/// Under unique composite keys, any matching index is the key index.
proof fn lemma_key_index_unique(s: Seq<ProbeModel>, t: Seq<char>, q: u16, i: int)
    requires
        entries_wf(s),
        0 <= i < s.len(),
        s[i].target == t,
        s[i].seq == q,
    ensures
        has_key(s, t, q),
        key_index(s, t, q) == i,
{
    assert(has_key(s, t, q));
    let ki = key_index(s, t, q);
    assert(0 <= ki < s.len() && s[ki].target == t && s[ki].seq == q);
    if ki != i {
        assert(s[ki].key() == s[i].key());
    }
}

/// Round trip: a send-side record added under a composite key and a later
/// reply with the same composite key and a receive timestamp no earlier than
/// the send timestamp complete to a received entry whose latency is exactly
/// the difference of the two timestamps; a reply with no prior record is
/// stored as it came, its latency left untouched.
pub proof fn lemma_send_reply_round_trip(
    s: Seq<ProbeModel>,
    send: ProbeModel,
    reply: ProbeModel,
)
    requires
        entries_wf(s),
        reply.target == send.target,
        reply.seq == send.seq,
        reply.rxts >= send.txts,
    ensures
        ({
            let after_send = insert_entry(s, send);
            let c = completed_reply(after_send, reply);
            let after_reply = insert_entry(after_send, c);
            &&& c.received == reply.received
            &&& c.txts == send.txts
            &&& c.latency == reply.rxts - send.txts
            &&& has_key(after_reply, reply.target, reply.seq)
            &&& after_reply[key_index(after_reply, reply.target, reply.seq)] == c
        }),
        !has_key(s, reply.target, reply.seq) ==> completed_reply(s, reply) == reply,
{
    lemma_insert_entry_found(s, send);
    let after_send = insert_entry(s, send);
    let c = completed_reply(after_send, reply);
    assert(after_send[key_index(after_send, reply.target, reply.seq)] == send);
    lemma_insert_entry_found(after_send, c);
}

/// Two sends that land in the same epoch-second with different composite keys
/// coexist in the bucket: neither insert disturbs the other's entry.
pub proof fn lemma_same_second_coexist(s: Seq<ProbeModel>, p1: ProbeModel, p2: ProbeModel)
    requires
        entries_wf(s),
        p1.key() != p2.key(),
    ensures
        ({
            let r = insert_entry(insert_entry(s, p1), p2);
            &&& entries_wf(r)
            &&& has_key(r, p1.target, p1.seq)
            &&& has_key(r, p2.target, p2.seq)
            &&& r[key_index(r, p1.target, p1.seq)] == p1
            &&& r[key_index(r, p2.target, p2.seq)] == p2
        }),
{
    lemma_insert_entry_found(s, p1);
    let s1 = insert_entry(s, p1);
    lemma_insert_entry_found(s1, p2);
    let r = insert_entry(s1, p2);
    assert(has_key(r, p1.target, p1.seq));
    assert(r[key_index(r, p1.target, p1.seq)] == s1[key_index(s1, p1.target, p1.seq)]);
}

/// Replacing an entry by one with the same composite key keeps the keys
/// unique.
proof fn lemma_update_same_key_wf(s: Seq<ProbeModel>, k: int, p: ProbeModel)
    requires
        entries_wf(s),
        0 <= k < s.len(),
        p.key() == s[k].key(),
    ensures
        entries_wf(s.update(k, p)),
{
    let r = s.update(k, p);
    assert forall|i: int, j: int| 0 <= i < j < r.len() implies r[i].key() != r[j].key() by {
        if i != k && j != k {
            assert(r[i] == s[i] && r[j] == s[j]);
        } else if i == k {
            assert(r[j] == s[j]);
        } else {
            assert(r[i] == s[i]);
        }
    }
}

} // verus!
