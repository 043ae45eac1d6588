//! The registry of buckets, indexed by epoch-second key and ordered
//! oldest-first for eviction. Every key is held by exactly one bucket; the
//! oldest bucket can be inspected without removal or popped from the registry.

use crate::bucket::{
    completed_reply, entries_wf, insert_entry, reply_timestamp_ok, Bucket, BucketModel,
};
use crate::probe::{ProbeModel, ProbeResult};
use vstd::prelude::*;

verus! {

/// The sequence of bucket models a vector of buckets stands for.
pub open spec fn buckets_model(s: Seq<Bucket>) -> Seq<BucketModel> {
    s.map_values(|b: Bucket| b@)
}

/// Bucket keys are unique and every bucket is well formed.
pub open spec fn store_wf(s: Seq<BucketModel>) -> bool {
    &&& forall|i: int, j: int| 0 <= i < j < s.len() ==> s[i].key != s[j].key
    &&& forall|i: int| 0 <= i < s.len() ==> entries_wf(#[trigger] s[i].entries)
}

/// Some bucket carries the epoch-second key k.
pub open spec fn store_has_key(s: Seq<BucketModel>, k: u128) -> bool {
    exists|i: int| 0 <= i < s.len() && s[i].key == k
}

/// The index of the bucket with key k; meaningful only when `store_has_key`
/// holds (and then unique under `store_wf`).
pub open spec fn store_key_index(s: Seq<BucketModel>, k: u128) -> int {
    choose|i: int| 0 <= i < s.len() && s[i].key == k
}

/// The index of the bucket with the smallest key; meaningful only when the
/// store is not empty.
pub open spec fn min_key_index(s: Seq<BucketModel>) -> int
    decreases s.len(),
{
    if s.len() <= 1 {
        0
    } else {
        let r = min_key_index(s.drop_last());
        if s.last().key < s[r].key {
            s.len() - 1
        } else {
            r
        }
    }
}

/// The minimal-key index is in range and no bucket has a smaller key.
pub proof fn lemma_min_key_index_props(s: Seq<BucketModel>)
    requires
        s.len() > 0,
    ensures
        0 <= min_key_index(s) < s.len(),
        forall|j: int| 0 <= j < s.len() ==> s[min_key_index(s)].key <= #[trigger] s[j].key,
    decreases s.len(),
{
    if s.len() > 1 {
        lemma_min_key_index_props(s.drop_last());
        let r = min_key_index(s.drop_last());
        assert forall|j: int| 0 <= j < s.len() implies s[min_key_index(s)].key <= #[trigger] s[j].key by {
            if j < s.len() - 1 {
                assert(s.drop_last()[j] == s[j]);
                assert(s.drop_last()[r] == s[r]);
            }
        }
    }
}

/// A thread-shared registry of buckets: a map from epoch-second key to bucket
/// together with an oldest-first eviction order. Wrap it in a lock to share
/// it between sender, receiver and reporter.
pub struct Buckets {
    buckets: Vec<Bucket>,
}

impl View for Buckets {
    type V = Seq<BucketModel>;

    closed spec fn view(&self) -> Seq<BucketModel> {
        buckets_model(self.buckets@)
    }
}

impl Buckets {
    /// Bucket keys are unique and every bucket is well formed.
    pub open spec fn wf(self) -> bool {
        store_wf(self@)
    }

    /// An empty registry.
    pub fn new_buckets() -> (r: Buckets)
        ensures
            r@ =~= Seq::<BucketModel>::empty(),
            r.wf(),
    {
        let r = Buckets { buckets: Vec::new() };
        proof {
            assert(r@ =~= Seq::<BucketModel>::empty());
        }
        r
    }

    /// The index of the bucket with key `key`, if any.
    fn find_bucket(&self, key: u128) -> (r: Option<usize>)
        requires
            self.wf(),
        ensures
            match r {
                Some(i) => {
                    &&& 0 <= i < self@.len()
                    &&& self@[i as int].key == key
                    &&& store_has_key(self@, key)
                    &&& i == store_key_index(self@, key)
                },
                None => !store_has_key(self@, key),
            },
    {
        let ghost s = self@;
        let mut i: usize = 0;
        while i < self.buckets.len()
            invariant
                self.wf(),
                s == self@,
                i <= s.len(),
                forall|j: int| 0 <= j < i ==> s[j].key != key,
            decreases s.len() - i,
        {
            if self.buckets[i].key() == key {
                proof {
                    assert(s[i as int].key == key);
                    assert(store_has_key(s, key));
                    let ki = store_key_index(s, key);
                    assert(0 <= ki < s.len() && s[ki].key == key);
                    assert(ki == i as int);
                }
                return Some(i);
            }
            i = i + 1;
        }
        None
    }

    /// Records a send-side probe result under the epoch-second `key`, lazily
    /// creating the bucket for a not-yet-seen second.
    pub fn add(&mut self, key: u128, value: ProbeResult)
        requires
            old(self).wf(),
        ensures
            final(self).wf(),
            store_has_key(old(self)@, key) ==> final(self)@ =~= old(self)@.update(
                store_key_index(old(self)@, key),
                BucketModel {
                    key,
                    entries: insert_entry(
                        old(self)@[store_key_index(old(self)@, key)].entries,
                        value@,
                    ),
                },
            ),
            !store_has_key(old(self)@, key) ==> final(self)@ =~= old(self)@.push(
                BucketModel { key, entries: Seq::<ProbeModel>::empty().push(value@) },
            ),
    {
        let ghost s = self@;
        let found = self.find_bucket(key);
        match found {
            Some(i) => {
                let b = &mut self.buckets[i];
                b.add(value);
                proof {
                    assert(self@ =~= s.update(
                        i as int,
                        BucketModel { key, entries: insert_entry(s[i as int].entries, value@) },
                    ));
                    lemma_store_update_wf(s, i as int, self@[i as int]);
                }
            },
            None => {
                let mut b = Bucket::new_bucket(key);
                b.add(value);
                proof {
                    assert(b@.entries =~= Seq::<ProbeModel>::empty().push(value@));
                }
                self.buckets.push(b);
                proof {
                    assert(self@ =~= s.push(
                        BucketModel { key, entries: Seq::<ProbeModel>::empty().push(value@) },
                    ));
                    lemma_store_push_wf(s, self@[s.len() as int]);
                }
            },
        }
    }

    /// Records a reply under the epoch-second `key`, lazily creating the
    /// bucket. A reply whose composite key matches a send-side record takes
    /// over its send timestamp and the latency is computed; an orphan reply
    /// is stored as it came.
    pub fn add_reply(&mut self, key: u128, result: ProbeResult)
        requires
            old(self).wf(),
            store_has_key(old(self)@, key) ==> reply_timestamp_ok(
                old(self)@[store_key_index(old(self)@, key)].entries,
                result@,
            ),
        ensures
            final(self).wf(),
            store_has_key(old(self)@, key) ==> final(self)@ =~= old(self)@.update(
                store_key_index(old(self)@, key),
                BucketModel {
                    key,
                    entries: insert_entry(
                        old(self)@[store_key_index(old(self)@, key)].entries,
                        completed_reply(
                            old(self)@[store_key_index(old(self)@, key)].entries,
                            result@,
                        ),
                    ),
                },
            ),
            !store_has_key(old(self)@, key) ==> final(self)@ =~= old(self)@.push(
                BucketModel { key, entries: Seq::<ProbeModel>::empty().push(result@) },
            ),
    {
        let ghost s = self@;
        let found = self.find_bucket(key);
        match found {
            Some(i) => {
                let b = &mut self.buckets[i];
                b.add_reply(result);
                proof {
                    let e = s[i as int].entries;
                    assert(self@ =~= s.update(
                        i as int,
                        BucketModel {
                            key,
                            entries: insert_entry(e, completed_reply(e, result@)),
                        },
                    ));
                    lemma_store_update_wf(s, i as int, self@[i as int]);
                }
            },
            None => {
                let mut b = Bucket::new_bucket(key);
                b.add_reply(result);
                proof {
                    assert(completed_reply(Seq::<ProbeModel>::empty(), result@) == result@);
                    assert(b@.entries =~= Seq::<ProbeModel>::empty().push(result@));
                }
                self.buckets.push(b);
                proof {
                    assert(self@ =~= s.push(
                        BucketModel { key, entries: Seq::<ProbeModel>::empty().push(result@) },
                    ));
                    lemma_store_push_wf(s, self@[s.len() as int]);
                }
            },
        }
    }

    /// Corrects the send timestamp of one probe record after the fact. No-op
    /// when the bucket or the entry no longer exists.
    pub fn update_txts(&mut self, key: u128, target: String, seq: u16, txts: u128)
        requires
            old(self).wf(),
        ensures
            final(self).wf(),
            !store_has_key(old(self)@, key) ==> final(self)@ =~= old(self)@,
            store_has_key(old(self)@, key) ==> {
                let ki = store_key_index(old(self)@, key);
                let e = old(self)@[ki].entries;
                if crate::bucket::has_key(e, target@, seq) {
                    final(self)@ =~= old(self)@.update(
                        ki,
                        BucketModel {
                            key,
                            entries: e.update(
                                crate::bucket::key_index(e, target@, seq),
                                ProbeModel {
                                    txts,
                                    ..e[crate::bucket::key_index(e, target@, seq)]
                                },
                            ),
                        },
                    )
                } else {
                    final(self)@ =~= old(self)@
                }
            },
    {
        let ghost s = self@;
        let found = self.find_bucket(key);
        match found {
            Some(i) => {
                let b = &mut self.buckets[i];
                b.update_txts(target, seq, txts);
                proof {
                    let ki = store_key_index(s, key);
                    let e = s[ki].entries;
                    if crate::bucket::has_key(e, target@, seq) {
                        assert(self@ =~= s.update(
                            i as int,
                            BucketModel {
                                key,
                                entries: e.update(
                                    crate::bucket::key_index(e, target@, seq),
                                    ProbeModel {
                                        txts,
                                        ..e[crate::bucket::key_index(e, target@, seq)]
                                    },
                                ),
                            },
                        ));
                    } else {
                        assert(self@ =~= s);
                    }
                    lemma_store_update_wf(s, i as int, self@[i as int]);
                }
            },
            None => {
                proof {
                    assert(self@ =~= s);
                }
            },
        }
    }

    /// The send timestamp recorded under the given epoch-second key and
    /// composite key, if any: what a caller holds a reply's receive timestamp
    /// against before recording it.
    pub fn send_txts_of(&self, key: u128, target: &String, seq: u16) -> (r: Option<u128>)
        requires
            self.wf(),
        ensures
            match r {
                Some(t) => {
                    &&& store_has_key(self@, key)
                    &&& {
                        let e = self@[store_key_index(self@, key)].entries;
                        crate::bucket::has_key(e, target@, seq) && t == e[crate::bucket::key_index(
                            e,
                            target@,
                            seq,
                        )].txts
                    }
                },
                None => !store_has_key(self@, key) || !crate::bucket::has_key(
                    self@[store_key_index(self@, key)].entries,
                    target@,
                    seq,
                ),
            },
    {
        match self.find_bucket(key) {
            Some(i) => self.buckets[i].send_txts(target, seq),
            None => None,
        }
    }

    /// The index of the bucket with the smallest key, if any.
    fn min_index(&self) -> (r: Option<usize>)
        requires
            self.wf(),
        ensures
            match r {
                Some(i) => {
                    &&& self@.len() > 0
                    &&& i == min_key_index(self@)
                    &&& 0 <= i < self@.len()
                },
                None => self@.len() == 0,
            },
    {
        let ghost s = self@;
        if self.buckets.len() == 0 {
            return None;
        }
        let mut best: usize = 0;
        let mut j: usize = 1;
        while j < self.buckets.len()
            invariant
                self.wf(),
                s == self@,
                s.len() > 0,
                0 <= best < j <= s.len(),
                forall|k: int| 0 <= k < j ==> s[best as int].key <= #[trigger] s[k].key,
            decreases s.len() - j,
        {
            if self.buckets[j].key() < self.buckets[best].key() {
                best = j;
            }
            j = j + 1;
        }
        proof {
            lemma_min_key_index_props(s);
            let m = min_key_index(s);
            assert(s[m].key <= s[best as int].key);
            assert(s[best as int].key <= s[m].key);
            if m != best as int {
                assert(s[m].key != s[best as int].key);
            }
        }
        Some(best)
    }

    /// Removes and returns the bucket with the smallest key, or nothing when
    /// the registry is empty.
    pub fn pop(&mut self) -> (r: Option<Bucket>)
        requires
            old(self).wf(),
        ensures
            final(self).wf(),
            old(self)@.len() == 0 ==> r is None && final(self)@ =~= old(self)@,
            old(self)@.len() > 0 ==> {
                &&& r is Some
                &&& r->Some_0@ == old(self)@[min_key_index(old(self)@)]
                &&& final(self)@ =~= old(self)@.remove(min_key_index(old(self)@))
            },
    {
        let ghost s = self@;
        match self.min_index() {
            Some(i) => {
                let b = self.buckets.remove(i);
                proof {
                    assert(self@ =~= s.remove(i as int));
                    lemma_store_remove_wf(s, i as int);
                }
                Some(b)
            },
            None => {
                proof {
                    assert(self@ =~= s);
                }
                None
            },
        }
    }

    /// A read-only copy of the bucket with the smallest key, left in place,
    /// or nothing when the registry is empty.
    pub fn last(&self) -> (r: Option<Bucket>)
        requires
            self.wf(),
        ensures
            self@.len() == 0 ==> r is None,
            self@.len() > 0 ==> r is Some && r->Some_0@ == self@[min_key_index(self@)],
    {
        match self.min_index() {
            Some(i) => Some(self.buckets[i].clone()),
            None => None,
        }
    }
}

/// Replacing a bucket by one with the same key keeps the store well formed.
proof fn lemma_store_update_wf(s: Seq<BucketModel>, k: int, b: BucketModel)
    requires
        store_wf(s),
        0 <= k < s.len(),
        b.key == s[k].key,
        entries_wf(b.entries),
    ensures
        store_wf(s.update(k, b)),
{
    let r = s.update(k, b);
    assert forall|i: int, j: int| 0 <= i < j < r.len() implies r[i].key != r[j].key by {
        if i != k && j != k {
            assert(r[i] == s[i] && r[j] == s[j]);
        } else if i == k {
            assert(r[j] == s[j]);
        } else {
            assert(r[i] == s[i]);
        }
    }
}

/// Appending a bucket with a fresh key keeps the store well formed.
proof fn lemma_store_push_wf(s: Seq<BucketModel>, b: BucketModel)
    requires
        store_wf(s),
        !store_has_key(s, b.key),
        entries_wf(b.entries),
    ensures
        store_wf(s.push(b)),
{
    let r = s.push(b);
    assert forall|i: int, j: int| 0 <= i < j < r.len() implies r[i].key != r[j].key by {
        if j == s.len() {
            assert(r[i] == s[i]);
        } else {
            assert(r[i] == s[i] && r[j] == s[j]);
        }
    }
}

/// Removing a bucket keeps the store well formed.
proof fn lemma_store_remove_wf(s: Seq<BucketModel>, k: int)
    requires
        store_wf(s),
        0 <= k < s.len(),
    ensures
        store_wf(s.remove(k)),
{
    let r = s.remove(k);
    assert forall|i: int, j: int| 0 <= i < j < r.len() implies r[i].key != r[j].key by {
        let si = if i < k {
            i
        } else {
            i + 1
        };
        let sj = if j < k {
            j
        } else {
            j + 1
        };
        assert(r[i] == s[si] && r[j] == s[sj]);
    }
    assert forall|i: int| 0 <= i < r.len() implies entries_wf(#[trigger] r[i].entries) by {
        let si = if i < k {
            i
        } else {
            i + 1
        };
        assert(r[i] == s[si]);
    }
}

/// Under unique bucket keys, any index holding the key is the key index.
proof fn lemma_store_key_index_unique(s: Seq<BucketModel>, key: u128, i: int)
    requires
        forall|a: int, b: int| 0 <= a < b < s.len() ==> s[a].key != s[b].key,
        0 <= i < s.len(),
        s[i].key == key,
    ensures
        store_has_key(s, key),
        store_key_index(s, key) == i,
{
    assert(store_has_key(s, key));
    let ki = store_key_index(s, key);
    assert(0 <= ki < s.len() && s[ki].key == key);
}

/// Round trip through the registry: a send-side record stored under an
/// epoch-second key and a later reply with the same key, the same composite
/// key, and a receive timestamp no earlier than the send timestamp complete
/// to a received entry whose latency is exactly the difference of the two
/// timestamps -- whether or not the bucket already existed.
pub proof fn lemma_store_round_trip(
    s: Seq<BucketModel>,
    key: u128,
    send: ProbeModel,
    reply: ProbeModel,
)
    requires
        store_wf(s),
        reply.target == send.target,
        reply.seq == send.seq,
        reply.rxts >= send.txts,
    ensures
        ({
            let s1 = if store_has_key(s, key) {
                s.update(
                    store_key_index(s, key),
                    BucketModel {
                        key,
                        entries: insert_entry(s[store_key_index(s, key)].entries, send),
                    },
                )
            } else {
                s.push(BucketModel { key, entries: Seq::<ProbeModel>::empty().push(send) })
            };
            &&& store_wf(s1)
            &&& store_has_key(s1, key)
            &&& {
                let e1 = s1[store_key_index(s1, key)].entries;
                let c = completed_reply(e1, reply);
                &&& crate::bucket::has_key(e1, reply.target, reply.seq)
                &&& c.received == reply.received
                &&& c.txts == send.txts
                &&& c.latency == reply.rxts - send.txts
            }
        }),
{
    if store_has_key(s, key) {
        let ki = store_key_index(s, key);
        let e = s[ki].entries;
        crate::bucket::lemma_insert_entry_found(e, send);
        let s1 = s.update(ki, BucketModel { key, entries: insert_entry(e, send) });
        lemma_store_update_wf(s, ki, s1[ki]);
        lemma_store_key_index_unique(s1, key, ki);
        let e1 = s1[store_key_index(s1, key)].entries;
        assert(e1 == insert_entry(e, send));
        assert(e1[crate::bucket::key_index(e1, send.target, send.seq)] == send);
    } else {
        let b = BucketModel { key, entries: Seq::<ProbeModel>::empty().push(send) };
        lemma_store_push_wf(s, b);
        let s1 = s.push(b);
        lemma_store_key_index_unique(s1, key, s.len() as int);
        let e1 = s1[store_key_index(s1, key)].entries;
        assert(e1 == Seq::<ProbeModel>::empty().push(send));
        assert(e1[0] == send);
        assert(crate::bucket::has_key(e1, send.target, send.seq));
        let j = crate::bucket::key_index(e1, send.target, send.seq);
        assert(0 <= j < e1.len());
        assert(j == 0);
    }
}

/// Once the oldest bucket is popped, its key is gone from the registry and
/// the next-oldest bucket carries a strictly larger key: the same bucket is
/// never returned twice.
pub proof fn lemma_pop_oldest_advances(s: Seq<BucketModel>)
    requires
        store_wf(s),
        s.len() > 0,
    ensures
        !store_has_key(s.remove(min_key_index(s)), s[min_key_index(s)].key),
        s.len() > 1 ==> s.remove(min_key_index(s))[min_key_index(s.remove(min_key_index(s)))].key
            > s[min_key_index(s)].key,
{
    let m = min_key_index(s);
    lemma_min_key_index_props(s);
    let rest = s.remove(m);
    assert forall|i: int| 0 <= i < rest.len() implies rest[i].key > s[m].key by {
        let si = if i < m {
            i
        } else {
            i + 1
        };
        assert(rest[i] == s[si]);
        assert(s[si].key >= s[m].key);
        if si != m {
            assert(s[si].key != s[m].key);
        }
    }
    if s.len() > 1 {
        lemma_min_key_index_props(rest);
    }
}

} // verus!
