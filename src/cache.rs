//! The hand-off between the polling thread and the render loop: records travel one
//! per message over a channel, and the render side keeps the latest record of each
//! stream without ever waiting on the audio server.
use vstd::prelude::*;

use std::sync::mpsc::{Receiver, Sender};

use crate::data::SinkInputInformation;

verus! {

#[verifier::external_type_specification]
#[verifier::external_body]
#[verifier::reject_recursive_types(T)]
pub struct ExReceiver<T>(Receiver<T>);

#[verifier::external_type_specification]
#[verifier::external_body]
#[verifier::reject_recursive_types(T)]
pub struct ExSender<T>(Sender<T>);

/// Relies on std's `Receiver::recv_timeout`: waits at most `wait_ms` milliseconds
/// for one message. `None` when none came in time or every sender is gone.
#[verifier::external_body]
fn receive_within<T>(rx: &Receiver<T>, wait_ms: u64) -> (r: Option<T>) {
    rx.recv_timeout(std::time::Duration::from_millis(wait_ms)).ok()
}

/// Relies on std's `Receiver::try_recv`: takes a message that is already queued,
/// without waiting. `None` when the queue is empty or every sender is gone.
#[verifier::external_body]
fn receive_queued<T>(rx: &Receiver<T>) -> (r: Option<T>) {
    rx.try_recv().ok()
}

/// Relies on std's `Sender::send`: queues `value` without waiting. False when the
/// receiving side is gone.
#[verifier::external_body]
fn send_one<T>(tx: &Sender<T>, value: T) -> (r: bool) {
    tx.send(value).is_ok()
}

/// Most records one `update` takes off the channel, so that a producer that never
/// pauses cannot hold the render loop.
pub const MAX_UPDATE_RECORDS: usize = 1024;

/// `m` after the records of `batch` were written into it in order, each under its index.
pub open spec fn absorbed(m: Map<u32, SinkInputInformation>, batch: Seq<SinkInputInformation>) -> Map<
    u32,
    SinkInputInformation,
>
    decreases batch.len(),
{
    if batch.len() == 0 {
        m
    } else {
        absorbed(m, batch.drop_last()).insert(batch.last().index, batch.last())
    }
}

/// Records keyed by their index; where two share one, the later stands.
pub open spec fn latest(s: Seq<SinkInputInformation>) -> Map<u32, SinkInputInformation> {
    absorbed(Map::empty(), s)
}

spec fn distinct_indices(s: Seq<SinkInputInformation>) -> bool {
    forall|i: int, j: int| 0 <= i < j < s.len() ==> (#[trigger] s[i]).index != (#[trigger] s[j]).index
}

proof fn lemma_latest_dom(s: Seq<SinkInputInformation>, k: u32)
    ensures
        latest(s).contains_key(k) <==> exists|i: int| 0 <= i < s.len() && (#[trigger] s[i]).index == k,
    decreases s.len(),
{
    if s.len() > 0 {
        let t = s.drop_last();
        lemma_latest_dom(t, k);
        if exists|i: int| 0 <= i < s.len() && (#[trigger] s[i]).index == k {
            let i = choose|i: int| 0 <= i < s.len() && (#[trigger] s[i]).index == k;
            if i < s.len() - 1 {
                assert(t[i].index == k);
            }
        }
        if latest(t).contains_key(k) {
            let i = choose|i: int| 0 <= i < t.len() && (#[trigger] t[i]).index == k;
            assert(s[i].index == k);
        }
    }
}

proof fn lemma_latest_at(s: Seq<SinkInputInformation>, p: int)
    requires
        distinct_indices(s),
        0 <= p < s.len(),
    ensures
        latest(s).contains_key(s[p].index),
        latest(s)[s[p].index] == s[p],
    decreases s.len(),
{
    if p < s.len() - 1 {
        assert(s.drop_last()[p] == s[p]);
        lemma_latest_at(s.drop_last(), p);
        assert(s.last().index != s[p].index);
    }
}

proof fn lemma_latest_update(s: Seq<SinkInputInformation>, p: int, x: SinkInputInformation)
    requires
        distinct_indices(s),
        0 <= p < s.len(),
        x.index == s[p].index,
    ensures
        latest(s.update(p, x)) == latest(s).insert(x.index, x),
    decreases s.len(),
{
    let t = s.update(p, x);
    if p == s.len() - 1 {
        assert(t.drop_last() == s.drop_last());
        assert(latest(t) =~= latest(s).insert(x.index, x));
    } else {
        assert(t.drop_last() == s.drop_last().update(p, x));
        lemma_latest_update(s.drop_last(), p, x);
        assert(s.last().index != x.index);
        assert(latest(t) =~= latest(s).insert(x.index, x));
    }
}

proof fn lemma_latest_len(s: Seq<SinkInputInformation>)
    requires
        distinct_indices(s),
    ensures
        latest(s).dom().finite(),
        latest(s).dom().len() == s.len(),
    decreases s.len(),
{
    if s.len() > 0 {
        let t = s.drop_last();
        lemma_latest_len(t);
        lemma_latest_dom(t, s.last().index);
        if latest(t).contains_key(s.last().index) {
            let i = choose|i: int| 0 <= i < t.len() && (#[trigger] t[i]).index == s.last().index;
            assert(s[i].index == s[s.len() - 1].index);
        }
    }
}

/// Where the last record of `batch` with index `k` stands at `j`, the cache holds that
/// record under `k` afterwards, whatever came before it; an index that no record of
/// `batch` carries keeps its entry, or its absence.
pub proof fn lemma_last_write_wins(
    m: Map<u32, SinkInputInformation>,
    batch: Seq<SinkInputInformation>,
    k: u32,
)
    ensures
        (forall|i: int| 0 <= i < batch.len() ==> (#[trigger] batch[i]).index != k) ==> {
            &&& absorbed(m, batch).contains_key(k) == m.contains_key(k)
            &&& m.contains_key(k) ==> absorbed(m, batch)[k] == m[k]
        },
        forall|j: int|
            0 <= j < batch.len() && (#[trigger] batch[j]).index == k && (forall|l: int|
                j < l < batch.len() ==> (#[trigger] batch[l]).index != k) ==> {
                &&& absorbed(m, batch).contains_key(k)
                &&& absorbed(m, batch)[k] == batch[j]
            },
    decreases batch.len(),
{
    if batch.len() > 0 {
        let t = batch.drop_last();
        lemma_last_write_wins(m, t, k);
        if forall|i: int| 0 <= i < batch.len() ==> (#[trigger] batch[i]).index != k {
            assert forall|i: int| 0 <= i < t.len() implies (#[trigger] t[i]).index != k by {
                assert(batch[i] == t[i]);
            }
        }
        assert forall|j: int|
            0 <= j < batch.len() && (#[trigger] batch[j]).index == k && (forall|l: int|
                j < l < batch.len() ==> (#[trigger] batch[l]).index != k) implies {
            &&& absorbed(m, batch).contains_key(k)
            &&& absorbed(m, batch)[k] == batch[j]
        } by {
            if j < batch.len() - 1 {
                assert(batch[batch.len() - 1].index != k);
                assert(t[j] == batch[j]);
                assert forall|l: int| j < l < t.len() implies (#[trigger] t[l]).index != k by {
                    assert(batch[l] == t[l]);
                }
            }
        }
    }
}

/// Error of the producing side: the consumer is gone. `sent` records went through
/// before the first that could not.
#[derive(Clone, Copy, Debug, PartialEq, Eq, Structural)]
pub struct ChannelClosedError {
    pub sent: usize,
}

/// Sends `records` one per message, in order, and stops at the first that the closed
/// channel refuses; a poller then ends its loop.
pub fn publish(tx: &Sender<SinkInputInformation>, records: Vec<SinkInputInformation>) -> (r: Result<
    usize,
    ChannelClosedError,
>)
    ensures
        match r {
            Ok(n) => n == records.len(),
            Err(e) => e.sent < records.len(),
        },
{
    let n = records.len();
    let mut sent: usize = 0;
    for record in it: records
        invariant
            n == it.seq().len(),
            sent == it.index(),
    {
        if !send_one(tx, record) {
            return Err(ChannelClosedError { sent });
        }
        sent = sent + 1;
    }
    Ok(sent)
}

/// The render side's view of the streams: the latest record of each stream index, as
/// received from the poller. Entries are replaced, never removed.
pub struct CrossThreadCache {
    receiver: Receiver<SinkInputInformation>,
    wait_ms: u64,
    entries: Vec<SinkInputInformation>,
}

impl View for CrossThreadCache {
    type V = Map<u32, SinkInputInformation>;

    closed spec fn view(&self) -> Map<u32, SinkInputInformation> {
        latest(self.entries@)
    }
}

impl CrossThreadCache {
    /// No two entries share a stream index.
    pub closed spec fn well_formed(&self) -> bool {
        distinct_indices(self.entries@)
    }

    /// The bound, in milliseconds, on how long one `update` waits.
    pub closed spec fn wait_bound(&self) -> u64 {
        self.wait_ms
    }

    /// An empty cache fed by `receiver`, whose `update` waits at most `wait_ms` milliseconds.
    pub fn new(receiver: Receiver<SinkInputInformation>, wait_ms: u64) -> (r: Self)
        ensures
            r.well_formed(),
            r@ == Map::<u32, SinkInputInformation>::empty(),
            r.wait_bound() == wait_ms,
    {
        CrossThreadCache { receiver, wait_ms, entries: Vec::new() }
    }

    /// The bound, in milliseconds, on how long one `update` waits.
    pub fn wait_ms(&self) -> (r: u64)
        ensures
            r == self.wait_bound(),
    {
        self.wait_ms
    }

    fn position(&self, index: u32) -> (r: Option<usize>)
        ensures
            match r {
                Some(p) => p < self.entries.len() && self.entries@[p as int].index == index,
                None => forall|i: int| 0 <= i < self.entries.len() ==> (#[trigger] self.entries@[i]).index != index,
            },
    {
        let mut i: usize = 0;
        while i < self.entries.len()
            invariant
                i <= self.entries.len(),
                forall|j: int| 0 <= j < i ==> (#[trigger] self.entries@[j]).index != index,
            decreases self.entries.len() - i,
        {
            if self.entries[i].index == index {
                return Some(i);
            }
            i = i + 1;
        }
        None
    }

    /// Writes `record` under its index, replacing what was there.
    fn put(&mut self, record: SinkInputInformation)
        requires
            old(self).well_formed(),
        ensures
            final(self).well_formed(),
            final(self)@ == old(self)@.insert(record.index, record),
            final(self).wait_bound() == old(self).wait_bound(),
    {
        let ghost before = self.entries@;
        let k = record.index;
        match self.position(k) {
            Some(p) => {
                proof {
                    lemma_latest_update(before, p as int, record);
                }
                self.entries.set(p, record);
                proof {
                    assert forall|i: int, j: int| 0 <= i < j < self.entries@.len() implies (
                    #[trigger] self.entries@[i]).index != (#[trigger] self.entries@[j]).index by {
                        assert(self.entries@[i].index == before[i].index);
                        assert(self.entries@[j].index == before[j].index);
                    }
                }
            },
            None => {
                self.entries.push(record);
                proof {
                    assert(self.entries@.drop_last() == before);
                }
            },
        }
    }

    /// Writes the records of `batch` in order, each under its index: the last record
    /// of each index wins.
    pub fn absorb(&mut self, batch: Vec<SinkInputInformation>)
        requires
            old(self).well_formed(),
        ensures
            final(self).well_formed(),
            final(self)@ == absorbed(old(self)@, batch@),
            final(self).wait_bound() == old(self).wait_bound(),
    {
        let ghost start = self@;
        let ghost all = batch@;
        for record in it: batch
            invariant
                it.seq() == all,
                self.well_formed(),
                self@ == absorbed(start, all.subrange(0, it.index() as int)),
                self.wait_bound() == old(self).wait_bound(),
        {
            proof {
                assert(all.subrange(0, it.index() + 1).drop_last() == all.subrange(0, it.index() as int));
            }
            self.put(record);
        }
        proof {
            assert(all.subrange(0, all.len() as int) == all);
        }
    }

    /// Takes what the poller has sent: waits at most the configured bound for one
    /// record, then takes those already queued without waiting, up to
    /// `MAX_UPDATE_RECORDS`, and writes them in order. Returns how many it took; the
    /// cache then holds the latest of them for each index.
    pub fn update(&mut self) -> (r: usize)
        requires
            old(self).well_formed(),
        ensures
            final(self).well_formed(),
            r <= MAX_UPDATE_RECORDS,
            exists|b: Seq<SinkInputInformation>|
                b.len() == r && #[trigger] absorbed(old(self)@, b) == final(self)@,
            final(self).wait_bound() == old(self).wait_bound(),
    {
        let mut batch: Vec<SinkInputInformation> = Vec::new();
        if let Some(first) = receive_within(&self.receiver, self.wait_ms) {
            batch.push(first);
            while batch.len() < MAX_UPDATE_RECORDS
                invariant
                    batch.len() <= MAX_UPDATE_RECORDS,
                decreases MAX_UPDATE_RECORDS - batch.len(),
            {
                match receive_queued(&self.receiver) {
                    Some(record) => batch.push(record),
                    None => break,
                }
            }
        }
        let n = batch.len();
        let ghost b = batch@;
        self.absorb(batch);
        n
    }

    /// The latest record of stream `index`, if one has arrived.
    pub fn get(&self, index: u32) -> (r: Option<&SinkInputInformation>)
        requires
            self.well_formed(),
        ensures
            r is Some <==> self@.contains_key(index),
            r matches Some(x) ==> *x == self@[index],
    {
        proof {
            lemma_latest_dom(self.entries@, index);
        }
        match self.position(index) {
            Some(p) => {
                proof {
                    lemma_latest_at(self.entries@, p as int);
                }
                Some(&self.entries[p])
            },
            None => None,
        }
    }

    /// Number of streams in the cache.
    pub fn len(&self) -> (r: usize)
        requires
            self.well_formed(),
        ensures
            r == self@.dom().len(),
    {
        proof {
            lemma_latest_len(self.entries@);
        }
        self.entries.len()
    }

    /// Every cached record once, in the order in which their streams first arrived.
    pub fn values(&self) -> (r: &[SinkInputInformation])
        requires
            self.well_formed(),
        ensures
            forall|i: int|
                0 <= i < r@.len() ==> self@.contains_key((#[trigger] r@[i]).index) && self@[r@[i].index]
                    == r@[i],
            forall|i: int, j: int| 0 <= i < j < r@.len() ==> (#[trigger] r@[i]).index != (#[trigger] r@[j]).index,
            forall|k: u32| self@.contains_key(k) ==> exists|i: int| 0 <= i < r@.len() && (#[trigger] r@[i]).index == k,
    {
        proof {
            let s = self.entries@;
            assert forall|i: int| 0 <= i < s.len() implies self@.contains_key((#[trigger] s[i]).index)
                && self@[s[i].index] == s[i] by {
                lemma_latest_at(s, i);
            }
            assert forall|k: u32| self@.contains_key(k) implies exists|i: int| 0 <= i < s.len() && (
            #[trigger] s[i]).index == k by {
                lemma_latest_dom(s, k);
            }
        }
        self.entries.as_slice()
    }
}

} // verus!
