//! Joins the sink list and the sink-input list of one poll into a snapshot.
use vstd::prelude::*;
use vstd::std_specs::iter::IteratorSpec;

use crate::data::{SinkInformation, SinkInputInformation};

verus! {

/// Sinks keyed by index; where two sinks share an index, the later one stands.
pub open spec fn sinks_by_index(sinks: Seq<SinkInformation>) -> Map<u32, SinkInformation>
    decreases sinks.len(),
{
    if sinks.len() == 0 {
        Map::empty()
    } else {
        sinks_by_index(sinks.drop_last()).insert(sinks.last().index, sinks.last())
    }
}

/// The inputs routed to sink `sink`, in the order in which they were delivered.
pub open spec fn inputs_of(inputs: Seq<SinkInputInformation>, sink: u32) -> Seq<SinkInputInformation>
    decreases inputs.len(),
{
    if inputs.len() == 0 {
        Seq::empty()
    } else if inputs.last().sink == sink {
        inputs_of(inputs.drop_last(), sink).push(inputs.last())
    } else {
        inputs_of(inputs.drop_last(), sink)
    }
}

/// The snapshot of one poll: each sink by its index, with the inputs routed to it.
pub open spec fn snapshot_of(sinks: Seq<SinkInformation>, inputs: Seq<SinkInputInformation>) -> Map<
    u32,
    (SinkInformation, Seq<SinkInputInformation>),
> {
    Map::new(
        |k: u32| sinks_by_index(sinks).contains_key(k),
        |k: u32| (sinks_by_index(sinks)[k], inputs_of(inputs, k)),
    )
}

/// A sink together with the inputs currently routed to it.
pub struct SinkAndInputs {
    sink: SinkInformation,
    sink_inputs: Vec<SinkInputInformation>,
}

impl View for SinkAndInputs {
    type V = (SinkInformation, Seq<SinkInputInformation>);

    closed spec fn view(&self) -> Self::V {
        (self.sink, self.sink_inputs@)
    }
}

impl SinkAndInputs {
    pub fn new(sink: SinkInformation, sink_inputs: Vec<SinkInputInformation>) -> (r: Self)
        ensures
            r@ == (sink, sink_inputs@),
    {
        SinkAndInputs { sink, sink_inputs }
    }

    pub fn sink(&self) -> (r: &SinkInformation)
        ensures
            *r == self@.0,
    {
        &self.sink
    }

    pub fn push(&mut self, value: SinkInputInformation)
        ensures
            final(self)@ == (old(self)@.0, old(self)@.1.push(value)),
    {
        self.sink_inputs.push(value)
    }

    /// The inputs, in the order in which they were added.
    pub fn iter(&self) -> (r: std::slice::Iter<'_, SinkInputInformation>)
        ensures
            r.remaining() == self@.1.as_ref(),
    {
        self.sink_inputs.as_slice().iter()
    }
}

spec fn key(e: SinkAndInputs) -> u32 {
    e@.0.index
}

/// Entries keyed by their sink's index.
spec fn keyed(s: Seq<SinkAndInputs>) -> Map<u32, (SinkInformation, Seq<SinkInputInformation>)>
    decreases s.len(),
{
    if s.len() == 0 {
        Map::empty()
    } else {
        keyed(s.drop_last()).insert(key(s.last()), s.last()@)
    }
}

spec fn distinct_keys(s: Seq<SinkAndInputs>) -> bool {
    forall|i: int, j: int| 0 <= i < j < s.len() ==> key(#[trigger] s[i]) != key(#[trigger] s[j])
}

proof fn lemma_keyed_dom(s: Seq<SinkAndInputs>, k: u32)
    ensures
        keyed(s).contains_key(k) <==> exists|i: int| 0 <= i < s.len() && key(#[trigger] s[i]) == k,
    decreases s.len(),
{
    if s.len() > 0 {
        lemma_keyed_dom(s.drop_last(), k);
        if exists|i: int| 0 <= i < s.len() && key(#[trigger] s[i]) == k {
            let i = choose|i: int| 0 <= i < s.len() && key(#[trigger] s[i]) == k;
            if i < s.len() - 1 {
                assert(key(s.drop_last()[i]) == k);
            }
        }
        if keyed(s.drop_last()).contains_key(k) {
            let i = choose|i: int| 0 <= i < s.len() - 1 && key(#[trigger] s.drop_last()[i]) == k;
            assert(key(s[i]) == k);
        }
    }
}

proof fn lemma_keyed_at(s: Seq<SinkAndInputs>, p: int)
    requires
        distinct_keys(s),
        0 <= p < s.len(),
    ensures
        keyed(s).contains_key(key(s[p])),
        keyed(s)[key(s[p])] == s[p]@,
    decreases s.len(),
{
    if p < s.len() - 1 {
        assert(s.drop_last()[p] == s[p]);
        lemma_keyed_at(s.drop_last(), p);
        assert(key(s.last()) != key(s[p]));
    }
}

proof fn lemma_keyed_update(s: Seq<SinkAndInputs>, p: int, x: SinkAndInputs)
    requires
        distinct_keys(s),
        0 <= p < s.len(),
        key(x) == key(s[p]),
    ensures
        keyed(s.update(p, x)) == keyed(s).insert(key(x), x@),
    decreases s.len(),
{
    let t = s.update(p, x);
    if p == s.len() - 1 {
        assert(t.drop_last() == s.drop_last());
        assert(keyed(t) =~= keyed(s).insert(key(x), x@));
    } else {
        assert(t.drop_last() == s.drop_last().update(p, x));
        lemma_keyed_update(s.drop_last(), p, x);
        assert(key(s.last()) != key(x));
        assert(keyed(t) =~= keyed(s).insert(key(x), x@));
    }
}

proof fn lemma_keyed_len(s: Seq<SinkAndInputs>)
    requires
        distinct_keys(s),
    ensures
        keyed(s).dom().finite(),
        keyed(s).dom().len() == s.len(),
    decreases s.len(),
{
    if s.len() > 0 {
        let t = s.drop_last();
        lemma_keyed_len(t);
        lemma_keyed_dom(t, key(s.last()));
        if keyed(t).contains_key(key(s.last())) {
            let i = choose|i: int| 0 <= i < t.len() && key(#[trigger] t[i]) == key(s.last());
            assert(key(s[i]) == key(s[s.len() - 1]));
        }
    }
}

/// A point-in-time snapshot: each sink by its index, with the inputs routed to it.
pub struct VolumeInfo {
    sinks_and_inputs: Vec<SinkAndInputs>,
}

impl VolumeInfo {
    /// No two entries are for the same sink index.
    #[verifier::type_invariant]
    spec fn well_formed(&self) -> bool {
        distinct_keys(self.sinks_and_inputs@)
    }
}

impl View for VolumeInfo {
    type V = Map<u32, (SinkInformation, Seq<SinkInputInformation>)>;

    closed spec fn view(&self) -> Self::V {
        keyed(self.sinks_and_inputs@)
    }
}

impl VolumeInfo {
    /// Position of the entry for sink `index`, if there is one.
    fn position(entries: &Vec<SinkAndInputs>, index: u32) -> (r: Option<usize>)
        ensures
            match r {
                Some(p) => p < entries.len() && key(entries@[p as int]) == index,
                None => forall|i: int| 0 <= i < entries.len() ==> key(#[trigger] entries@[i]) != index,
            },
    {
        let mut i: usize = 0;
        while i < entries.len()
            invariant
                i <= entries.len(),
                forall|j: int| 0 <= j < i ==> key(#[trigger] entries@[j]) != index,
            decreases entries.len() - i,
        {
            if entries[i].sink.index == index {
                return Some(i);
            }
            i = i + 1;
        }
        None
    }

    /// Joins `sinks` and `inputs`: every sink is present, each with the inputs that
    /// name it, in delivery order; an input whose sink is absent is dropped.
    pub fn build(sinks: Vec<SinkInformation>, inputs: Vec<SinkInputInformation>) -> (r: Self)
        ensures
            r@ == snapshot_of(sinks@, inputs@),
    {
        let ghost all_sinks = sinks@;
        let ghost all_inputs = inputs@;
        let mut entries: Vec<SinkAndInputs> = Vec::new();
        for sink in it: sinks
            invariant
                it.seq() == all_sinks,
                distinct_keys(entries@),
                keyed(entries@) == snapshot_of(all_sinks.subrange(0, it.index() as int), Seq::empty()),
        {
            let ghost before = entries@;
            let ghost done = all_sinks.subrange(0, it.index() as int);
            let k = sink.index;
            assert(all_sinks.subrange(0, it.index() + 1).drop_last() == done);
            let entry = SinkAndInputs::new(sink, Vec::new());
            match Self::position(&entries, k) {
                Some(p) => {
                    entries.set(p, entry);
                    proof {
                        lemma_keyed_update(before, p as int, entry);
                        assert(entries@ == before.update(p as int, entry));
                        assert forall|i: int, j: int| 0 <= i < j < entries@.len() implies key(
                            #[trigger] entries@[i],
                        ) != key(#[trigger] entries@[j]) by {
                            assert(key(entries@[i]) == key(before[i]));
                            assert(key(entries@[j]) == key(before[j]));
                        }
                    }
                },
                None => {
                    entries.push(entry);
                    proof {
                        assert(entries@.drop_last() == before);
                    }
                },
            }
            proof {
                let now = all_sinks.subrange(0, it.index() + 1);
                assert(keyed(entries@) =~= snapshot_of(now, Seq::empty()));
            }
        }
        proof {
            assert(all_sinks.subrange(0, all_sinks.len() as int) == all_sinks);
            assert(keyed(entries@) =~= snapshot_of(all_sinks, all_inputs.subrange(0, 0)));
        }
        for input in it: inputs
            invariant
                it.seq() == all_inputs,
                distinct_keys(entries@),
                keyed(entries@) == snapshot_of(all_sinks, all_inputs.subrange(0, it.index() as int)),
        {
            let ghost before = entries@;
            let ghost done = all_inputs.subrange(0, it.index() as int);
            let ghost now = all_inputs.subrange(0, it.index() + 1);
            let ghost x = input;
            assert(now.drop_last() == done);
            assert(now.last() == x);
            match Self::position(&entries, input.sink) {
                Some(p) => {
                    entries[p].push(input);
                    proof {
                        let e = entries@[p as int];
                        lemma_keyed_at(before, p as int);
                        lemma_keyed_update(before, p as int, e);
                        assert forall|k: u32| #[trigger] keyed(before).contains_key(k) && k != x.sink
                            implies inputs_of(now, k) == inputs_of(done, k) by {}
                        assert(inputs_of(now, x.sink) == inputs_of(done, x.sink).push(x));
                        assert(entries@ == before.update(p as int, e));
                        assert forall|i: int, j: int| 0 <= i < j < entries@.len() implies key(
                            #[trigger] entries@[i],
                        ) != key(#[trigger] entries@[j]) by {
                            assert(key(entries@[i]) == key(before[i]));
                            assert(key(entries@[j]) == key(before[j]));
                        }
                        assert(keyed(entries@) =~= snapshot_of(all_sinks, now));
                    }
                },
                None => {
                    proof {
                        lemma_keyed_dom(before, x.sink);
                        assert(!keyed(before).contains_key(x.sink));
                        assert forall|k: u32| #[trigger] keyed(before).contains_key(k) implies inputs_of(now, k)
                            == inputs_of(done, k) by {
                            assert(k != x.sink);
                        }
                        assert(keyed(entries@) =~= snapshot_of(all_sinks, now));
                    }
                },
            }
        }
        proof {
            assert(all_inputs.subrange(0, all_inputs.len() as int) == all_inputs);
        }
        VolumeInfo { sinks_and_inputs: entries }
    }

    /// Number of sinks in the snapshot.
    pub fn len(&self) -> (r: usize)
        ensures
            r == self@.dom().len(),
    {
        proof {
            use_type_invariant(self);
            self.lemma_dom_finite_len();
        }
        self.sinks_and_inputs.len()
    }

    proof fn lemma_dom_finite_len(&self)
        requires
            distinct_keys(self.sinks_and_inputs@),
        ensures
            self@.dom().finite(),
            self@.dom().len() == self.sinks_and_inputs@.len(),
    {
        lemma_keyed_len(self.sinks_and_inputs@);
    }

    /// The entry of sink `index`, if the snapshot holds that sink.
    pub fn get(&self, index: u32) -> (r: Option<&SinkAndInputs>)
        ensures
            r is Some <==> self@.contains_key(index),
            r matches Some(e) ==> e@ == self@[index],
    {
        proof {
            use_type_invariant(self);
            lemma_keyed_dom(self.sinks_and_inputs@, index);
        }
        match Self::position(&self.sinks_and_inputs, index) {
            Some(p) => {
                proof {
                    lemma_keyed_at(self.sinks_and_inputs@, p as int);
                }
                Some(&self.sinks_and_inputs[p])
            },
            None => None,
        }
    }

    /// Every entry once, in no promised order.
    pub fn iter(&self) -> (r: std::slice::Iter<'_, SinkAndInputs>)
        ensures
            forall|i: int|
                0 <= i < r.remaining().len() ==> {
                    let e = (#[trigger] r.remaining()[i])@;
                    self@.contains_key(e.0.index) && self@[e.0.index] == e
                },
            forall|i: int, j: int|
                0 <= i < j < r.remaining().len() ==> (#[trigger] r.remaining()[i])@.0.index
                    != (#[trigger] r.remaining()[j])@.0.index,
            forall|k: u32|
                self@.contains_key(k) ==> exists|i: int|
                    0 <= i < r.remaining().len() && r.remaining()[i]@.0.index == k,
    {
        let r = self.sinks_and_inputs.as_slice().iter();
        proof {
            use_type_invariant(self);
            let s = self.sinks_and_inputs@;
            assert(r.remaining() == s.as_ref());
            assert forall|i: int| 0 <= i < r.remaining().len() implies {
                let e = (#[trigger] r.remaining()[i])@;
                self@.contains_key(e.0.index) && self@[e.0.index] == e
            } by {
                lemma_keyed_at(s, i);
            }
            assert forall|i: int, j: int| 0 <= i < j < r.remaining().len() implies (
            #[trigger] r.remaining()[i])@.0.index != (#[trigger] r.remaining()[j])@.0.index by {
                assert(key(s[i]) != key(s[j]));
            }
            assert forall|k: u32| self@.contains_key(k) implies exists|i: int|
                0 <= i < r.remaining().len() && r.remaining()[i]@.0.index == k by {
                lemma_keyed_dom(s, k);
                let i = choose|i: int| 0 <= i < s.len() && key(#[trigger] s[i]) == k;
                assert(r.remaining()[i]@.0.index == k);
            }
        }
        r
    }
}


/// The indices of the sinks in `sinks`.
pub open spec fn sink_indices(sinks: Seq<SinkInformation>) -> Set<u32> {
    Set::new(|k: u32| exists|i: int| 0 <= i < sinks.len() && sinks[i].index == k)
}

/// How many times `x` occurs in `s`.
pub open spec fn occurrences<T>(s: Seq<T>, x: T) -> nat
    decreases s.len(),
{
    if s.len() == 0 {
        0
    } else {
        occurrences(s.drop_last(), x) + if s.last() == x {
            1nat
        } else {
            0nat
        }
    }
}

proof fn lemma_sinks_by_index_dom(sinks: Seq<SinkInformation>)
    ensures
        sinks_by_index(sinks).dom() == sink_indices(sinks),
    decreases sinks.len(),
{
    if sinks.len() > 0 {
        let t = sinks.drop_last();
        lemma_sinks_by_index_dom(t);
        assert forall|k: u32| sink_indices(sinks).contains(k) implies #[trigger] sinks_by_index(
            sinks,
        ).contains_key(k) by {
            let i = choose|i: int| 0 <= i < sinks.len() && sinks[i].index == k;
            if i < sinks.len() - 1 {
                assert(t[i].index == k);
            }
        }
        assert forall|k: u32| #[trigger] sinks_by_index(sinks).contains_key(k) implies sink_indices(
            sinks,
        ).contains(k) by {
            if k != sinks.last().index {
                let i = choose|i: int| 0 <= i < t.len() && t[i].index == k;
                assert(sinks[i].index == k);
            }
        }
        assert(sinks_by_index(sinks).dom() =~= sink_indices(sinks));
    }
}

proof fn lemma_inputs_of_owner(inputs: Seq<SinkInputInformation>, k: u32, x: SinkInputInformation)
    requires
        x.sink != k,
    ensures
        occurrences(inputs_of(inputs, k), x) == 0,
    decreases inputs.len(),
{
    if inputs.len() > 0 {
        let r = inputs_of(inputs.drop_last(), k);
        lemma_inputs_of_owner(inputs.drop_last(), k, x);
        assert(r.push(inputs.last()).drop_last() == r);
    }
}

proof fn lemma_inputs_of_keeps(inputs: Seq<SinkInputInformation>, x: SinkInputInformation)
    ensures
        occurrences(inputs_of(inputs, x.sink), x) == occurrences(inputs, x),
    decreases inputs.len(),
{
    if inputs.len() > 0 {
        let r = inputs_of(inputs.drop_last(), x.sink);
        lemma_inputs_of_keeps(inputs.drop_last(), x);
        assert(r.push(inputs.last()).drop_last() == r);
    }
}

proof fn lemma_occurrences_contains<T>(s: Seq<T>, x: T)
    ensures
        occurrences(s, x) > 0 <==> s.contains(x),
    decreases s.len(),
{
    if s.len() > 0 {
        let t = s.drop_last();
        lemma_occurrences_contains(t, x);
        if t.contains(x) {
            let i = choose|i: int| 0 <= i < t.len() && t[i] == x;
            assert(s[i] == x);
        }
        if s.contains(x) && s.last() != x {
            let i = choose|i: int| 0 <= i < s.len() && s[i] == x;
            assert(t[i] == x);
        }
    }
}

/// The snapshot holds exactly the sinks of the sink list: its keys are the list's indices.
pub proof fn lemma_snapshot_keeps_sinks(sinks: Seq<SinkInformation>, inputs: Seq<SinkInputInformation>)
    ensures
        snapshot_of(sinks, inputs).dom() == sink_indices(sinks),
{
    lemma_sinks_by_index_dom(sinks);
    assert(snapshot_of(sinks, inputs).dom() =~= sinks_by_index(sinks).dom());
}

/// An input whose sink is in the sink list lands in that sink's collection, as often
/// as it was delivered, and in no other sink's collection.
pub proof fn lemma_snapshot_routes_input(
    sinks: Seq<SinkInformation>,
    inputs: Seq<SinkInputInformation>,
    j: int,
)
    requires
        0 <= j < inputs.len(),
        sink_indices(sinks).contains(inputs[j].sink),
    ensures
        ({
            let snap = snapshot_of(sinks, inputs);
            let x = inputs[j];
            &&& snap.contains_key(x.sink)
            &&& snap[x.sink].1.contains(x)
            &&& occurrences(snap[x.sink].1, x) == occurrences(inputs, x)
            &&& forall|k: u32|
                #![trigger snap[k]]
                snap.contains_key(k) && k != x.sink ==> !snap[k].1.contains(x)
        }),
{
    let snap = snapshot_of(sinks, inputs);
    let x = inputs[j];
    lemma_snapshot_keeps_sinks(sinks, inputs);
    lemma_inputs_of_keeps(inputs, x);
    lemma_occurrences_contains(inputs, x);
    lemma_occurrences_contains(snap[x.sink].1, x);
    assert forall|k: u32| #![trigger snap[k]] snap.contains_key(k) && k != x.sink implies !snap[k].1.contains(
        x,
    ) by {
        lemma_inputs_of_owner(inputs, k, x);
        lemma_occurrences_contains(snap[k].1, x);
    }
}

/// An input whose sink is not in the sink list appears in no collection of the snapshot.
pub proof fn lemma_snapshot_drops_dangling_input(
    sinks: Seq<SinkInformation>,
    inputs: Seq<SinkInputInformation>,
    j: int,
)
    requires
        0 <= j < inputs.len(),
        !sink_indices(sinks).contains(inputs[j].sink),
    ensures
        forall|k: u32|
            #![trigger snapshot_of(sinks, inputs)[k]]
            snapshot_of(sinks, inputs).contains_key(k) ==> !snapshot_of(sinks, inputs)[k].1.contains(
                inputs[j],
            ),
{
    let snap = snapshot_of(sinks, inputs);
    let x = inputs[j];
    lemma_snapshot_keeps_sinks(sinks, inputs);
    assert forall|k: u32| #![trigger snap[k]] snap.contains_key(k) implies !snap[k].1.contains(x) by {
        lemma_inputs_of_owner(inputs, k, x);
        lemma_occurrences_contains(snap[k].1, x);
    }
}

} // verus!
