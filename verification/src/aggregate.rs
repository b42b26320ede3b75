//! Result Aggregator: a keyed collection merged batch by batch. Every
//! successful outcome is inserted under its key, overwriting any earlier
//! entry for that key (last writer wins); every failure is discarded and
//! leaves no trace.

use vstd::prelude::*;

use crate::outcome::UnitOutcome;

verus! {

/// One aggregated binding: the unit's stable key and its decoded payload.
pub struct Entry<P> {
    pub key: String,
    pub payload: P,
}

/// The map an entry sequence denotes: later entries shadow earlier ones.
pub open spec fn spec_assoc_map<P>(s: Seq<Entry<P>>) -> Map<Seq<char>, P>
    decreases s.len(),
{
    if s.len() == 0 {
        Map::empty()
    } else {
        spec_assoc_map(s.drop_last()).insert(s.last().key@, s.last().payload)
    }
}

pub open spec fn spec_keys_unique<P>(s: Seq<Entry<P>>) -> bool {
    forall|i: int, j: int| 0 <= i < j < s.len() ==> s[i].key@ != s[j].key@
}

proof fn lemma_assoc_dom<P>(s: Seq<Entry<P>>)
    ensures
        forall|k: Seq<char>| #[trigger]
            spec_assoc_map(s).dom().contains(k) <==> exists|i: int|
                0 <= i < s.len() && s[i].key@ == k,
    decreases s.len(),
{
    if s.len() > 0 {
        lemma_assoc_dom(s.drop_last());
        assert forall|k: Seq<char>| #[trigger] spec_assoc_map(s).dom().contains(k) implies exists|
            i: int,
        | 0 <= i < s.len() && s[i].key@ == k by {
            if k == s.last().key@ {
                assert(s[s.len() - 1].key@ == k);
            } else {
                assert(spec_assoc_map(s.drop_last()).dom().contains(k));
                let i = choose|i: int| 0 <= i < s.drop_last().len() && s.drop_last()[i].key@ == k;
                assert(s.drop_last()[i] == s[i]);
                assert(s[i].key@ == k);
            }
        }
        assert forall|k: Seq<char>| (exists|i: int| 0 <= i < s.len() && s[i].key@ == k) implies #[trigger]
            spec_assoc_map(s).dom().contains(k) by {
            let i = choose|i: int| 0 <= i < s.len() && s[i].key@ == k;
            if i < s.len() - 1 {
                assert(s.drop_last()[i] == s[i]);
                assert(s.drop_last()[i].key@ == k);
                assert(spec_assoc_map(s.drop_last()).dom().contains(k));
            }
        }
    }
}

proof fn lemma_assoc_at<P>(s: Seq<Entry<P>>, i: int)
    requires
        spec_keys_unique(s),
        0 <= i < s.len(),
    ensures
        spec_assoc_map(s).dom().contains(s[i].key@),
        spec_assoc_map(s)[s[i].key@] == s[i].payload,
    decreases s.len(),
{
    if i < s.len() - 1 {
        assert(spec_keys_unique(s.drop_last()));
        lemma_assoc_at(s.drop_last(), i);
        assert(s[i].key@ != s.last().key@);
    }
}

proof fn lemma_assoc_remove<P>(s: Seq<Entry<P>>, i: int)
    requires
        spec_keys_unique(s),
        0 <= i < s.len(),
    ensures
        spec_keys_unique(s.remove(i)),
        spec_assoc_map(s.remove(i)) == spec_assoc_map(s).remove(s[i].key@),
    decreases s.len(),
{
    assert forall|x: int, y: int| 0 <= x < y < s.remove(i).len() implies s.remove(i)[x].key@
        != s.remove(i)[y].key@ by {
        let sx: int = if x < i {
            x
        } else {
            x + 1
        };
        let sy: int = if y < i {
            y
        } else {
            y + 1
        };
        assert(s.remove(i)[x] == s[sx] && s.remove(i)[y] == s[sy]);
    }
    if i == s.len() - 1 {
        assert(s.remove(i) =~= s.drop_last());
        lemma_assoc_dom(s.drop_last());
        assert(forall|j: int| 0 <= j < s.drop_last().len() ==> s[j].key@ != s.last().key@);
        assert(!spec_assoc_map(s.drop_last()).dom().contains(s.last().key@));
        assert(spec_assoc_map(s.drop_last()).insert(s.last().key@, s.last().payload).remove(
            s.last().key@,
        ) =~= spec_assoc_map(s.drop_last()));
    } else {
        assert(spec_keys_unique(s.drop_last()));
        lemma_assoc_remove(s.drop_last(), i);
        assert(s.remove(i).drop_last() =~= s.drop_last().remove(i));
        assert(s.remove(i).last() == s.last());
        assert(spec_assoc_map(s.remove(i)) == spec_assoc_map(s.drop_last().remove(i)).insert(
            s.last().key@,
            s.last().payload,
        ));
        assert(s[i].key@ != s.last().key@);
        assert(spec_assoc_map(s.drop_last()).remove(s[i].key@).insert(
            s.last().key@,
            s.last().payload,
        ) =~= spec_assoc_map(s.drop_last()).insert(s.last().key@, s.last().payload).remove(
            s[i].key@,
        ));
    }
}

/// The keyed collection of successful outcomes accumulated so far.
pub struct AggregatedColl<P> {
    entries: Vec<Entry<P>>,
}

impl<P> View for AggregatedColl<P> {
    type V = Map<Seq<char>, P>;

    closed spec fn view(&self) -> Map<Seq<char>, P> {
        spec_assoc_map(self.entries@)
    }
}

/// Applies one batch of outcomes, first to last, to a map: successes are
/// inserted under their keys, failures are discarded.
pub open spec fn spec_merge<P>(m: Map<Seq<char>, P>, s: Seq<UnitOutcome<P>>) -> Map<Seq<char>, P>
    decreases s.len(),
{
    if s.len() == 0 {
        m
    } else {
        let rest = spec_merge(m, s.drop_last());
        match s.last() {
            UnitOutcome::Success { key, payload } => rest.insert(key@, payload),
            UnitOutcome::Failure { .. } => rest,
        }
    }
}

proof fn lemma_merge_first<P>(m: Map<Seq<char>, P>, s: Seq<UnitOutcome<P>>)
    requires
        s.len() > 0,
    ensures
        spec_merge(m, s) == spec_merge(
            match s[0] {
                UnitOutcome::Success { key, payload } => m.insert(key@, payload),
                UnitOutcome::Failure { .. } => m,
            },
            s.drop_first(),
        ),
    decreases s.len(),
{
    let m1 = match s[0] {
        UnitOutcome::Success { key, payload } => m.insert(key@, payload),
        UnitOutcome::Failure { .. } => m,
    };
    if s.len() == 1 {
        assert(s.drop_last().len() == 0);
        assert(s.drop_first().len() == 0);
        assert(s.last() == s[0]);
        assert(spec_merge(m, s.drop_last()) == m);
        assert(spec_merge(m1, s.drop_first()) == m1);
    } else {
        lemma_merge_first(m, s.drop_last());
        assert(s.drop_last()[0] == s[0]);
        assert(s.drop_last().drop_first() =~= s.drop_first().drop_last());
        assert(s.drop_first().last() == s.last());
        assert(spec_merge(m, s.drop_last()) == spec_merge(m1, s.drop_first().drop_last()));
        assert(s.drop_first().len() > 0);
        assert(spec_merge(m1, s.drop_first()) == match s.drop_first().last() {
            UnitOutcome::Success { key, payload } => spec_merge(
                m1,
                s.drop_first().drop_last(),
            ).insert(key@, payload),
            UnitOutcome::Failure { .. } => spec_merge(m1, s.drop_first().drop_last()),
        });
        assert(spec_merge(m, s) == match s.last() {
            UnitOutcome::Success { key, payload } => spec_merge(m, s.drop_last()).insert(
                key@,
                payload,
            ),
            UnitOutcome::Failure { .. } => spec_merge(m, s.drop_last()),
        });
    }
}

/// The set of keys under which the batch's successful outcomes were reported.
pub open spec fn spec_success_keys<P>(s: Seq<UnitOutcome<P>>) -> Set<Seq<char>>
    decreases s.len(),
{
    if s.len() == 0 {
        Set::empty()
    } else {
        let rest = spec_success_keys(s.drop_last());
        match s.last() {
            UnitOutcome::Success { key, .. } => rest.insert(key@),
            UnitOutcome::Failure { .. } => rest,
        }
    }
}

/// Law: merging a batch adds exactly the keys of its successful outcomes;
/// a key that only failed is never added.
pub proof fn lemma_merge_batch_keys<P>(m: Map<Seq<char>, P>, s: Seq<UnitOutcome<P>>)
    ensures
        spec_merge(m, s).dom() == m.dom() + spec_success_keys(s),
    decreases s.len(),
{
    if s.len() == 0 {
        assert(spec_merge(m, s).dom() =~= m.dom() + spec_success_keys(s));
    } else {
        lemma_merge_batch_keys(m, s.drop_last());
        assert(spec_merge(m, s).dom() =~= m.dom() + spec_success_keys(s));
    }
}

/// A whole run: the batches applied first to last, starting from `m`.
pub open spec fn spec_run<P>(m: Map<Seq<char>, P>, batches: Seq<Seq<UnitOutcome<P>>>) -> Map<
    Seq<char>,
    P,
>
    decreases batches.len(),
{
    if batches.len() == 0 {
        m
    } else {
        spec_merge(spec_run(m, batches.drop_last()), batches.last())
    }
}

pub open spec fn spec_run_success_keys<P>(batches: Seq<Seq<UnitOutcome<P>>>) -> Set<Seq<char>>
    decreases batches.len(),
{
    if batches.len() == 0 {
        Set::empty()
    } else {
        spec_run_success_keys(batches.drop_last()) + spec_success_keys(batches.last())
    }
}

/// Law: over a whole run that starts from the empty collection, the final
/// key set is exactly the set of keys whose units returned a success, however
/// the units were cut into batches; no key that only failed ever appears.
pub proof fn lemma_run_keys<P>(batches: Seq<Seq<UnitOutcome<P>>>)
    ensures
        spec_run(Map::<Seq<char>, P>::empty(), batches).dom() == spec_run_success_keys(batches),
    decreases batches.len(),
{
    if batches.len() == 0 {
        assert(spec_run(Map::<Seq<char>, P>::empty(), batches).dom() =~= spec_run_success_keys(
            batches,
        ));
    } else {
        lemma_run_keys::<P>(batches.drop_last());
        lemma_merge_batch_keys(
            spec_run(Map::<Seq<char>, P>::empty(), batches.drop_last()),
            batches.last(),
        );
        assert(spec_run(Map::<Seq<char>, P>::empty(), batches).dom() =~= spec_run_success_keys(
            batches,
        ));
    }
}

/// Law: reporting a success for a key and then another success for the same
/// key — in the same batch or in a later one — leaves the later payload
/// bound, and nothing else changed: last writer wins.
pub proof fn lemma_aggregation_overwrite<P>(
    m: Map<Seq<char>, P>,
    o1: UnitOutcome<P>,
    o2: UnitOutcome<P>,
    k: Seq<char>,
    b: P,
)
    requires
        o1 matches UnitOutcome::Success { key, .. } && key@ == k,
        o2 matches UnitOutcome::Success { key, payload } && key@ == k && payload == b,
    ensures
        spec_merge(m, seq![o1, o2]) == m.insert(k, b),
        spec_merge(spec_merge(m, seq![o1]), seq![o2]) == m.insert(k, b),
{
    let s2 = seq![o1, o2];
    assert(s2.drop_last() =~= seq![o1]);
    assert(s2.last() == o2);
    assert(seq![o1].drop_last() =~= Seq::<UnitOutcome<P>>::empty());
    assert(seq![o1].last() == o1);
    assert(seq![o2].drop_last() =~= Seq::<UnitOutcome<P>>::empty());
    assert(seq![o2].last() == o2);
    let a = match o1 {
        UnitOutcome::Success { payload, .. } => payload,
        UnitOutcome::Failure { .. } => b,
    };
    assert(spec_merge(m, Seq::<UnitOutcome<P>>::empty()) == m);
    assert(spec_merge(m, seq![o1]) == m.insert(k, a));
    assert(spec_merge(m, s2) == m.insert(k, a).insert(k, b));
    let m1 = spec_merge(m, seq![o1]);
    assert(spec_merge(m1, Seq::<UnitOutcome<P>>::empty()) == m1);
    assert(spec_merge(m1, seq![o2]) == m1.insert(k, b));
    assert(m.insert(k, a).insert(k, b) =~= m.insert(k, b));
}

impl<P> AggregatedColl<P> {
    /// Every key is bound by exactly one entry.
    pub closed spec fn wf(&self) -> bool {
        spec_keys_unique(self.entries@)
    }

    /// The accumulated entries in their insertion order.
    pub closed spec fn entry_seq(&self) -> Seq<Entry<P>> {
        self.entries@
    }

    pub fn new() -> (r: Self)
        ensures
            r.wf(),
            r@ == Map::<Seq<char>, P>::empty(),
            r.entry_seq() == Seq::<Entry<P>>::empty(),
    {
        AggregatedColl { entries: Vec::new() }
    }

    pub fn len(&self) -> (r: usize)
        ensures
            r == self.entry_seq().len(),
    {
        self.entries.len()
    }

    /// Read-only access for the output writer and the Asset Discoverer.
    pub fn entries(&self) -> (r: &Vec<Entry<P>>)
        ensures
            r@ == self.entry_seq(),
    {
        &self.entries
    }

    /// Inserts one successful payload under its key, overwriting any entry
    /// the key already had: last writer wins, silently.
    pub fn insert(&mut self, key: String, payload: P)
        requires
            old(self).wf(),
        ensures
            final(self).wf(),
            final(self)@ == old(self)@.insert(key@, payload),
            !old(self)@.dom().contains(key@) ==> final(self).entry_seq() == old(
                self,
            ).entry_seq().push(Entry { key, payload }),
    {
        proof {
            lemma_assoc_dom(self.entries@);
        }
        let n = self.entries.len();
        let mut i: usize = 0;
        let mut found = false;
        while i < n && !found
            invariant
                n == self.entries@.len(),
                i <= n,
                !found ==> forall|j: int| 0 <= j < i ==> self.entries@[j].key@ != key@,
                found ==> i < n && self.entries@[i as int].key@ == key@,
            decreases n - i + (if found {
                0int
            } else {
                1int
            }),
        {
            if self.entries[i].key == key {
                found = true;
            } else {
                i = i + 1;
            }
        }
        if found {
            proof {
                lemma_assoc_remove(self.entries@, i as int);
            }
            let ghost pre = self.entries@;
            self.entries.remove(i);
            let ghost mid = self.entries@;
            self.entries.push(Entry { key, payload });
            proof {
                assert(self.entries@.drop_last() =~= mid);
                assert(spec_assoc_map(self.entries@) == spec_assoc_map(mid).insert(key@, payload));
                assert(spec_assoc_map(mid).insert(key@, payload) =~= spec_assoc_map(pre).insert(
                    key@,
                    payload,
                ));
                assert forall|x: int, y: int|
                    0 <= x < y < self.entries@.len() implies self.entries@[x].key@
                    != self.entries@[y].key@ by {
                    if y == self.entries@.len() - 1 {
                        assert(self.entries@[x] == mid[x]);
                        let sx: int = if x < i {
                            x
                        } else {
                            x + 1
                        };
                        assert(mid[x] == pre[sx]);
                        assert(pre[sx].key@ != pre[i as int].key@);
                    }
                }
            }
        } else {
            proof {
                assert(!spec_assoc_map(self.entries@).dom().contains(key@));
            }
            let ghost pre = self.entries@;
            self.entries.push(Entry { key, payload });
            proof {
                assert(self.entries@.drop_last() =~= pre);
                assert(forall|j: int| 0 <= j < pre.len() ==> pre[j].key@ != key@);
            }
        }
    }

    pub fn get(&self, key: &String) -> (r: Option<&P>)
        requires
            self.wf(),
        ensures
            match r {
                Some(p) => self@.dom().contains(key@) && *p == self@[key@],
                None => !self@.dom().contains(key@),
            },
    {
        proof {
            lemma_assoc_dom(self.entries@);
        }
        let n = self.entries.len();
        let mut i: usize = 0;
        while i < n
            invariant
                self.wf(),
                n == self.entries@.len(),
                i <= n,
                forall|j: int| 0 <= j < i ==> self.entries@[j].key@ != key@,
            decreases n - i,
        {
            if self.entries[i].key == *key {
                proof {
                    lemma_assoc_at(self.entries@, i as int);
                }
                return Some(&self.entries[i].payload);
            }
            i = i + 1;
        }
        None
    }

    /// Merges one completed batch: each success is inserted under its key
    /// (overwriting), each failure is discarded. The batch's own order is
    /// applied first to last.
    pub fn merge_batch(&mut self, batch: Vec<UnitOutcome<P>>)
        requires
            old(self).wf(),
        ensures
            final(self).wf(),
            final(self)@ == spec_merge(old(self)@, batch@),
    {
        let ghost batch0 = batch@;
        let mut rest = batch;
        while rest.len() > 0
            invariant
                self.wf(),
                spec_merge(old(self)@, batch0) == spec_merge(self@, rest@),
            decreases rest@.len(),
        {
            proof {
                lemma_merge_first(self@, rest@);
            }
            let ghost pre_rest = rest@;
            let first = rest.remove(0);
            proof {
                assert(rest@ =~= pre_rest.drop_first());
            }
            match first {
                UnitOutcome::Success { key, payload } => {
                    self.insert(key, payload);
                },
                UnitOutcome::Failure { .. } => {},
            }
        }
    }
}

} // verus!
