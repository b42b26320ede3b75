//! Work Enumerator for the dataset variant: entries missing their
//! prerequisite label or their local resource are filtered out (a skip, not
//! an error), the remainder is shuffled deterministically under a fixed
//! seed so that a capped run samples representatively, and the shuffled
//! order is truncated to the processing cap.

use vstd::prelude::*;

use rand::seq::SliceRandom;
use rand::SeedableRng;

verus! {

broadcast use vstd::seq_lib::group_to_multiset_ensures;

/// One dataset entry, as plain values: the resource name, the optional
/// prerequisite label, and whether the referenced local resource is present.
pub struct DatasetEntry {
    pub image_name: String,
    pub label: Option<String>,
    pub image_present: bool,
}

impl DatasetEntry {
    /// An entry is processed only when its local resource exists and its
    /// prerequisite label is present.
    pub open spec fn eligible(self) -> bool {
        self.image_present && self.label is Some
    }

    pub fn duplicate(&self) -> (r: Self)
        ensures
            r == *self,
    {
        DatasetEntry {
            image_name: self.image_name.clone(),
            label: match &self.label {
                Some(s) => Some(s.clone()),
                None => None,
            },
            image_present: self.image_present,
        }
    }
}

/// The eligible entries, in their original order.
pub open spec fn spec_select(s: Seq<DatasetEntry>) -> Seq<DatasetEntry>
    decreases s.len(),
{
    if s.len() == 0 {
        Seq::empty()
    } else {
        spec_select(s.drop_last()) + if s.last().eligible() {
            seq![s.last()]
        } else {
            Seq::empty()
        }
    }
}

/// Filters the dataset down to the entries that can be processed; each
/// omission is a skip, never an error.
pub fn select_entries(entries: &Vec<DatasetEntry>) -> (r: Vec<DatasetEntry>)
    ensures
        r@ == spec_select(entries@),
{
    let mut out: Vec<DatasetEntry> = Vec::new();
    let n = entries.len();
    let mut i: usize = 0;
    while i < n
        invariant
            n == entries@.len(),
            i <= n,
            out@ == spec_select(entries@.take(i as int)),
        decreases n - i,
    {
        proof {
            assert(entries@.take(i + 1).drop_last() =~= entries@.take(i as int));
            assert(entries@.take(i + 1).last() == entries@[i as int]);
        }
        let ghost pre = out@;
        let e = &entries[i];
        if e.image_present && e.label.is_some() {
            out.push(e.duplicate());
            proof {
                assert(out@ =~= pre + seq![entries@[i as int]]);
            }
        } else {
            proof {
                assert(out@ =~= pre + Seq::<DatasetEntry>::empty());
            }
        }
        i = i + 1;
    }
    proof {
        assert(entries@.take(n as int) =~= entries@);
    }
    out
}

/// The one permutation that the seeded pseudo-random generator draws for a
/// given index sequence: fixed by the seed and the input alone, so two runs
/// over the same data in the same order reorder it identically.
pub uninterp spec fn shuffle_of(s: Seq<u64>, seed: u64) -> Seq<u64>;

/// Relies on rand's `SliceRandom::shuffle` driven by `StdRng::seed_from_u64`:
/// the slice is permuted in place — same elements, new order — and the
/// generator's draws are a fixed function of the seed, so the result depends
/// on the input and the seed alone.
#[verifier::external_body]
fn shuffle_seeded(v: &mut Vec<u64>, seed: u64)
    ensures
        final(v)@ == shuffle_of(old(v)@, seed),
        final(v)@.to_multiset() == old(v)@.to_multiset(),
{
    let mut rng = rand::rngs::StdRng::seed_from_u64(seed);
    v.shuffle(&mut rng);
}

pub open spec fn spec_iota(n: nat) -> Seq<u64> {
    Seq::new(n, |i: int| i as u64)
}

fn iota(n: usize) -> (r: Vec<u64>)
    ensures
        r@ == spec_iota(n as nat),
{
    let mut out: Vec<u64> = Vec::new();
    let mut i: usize = 0;
    while i < n
        invariant
            i <= n,
            out@ == spec_iota(i as nat),
        decreases n - i,
    {
        out.push(i as u64);
        proof {
            assert(out@ =~= spec_iota((i + 1) as nat));
        }
        i = i + 1;
    }
    out
}

/// The entries of `s` read off in the order the index sequence dictates.
pub open spec fn spec_permute(s: Seq<DatasetEntry>, idx: Seq<u64>) -> Seq<DatasetEntry> {
    idx.map_values(|v: u64| s[v as int])
}

/// The planned processing order: the eligible entries, shuffled under the
/// seed, truncated to at most `cap` entries.
pub open spec fn spec_plan(entries: Seq<DatasetEntry>, seed: u64, cap: usize) -> Seq<DatasetEntry> {
    let kept = spec_select(entries);
    let permuted = spec_permute(kept, shuffle_of(spec_iota(kept.len()), seed));
    permuted.take(vstd::math::min(cap as int, permuted.len() as int))
}

proof fn lemma_shuffled_iota_in_range(n: nat, seed: u64)
    ensures
        shuffle_of(spec_iota(n), seed).to_multiset() == spec_iota(n).to_multiset() ==> forall|
            j: int,
        |
            0 <= j < shuffle_of(spec_iota(n), seed).len() ==> (#[trigger] shuffle_of(
                spec_iota(n),
                seed,
            )[j]) < n,
{
    let orig = spec_iota(n);
    let shuf = shuffle_of(orig, seed);
    if shuf.to_multiset() == orig.to_multiset() {
        assert forall|j: int| 0 <= j < shuf.len() implies (#[trigger] shuf[j]) < n by {
            assert(shuf.contains(shuf[j]));
            assert(shuf.to_multiset().count(shuf[j]) > 0);
            assert(orig.to_multiset().count(shuf[j]) > 0);
            assert(orig.contains(shuf[j]));
            let x = choose|x: int| 0 <= x < orig.len() && orig[x] == shuf[j];
            assert(orig[x] == x as u64);
        }
    }
}

/// Plans one capped run over the dataset: select, shuffle under the seed,
/// then truncate — so the cap takes a representative sample, not a prefix.
pub fn plan_processing(entries: &Vec<DatasetEntry>, seed: u64, cap: usize) -> (r: Vec<
    DatasetEntry,
>)
    ensures
        r@ == spec_plan(entries@, seed, cap),
{
    let kept = select_entries(entries);
    let mut idx = iota(kept.len());
    shuffle_seeded(&mut idx, seed);
    proof {
        lemma_shuffled_iota_in_range(kept@.len(), seed);
        assert(spec_iota(kept@.len()).to_multiset().len() == spec_iota(kept@.len()).len());
        assert(idx@.to_multiset().len() == idx@.len());
    }
    let mut out: Vec<DatasetEntry> = Vec::new();
    let n = idx.len();
    let mut i: usize = 0;
    while i < n
        invariant
            n == idx@.len(),
            i <= n,
            idx@ == shuffle_of(spec_iota(kept@.len()), seed),
            forall|j: int| 0 <= j < idx@.len() ==> (#[trigger] idx@[j]) < kept@.len(),
            out@ == spec_permute(kept@, idx@.take(i as int)),
        decreases n - i,
    {
        let v = idx[i];
        out.push(kept[v as usize].duplicate());
        proof {
            assert(out@ =~= spec_permute(kept@, idx@.take(i + 1)));
        }
        i = i + 1;
    }
    proof {
        assert(idx@.take(n as int) =~= idx@);
    }
    if cap < out.len() {
        out.truncate(cap);
        proof {
            assert(out@ =~= spec_plan(entries@, seed, cap));
        }
    } else {
        proof {
            assert(out@ =~= spec_plan(entries@, seed, cap));
        }
    }
    out
}

/// Law: the shuffle is reproducible — over the same input order and the
/// same seed, any two planned orders are one and the same.
pub proof fn lemma_shuffle_reproducible(
    entries: Seq<DatasetEntry>,
    seed: u64,
    cap: usize,
    r1: Seq<DatasetEntry>,
    r2: Seq<DatasetEntry>,
)
    requires
        r1 == spec_plan(entries, seed, cap),
        r2 == spec_plan(entries, seed, cap),
    ensures
        r1 == r2,
{
}

} // verus!
