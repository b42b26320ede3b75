//! Batch Scheduler arithmetic and the Progress Reporter's tallies. The work
//! sequence is cut into consecutive batches of at most `cap` units; batches
//! run strictly one after another, so no more than `cap` units are ever in
//! flight. The Progress Reporter only observes; it feeds nothing back.

use vstd::prelude::*;

use vstd::arithmetic::div_mod::{lemma_fundamental_div_mod, lemma_fundamental_div_mod_converse};
use vstd::arithmetic::mul::lemma_mul_inequality;
use vstd::math::min;

use crate::outcome::UnitOutcome;

verus! {

/// How many batches a work sequence of length `n` takes under cap `cap`:
/// the ceiling of `n / cap`.
pub open spec fn spec_num_batches(n: int, cap: int) -> int {
    (n + cap - 1) / cap
}

proof fn lemma_num_batches(n: int, cap: int)
    requires
        n >= 0,
        cap >= 1,
    ensures
        spec_num_batches(n, cap) == n / cap + if n % cap != 0 {
            1int
        } else {
            0int
        },
        n % cap != 0 ==> n / cap + 1 >= 1,
        n > 0 ==> spec_num_batches(n, cap) >= 1,
        spec_num_batches(n, cap) * cap >= n,
        n == 0 ==> spec_num_batches(n, cap) == 0,
{
    lemma_fundamental_div_mod(n, cap);
    let q = n / cap;
    let r = n % cap;
    if r == 0 {
        assert(n + cap - 1 == q * cap + (cap - 1)) by (nonlinear_arith)
            requires
                n == cap * q + r,
                r == 0,
        ;
        lemma_fundamental_div_mod_converse(n + cap - 1, cap, q, cap - 1);
    } else {
        assert(n + cap - 1 == (q + 1) * cap + (r - 1)) by (nonlinear_arith)
            requires
                n == cap * q + r,
        ;
        lemma_fundamental_div_mod_converse(n + cap - 1, cap, q + 1, r - 1);
    }
    assert(spec_num_batches(n, cap) * cap >= n) by (nonlinear_arith)
        requires
            cap >= 1,
            n == cap * q + r,
            0 <= r < cap,
            spec_num_batches(n, cap) == q + if r != 0 {
                1int
            } else {
                0int
            },
    ;
    assert(q >= 0) by (nonlinear_arith)
        requires
            n == cap * q + r,
            0 <= r < cap,
            cap >= 1,
            n >= 0,
    ;
    if n > 0 && r == 0 {
        assert(q >= 1) by (nonlinear_arith)
            requires
                n == cap * q + r,
                r == 0,
                cap >= 1,
                n > 0,
        ;
    }
}

proof fn lemma_batch_start_in_range(i: int, n: int, cap: int)
    requires
        n >= 0,
        cap >= 1,
        0 <= i < spec_num_batches(n, cap),
    ensures
        i * cap < n,
        i * cap + cap <= spec_num_batches(n, cap) * cap,
{
    lemma_num_batches(n, cap);
    lemma_fundamental_div_mod(n, cap);
    let q = n / cap;
    let r = n % cap;
    if r == 0 {
        assert(i <= q - 1);
        lemma_mul_inequality(i, q - 1, cap);
        assert((q - 1) * cap == q * cap - cap) by (nonlinear_arith);
        assert(q * cap == cap * q) by (nonlinear_arith);
    } else {
        assert(i <= q);
        lemma_mul_inequality(i, q, cap);
        assert(q * cap == cap * q) by (nonlinear_arith);
    }
    lemma_mul_inequality(i + 1, spec_num_batches(n, cap), cap);
    assert((i + 1) * cap == i * cap + cap) by (nonlinear_arith);
}

/// Batch Scheduler slicing: the half-open index ranges of the consecutive
/// batches that cover a work sequence of length `n`, each of size at most
/// `cap`, the last possibly smaller.
pub fn batch_bounds(n: usize, cap: usize) -> (r: Vec<(usize, usize)>)
    requires
        cap >= 1,
    ensures
        r@.len() == spec_num_batches(n as int, cap as int),
        forall|i: int|
            0 <= i < r@.len() ==> (#[trigger] r@[i]).0 == i * cap && r@[i].1 == min(
                i * cap + cap,
                n as int,
            ),
{
    proof {
        lemma_num_batches(n as int, cap as int);
    }
    let nb = num_batches(n, cap);
    let mut out: Vec<(usize, usize)> = Vec::new();
    let mut i: usize = 0;
    while i < nb
        invariant
            cap >= 1,
            nb == spec_num_batches(n as int, cap as int),
            i <= nb,
            out@.len() == i,
            forall|j: int|
                0 <= j < i ==> (#[trigger] out@[j]).0 == j * cap && out@[j].1 == min(
                    j * cap + cap,
                    n as int,
                ),
        decreases nb - i,
    {
        proof {
            lemma_batch_start_in_range(i as int, n as int, cap as int);
            lemma_num_batches(n as int, cap as int);
        }
        let start = i * cap;
        let end = if n - start >= cap {
            start + cap
        } else {
            n
        };
        out.push((start, end));
        i = i + 1;
    }
    out
}

/// The ceiling of `n / cap`, computed without overflow.
pub fn num_batches(n: usize, cap: usize) -> (r: usize)
    requires
        cap >= 1,
    ensures
        r == spec_num_batches(n as int, cap as int),
{
    proof {
        lemma_num_batches(n as int, cap as int);
        lemma_fundamental_div_mod(n as int, cap as int);
        assert(n as int / cap as int >= 0) by (nonlinear_arith)
            requires
                n as int == cap as int * (n as int / cap as int) + (n as int % cap as int),
                0 <= (n as int % cap as int),
                (n as int % cap as int) < cap as int,
                cap >= 1,
                n >= 0,
        ;
        if n % cap != 0 {
            assert((n as int / cap as int) < n as int) by (nonlinear_arith)
                requires
                    n as int == cap as int * (n as int / cap as int) + (n as int % cap as int),
                    1 <= (n as int % cap as int),
                    cap >= 1,
                    n as int / cap as int >= 0,
            ;
        }
    }
    n / cap + if n % cap != 0 {
        1
    } else {
        0
    }
}

/// The concatenation of the sliced-out batches, in batch order.
pub open spec fn spec_concat_slices<T>(s: Seq<T>, bounds: Seq<(usize, usize)>) -> Seq<T>
    decreases bounds.len(),
{
    if bounds.len() == 0 {
        Seq::empty()
    } else {
        spec_concat_slices(s, bounds.drop_last()) + s.subrange(
            bounds.last().0 as int,
            bounds.last().1 as int,
        )
    }
}

proof fn lemma_concat_prefix<T>(s: Seq<T>, bounds: Seq<(usize, usize)>, cap: int, k: int)
    requires
        cap >= 1,
        bounds.len() == spec_num_batches(s.len() as int, cap),
        forall|i: int|
            0 <= i < bounds.len() ==> (#[trigger] bounds[i]).0 == i * cap && bounds[i].1 == min(
                i * cap + cap,
                s.len() as int,
            ),
        0 <= k <= bounds.len(),
    ensures
        spec_concat_slices(s, bounds.take(k)) == s.take(min(k * cap, s.len() as int)),
    decreases k,
{
    if k == 0 {
        assert(spec_concat_slices(s, bounds.take(0)) =~= s.take(0));
        assert(min(k * cap, s.len() as int) == 0);
        assert(spec_concat_slices(s, bounds.take(k)) == s.take(min(k * cap, s.len() as int)));
    } else {
        lemma_concat_prefix(s, bounds, cap, k - 1);
        lemma_batch_start_in_range(k - 1, s.len() as int, cap);
        assert(bounds.take(k).drop_last() =~= bounds.take(k - 1));
        assert(bounds.take(k).last() == bounds[k - 1]);
        assert((k - 1) * cap + cap == k * cap) by (nonlinear_arith);
        assert((k - 1) * cap <= k * cap);
        assert(min((k - 1) * cap, s.len() as int) == (k - 1) * cap);
        assert(spec_concat_slices(s, bounds.take(k)) == spec_concat_slices(s, bounds.take(k - 1))
            + s.subrange(bounds[k - 1].0 as int, bounds[k - 1].1 as int));
        assert(bounds[k - 1].0 as int == (k - 1) * cap);
        assert(bounds[k - 1].1 as int == min(k * cap, s.len() as int));
        assert(spec_concat_slices(s, bounds.take(k)) == s.take((k - 1) * cap) + s.subrange(
            (k - 1) * cap,
            min(k * cap, s.len() as int),
        ));
        assert(s.take((k - 1) * cap) + s.subrange((k - 1) * cap, min(k * cap, s.len() as int))
            =~= s.take(min(k * cap, s.len() as int)));
        assert(spec_concat_slices(s, bounds.take(k)) == s.take(min(k * cap, s.len() as int)));
    }
}

/// Law: batch slicing is exhaustive and non-overlapping — concatenating all
/// the batches in order reproduces the enumerated work sequence exactly.
pub proof fn lemma_batches_exhaustive<T>(s: Seq<T>, bounds: Seq<(usize, usize)>, cap: int)
    requires
        cap >= 1,
        bounds.len() == spec_num_batches(s.len() as int, cap),
        forall|i: int|
            0 <= i < bounds.len() ==> (#[trigger] bounds[i]).0 == i * cap && bounds[i].1 == min(
                i * cap + cap,
                s.len() as int,
            ),
    ensures
        spec_concat_slices(s, bounds) == s,
{
    let nb = bounds.len() as int;
    lemma_num_batches(s.len() as int, cap);
    lemma_concat_prefix(s, bounds, cap, nb);
    assert(bounds.take(nb) =~= bounds);
    assert(min(nb * cap, s.len() as int) == s.len() as int);
    assert(s.take(s.len() as int) =~= s);
}

/// How many of the batch's outcomes are successes.
pub open spec fn spec_success_count<P>(s: Seq<UnitOutcome<P>>) -> int
    decreases s.len(),
{
    if s.len() == 0 {
        0
    } else {
        spec_success_count(s.drop_last()) + if s.last().is_success() {
            1int
        } else {
            0int
        }
    }
}

proof fn lemma_success_count_bound<P>(s: Seq<UnitOutcome<P>>)
    ensures
        0 <= spec_success_count(s) <= s.len(),
    decreases s.len(),
{
    if s.len() > 0 {
        lemma_success_count_bound(s.drop_last());
    }
}

/// The Progress Reporter's running tally: how many units were attempted so
/// far and how many of them succeeded.
pub struct RunTally {
    pub attempted: u64,
    pub succeeded: u64,
}

impl RunTally {
    pub open spec fn wf(&self) -> bool {
        self.succeeded <= self.attempted
    }

    pub fn new() -> (r: Self)
        ensures
            r.wf(),
            r.attempted == 0,
            r.succeeded == 0,
    {
        RunTally { attempted: 0, succeeded: 0 }
    }

    /// Observes one completed batch: the attempt count grows by the batch
    /// size, the success count by the batch's successes.
    pub fn record_batch<P>(&mut self, batch: &Vec<UnitOutcome<P>>)
        requires
            old(self).wf(),
            old(self).attempted + batch@.len() <= u64::MAX,
        ensures
            final(self).wf(),
            final(self).attempted == old(self).attempted + batch@.len(),
            final(self).succeeded == old(self).succeeded + spec_success_count(batch@),
    {
        proof {
            lemma_success_count_bound(batch@);
        }
        let n = batch.len();
        let mut i: usize = 0;
        let mut succ: u64 = 0;
        while i < n
            invariant
                n == batch@.len(),
                i <= n,
                succ == spec_success_count(batch@.take(i as int)),
                succ <= i,
            decreases n - i,
        {
            proof {
                assert(batch@.take(i + 1).drop_last() =~= batch@.take(i as int));
                assert(batch@.take(i + 1).last() == batch@[i as int]);
            }
            let is_succ = match &batch[i] {
                UnitOutcome::Success { .. } => true,
                UnitOutcome::Failure { .. } => false,
            };
            if is_succ {
                succ = succ + 1;
            }
            i = i + 1;
        }
        proof {
            assert(batch@.take(n as int) =~= batch@);
        }
        self.attempted = self.attempted + n as u64;
        self.succeeded = self.succeeded + succ;
    }
}

/// The completion percentage in tenths of a percent, rounded down: the
/// reporter's only computed observation.
pub fn percent_tenths(done: u64, total: u64) -> (r: u64)
    requires
        total >= 1,
        done <= total,
    ensures
        r == done as int * 1000 / total as int,
        r <= 1000,
{
    let wide = (done as u128) * 1000 / (total as u128);
    proof {
        lemma_mul_inequality(done as int, total as int, 1000);
        assert(total as int * 1000 == 1000 * total as int) by (nonlinear_arith);
        assert(done as int * 1000 / total as int <= 1000 * total as int / total as int) by {
            vstd::arithmetic::div_mod::lemma_div_is_ordered(
                done as int * 1000,
                1000 * total as int,
                total as int,
            );
        }
        assert(1000 * total as int / total as int == 1000) by (nonlinear_arith)
            requires
                total >= 1,
        ;
    }
    wide as u64
}

} // verus!
