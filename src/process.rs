use vstd::prelude::*;
use crate::candidate::Candidate;
use crate::clock::now_millis;
use crate::instance::{
    lemma_ops_count_prefix_mono, ops_count, Instance, JobShop, Operation, MAX_OPERATIONS,
};
use crate::rng::{xorshift_next, Rng};
use crate::schedule::{is_valid_encoding, lemma_swap_multiset, lemma_swap_valid, swapped};

verus! {

/// Seed of the generator that a new process starts with.
pub const PROCESS_SEED: u64 = 0x5DEE_CE66_D1CE_4E5B;

/// Largest number of swaps beyond two that an n-swap move makes.
pub const SWAP_N_EXTRA: usize = 3;

/// An improvement of the best-known candidate, with when it was found.
#[derive(Clone, Debug)]
pub struct HistoryEntry {
    pub candidate: Candidate,
    pub iteration: usize,
    pub timestamp_ms: i64,
}

/// The search state an optimizer drives: the instance, the committed best
/// candidate, the log of improvements, and the random source of the operators.
#[derive(Clone, Debug)]
pub struct BlackBox {
    pub instance: Instance,
    pub best: Option<Candidate>,
    pub history: Vec<HistoryEntry>,
    pub rng: Rng,
}

/// Two history entries record the same candidate at the same moment.
pub open spec fn same_entry(a: HistoryEntry, b: HistoryEntry) -> bool {
    &&& a.candidate.sequence@ == b.candidate.sequence@
    &&& a.candidate.makespan == b.candidate.makespan
    &&& a.iteration == b.iteration
    &&& a.timestamp_ms == b.timestamp_ms
}

/// Every candidate that a valid encoding of `shop` describes.
pub open spec fn valid_candidate(shop: JobShop, c: Candidate) -> bool {
    c.wf(shop) && is_valid_encoding(shop, c.sequence@)
}

/// `k` copies of `x`.
pub open spec fn repeat(x: usize, k: nat) -> Seq<usize> {
    Seq::new(k, |i: int| x)
}

/// The canonical valid encoding: the ids of jobs `0..j`, each repeated once
/// per operation, job after job.
pub open spec fn canonical_upto(ops: Seq<Seq<Operation>>, j: int) -> Seq<usize>
    decreases j,
{
    if j <= 0 {
        Seq::empty()
    } else {
        canonical_upto(ops, j - 1) + repeat((j - 1) as usize, ops[j - 1].len())
    }
}

/// Fisher-Yates from position `i` down: exchanges entry `i - 1` with the entry
/// at the next draw modulo `i`. Returns the sequence and the generator state.
pub open spec fn shuffle_from(s: Seq<usize>, i: int, state: u64) -> (Seq<usize>, u64)
    decreases i,
{
    if i <= 1 {
        (s, state)
    } else {
        let next = xorshift_next(state);
        let k = next % (i as u64);
        shuffle_from(swapped(s, i - 1, k as int), i - 1, next)
    }
}

/// What the nullary operator draws from generator state `state`: the canonical
/// encoding, shuffled; and the generator state after it.
pub open spec fn construct_of(shop: JobShop, state: u64) -> (Seq<usize>, u64) {
    let c = canonical_upto(shop.ops, shop.n_jobs as int);
    shuffle_from(c, c.len() as int, state)
}

/// What the 1-swap move makes of `seq` from generator state `state`.
pub open spec fn one_swap_of(seq: Seq<usize>, state: u64) -> (Seq<usize>, u64) {
    if seq.len() < 2 {
        (seq, state)
    } else {
        let next = xorshift_next(state);
        let i = next % ((seq.len() - 1) as u64);
        (swapped(seq, i as int, i + 1), next)
    }
}

/// `t` exchanges of two entries, each at the next two draws modulo the length.
pub open spec fn swaps_from(seq: Seq<usize>, t: nat, state: u64) -> (Seq<usize>, u64)
    decreases t,
{
    if t == 0 || seq.len() == 0 {
        (seq, state)
    } else {
        let a = xorshift_next(state);
        let b = xorshift_next(a);
        let i = a % (seq.len() as u64);
        let k = b % (seq.len() as u64);
        swaps_from(swapped(seq, i as int, k as int), (t - 1) as nat, b)
    }
}

/// What the n-swap move makes of `seq` from generator state `state`: n is
/// 2 plus the next draw modulo `SWAP_N_EXTRA + 1`, then n exchanges follow.
pub open spec fn swap_n_of(seq: Seq<usize>, state: u64) -> (Seq<usize>, u64) {
    if seq.len() < 2 {
        (seq, state)
    } else {
        let first = xorshift_next(state);
        let n = 2 + first % ((SWAP_N_EXTRA + 1) as u64);
        swaps_from(seq, n as nat, first)
    }
}

/// Appending `k` copies of `x` adds `k` to the count of `x` and nothing else.
proof fn lemma_block_counts(base: Seq<usize>, k: nat, x: usize)
    ensures
        forall|y: usize|
            #[trigger] (base + repeat(x, k)).to_multiset().count(y) == base.to_multiset().count(y)
                + (if y == x { k } else { 0 }),
    decreases k,
{
    broadcast use vstd::seq_lib::group_to_multiset_ensures;
    broadcast use vstd::multiset::group_multiset_axioms;
    if k == 0 {
        assert(base + repeat(x, 0) =~= base);
    } else {
        lemma_block_counts(base, (k - 1) as nat, x);
        let prev = base + repeat(x, (k - 1) as nat);
        assert(base + repeat(x, k) =~= prev.push(x));
        assert forall|y: usize|
            #[trigger] (base + repeat(x, k)).to_multiset().count(y) == base.to_multiset().count(y)
                + (if y == x { k } else { 0 }) by {
            assert(prev.push(x).to_multiset() == prev.to_multiset().insert(x));
        }
    }
}

/// The canonical sequence of jobs `0..j` holds only ids below `j`, each as
/// many times as its job has operations.
pub proof fn lemma_canonical_counts(ops: Seq<Seq<Operation>>, j: int)
    requires
        0 <= j <= ops.len(),
        j <= usize::MAX,
    ensures
        forall|i: int| 0 <= i < canonical_upto(ops, j).len() ==> (#[trigger] canonical_upto(ops, j)[i]) < j,
        forall|x: usize|
            #[trigger] canonical_upto(ops, j).to_multiset().count(x) == if x < j {
                ops[x as int].len()
            } else {
                0
            },
    decreases j,
{
    broadcast use vstd::seq_lib::group_to_multiset_ensures;
    if j == 0 {
        assert forall|x: usize| #[trigger] canonical_upto(ops, j).to_multiset().count(x) == 0 by {
            assert(!canonical_upto(ops, j).contains(x));
        }
    } else {
        lemma_canonical_counts(ops, j - 1);
        lemma_block_counts(canonical_upto(ops, j - 1), ops[j - 1].len(), (j - 1) as usize);
        let c = canonical_upto(ops, j);
        let prev = canonical_upto(ops, j - 1);
        assert(c == prev + repeat((j - 1) as usize, ops[j - 1].len()));
        assert forall|x: usize| #[trigger] c.to_multiset().count(x) == if x < j {
            ops[x as int].len()
        } else {
            0
        } by {
            assert(prev.to_multiset().count(x) == if x < j - 1 {
                ops[x as int].len()
            } else {
                0
            });
            assert(c.to_multiset().count(x) == prev.to_multiset().count(x) + (if x == (j - 1) as usize {
                ops[j - 1].len()
            } else {
                0
            }));
        }
        assert forall|i: int| 0 <= i < c.len() implies (#[trigger] c[i]) < j by {
            if i < canonical_upto(ops, j - 1).len() {
                assert(c[i] == canonical_upto(ops, j - 1)[i]);
            }
        }
    }
}

/// Shuffling keeps a valid encoding valid and keeps its length.
pub proof fn lemma_shuffle_valid(shop: JobShop, s: Seq<usize>, i: int, state: u64)
    requires
        is_valid_encoding(shop, s),
        i <= s.len(),
        s.len() <= MAX_OPERATIONS,
    ensures
        is_valid_encoding(shop, shuffle_from(s, i, state).0),
        shuffle_from(s, i, state).0.len() == s.len(),
    decreases i,
{
    if i > 1 {
        let next = xorshift_next(state);
        let k = next % (i as u64);
        lemma_swap_valid(shop, s, i - 1, k as int);
        lemma_swap_multiset(s, i - 1, k as int);
        lemma_shuffle_valid(shop, swapped(s, i - 1, k as int), i - 1, next);
    }
}

/// Every draw of the nullary operator is a valid encoding.
pub proof fn lemma_construct_valid(inst: Instance, state: u64)
    requires
        inst.wf(),
    ensures
        is_valid_encoding(inst@, construct_of(inst@, state).0),
        construct_of(inst@, state).0.len() <= MAX_OPERATIONS,
{
    let shop = inst@;
    let c = canonical_upto(shop.ops, shop.n_jobs as int);
    lemma_canonical_counts(shop.ops, shop.n_jobs as int);
    lemma_canonical_len(inst, shop.n_jobs as int);
    assert(inst.jobs@.subrange(0, shop.n_jobs as int) == inst.jobs@);
    lemma_shuffle_valid(shop, c, c.len() as int, state);
}

/// The canonical sequence of the first `j` jobs is as long as they have operations.
pub proof fn lemma_canonical_len(inst: Instance, j: int)
    requires
        inst.wf(),
        0 <= j <= inst.n_jobs,
    ensures
        canonical_upto(inst@.ops, j).len() == ops_count(inst.jobs@.subrange(0, j)),
    decreases j,
{
    if j > 0 {
        lemma_canonical_len(inst, j - 1);
        assert(inst.jobs@.subrange(0, j).drop_last() == inst.jobs@.subrange(0, j - 1));
        assert(inst@.ops[j - 1] == inst.jobs@[j - 1]@);
    }
}

/// The 1-swap move keeps a valid encoding valid.
pub proof fn lemma_one_swap_valid(shop: JobShop, seq: Seq<usize>, state: u64)
    requires
        is_valid_encoding(shop, seq),
        seq.len() <= MAX_OPERATIONS,
    ensures
        is_valid_encoding(shop, one_swap_of(seq, state).0),
        one_swap_of(seq, state).0.len() == seq.len(),
{
    if seq.len() >= 2 {
        let i = xorshift_next(state) % ((seq.len() - 1) as u64);
        lemma_swap_valid(shop, seq, i as int, i + 1);
        lemma_swap_multiset(seq, i as int, i + 1);
    }
}

/// Repeated exchanges keep a valid encoding valid.
pub proof fn lemma_swaps_valid(shop: JobShop, seq: Seq<usize>, t: nat, state: u64)
    requires
        is_valid_encoding(shop, seq),
        seq.len() <= MAX_OPERATIONS,
    ensures
        is_valid_encoding(shop, swaps_from(seq, t, state).0),
        swaps_from(seq, t, state).0.len() == seq.len(),
    decreases t,
{
    if t > 0 && seq.len() > 0 {
        let a = xorshift_next(state);
        let b = xorshift_next(a);
        let i = a % (seq.len() as u64);
        let k = b % (seq.len() as u64);
        lemma_swap_valid(shop, seq, i as int, k as int);
        lemma_swap_multiset(seq, i as int, k as int);
        lemma_swaps_valid(shop, swapped(seq, i as int, k as int), (t - 1) as nat, b);
    }
}

/// The n-swap move keeps a valid encoding valid.
pub proof fn lemma_swap_n_valid(shop: JobShop, seq: Seq<usize>, state: u64)
    requires
        is_valid_encoding(shop, seq),
        seq.len() <= MAX_OPERATIONS,
    ensures
        is_valid_encoding(shop, swap_n_of(seq, state).0),
        swap_n_of(seq, state).0.len() == seq.len(),
{
    if seq.len() >= 2 {
        let first = xorshift_next(state);
        let n = 2 + first % ((SWAP_N_EXTRA + 1) as u64);
        lemma_swaps_valid(shop, seq, n as nat, first);
    }
}

/// Exchanges the entries at `i` and `k`.
fn swap_entries(seq: &mut Vec<usize>, i: usize, k: usize)
    requires
        i < old(seq)@.len(),
        k < old(seq)@.len(),
    ensures
        final(seq)@ == swapped(old(seq)@, i as int, k as int),
{
    let a = seq[i];
    let b = seq[k];
    seq.set(i, b);
    seq.set(k, a);
}

impl BlackBox {
    pub open spec fn wf(&self) -> bool {
        &&& self.instance.wf()
        &&& self.best matches Some(c) ==> valid_candidate(self.instance@, c)
        &&& forall|i: int|
            0 <= i < self.history@.len() ==> valid_candidate(
                self.instance@,
                (#[trigger] self.history@[i]).candidate,
            )
    }

    /// A fresh process on a copy of `instance`: no best candidate, no history.
    pub fn new(instance: &Instance) -> (r: BlackBox)
        requires
            instance.wf(),
        ensures
            r.wf(),
            r.instance@ == instance@,
            r.instance.lower_bound == instance.lower_bound,
            r.instance.termination_limit == instance.termination_limit,
            r.instance.is_timed == instance.is_timed,
            r.best is None,
            r.history@.len() == 0,
            r.rng.state == PROCESS_SEED,
    {
        BlackBox {
            instance: instance.duplicate(),
            best: None,
            history: Vec::new(),
            rng: Rng::new(PROCESS_SEED),
        }
    }

    /// Reseeds the random source of the operators.
    pub fn seed(&mut self, seed: u64)
        ensures
            final(self).rng.state == if seed == 0 { crate::rng::DEFAULT_SEED } else { seed },
            final(self).instance == old(self).instance,
            final(self).best == old(self).best,
            final(self).history == old(self).history,
    {
        self.rng = Rng::new(seed);
    }

    /// The nullary operator: a random valid encoding of the whole instance,
    /// drawn from the process's random source.
    pub fn construct(&mut self) -> (r: Candidate)
        requires
            old(self).wf(),
        ensures
            final(self).wf(),
            valid_candidate(final(self).instance@, r),
            r.sequence@ == construct_of(old(self).instance@, old(self).rng.state).0,
            final(self).rng.state == construct_of(old(self).instance@, old(self).rng.state).1,
            final(self).instance == old(self).instance,
            final(self).best == old(self).best,
            final(self).history == old(self).history,
    {
        let n_jobs = self.instance.n_jobs;
        let ghost shop = self.instance@;
        let ghost jobs = self.instance.jobs@;
        let mut seq: Vec<usize> = Vec::new();
        let mut j: usize = 0;
        proof {
            broadcast use vstd::seq_lib::group_to_multiset_ensures;
            assert forall|x: usize| #[trigger] seq@.to_multiset().count(x) == 0 by {
                assert(!seq@.contains(x));
            }
            assert(jobs.subrange(0, 0) =~= Seq::<Vec<Operation>>::empty());
        }
        while j < n_jobs
            invariant
                self.instance.wf(),
                n_jobs == self.instance.n_jobs,
                shop == self.instance@,
                jobs == self.instance.jobs@,
                shop.ops.len() == n_jobs,
                self.rng == old(self).rng,
                j <= n_jobs,
                seq@ == canonical_upto(shop.ops, j as int),
                seq@.len() == ops_count(jobs.subrange(0, j as int)),
                forall|i: int| 0 <= i < seq@.len() ==> (#[trigger] seq@[i]) < j,
                forall|x: usize| x < j ==> #[trigger] seq@.to_multiset().count(x)
                    == shop.ops[x as int].len(),
                forall|x: usize| x >= j ==> #[trigger] seq@.to_multiset().count(x) == 0,
            decreases n_jobs - j,
        {
            let len = self.instance.jobs[j].len();
            let ghost base = seq@;
            let mut k: usize = 0;
            proof {
                assert(seq@ =~= canonical_upto(shop.ops, j as int) + repeat(j, 0));
            }
            proof {
                lemma_ops_count_prefix_mono(jobs, j + 1, jobs.len() as int);
                assert(jobs.subrange(0, j + 1).drop_last() == jobs.subrange(0, j as int));
                assert(jobs.subrange(0, jobs.len() as int) == jobs);
                assert(shop.ops[j as int] == jobs[j as int]@);
            }
            while k < len
                invariant
                    j < n_jobs,
                    shop.ops.len() == n_jobs,
                    len == shop.ops[j as int].len(),
                    base.len() + len <= MAX_OPERATIONS,
                    k <= len,
                    seq@.len() == base.len() + k,
                    forall|i: int| 0 <= i < seq@.len() ==> (#[trigger] seq@[i]) < j + 1,
                    forall|x: usize| x < j ==> #[trigger] seq@.to_multiset().count(x)
                        == shop.ops[x as int].len(),
                    seq@.to_multiset().count(j) == k,
                    seq@ == canonical_upto(shop.ops, j as int) + repeat(j, k as nat),
                    forall|x: usize| x > j ==> #[trigger] seq@.to_multiset().count(x) == 0,
                decreases len - k,
            {
                proof {
                    broadcast use vstd::seq_lib::group_to_multiset_ensures;
                    broadcast use vstd::multiset::group_multiset_axioms;
                    assert(seq@.push(j).to_multiset() == seq@.to_multiset().insert(j));
                }
                seq.push(j);
                k += 1;
                proof {
                    assert(seq@ =~= canonical_upto(shop.ops, j as int) + repeat(j, k as nat));
                }
            }
            proof {
                assert(canonical_upto(shop.ops, j + 1) =~= canonical_upto(shop.ops, j as int) + repeat(j, k as nat));
            }
            j += 1;
        }
        proof {
            assert(jobs.subrange(0, jobs.len() as int) == jobs);
        }
        let n = seq.len();
        let mut i: usize = n;
        let ghost goal = construct_of(shop, old(self).rng.state);
        while i > 1
            invariant
                shuffle_from(seq@, i as int, self.rng.state) == goal,
                self.instance.wf(),
                self.instance == old(self).instance,
                self.best == old(self).best,
                self.history == old(self).history,
                shop == self.instance@,
                i <= n,
                seq@.len() == n,
                n <= MAX_OPERATIONS,
                is_valid_encoding(shop, seq@),
            decreases i,
        {
            i -= 1;
            let k = self.rng.below(i + 1);
            proof {
                lemma_swap_valid(shop, seq@, i as int, k as int);
            }
            swap_entries(&mut seq, i, k);
        }
        Candidate::evaluate(&self.instance, seq)
    }

    /// The 1-swap move: exchanges two neighbouring entries of `parent`'s
    /// sequence, at a position drawn from the random source. A sequence with
    /// fewer than two entries is copied unchanged.
    pub fn swap_one(&mut self, parent: &Candidate) -> (r: Candidate)
        requires
            old(self).wf(),
            parent.wf(old(self).instance@),
        ensures
            final(self).wf(),
            r.wf(final(self).instance@),
            r.sequence@ == one_swap_of(parent.sequence@, old(self).rng.state).0,
            final(self).rng.state == one_swap_of(parent.sequence@, old(self).rng.state).1,
            is_valid_encoding(old(self).instance@, parent.sequence@) ==> is_valid_encoding(
                final(self).instance@,
                r.sequence@,
            ),
            final(self).instance == old(self).instance,
            final(self).best == old(self).best,
            final(self).history == old(self).history,
    {
        let mut seq = parent.sequence.clone();
        proof {
            assert(seq@ =~= parent.sequence@);
        }
        let n = seq.len();
        if n >= 2 {
            let i = self.rng.below(n - 1);
            proof {
                if is_valid_encoding(self.instance@, seq@) {
                    lemma_swap_valid(self.instance@, seq@, i as int, i + 1);
                }
            }
            swap_entries(&mut seq, i, i + 1);
        }
        Candidate::evaluate(&self.instance, seq)
    }

    /// The n-swap move: draws n from `2..=2 + SWAP_N_EXTRA`, then makes n
    /// exchanges of two entries of `parent`'s sequence at random positions.
    /// The result holds the same entries as `parent`, in another order.
    pub fn swap_n(&mut self, parent: &Candidate) -> (r: Candidate)
        requires
            old(self).wf(),
            parent.wf(old(self).instance@),
        ensures
            final(self).wf(),
            r.wf(final(self).instance@),
            r.sequence@ == swap_n_of(parent.sequence@, old(self).rng.state).0,
            final(self).rng.state == swap_n_of(parent.sequence@, old(self).rng.state).1,
            r.sequence@.len() == parent.sequence@.len(),
            r.sequence@.to_multiset() == parent.sequence@.to_multiset(),
            is_valid_encoding(old(self).instance@, parent.sequence@) ==> is_valid_encoding(
                final(self).instance@,
                r.sequence@,
            ),
            final(self).instance == old(self).instance,
            final(self).best == old(self).best,
            final(self).history == old(self).history,
    {
        let mut seq = parent.sequence.clone();
        proof {
            assert(seq@ =~= parent.sequence@);
        }
        let n = seq.len();
        let ghost valid = is_valid_encoding(self.instance@, parent.sequence@);
        let ghost goal = swap_n_of(parent.sequence@, self.rng.state);
        if n >= 2 {
            let swaps = 2 + self.rng.below(SWAP_N_EXTRA + 1);
            let mut t: usize = 0;
            while t < swaps
                invariant
                    t <= swaps,
                    swaps_from(seq@, (swaps - t) as nat, self.rng.state) == goal,
                    self.instance.wf(),
                    self.instance == old(self).instance,
                    self.best == old(self).best,
                    self.history == old(self).history,
                    n >= 2,
                    seq@.len() == n,
                    n == parent.sequence@.len(),
                    seq@.to_multiset() == parent.sequence@.to_multiset(),
                    valid ==> is_valid_encoding(self.instance@, seq@),
                decreases swaps - t,
            {
                let i = self.rng.below(n);
                let k = self.rng.below(n);
                proof {
                    lemma_swap_multiset(seq@, i as int, k as int);
                    if valid {
                        lemma_swap_valid(self.instance@, seq@, i as int, k as int);
                    }
                }
                swap_entries(&mut seq, i, k);
                t += 1;
            }
        }
        Candidate::evaluate(&self.instance, seq)
    }

    /// Appends an improvement found at `iteration` to the history, stamped with
    /// the current wall-clock time.
    pub fn update_history(&mut self, c: &Candidate, iteration: usize)
        requires
            old(self).wf(),
            valid_candidate(old(self).instance@, *c),
        ensures
            final(self).wf(),
            final(self).history@.len() == old(self).history@.len() + 1,
            final(self).history@.drop_last() == old(self).history@,
            final(self).history@.last().candidate.sequence@ == c.sequence@,
            final(self).history@.last().candidate.makespan == c.makespan,
            final(self).history@.last().iteration == iteration,
            final(self).instance == old(self).instance,
            final(self).best == old(self).best,
            final(self).rng == old(self).rng,
    {
        let entry = HistoryEntry { candidate: c.duplicate(), iteration, timestamp_ms: now_millis() };
        self.history.push(entry);
        proof {
            assert(self.history@.drop_last() =~= old(self).history@);
        }
    }

    /// A copy with the same instance, best candidate, history and random source.
    pub fn duplicate(&self) -> (r: BlackBox)
        requires
            self.wf(),
        ensures
            r.wf(),
            r.instance@ == self.instance@,
            r.instance.lower_bound == self.instance.lower_bound,
            r.instance.termination_limit == self.instance.termination_limit,
            r.instance.is_timed == self.instance.is_timed,
            r.best is Some <==> self.best is Some,
            r.best matches Some(b) ==> (self.best matches Some(c) && b.sequence@ == c.sequence@
                && b.makespan == c.makespan),
            r.history@.len() == self.history@.len(),
            forall|i: int|
                0 <= i < r.history@.len() ==> #[trigger] same_entry(r.history@[i], self.history@[i]),
            r.rng == self.rng,
    {
        let mut history: Vec<HistoryEntry> = Vec::new();
        let mut i: usize = 0;
        while i < self.history.len()
            invariant
                self.wf(),
                i <= self.history@.len(),
                history@.len() == i,
                forall|k: int|
                    0 <= k < i ==> #[trigger] same_entry(history@[k], self.history@[k]),
                forall|k: int|
                    0 <= k < i ==> valid_candidate(self.instance@, (#[trigger] history@[k]).candidate),
            decreases self.history@.len() - i,
        {
            let e = &self.history[i];
            proof {
                assert(valid_candidate(self.instance@, self.history@[i as int].candidate));
            }
            history.push(
                HistoryEntry {
                    candidate: e.candidate.duplicate(),
                    iteration: e.iteration,
                    timestamp_ms: e.timestamp_ms,
                },
            );
            i += 1;
        }
        let best = match &self.best {
            Some(c) => Some(c.duplicate()),
            None => None,
        };
        BlackBox { instance: self.instance.duplicate(), best, history, rng: self.rng }
    }

    /// Commits `c` as the best-known candidate.
    pub fn update(&mut self, c: &Candidate)
        requires
            old(self).wf(),
            valid_candidate(old(self).instance@, *c),
        ensures
            final(self).wf(),
            final(self).best matches Some(b) && b.sequence@ == c.sequence@ && b.makespan
                == c.makespan,
            final(self).instance == old(self).instance,
            final(self).history == old(self).history,
            final(self).rng == old(self).rng,
    {
        self.best = Some(c.duplicate());
    }
}

} // verus!
