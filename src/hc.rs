use vstd::prelude::*;
use crate::candidate::{better, Candidate};
use crate::clock::now_millis;
use crate::instance::Instance;
use crate::operator::{lower_of, operator_for_key, ConfigError, UnaryOp};
use crate::process::{
    construct_of, lemma_construct_valid, lemma_one_swap_valid, lemma_swap_n_valid, one_swap_of, same_entry, swap_n_of, valid_candidate, BlackBox, HistoryEntry,
    PROCESS_SEED,
};
use crate::schedule::{is_valid_encoding, makespan_of};
use crate::instance::MAX_OPERATIONS;
use crate::instance::JobShop;
use crate::termination::{next_counter, Budget, Termination};

verus! {

/// Milliseconds in a second, for a budget given in seconds.
pub const MS_PER_SECOND: u64 = 1000;

/// A wall-clock budget of `s` seconds in milliseconds, saturating at `u64::MAX`.
pub open spec fn seconds_to_ms(s: usize) -> u64 {
    if s * MS_PER_SECOND > u64::MAX {
        u64::MAX
    } else {
        (s * MS_PER_SECOND) as u64
    }
}

/// From index `start` on, each history entry is strictly better than the one before.
pub open spec fn improving_from(h: Seq<HistoryEntry>, start: int) -> bool {
    forall|a: int, b: int|
        start <= a < b < h.len() ==> (#[trigger] h[b]).candidate.makespan
            < (#[trigger] h[a]).candidate.makespan
}

/// What the unary move `op` makes of `seq` from generator state `state`.
pub open spec fn move_of(op: UnaryOp, seq: Seq<usize>, state: u64) -> (Seq<usize>, u64) {
    match op {
        UnaryOp::Swap1 => one_swap_of(seq, state),
        UnaryOp::SwapN => swap_n_of(seq, state),
    }
}

/// The search between iterations: the current and best sequences, the
/// stagnation counter and the generator state.
pub struct SearchState {
    pub current: Seq<usize>,
    pub best: Seq<usize>,
    pub counter: int,
    pub rng: u64,
}

/// The state a run starts from: the seed drawn by the nullary operator is both
/// current and best.
pub open spec fn seed_state(shop: JobShop, rng: u64, counter: int) -> SearchState {
    let c = construct_of(shop, rng);
    SearchState { current: c.0, best: c.0, counter, rng: c.1 }
}

/// The iteration from `s` restarts: stagnation has reached the threshold.
pub open spec fn resets(threshold: usize, s: SearchState) -> bool {
    s.counter >= threshold
}

/// The parent the unary move applies to in the iteration from `s` (a fresh
/// nullary draw on a restart, else the current sequence), and the generator
/// state after it.
pub open spec fn parent_of(shop: JobShop, threshold: usize, s: SearchState) -> (Seq<usize>, u64) {
    if resets(threshold, s) {
        construct_of(shop, s.rng)
    } else {
        (s.current, s.rng)
    }
}

/// One iteration: the neighbour replaces the parent only if strictly better;
/// the result replaces the best only if strictly better, which zeroes the
/// stagnation counter; otherwise the counter (zero after a restart) grows by one.
pub open spec fn step_of(shop: JobShop, op: UnaryOp, threshold: usize, s: SearchState) -> SearchState {
    let p = parent_of(shop, threshold, s);
    let m = move_of(op, p.0, p.1);
    let cur = if makespan_of(shop, m.0) < makespan_of(shop, p.0) { m.0 } else { p.0 };
    if makespan_of(shop, cur) < makespan_of(shop, s.best) {
        SearchState { current: cur, best: cur, counter: 0, rng: m.1 }
    } else {
        SearchState {
            current: cur,
            best: s.best,
            counter: (if resets(threshold, s) { 0 } else { s.counter }) + 1,
            rng: m.1,
        }
    }
}

/// The iteration from `s` finds a new best.
pub open spec fn improves(shop: JobShop, op: UnaryOp, threshold: usize, s: SearchState) -> bool {
    makespan_of(shop, step_of(shop, op, threshold, s).best) < makespan_of(shop, s.best)
}

/// The state after `n` iterations from `s0`.
pub open spec fn iterate(shop: JobShop, op: UnaryOp, threshold: usize, s0: SearchState, n: nat) -> SearchState
    decreases n,
{
    if n == 0 {
        s0
    } else {
        step_of(shop, op, threshold, iterate(shop, op, threshold, s0, (n - 1) as nat))
    }
}

/// Makespans of the nullary draws of `n` iterations from `s0`: its current
/// sequence (the seed), then one per restart.
pub open spec fn draws_of(shop: JobShop, op: UnaryOp, threshold: usize, s0: SearchState, n: nat) -> Seq<int>
    decreases n,
{
    if n == 0 {
        seq![makespan_of(shop, s0.current)]
    } else {
        let prev = iterate(shop, op, threshold, s0, (n - 1) as nat);
        let d = draws_of(shop, op, threshold, s0, (n - 1) as nat);
        if resets(threshold, prev) {
            d.push(makespan_of(shop, construct_of(shop, prev.rng).0))
        } else {
            d
        }
    }
}

/// The new best sequences found in `n` iterations from `s0`, in order.
pub open spec fn improvements_of(
    shop: JobShop,
    op: UnaryOp,
    threshold: usize,
    s0: SearchState,
    n: nat,
) -> Seq<Seq<usize>>
    decreases n,
{
    if n == 0 {
        Seq::empty()
    } else {
        let prev = iterate(shop, op, threshold, s0, (n - 1) as nat);
        let d = improvements_of(shop, op, threshold, s0, (n - 1) as nat);
        if improves(shop, op, threshold, prev) {
            d.push(step_of(shop, op, threshold, prev).best)
        } else {
            d
        }
    }
}

/// Both sequences of `s` are valid encodings of `shop` of a length the
/// decoder takes.
pub open spec fn valid_state(shop: JobShop, s: SearchState) -> bool {
    &&& is_valid_encoding(shop, s.current)
    &&& is_valid_encoding(shop, s.best)
    &&& s.current.len() <= MAX_OPERATIONS
    &&& s.best.len() <= MAX_OPERATIONS
}

/// An iteration from a valid state hands the unary move a valid parent, gets
/// a valid neighbour back, and ends in a valid state.
pub proof fn lemma_step_valid(inst: Instance, op: UnaryOp, threshold: usize, s: SearchState)
    requires
        inst.wf(),
        valid_state(inst@, s),
    ensures
        is_valid_encoding(inst@, parent_of(inst@, threshold, s).0),
        is_valid_encoding(
            inst@,
            move_of(op, parent_of(inst@, threshold, s).0, parent_of(inst@, threshold, s).1).0,
        ),
        valid_state(inst@, step_of(inst@, op, threshold, s)),
{
    let p = parent_of(inst@, threshold, s);
    if resets(threshold, s) {
        lemma_construct_valid(inst, s.rng);
    }
    match op {
        UnaryOp::Swap1 => lemma_one_swap_valid(inst@, p.0, p.1),
        UnaryOp::SwapN => lemma_swap_n_valid(inst@, p.0, p.1),
    }
}

/// Feasibility along a whole run: from the seed on, after any number of
/// iterations, the current and best sequences are valid encodings of the
/// instance, and so is every parent handed to the unary move and every
/// neighbour it returns. A valid encoding lists each operation exactly once,
/// and decoding one schedules them all (`lemma_valid_encoding_schedules_all`).
pub proof fn lemma_run_valid(inst: Instance, op: UnaryOp, threshold: usize, rng: u64, counter: int, n: nat)
    requires
        inst.wf(),
    ensures
        ({
            let s = iterate(inst@, op, threshold, seed_state(inst@, rng, counter), n);
            let p = parent_of(inst@, threshold, s);
            &&& valid_state(inst@, s)
            &&& is_valid_encoding(inst@, p.0)
            &&& is_valid_encoding(inst@, move_of(op, p.0, p.1).0)
        }),
    decreases n,
{
    if n == 0 {
        lemma_construct_valid(inst, rng);
    } else {
        lemma_run_valid(inst, op, threshold, rng, counter, (n - 1) as nat);
        lemma_step_valid(
            inst,
            op,
            threshold,
            iterate(inst@, op, threshold, seed_state(inst@, rng, counter), (n - 1) as nat),
        );
    }
    lemma_step_valid(inst, op, threshold, iterate(inst@, op, threshold, seed_state(inst@, rng, counter), n));
}

/// A strict-improvement hill climber with stagnation-triggered restarts.
pub struct HillClimber {
    pub process: BlackBox,
    pub termination: Termination,
    pub reset_threshold: usize,
    /// Consecutive iterations without a new best candidate.
    pub reset_counter: usize,
    /// Makespan of every candidate the nullary operator produced in the latest
    /// run, in order: the seed, then one per restart.
    pub draws: Vec<u64>,
    /// Iterations made by the latest run.
    pub iterations: usize,
}

impl HillClimber {
    /// The process is well formed, and the stagnation counter never exceeds the
    /// reset threshold (or 1, when the threshold is 0).
    pub open spec fn wf(&self) -> bool {
        &&& self.process.wf()
        &&& (self.reset_counter <= self.reset_threshold || self.reset_counter <= 1)
    }

    /// No candidate drawn by the nullary operator finishes before `m`.
    pub open spec fn bounded_by_draws(&self, m: u64) -> bool {
        forall|i: int| 0 <= i < self.draws@.len() ==> m <= #[trigger] self.draws@[i]
    }

    /// What a completed run with `op` leaves behind, from the climber `pre` to
    /// `post`, returning the process `r`. The run is the seed drawn from `pre`'s
    /// generator followed by `post.iterations` iterations of `step_of`: the
    /// committed best, the stagnation counter, the generator state, the nullary
    /// draws and the new history entries are those of that trace. Besides: no
    /// draw beats the best; new entries improve strictly, all below the seed,
    /// and end at the best (the best is the seed when there is none); every
    /// evaluation of the budget is counted, and an iteration budget of `L`
    /// runs exactly `L` iterations from a fresh predicate.
    pub open spec fn completed_run(pre: HillClimber, post: HillClimber, op: UnaryOp, r: BlackBox) -> bool {
        let shop = pre.process.instance@;
        let s0 = seed_state(shop, pre.process.rng.state, pre.reset_counter as int);
        let n = post.iterations as nat;
        let fin = iterate(shop, op, pre.reset_threshold, s0, n);
        let draws = draws_of(shop, op, pre.reset_threshold, s0, n);
        let imps = improvements_of(shop, op, pre.reset_threshold, s0, n);
        let h0 = pre.process.history@.len();
        let h = post.process.history@;
        &&& post.wf()
        &&& post.process.instance == pre.process.instance
        &&& post.termination.budget == pre.termination.budget
        &&& post.reset_threshold == pre.reset_threshold
        &&& post.reset_counter == fin.counter
        &&& post.process.rng.state == fin.rng
        &&& post.draws@.len() == draws.len()
        &&& forall|i: int| 0 <= i < draws.len() ==> #[trigger] post.draws@[i] == draws[i]
        &&& h.len() == h0 + imps.len()
        &&& forall|i: int| 0 <= i < imps.len() ==> #[trigger] h[h0 + i].candidate.sequence@ == imps[i]
        &&& forall|a: int| 0 <= a < h0 ==> #[trigger] same_entry(h[a], pre.process.history@[a])
        &&& improving_from(h, h0 as int)
        &&& forall|a: int| h0 <= a < h.len() ==> (#[trigger] h[a]).candidate.makespan < post.draws@[0]
        &&& post.process.best matches Some(b) && {
            &&& b.sequence@ == fin.best
            &&& valid_candidate(shop, b)
            &&& post.bounded_by_draws(b.makespan)
            &&& forall|a: int| h0 <= a < h.len() ==> b.makespan <= (#[trigger] h[a]).candidate.makespan
            &&& h.len() > h0 ==> h.last().candidate.sequence@ == b.sequence@
                && h.last().candidate.makespan == b.makespan
            &&& h.len() == h0 ==> b.sequence@ == s0.current
        }
        &&& post.termination.counter == next_counter((pre.termination.counter + post.iterations) as usize)
        &&& post.termination.spent
        &&& (pre.termination.budget matches Budget::WallClockMs(limit) ==> !pre.termination.spent
            ==> post.termination.counter == usize::MAX || post.termination.last_ms
            - post.termination.started_ms >= limit)
        &&& pre.termination.spent ==> post.iterations == 0
        &&& (pre.termination.budget matches Budget::Iterations(limit) ==> !pre.termination.spent
            ==> post.iterations == if pre.termination.counter >= limit {
            0
        } else {
            limit - pre.termination.counter
        })
        &&& r.wf()
        &&& r.instance@ == post.process.instance@
        &&& r.instance.lower_bound == post.process.instance.lower_bound
        &&& r.instance.termination_limit == post.process.instance.termination_limit
        &&& r.instance.is_timed == post.process.instance.is_timed
        &&& r.rng == post.process.rng
        &&& r.best matches Some(c) && post.process.best matches Some(b) && c.sequence@
            == b.sequence@ && c.makespan == b.makespan
        &&& r.history@.len() == h.len()
        &&& forall|a: int| 0 <= a < h.len() ==> #[trigger] same_entry(r.history@[a], h[a])
    }

    /// A climber on a fresh process over a copy of `instance`. The budget counts
    /// iterations, or, for a timed instance, `termination_limit` seconds.
    pub fn new(instance: &Instance, termination_limit: usize, reset_threshold: usize) -> (r: Self)
        requires
            instance.wf(),
        ensures
            r.wf(),
            r.process.instance@ == instance@,
            r.process.instance.lower_bound == instance.lower_bound,
            r.process.instance.termination_limit == instance.termination_limit,
            r.process.instance.is_timed == instance.is_timed,
            r.process.rng.state == PROCESS_SEED,
            r.process.best is None,
            r.process.history@.len() == 0,
            r.termination.budget == if instance.is_timed {
                Budget::WallClockMs(seconds_to_ms(termination_limit))
            } else {
                Budget::Iterations(termination_limit)
            },
            r.termination.counter == 0,
            !r.termination.spent,
            r.reset_threshold == reset_threshold,
            r.reset_counter == 0,
            r.draws@.len() == 0,
            r.iterations == 0,
    {
        let budget = if instance.is_timed {
            let ms: u64 = if termination_limit as u64 > u64::MAX / MS_PER_SECOND {
                u64::MAX
            } else {
                termination_limit as u64 * MS_PER_SECOND
            };
            Budget::WallClockMs(ms)
        } else {
            Budget::Iterations(termination_limit)
        };
        HillClimber {
            process: BlackBox::new(instance),
            termination: Termination::new(budget),
            reset_threshold,
            reset_counter: 0,
            draws: Vec::new(),
            iterations: 0,
        }
    }

    /// Whether stagnation has lasted long enough to restart.
    fn should_reset(&self) -> (r: bool)
        ensures
            r == (self.reset_counter >= self.reset_threshold),
    {
        self.reset_counter >= self.reset_threshold
    }

    /// One evaluation of the termination predicate; only a wall-clock budget
    /// reads the clock.
    fn should_terminate(&mut self) -> (r: bool)
        ensures
            final(self).termination == (Termination {
                counter: next_counter(old(self).termination.counter),
                last_ms: final(self).termination.last_ms,
                spent: r,
                ..old(self).termination
            }),
            old(self).termination.budget is Iterations ==> final(self).termination.last_ms == 0,
            old(self).termination.budget matches Budget::WallClockMs(limit) ==> r == (
            old(self).termination.spent || old(self).termination.counter == usize::MAX
                || final(self).termination.last_ms - old(self).termination.started_ms >= limit),
            old(self).termination.spent ==> r,
            old(self).termination.counter == usize::MAX ==> r,
            old(self).termination.budget matches Budget::Iterations(limit) ==> r == (
            old(self).termination.spent || old(self).termination.counter == usize::MAX
                || old(self).termination.counter + 1 > limit),
            final(self).process == old(self).process,
            final(self).reset_threshold == old(self).reset_threshold,
            final(self).reset_counter == old(self).reset_counter,
            final(self).draws == old(self).draws,
            final(self).iterations == old(self).iterations,
    {
        let now = match self.termination.budget {
            Budget::Iterations(_) => 0,
            Budget::WallClockMs(_) => now_millis(),
        };
        self.termination.evaluate(now)
    }

    /// A restart: `current` becomes a fresh draw of the nullary operator and the
    /// stagnation counter is zero. The process (its best candidate and history)
    /// is left as it was.
    pub fn reset(&mut self, current: &mut Candidate)
        requires
            old(self).wf(),
        ensures
            final(self).wf(),
            final(self).reset_counter == 0,
            valid_candidate(final(self).process.instance@, *final(current)),
            final(current).sequence@ == construct_of(old(self).process.instance@, old(self).process.rng.state).0,
            final(self).process.rng.state == construct_of(old(self).process.instance@, old(self).process.rng.state).1,
            final(self).draws@ == old(self).draws@.push(final(current).makespan),
            final(self).process.instance == old(self).process.instance,
            final(self).process.best == old(self).process.best,
            final(self).process.history == old(self).process.history,
            final(self).termination == old(self).termination,
            final(self).reset_threshold == old(self).reset_threshold,
            final(self).iterations == old(self).iterations,
    {
        *current = self.process.construct();
        self.draws.push(current.makespan);
        self.reset_counter = 0;
    }

    /// One iteration after the termination check, as `step_of` states it:
    /// restart if stagnant, apply `op` to the parent and keep the neighbour only
    /// if strictly better, then record `current` as the new best if it beats `best`.
    pub fn step(&mut self, op: UnaryOp, current: &mut Candidate, best: &mut Candidate)
        requires
            old(self).wf(),
            valid_candidate(old(self).process.instance@, *old(current)),
            valid_candidate(old(self).process.instance@, *old(best)),
            old(best).makespan <= old(current).makespan,
            old(self).bounded_by_draws(old(best).makespan),
        ensures
            final(self).wf(),
            valid_candidate(final(self).process.instance@, *final(current)),
            valid_candidate(final(self).process.instance@, *final(best)),
            final(best).makespan <= final(current).makespan,
            final(best).makespan <= old(best).makespan,
            final(self).bounded_by_draws(final(best).makespan),
            final(self).process.instance == old(self).process.instance,
            final(self).process.best == old(self).process.best,
            final(self).termination == old(self).termination,
            final(self).reset_threshold == old(self).reset_threshold,
            final(self).iterations == old(self).iterations,
            ({
                let shop = old(self).process.instance@;
                let s = SearchState {
                    current: old(current).sequence@,
                    best: old(best).sequence@,
                    counter: old(self).reset_counter as int,
                    rng: old(self).process.rng.state,
                };
                let t = step_of(shop, op, old(self).reset_threshold, s);
                &&& final(current).sequence@ == t.current
                &&& final(best).sequence@ == t.best
                &&& final(self).reset_counter == t.counter
                &&& final(self).process.rng.state == t.rng
                &&& resets(old(self).reset_threshold, s) ==> final(self).draws@ == old(self).draws@.push(
                    final(self).draws@.last(),
                ) && final(self).draws@.last() == makespan_of(shop, construct_of(shop, s.rng).0)
                &&& !resets(old(self).reset_threshold, s) ==> final(self).draws@ == old(self).draws@
                &&& improves(shop, op, old(self).reset_threshold, s) ==> {
                    &&& final(self).process.history@ == old(self).process.history@.push(
                        final(self).process.history@.last(),
                    )
                    &&& final(self).process.history@.last().candidate.sequence@ == t.best
                    &&& final(self).process.history@.last().candidate.makespan == final(best).makespan
                    &&& final(self).process.history@.last().iteration == old(self).termination.counter
                }
                &&& !improves(shop, op, old(self).reset_threshold, s) ==> {
                    &&& *final(best) == *old(best)
                    &&& final(self).process.history == old(self).process.history
                }
            }),
    {
        let ghost draws0 = self.draws@;
        if self.should_reset() {
            self.reset(current);
            proof {
                assert(self.draws@ =~= draws0.push(self.draws@.last()));
            }
        }
        let next = match op {
            UnaryOp::Swap1 => self.process.swap_one(current),
            UnaryOp::SwapN => self.process.swap_n(current),
        };
        if next.is_better_than(current) {
            *current = next;
        }
        if current.is_better_than(best) {
            *best = current.duplicate();
            self.process.update_history(best, self.termination.counter);
            self.reset_counter = 0;
            proof {
                assert(self.process.history@ =~= old(self).process.history@.push(self.process.history@.last()));
            }
        } else {
            self.reset_counter = self.reset_counter + 1;
        }
    }

    /// Runs the search with `op` until the budget is spent, commits the best
    /// candidate into the process, and returns a copy of the process.
    pub fn run(&mut self, op: UnaryOp) -> (r: BlackBox)
        requires
            old(self).wf(),
        ensures
            HillClimber::completed_run(*old(self), *final(self), op, r),
    {
        let ghost pre = *self;
        let ghost shop = self.process.instance@;
        let ghost thr = self.reset_threshold;
        let ghost s0 = seed_state(shop, pre.process.rng.state, pre.reset_counter as int);
        let ghost h0 = self.process.history@.len();
        let mut best = self.process.construct();
        self.draws = Vec::new();
        self.draws.push(best.makespan);
        self.iterations = 0;
        let mut current = best.duplicate();
        if let Budget::WallClockMs(_) = self.termination.budget {
            self.termination.start(now_millis());
        }
        proof {
            assert(self.process.history@.subrange(0, h0 as int) =~= pre.process.history@);
            assert(draws_of(shop, op, thr, s0, 0) =~= seq![makespan_of(shop, s0.current)]);
        }
        loop
            invariant_except_break
                self.termination.counter == pre.termination.counter + self.iterations,
                self.termination.spent == pre.termination.spent,
            invariant
                self.wf(),
                valid_candidate(shop, current),
                valid_candidate(shop, best),
                best.makespan <= current.makespan,
                self.bounded_by_draws(best.makespan),
                shop == self.process.instance@,
                thr == self.reset_threshold,
                self.process.instance == pre.process.instance,
                self.process.best == pre.process.best,
                self.termination.budget == pre.termination.budget,
                self.reset_threshold == pre.reset_threshold,
                iterate(shop, op, thr, s0, self.iterations as nat) == (SearchState {
                    current: current.sequence@,
                    best: best.sequence@,
                    counter: self.reset_counter as int,
                    rng: self.process.rng.state,
                }),
                self.draws@.len() == draws_of(shop, op, thr, s0, self.iterations as nat).len(),
                forall|i: int|
                    0 <= i < self.draws@.len() ==> #[trigger] self.draws@[i] == draws_of(
                        shop,
                        op,
                        thr,
                        s0,
                        self.iterations as nat,
                    )[i],
                self.draws@.len() >= 1,
                h0 == pre.process.history@.len(),
                self.process.history@.len() == h0 + improvements_of(
                    shop,
                    op,
                    thr,
                    s0,
                    self.iterations as nat,
                ).len(),
                forall|i: int|
                    0 <= i < improvements_of(shop, op, thr, s0, self.iterations as nat).len()
                        ==> #[trigger] self.process.history@[h0 + i].candidate.sequence@
                        == improvements_of(shop, op, thr, s0, self.iterations as nat)[i],
                self.process.history@.subrange(0, h0 as int) == pre.process.history@,
                improving_from(self.process.history@, h0 as int),
                forall|a: int|
                    h0 <= a < self.process.history@.len() ==> best.makespan
                        <= (#[trigger] self.process.history@[a]).candidate.makespan,
                forall|a: int|
                    h0 <= a < self.process.history@.len() ==> (#[trigger] self.process.history@[a]).candidate.makespan
                        < self.draws@[0],
                self.process.history@.len() > h0 ==> self.process.history@.last().candidate.makespan
                    == best.makespan && self.process.history@.last().candidate.sequence@
                    == best.sequence@,
                self.process.history@.len() == h0 ==> best.sequence@ == s0.current,
                pre.termination.spent ==> self.iterations == 0,
                pre.termination.budget matches Budget::Iterations(limit) ==> if pre.termination.counter
                    >= limit {
                    self.iterations == 0
                } else {
                    pre.termination.counter + self.iterations <= limit
                },
            ensures
                self.termination.counter == next_counter((pre.termination.counter + self.iterations) as usize),
                self.termination.spent,
                pre.termination.budget matches Budget::WallClockMs(limit) ==> !pre.termination.spent
                    ==> self.termination.counter == usize::MAX || self.termination.last_ms
                    - self.termination.started_ms >= limit,
                pre.termination.budget matches Budget::Iterations(limit) ==> !pre.termination.spent
                    ==> self.iterations == if pre.termination.counter >= limit {
                    0
                } else {
                    limit - pre.termination.counter
                },
            decreases usize::MAX - self.termination.counter,
        {
            if self.should_terminate() {
                break;
            }
            let ghost hist = self.process.history@;
            let ghost draws = self.draws@;
            let ghost best_before = best;
            let ghost it = self.iterations as nat;
            let ghost prev = iterate(shop, op, thr, s0, it);
            self.step(op, &mut current, &mut best);
            self.iterations = self.iterations + 1;
            proof {
                let n = self.iterations as nat;
                assert((n - 1) as nat == it);
                let h = self.process.history@;
                let imps = improvements_of(shop, op, thr, s0, it);
                if improves(shop, op, thr, prev) {
                    assert(h.drop_last() =~= hist);
                    assert forall|a: int| 0 <= a < hist.len() implies h[a] == hist[a] by {
                        assert(h.drop_last()[a] == h[a]);
                    }
                    assert(h.subrange(0, h0 as int) =~= pre.process.history@) by {
                        assert(hist.subrange(0, h0 as int) == pre.process.history@);
                    }
                    assert forall|a: int, b: int|
                        h0 <= a < b < h.len() implies (#[trigger] h[b]).candidate.makespan
                        < (#[trigger] h[a]).candidate.makespan by {
                        if b == h.len() - 1 {
                            assert(h[a] == hist[a]);
                            assert(best_before.makespan <= hist[a].candidate.makespan);
                        } else {
                            assert(h[a] == hist[a]);
                            assert(h[b] == hist[b]);
                        }
                    }
                    let imps2 = improvements_of(shop, op, thr, s0, n);
                    assert(imps2 == imps.push(best.sequence@));
                    assert forall|i: int| 0 <= i < imps2.len() implies #[trigger] h[h0 + i].candidate.sequence@
                        == imps2[i] by {
                        if i < imps.len() {
                            assert(h[h0 + i] == hist[h0 + i]);
                        }
                    }
                    assert(self.draws@[0] == draws[0]) by {
                        if self.draws@.len() > draws.len() {
                            assert(self.draws@ == draws.push(self.draws@.last()));
                        }
                    }
                    assert(best_before.makespan <= draws[0]);
                } else {
                    assert(improvements_of(shop, op, thr, s0, n) == imps);
                }
                let d2 = draws_of(shop, op, thr, s0, n);
                if resets(thr, prev) {
                    assert(d2 == draws_of(shop, op, thr, s0, it).push(makespan_of(shop, construct_of(shop, prev.rng).0)));
                    assert forall|i: int| 0 <= i < self.draws@.len() implies #[trigger] self.draws@[i] == d2[i] by {
                        if i < draws.len() {
                            assert(self.draws@[i] == draws[i]);
                        }
                    }
                    assert(self.draws@[0] == draws[0]);
                } else {
                    assert(d2 == draws_of(shop, op, thr, s0, it));
                }
            }
        }
        self.process.update(&best);
        proof {
            let h = self.process.history@;
            assert forall|a: int| 0 <= a < h0 implies #[trigger] same_entry(
                h[a],
                pre.process.history@[a],
            ) by {
                assert(h.subrange(0, h0 as int)[a] == h[a]);
            }
        }
        self.process.duplicate()
    }

    /// Selects the unary operator named by `unary_op` (without regard to case)
    /// and runs the search with it. An unknown name is a configuration error,
    /// returned before anything runs: the climber is then left unchanged.
    /// Persisting the returned process, under `UnaryOp::save_name`, is the
    /// caller's part.
    pub fn solve(&mut self, unary_op: &str) -> (r: Result<BlackBox, ConfigError>)
        requires
            old(self).wf(),
        ensures
            r is Ok <==> operator_for_key(lower_of(unary_op@)) is Ok,
            r matches Err(e) ==> e == ConfigError::UnsupportedOperator && *final(self) == *old(self),
            r matches Ok(b) ==> operator_for_key(lower_of(unary_op@)) matches Ok(op)
                && HillClimber::completed_run(*old(self), *final(self), op, b),
    {
        match UnaryOp::parse(unary_op) {
            Ok(op) => Ok(self.run(op)),
            Err(e) => Err(e),
        }
    }
}

} // verus!
