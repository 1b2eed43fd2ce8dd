use vstd::prelude::*;

verus! {

/// The budget a run may spend.
#[derive(Clone, Copy, Debug, PartialEq, Eq, Structural)]
pub enum Budget {
    /// A fixed number of iterations.
    Iterations(usize),
    /// A wall-clock duration in milliseconds.
    WallClockMs(u64),
}

/// A stateful termination predicate. Every evaluation counts once; once it
/// has found the budget spent it stays spent.
#[derive(Clone, Copy, Debug, PartialEq, Eq, Structural)]
pub struct Termination {
    pub budget: Budget,
    pub counter: usize,
    pub started_ms: i64,
    /// The clock reading of the latest evaluation (0 before any, and for an
    /// iteration budget, which reads no clock).
    pub last_ms: i64,
    pub spent: bool,
}

/// The counter after one more evaluation; it stops at `usize::MAX`.
pub open spec fn next_counter(c: usize) -> usize {
    if c < usize::MAX {
        (c + 1) as usize
    } else {
        c
    }
}

impl Termination {
    /// Whether an evaluation at clock reading `now_ms` finds the budget spent:
    /// it was spent before, the counter cannot grow, the count of evaluations
    /// including this one exceeds an iteration limit, or the wall-clock limit
    /// has elapsed since the start.
    pub open spec fn exhausted_at(&self, now_ms: i64) -> bool {
        ||| self.spent
        ||| self.counter == usize::MAX
        ||| match self.budget {
            Budget::Iterations(limit) => self.counter + 1 > limit,
            Budget::WallClockMs(limit) => now_ms - self.started_ms >= limit,
        }
    }

    pub fn new(budget: Budget) -> (r: Termination)
        ensures
            r == (Termination { budget, counter: 0, started_ms: 0, last_ms: 0, spent: false }),
    {
        Termination { budget, counter: 0, started_ms: 0, last_ms: 0, spent: false }
    }

    /// Marks the start of the run for a wall-clock budget.
    pub fn start(&mut self, now_ms: i64)
        ensures
            *final(self) == (Termination { started_ms: now_ms, ..*old(self) }),
    {
        self.started_ms = now_ms;
    }

    /// One evaluation: counts itself, then reports whether the budget is spent.
    /// With an iteration limit `L` and a fresh predicate, exactly the first `L`
    /// evaluations return false.
    pub fn evaluate(&mut self, now_ms: i64) -> (r: bool)
        ensures
            r == old(self).exhausted_at(now_ms),
            old(self).spent ==> r,
            *final(self) == (Termination {
                counter: next_counter(old(self).counter),
                last_ms: now_ms,
                spent: r,
                ..*old(self)
            }),
    {
        let at_max = self.counter == usize::MAX;
        let over = match self.budget {
            Budget::Iterations(limit) => !at_max && self.counter + 1 > limit,
            Budget::WallClockMs(limit) => {
                (now_ms as i128) - (self.started_ms as i128) >= (limit as i128)
            },
        };
        let r = self.spent || at_max || over;
        if !at_max {
            self.counter = self.counter + 1;
        }
        self.spent = r;
        self.last_ms = now_ms;
        r
    }
}

/// With an iteration limit, an evaluation after `counter` earlier ones that
/// all let the run go on finds the budget spent exactly when this evaluation
/// is past the limit: the first `limit` evaluations return false, the next true.
pub proof fn lemma_iteration_budget(t: Termination, limit: usize, now_ms: i64)
    requires
        t.budget == Budget::Iterations(limit),
        !t.spent,
        t.counter < usize::MAX,
    ensures
        t.exhausted_at(now_ms) <==> t.counter + 1 > limit,
{
}

} // verus!
