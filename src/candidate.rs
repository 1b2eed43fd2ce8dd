use vstd::prelude::*;
use crate::instance::{Instance, JobShop, MAX_OPERATIONS};
use crate::schedule::{makespan, makespan_of};

verus! {

/// A schedule, encoded as an operation sequence, with its makespan.
#[derive(Clone, Debug)]
pub struct Candidate {
    pub sequence: Vec<usize>,
    pub makespan: u64,
}

/// `a` is strictly better than `b`: it finishes earlier.
pub open spec fn better(a: Candidate, b: Candidate) -> bool {
    a.makespan < b.makespan
}

impl Candidate {
    /// The stored makespan is the one the encoded schedule has.
    pub open spec fn wf(&self, shop: JobShop) -> bool {
        &&& self.sequence@.len() <= MAX_OPERATIONS
        &&& self.makespan == makespan_of(shop, self.sequence@)
    }

    /// Decodes `sequence` and pairs it with its makespan.
    pub fn evaluate(inst: &Instance, sequence: Vec<usize>) -> (r: Candidate)
        requires
            inst.wf(),
            sequence@.len() <= MAX_OPERATIONS,
        ensures
            r.wf(inst@),
            r.sequence@ == sequence@,
    {
        let m = makespan(inst, &sequence);
        Candidate { sequence, makespan: m }
    }

    /// An equal copy.
    pub fn duplicate(&self) -> (r: Candidate)
        ensures
            r.sequence@ == self.sequence@,
            r.makespan == self.makespan,
    {
        let sequence = self.sequence.clone();
        proof {
            assert(sequence@ =~= self.sequence@);
        }
        Candidate { sequence, makespan: self.makespan }
    }

    /// Whether `self` finishes strictly earlier than `other`.
    pub fn is_better_than(&self, other: &Candidate) -> (r: bool)
        ensures
            r == better(*self, *other),
    {
        self.makespan < other.makespan
    }
}

/// Candidates are ordered by makespan alone, as a strict weak ordering:
/// "better" is irreflexive, asymmetric and transitive, two candidates with equal
/// makespans are incomparable, and incomparability is transitive.
pub proof fn lemma_better_is_strict_weak_order(a: Candidate, b: Candidate, c: Candidate)
    ensures
        !better(a, a),
        better(a, b) ==> !better(b, a),
        better(a, b) && better(b, c) ==> better(a, c),
        a.makespan == b.makespan ==> !better(a, b) && !better(b, a),
        (!better(a, b) && !better(b, a)) && (!better(b, c) && !better(c, b)) ==> (!better(a, c)
            && !better(c, a)),
{
}

} // verus!
