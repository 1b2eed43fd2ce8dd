use vstd::prelude::*;

verus! {

/// The largest number of operations an instance may hold, so that every
/// completion time of a decoded schedule fits in a `u64`.
pub const MAX_OPERATIONS: usize = 0xFFFF_FFFF;

/// One step of a job: the machine it runs on and how long it takes there.
#[derive(Clone, Copy, Debug, PartialEq, Eq, Structural)]
pub struct Operation {
    pub machine: usize,
    pub duration: u32,
}

/// An immutable job-shop problem: each job is a fixed sequence of operations.
#[derive(Clone, Debug)]
pub struct Instance {
    pub n_jobs: usize,
    pub n_machines: usize,
    pub jobs: Vec<Vec<Operation>>,
    pub lower_bound: Option<u64>,
    pub termination_limit: usize,
    pub is_timed: bool,
}

/// What an instance is mathematically: job and machine counts and, for each
/// job, its operations in order.
pub struct JobShop {
    pub n_jobs: nat,
    pub n_machines: nat,
    pub ops: Seq<Seq<Operation>>,
}

impl View for Instance {
    type V = JobShop;

    open spec fn view(&self) -> JobShop {
        JobShop {
            n_jobs: self.n_jobs as nat,
            n_machines: self.n_machines as nat,
            ops: self.jobs@.map_values(|v: Vec<Operation>| v@),
        }
    }
}

/// Total number of operations over all jobs.
pub open spec fn ops_count(jobs: Seq<Vec<Operation>>) -> nat
    decreases jobs.len(),
{
    if jobs.len() == 0 {
        0
    } else {
        ops_count(jobs.drop_last()) + jobs.last()@.len()
    }
}

/// Every operation runs on a machine of the instance.
pub open spec fn machines_valid(jobs: Seq<Vec<Operation>>, n_machines: nat) -> bool {
    forall|j: int, k: int|
        0 <= j < jobs.len() && 0 <= k < jobs[j]@.len() ==> (#[trigger] jobs[j]@[k]).machine
            < n_machines
}

impl Instance {
    pub open spec fn wf(&self) -> bool {
        &&& self.jobs@.len() == self.n_jobs
        &&& machines_valid(self.jobs@, self.n_machines as nat)
        &&& ops_count(self.jobs@) <= MAX_OPERATIONS
    }

    /// Builds an instance from its jobs; `None` when an operation names a machine
    /// outside `0..n_machines` or when there are more than `MAX_OPERATIONS` operations.
    pub fn new(
        n_machines: usize,
        jobs: Vec<Vec<Operation>>,
        lower_bound: Option<u64>,
        termination_limit: usize,
        is_timed: bool,
    ) -> (r: Option<Instance>)
        ensures
            r is Some <==> (machines_valid(jobs@, n_machines as nat) && ops_count(jobs@)
                <= MAX_OPERATIONS),
            r matches Some(inst) ==> {
                &&& inst.wf()
                &&& inst.n_jobs == jobs@.len()
                &&& inst.n_machines == n_machines
                &&& inst@.ops == jobs@.map_values(|v: Vec<Operation>| v@)
                &&& inst.lower_bound == lower_bound
                &&& inst.termination_limit == termination_limit
                &&& inst.is_timed == is_timed
            },
    {
        let mut total: usize = 0;
        let mut j: usize = 0;
        while j < jobs.len()
            invariant
                j <= jobs@.len(),
                total == ops_count(jobs@.subrange(0, j as int)),
                total <= MAX_OPERATIONS,
                forall|a: int, k: int|
                    0 <= a < j && 0 <= k < jobs@[a]@.len() ==> (#[trigger] jobs@[a]@[k]).machine
                        < n_machines,
            decreases jobs@.len() - j,
        {
            let ops = &jobs[j];
            let mut k: usize = 0;
            while k < ops.len()
                invariant
                    j < jobs@.len(),
                    ops@ == jobs@[j as int]@,
                    k <= ops@.len(),
                    forall|a: int, b: int|
                        0 <= a < j && 0 <= b < jobs@[a]@.len() ==> (#[trigger] jobs@[a]@[b]).machine
                            < n_machines,
                    forall|b: int| 0 <= b < k ==> (#[trigger] jobs@[j as int]@[b]).machine < n_machines,
                decreases ops@.len() - k,
            {
                if ops[k].machine >= n_machines {
                    proof {
                        assert(jobs@[j as int]@[k as int].machine >= n_machines);
                    }
                    return None;
                }
                k += 1;
            }
            proof {
                assert(jobs@.subrange(0, j + 1).drop_last() == jobs@.subrange(0, j as int));
            }
            if ops.len() > MAX_OPERATIONS - total {
                proof {
                    lemma_ops_count_prefix_mono(jobs@, j + 1, jobs@.len() as int);
                    assert(jobs@.subrange(0, jobs@.len() as int) == jobs@);
                }
                return None;
            }
            total = total + ops.len();
            j += 1;
        }
        proof {
            assert(jobs@.subrange(0, jobs@.len() as int) == jobs@);
        }
        let n_jobs = jobs.len();
        Some(Instance { n_jobs, n_machines, jobs, lower_bound, termination_limit, is_timed })
    }
}

impl Instance {
    /// A copy with the same view and settings.
    pub fn duplicate(&self) -> (r: Instance)
        requires
            self.wf(),
        ensures
            r.wf(),
            r@ == self@,
            r.lower_bound == self.lower_bound,
            r.termination_limit == self.termination_limit,
            r.is_timed == self.is_timed,
    {
        let mut jobs: Vec<Vec<Operation>> = Vec::new();
        let mut j: usize = 0;
        while j < self.jobs.len()
            invariant
                j <= self.jobs@.len(),
                jobs@.len() == j,
                forall|a: int| 0 <= a < j ==> (#[trigger] jobs@[a])@ == self.jobs@[a]@,
            decreases self.jobs@.len() - j,
        {
            let src = &self.jobs[j];
            let mut ops: Vec<Operation> = Vec::new();
            let mut k: usize = 0;
            while k < src.len()
                invariant
                    k <= src@.len(),
                    ops@ == src@.subrange(0, k as int),
                decreases src@.len() - k,
            {
                ops.push(src[k]);
                k += 1;
                proof {
                    assert(ops@ =~= src@.subrange(0, k as int));
                }
            }
            proof {
                assert(ops@ =~= src@);
            }
            jobs.push(ops);
            j += 1;
        }
        proof {
            assert(jobs@.map_values(|v: Vec<Operation>| v@) =~= self.jobs@.map_values(
                |v: Vec<Operation>| v@,
            ));
            lemma_ops_count_views(jobs@, self.jobs@);
        }
        Instance {
            n_jobs: self.n_jobs,
            n_machines: self.n_machines,
            jobs,
            lower_bound: self.lower_bound,
            termination_limit: self.termination_limit,
            is_timed: self.is_timed,
        }
    }
}

/// Job lists whose operation sequences agree have the same operation count.
pub proof fn lemma_ops_count_views(a: Seq<Vec<Operation>>, b: Seq<Vec<Operation>>)
    requires
        a.len() == b.len(),
        forall|i: int| 0 <= i < a.len() ==> (#[trigger] a[i])@ == b[i]@,
    ensures
        ops_count(a) == ops_count(b),
    decreases a.len(),
{
    if a.len() > 0 {
        lemma_ops_count_views(a.drop_last(), b.drop_last());
    }
}

/// The operation count of a prefix of the jobs never exceeds that of a longer prefix.
pub proof fn lemma_ops_count_prefix_mono(jobs: Seq<Vec<Operation>>, a: int, b: int)
    requires
        0 <= a <= b <= jobs.len(),
    ensures
        ops_count(jobs.subrange(0, a)) <= ops_count(jobs.subrange(0, b)),
    decreases b - a,
{
    if a < b {
        lemma_ops_count_prefix_mono(jobs, a, b - 1);
        assert(jobs.subrange(0, b).drop_last() == jobs.subrange(0, b - 1));
    }
}

} // verus!
