use vstd::prelude::*;
use crate::instance::{Instance, JobShop, Operation, MAX_OPERATIONS};

verus! {

/// Largest duration of a single operation.
pub const MAX_DURATION: u64 = 0xFFFF_FFFF;

/// Ready times and progress after decoding a prefix of an operation sequence.
pub struct DecodeState {
    pub job_ready: Seq<int>,
    pub machine_ready: Seq<int>,
    pub next_op: Seq<int>,
    pub makespan: int,
}

pub open spec fn max_int(a: int, b: int) -> int {
    if a >= b { a } else { b }
}

/// Nothing scheduled yet.
pub open spec fn initial_state(shop: JobShop) -> DecodeState {
    DecodeState {
        job_ready: Seq::new(shop.n_jobs, |i: int| 0int),
        machine_ready: Seq::new(shop.n_machines, |i: int| 0int),
        next_op: Seq::new(shop.n_jobs, |i: int| 0int),
        makespan: 0,
    }
}

/// Schedules the next unscheduled operation of job `j` as early as its job
/// and its machine allow; an id that names no job, or a job with no
/// operation left, changes nothing.
pub open spec fn schedule_step(shop: JobShop, st: DecodeState, j: int) -> DecodeState {
    if 0 <= j < shop.n_jobs && st.next_op[j] < shop.ops[j].len() {
        let op: Operation = shop.ops[j][st.next_op[j]];
        let start = max_int(st.job_ready[j], st.machine_ready[op.machine as int]);
        let end = start + op.duration;
        DecodeState {
            job_ready: st.job_ready.update(j, end),
            machine_ready: st.machine_ready.update(op.machine as int, end),
            next_op: st.next_op.update(j, st.next_op[j] + 1),
            makespan: max_int(st.makespan, end),
        }
    } else {
        st
    }
}

/// The semi-active schedule that an operation sequence stands for.
pub open spec fn decode(shop: JobShop, seq: Seq<usize>) -> DecodeState
    decreases seq.len(),
{
    if seq.len() == 0 {
        initial_state(shop)
    } else {
        schedule_step(shop, decode(shop, seq.drop_last()), seq.last() as int)
    }
}

/// Completion time of the last operation of the schedule that `seq` encodes.
pub open spec fn makespan_of(shop: JobShop, seq: Seq<usize>) -> int {
    decode(shop, seq).makespan
}

/// `seq` lists every operation of the instance exactly once: job `j` appears
/// as many times as it has operations, and no other id appears.
pub open spec fn is_valid_encoding(shop: JobShop, seq: Seq<usize>) -> bool {
    &&& forall|i: int| 0 <= i < seq.len() ==> (#[trigger] seq[i]) < shop.n_jobs
    &&& forall|j: usize| j < shop.n_jobs ==> #[trigger] seq.to_multiset().count(j)
        == shop.ops[j as int].len()
}

/// `b` is `a` with the entries at `i` and `k` exchanged.
pub open spec fn swapped(a: Seq<usize>, i: int, k: int) -> Seq<usize> {
    a.update(i, a[k]).update(k, a[i])
}

/// Exchanging two entries keeps the multiset of entries.
pub proof fn lemma_swap_multiset(a: Seq<usize>, i: int, k: int)
    requires
        0 <= i < a.len(),
        0 <= k < a.len(),
    ensures
        swapped(a, i, k).to_multiset() == a.to_multiset(),
        swapped(a, i, k).len() == a.len(),
{
    broadcast use vstd::seq_lib::group_to_multiset_ensures;
    broadcast use vstd::multiset::group_multiset_axioms;
    let b = a.update(i, a[k]);
    assert(b[k] == if i == k { a[k] } else { a[k] });
    assert(b.to_multiset() == a.to_multiset().insert(a[k]).remove(a[i]));
    assert(swapped(a, i, k).to_multiset() == b.to_multiset().insert(a[i]).remove(b[k]));
    assert(swapped(a, i, k).to_multiset() =~= a.to_multiset());
}

/// Exchanging two entries of a valid encoding gives a valid encoding.
pub proof fn lemma_swap_valid(shop: JobShop, a: Seq<usize>, i: int, k: int)
    requires
        0 <= i < a.len(),
        0 <= k < a.len(),
        is_valid_encoding(shop, a),
    ensures
        is_valid_encoding(shop, swapped(a, i, k)),
{
    lemma_swap_multiset(a, i, k);
    let b = swapped(a, i, k);
    assert forall|x: int| 0 <= x < b.len() implies (#[trigger] b[x]) < shop.n_jobs by {
        if x == k {
        } else if x == i {
        } else {
            assert(b[x] == a[x]);
        }
    }
}

pub open spec fn min_int(a: int, b: int) -> int {
    if a <= b { a } else { b }
}

/// Decoding advances each job by one operation per occurrence of its id, until
/// the job has no operation left.
pub proof fn lemma_decode_progress(shop: JobShop, seq: Seq<usize>)
    requires
        shop.ops.len() == shop.n_jobs,
    ensures
        decode(shop, seq).next_op.len() == shop.n_jobs,
        forall|j: usize|
            j < shop.n_jobs ==> #[trigger] decode(shop, seq).next_op[j as int] == min_int(
                seq.to_multiset().count(j) as int,
                shop.ops[j as int].len() as int,
            ),
    decreases seq.len(),
{
    broadcast use vstd::seq_lib::group_to_multiset_ensures;
    broadcast use vstd::multiset::group_multiset_axioms;
    if seq.len() == 0 {
        assert forall|j: usize| j < shop.n_jobs implies #[trigger] decode(shop, seq).next_op[j as int]
            == min_int(seq.to_multiset().count(j) as int, shop.ops[j as int].len() as int) by {
            assert(!seq.contains(j));
        }
    } else {
        let prefix = seq.drop_last();
        lemma_decode_progress(shop, prefix);
        assert(seq == prefix.push(seq.last()));
        assert(seq.to_multiset() == prefix.to_multiset().insert(seq.last()));
    }
}

/// Decoding a valid encoding schedules every operation of every job: each
/// job's progress reaches its number of operations.
pub proof fn lemma_valid_encoding_schedules_all(shop: JobShop, seq: Seq<usize>)
    requires
        shop.ops.len() == shop.n_jobs,
        is_valid_encoding(shop, seq),
    ensures
        forall|j: usize|
            j < shop.n_jobs ==> #[trigger] decode(shop, seq).next_op[j as int] == shop.ops[j as int].len(),
{
    lemma_decode_progress(shop, seq);
}

/// Decodes `seq` and returns the makespan of the schedule it encodes.
pub fn makespan(inst: &Instance, seq: &Vec<usize>) -> (r: u64)
    requires
        inst.wf(),
        seq@.len() <= MAX_OPERATIONS,
    ensures
        r == makespan_of(inst@, seq@),
{
    let n_jobs = inst.n_jobs;
    let n_machines = inst.n_machines;
    let mut job_ready: Vec<u64> = Vec::new();
    let mut next_op: Vec<usize> = Vec::new();
    let mut a: usize = 0;
    while a < n_jobs
        invariant
            a <= n_jobs,
            job_ready@.len() == a,
            next_op@.len() == a,
            forall|x: int| 0 <= x < a ==> job_ready@[x] == 0 && next_op@[x] == 0,
        decreases n_jobs - a,
    {
        job_ready.push(0);
        next_op.push(0);
        a += 1;
    }
    let mut machine_ready: Vec<u64> = Vec::new();
    let mut b: usize = 0;
    while b < n_machines
        invariant
            b <= n_machines,
            machine_ready@.len() == b,
            forall|x: int| 0 <= x < b ==> machine_ready@[x] == 0,
        decreases n_machines - b,
    {
        machine_ready.push(0);
        b += 1;
    }
    let mut span: u64 = 0;
    let mut i: usize = 0;
    proof {
        assert(seq@.subrange(0, 0) == Seq::<usize>::empty());
    }
    while i < seq.len()
        invariant
            inst.wf(),
            n_jobs == inst.n_jobs,
            n_machines == inst.n_machines,
            seq@.len() <= MAX_OPERATIONS,
            i <= seq@.len(),
            job_ready@.len() == n_jobs,
            next_op@.len() == n_jobs,
            machine_ready@.len() == n_machines,
            ({
                let st = decode(inst@, seq@.subrange(0, i as int));
                &&& st.job_ready.len() == n_jobs
                &&& st.next_op.len() == n_jobs
                &&& st.machine_ready.len() == n_machines
                &&& forall|x: int| 0 <= x < n_jobs ==> st.job_ready[x] == job_ready@[x]
                &&& forall|x: int| 0 <= x < n_jobs ==> st.next_op[x] == next_op@[x]
                &&& forall|x: int| 0 <= x < n_machines ==> st.machine_ready[x] == machine_ready@[x]
                &&& st.makespan == span
            }),
            span <= i * MAX_DURATION,
            forall|x: int| 0 <= x < n_jobs ==> job_ready@[x] <= i * MAX_DURATION,
            forall|x: int| 0 <= x < n_machines ==> machine_ready@[x] <= i * MAX_DURATION,
        decreases seq@.len() - i,
    {
        let j = seq[i];
        proof {
            assert(seq@.subrange(0, i + 1).drop_last() == seq@.subrange(0, i as int));
            assert(seq@.subrange(0, i + 1).last() == j);
            assert(i * MAX_DURATION + MAX_DURATION <= u64::MAX) by (nonlinear_arith)
                requires i < MAX_OPERATIONS, MAX_DURATION == 0xFFFF_FFFFu64, MAX_OPERATIONS == 0xFFFF_FFFFusize;
            assert((i + 1) * MAX_DURATION == i * MAX_DURATION + MAX_DURATION) by (nonlinear_arith);
        }
        if j < n_jobs && next_op[j] < inst.jobs[j].len() {
            let op = inst.jobs[j][next_op[j]];
            proof {
                assert(inst@.ops[j as int] == inst.jobs@[j as int]@);
                assert(op.machine < n_machines);
            }
            let m = op.machine;
            let start = if job_ready[j] >= machine_ready[m] { job_ready[j] } else { machine_ready[m] };
            let end = start + op.duration as u64;
            job_ready.set(j, end);
            machine_ready.set(m, end);
            let k = next_op[j] + 1;
            next_op.set(j, k);
            if end > span {
                span = end;
            }
        }
        i += 1;
    }
    proof {
        assert(seq@.subrange(0, seq@.len() as int) == seq@);
    }
    span
}

} // verus!
