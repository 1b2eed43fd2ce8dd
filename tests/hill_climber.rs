use jssp_hc::candidate::Candidate;
use jssp_hc::hc::HillClimber;
use jssp_hc::instance::{Instance, Operation};
use jssp_hc::operator::{ConfigError, UnaryOp};
use jssp_hc::process::BlackBox;
use jssp_hc::rng::Rng;
use jssp_hc::schedule::makespan;
use jssp_hc::termination::{Budget, Termination};

fn op(machine: usize, duration: u32) -> Operation {
    Operation { machine, duration }
}

fn two_by_two(limit: usize) -> Instance {
    let jobs = vec![vec![op(0, 3), op(1, 2)], vec![op(1, 2), op(0, 4)]];
    Instance::new(2, jobs, None, limit, false).unwrap()
}

fn three_by_three() -> Instance {
    let jobs = vec![
        vec![op(0, 3), op(1, 2), op(2, 2)],
        vec![op(0, 2), op(2, 1), op(1, 4)],
        vec![op(1, 4), op(2, 3), op(0, 1)],
    ];
    Instance::new(3, jobs, Some(11), 0, false).unwrap()
}

fn sorted(v: &[usize]) -> Vec<usize> {
    let mut s = v.to_vec();
    s.sort();
    s
}

#[test]
fn end_to_end_two_jobs_two_machines() {
    let inst = two_by_two(50);
    let mut hc = HillClimber::new(&inst, 50, 10);
    let bb = hc.solve("1swap").unwrap();
    assert_eq!(hc.iterations, 50);
    assert_eq!(hc.termination.counter, 51);
    let best = bb.best.clone().unwrap();
    assert!(!hc.draws.is_empty());
    for d in &hc.draws {
        assert!(best.makespan <= *d);
    }
    assert!(best.makespan >= 7);
    assert_eq!(makespan(&bb.instance, &best.sequence), best.makespan);
    assert_eq!(sorted(&best.sequence), vec![0, 0, 1, 1]);
}

#[test]
fn makespan_of_fixed_sequences() {
    let inst = two_by_two(1);
    assert_eq!(makespan(&inst, &vec![1, 0, 1, 0]), 7);
    assert_eq!(makespan(&inst, &vec![0, 1, 0, 1]), 7);
    assert_eq!(makespan(&inst, &vec![0, 0, 1, 1]), 11);
    assert_eq!(makespan(&inst, &vec![1, 1, 0, 0]), 11);
    assert_eq!(makespan(&inst, &vec![]), 0);
}

#[test]
fn makespan_ignores_surplus_and_unknown_ids() {
    let inst = two_by_two(1);
    assert_eq!(makespan(&inst, &vec![0, 0, 0, 5]), 5);
}

#[test]
fn unknown_operator_is_rejected_before_running() {
    let inst = two_by_two(50);
    let mut hc = HillClimber::new(&inst, 50, 10);
    let r = hc.solve("bogus");
    assert_eq!(hc.iterations, 0);
    assert!(matches!(r, Err(ConfigError::UnsupportedOperator)));
    assert_eq!(hc.termination.counter, 0);
    assert!(hc.process.history.is_empty());
    assert!(hc.process.best.is_none());
    assert!(hc.draws.is_empty());
}

#[test]
fn operator_names_ignore_case() {
    assert_eq!(UnaryOp::parse("1SWAP"), Ok(UnaryOp::Swap1));
    assert_eq!(UnaryOp::parse("NSwap"), Ok(UnaryOp::SwapN));
    assert_eq!(UnaryOp::parse("nswap"), Ok(UnaryOp::SwapN));
    assert_eq!(UnaryOp::parse("2swap"), Err(ConfigError::UnsupportedOperator));
    assert_eq!(UnaryOp::parse(""), Err(ConfigError::UnsupportedOperator));
}

#[test]
fn lowered_keys_are_matched_exactly() {
    assert_eq!(UnaryOp::from_lowered("1swap"), Ok(UnaryOp::Swap1));
    assert_eq!(UnaryOp::from_lowered("nswap"), Ok(UnaryOp::SwapN));
    assert_eq!(UnaryOp::from_lowered("1SWAP"), Err(ConfigError::UnsupportedOperator));
    assert_eq!(UnaryOp::from_lowered("1swa"), Err(ConfigError::UnsupportedOperator));
}

#[test]
fn save_names_follow_the_operator() {
    assert_eq!(UnaryOp::Swap1.save_name(), "hillclimber_1swap_restarts");
    assert_eq!(UnaryOp::SwapN.save_name(), "hillclimber_nswap_restarts");
    assert_eq!(UnaryOp::Swap1.key(), "1swap");
    assert_eq!(UnaryOp::SwapN.key(), "nswap");
}

#[test]
fn stagnation_restarts_every_iteration_after_the_first() {
    let jobs = vec![vec![op(0, 2), op(1, 5)]];
    let inst = Instance::new(2, jobs, None, 10, false).unwrap();
    let mut hc = HillClimber::new(&inst, 10, 1);
    let bb = hc.solve("1swap").unwrap();
    assert_eq!(hc.iterations, 10);
    assert_eq!(hc.termination.counter, 11);
    assert_eq!(hc.draws.len(), 10);
    assert_eq!(hc.reset_counter, 1);
    assert!(bb.history.is_empty());
    assert_eq!(bb.best.unwrap().makespan, 7);
}

#[test]
fn iteration_budget_is_used_exactly() {
    let inst = three_by_three();
    for (limit, threshold, name) in [(37usize, 3usize, "nswap"), (1, 0, "1swap"), (0, 5, "nswap")] {
        let mut hc = HillClimber::new(&inst, limit, threshold);
        let bb = hc.solve(name).unwrap();
        assert_eq!(hc.iterations, limit);
        assert_eq!(hc.termination.counter, limit + 1);
        assert!(hc.termination.spent);
        assert!(bb.best.is_some());
    }
}

#[test]
fn history_improves_strictly_and_ends_at_best() {
    let inst = three_by_three();
    let mut hc = HillClimber::new(&inst, 300, 5);
    let bb = hc.solve("nswap").unwrap();
    let best = bb.best.clone().unwrap();
    for w in bb.history.windows(2) {
        assert!(w[1].candidate.makespan < w[0].candidate.makespan);
        assert!(w[1].iteration > w[0].iteration);
    }
    if let Some(last) = bb.history.last() {
        assert_eq!(last.candidate.makespan, best.makespan);
    }
    for d in &hc.draws {
        assert!(best.makespan <= *d);
    }
    assert!(best.makespan >= 11);
}

#[test]
fn second_run_keeps_earlier_history() {
    let inst = three_by_three();
    let mut hc = HillClimber::new(&inst, 40, 4);
    let first = hc.solve("1swap").unwrap();
    let n = first.history.len();
    let second = hc.solve("nswap").unwrap();
    assert_eq!(hc.iterations, 0);
    assert_eq!(hc.termination.counter, 42);
    assert!(second.history.len() >= n);
    for i in 0..n {
        assert_eq!(second.history[i].candidate.makespan, first.history[i].candidate.makespan);
    }
}

#[test]
fn timed_budget_of_zero_stops_at_once() {
    let jobs = vec![vec![op(0, 3), op(1, 2)], vec![op(1, 2), op(0, 4)]];
    let inst = Instance::new(2, jobs, None, 0, true).unwrap();
    let mut hc = HillClimber::new(&inst, 0, 10);
    assert_eq!(hc.termination.budget, Budget::WallClockMs(0));
    let bb = hc.solve("1swap").unwrap();
    assert_eq!(hc.iterations, 0);
    assert_eq!(hc.termination.counter, 1);
    assert!(hc.termination.last_ms - hc.termination.started_ms >= 0);
    assert!(hc.termination.started_ms > 0);
    assert!(bb.best.is_some());
}

#[test]
fn timed_budget_is_in_milliseconds() {
    let jobs = vec![vec![op(0, 1)]];
    let inst = Instance::new(1, jobs, None, 15, true).unwrap();
    let hc = HillClimber::new(&inst, 15, 3);
    assert_eq!(hc.termination.budget, Budget::WallClockMs(15_000));
    let big = HillClimber::new(&inst, usize::MAX, 3);
    assert_eq!(big.termination.budget, Budget::WallClockMs(u64::MAX));
}

#[test]
fn swap_moves_keep_the_encoding_valid() {
    let inst = three_by_three();
    let mut bb = BlackBox::new(&inst);
    let parent = bb.construct();
    assert_eq!(sorted(&parent.sequence), vec![0, 0, 0, 1, 1, 1, 2, 2, 2]);
    for _ in 0..50 {
        let one = bb.swap_one(&parent);
        assert_eq!(sorted(&one.sequence), sorted(&parent.sequence));
        let differing = one.sequence.iter().zip(parent.sequence.iter()).filter(|(a, b)| a != b).count();
        assert!(differing == 0 || differing == 2);
        assert_eq!(makespan(&inst, &one.sequence), one.makespan);
        let many = bb.swap_n(&parent);
        assert_eq!(sorted(&many.sequence), sorted(&parent.sequence));
        assert_eq!(makespan(&inst, &many.sequence), many.makespan);
    }
}

#[test]
fn one_swap_exchanges_neighbours_at_the_drawn_position() {
    let inst = two_by_two(1);
    let mut bb = BlackBox::new(&inst);
    bb.seed(42);
    let parent = Candidate::evaluate(&inst, vec![0, 0, 1, 1]);
    let mut probe = Rng::new(42);
    let i = probe.below(3);
    let child = bb.swap_one(&parent);
    let mut expected = vec![0, 0, 1, 1];
    expected.swap(i, i + 1);
    assert_eq!(child.sequence, expected);
    assert_eq!(child.makespan, makespan(&inst, &expected));
}

#[test]
fn short_sequences_are_copied_by_one_swap() {
    let jobs = vec![vec![op(0, 4)]];
    let inst = Instance::new(1, jobs, None, 1, false).unwrap();
    let mut bb = BlackBox::new(&inst);
    let parent = bb.construct();
    assert_eq!(parent.sequence, vec![0]);
    assert_eq!(parent.makespan, 4);
    let child = bb.swap_one(&parent);
    assert_eq!(child.sequence, vec![0]);
}

#[test]
fn equal_makespans_are_incomparable() {
    let inst = two_by_two(1);
    let a = Candidate::evaluate(&inst, vec![1, 0, 1, 0]);
    let b = Candidate::evaluate(&inst, vec![0, 1, 0, 1]);
    let c = Candidate::evaluate(&inst, vec![0, 0, 1, 1]);
    assert_eq!(a.makespan, b.makespan);
    assert!(!a.is_better_than(&b));
    assert!(!b.is_better_than(&a));
    assert!(a.is_better_than(&c));
    assert!(!c.is_better_than(&a));
    assert!(!a.is_better_than(&a));
}

#[test]
fn instance_rejects_unknown_machines() {
    let bad = vec![vec![op(0, 3), op(2, 1)]];
    assert!(Instance::new(2, bad, None, 1, false).is_none());
    let good = vec![vec![op(0, 3), op(1, 1)], vec![]];
    let inst = Instance::new(2, good, Some(4), 9, false).unwrap();
    assert_eq!(inst.n_jobs, 2);
    assert_eq!(inst.lower_bound, Some(4));
    assert_eq!(inst.termination_limit, 9);
}

#[test]
fn empty_instance_has_zero_makespan() {
    let inst = Instance::new(0, vec![], None, 5, false).unwrap();
    let mut hc = HillClimber::new(&inst, 5, 2);
    let bb = hc.solve("nswap").unwrap();
    assert_eq!(bb.best.unwrap().makespan, 0);
    assert_eq!(hc.iterations, 5);
}

#[test]
fn generator_is_reproducible() {
    let mut a = Rng::new(7);
    let mut b = Rng::new(7);
    for _ in 0..20 {
        assert_eq!(a.next_u64(), b.next_u64());
    }
    let mut z = Rng::new(0);
    assert_eq!(z.state, jssp_hc::rng::DEFAULT_SEED);
    let mut one = Rng::new(1);
    assert_eq!(one.next_u64(), 1 ^ (1 << 12) ^ ((1 ^ (1 << 12)) << 27));
    for n in 1..30usize {
        assert!(z.below(n) < n);
    }
}

#[test]
fn same_seed_gives_same_search() {
    let inst = three_by_three();
    let mut a = HillClimber::new(&inst, 60, 4);
    let mut b = HillClimber::new(&inst, 60, 4);
    let ra = a.solve("nswap").unwrap();
    let rb = b.solve("NSWAP").unwrap();
    assert_eq!(ra.best.unwrap().sequence, rb.best.unwrap().sequence);
    assert_eq!(a.draws, b.draws);
}

#[test]
fn termination_counts_only_iterations_that_run() {
    let mut t = Termination::new(Budget::Iterations(2));
    assert!(!t.evaluate(0));
    assert!(!t.evaluate(0));
    assert!(t.evaluate(0));
    assert!(t.evaluate(0));
    assert_eq!(t.counter, 4);
    let mut w = Termination::new(Budget::WallClockMs(100));
    w.start(1_000);
    assert!(!w.evaluate(1_050));
    assert!(w.evaluate(1_100));
    assert_eq!(w.last_ms, 1_100);
    assert!(w.evaluate(1_000));
    assert_eq!(w.last_ms, 1_000);
    assert_eq!(w.counter, 3);
    assert!(w.spent);
}

#[test]
fn duplicated_instance_matches() {
    let inst = three_by_three();
    let copy = inst.duplicate();
    assert_eq!(copy.jobs, inst.jobs);
    assert_eq!(copy.lower_bound, Some(11));
}

#[test]
fn run_follows_the_chosen_operator() {
    let inst = three_by_three();
    let mut a = HillClimber::new(&inst, 30, 3);
    let mut b = HillClimber::new(&inst, 30, 3);
    let ra = a.solve("1SWAP").unwrap();
    let rb = b.run(UnaryOp::Swap1);
    assert_eq!(ra.rng.state, a.process.rng.state);
    assert_eq!(ra.instance.lower_bound, Some(11));
    assert_eq!(ra.best.unwrap().sequence, rb.best.unwrap().sequence);
    assert_eq!(a.draws, b.draws);
    assert_eq!(a.process.rng.state, b.process.rng.state);
}

#[test]
fn new_process_starts_from_the_fixed_seed() {
    let inst = three_by_three();
    let hc = HillClimber::new(&inst, 30, 3);
    assert_eq!(hc.process.rng.state, jssp_hc::process::PROCESS_SEED);
    assert_eq!(hc.process.instance.lower_bound, Some(11));
}

#[test]
fn restart_draw_becomes_the_parent() {
    let inst = three_by_three();
    let mut hc = HillClimber::new(&inst, 30, 0);
    let mut probe = BlackBox::new(&inst);
    let mut current = hc.process.construct();
    let _ = probe.construct();
    let mut best = current.clone();
    hc.step(UnaryOp::Swap1, &mut current, &mut best);
    assert_eq!(hc.draws.len(), 1);
    let drawn = probe.construct();
    assert_eq!(hc.draws[0], drawn.makespan);
    let moved = probe.swap_one(&drawn);
    let expected = if moved.makespan < drawn.makespan { moved } else { drawn };
    assert_eq!(current.sequence, expected.sequence);
    assert_eq!(hc.process.rng.state, probe.rng.state);
}
