use pipeline::run::{run_pipeline, ExecContext};

fn sorted(v: &[u16]) -> Vec<u16> {
    let mut s = v.to_vec();
    s.sort();
    s
}

#[test]
fn two_workers_stop_at_three() {
    let rep = run_pipeline(2, 3).unwrap();
    assert_eq!(rep.dispatched, vec![2, 3]);
    assert_eq!(sorted(&rep.merged), vec![4, 9]);
    assert_eq!(rep.terminated.len(), 5);
    assert_eq!(
        rep.terminated,
        vec![
            ExecContext::Generator,
            ExecContext::Worker(0),
            ExecContext::Worker(1),
            ExecContext::Merge,
            ExecContext::Orchestrator,
        ]
    );
}

#[test]
fn no_workers_is_refused() {
    assert!(run_pipeline(0, 3).is_none());
}

#[test]
fn every_dispatched_value_is_merged_once() {
    let rep = run_pipeline(3, 10).unwrap();
    assert_eq!(rep.dispatched, (2u8..=10).collect::<Vec<u8>>());
    let mut processed = rep.processed.clone();
    processed.sort();
    assert_eq!(processed, rep.dispatched);
    let expected: Vec<u16> = (2u16..=10).map(|v| v * v).collect();
    assert_eq!(sorted(&rep.merged), expected);
    for (p, m) in rep.processed.iter().zip(rep.merged.iter()) {
        assert_eq!(*m, (*p as u16) * (*p as u16));
    }
}

#[test]
fn stop_at_seed_dispatches_one_value() {
    let rep = run_pipeline(4, 2).unwrap();
    assert_eq!(rep.dispatched, vec![2]);
    assert_eq!(rep.merged, vec![4]);
    assert_eq!(rep.terminated.len(), 7);
}

#[test]
fn unreachable_stop_runs_whole_range() {
    let rep = run_pipeline(2, 1).unwrap();
    assert_eq!(rep.dispatched.len(), 254);
    assert_eq!(*rep.dispatched.last().unwrap(), 255);
    assert!(rep.merged.contains(&65025));
    assert_eq!(rep.merged.len(), 254);
}

#[test]
fn merge_ends_after_every_worker() {
    let rep = run_pipeline(5, 20).unwrap();
    let merge_at = rep
        .terminated
        .iter()
        .position(|c| *c == ExecContext::Merge)
        .unwrap();
    for (i, c) in rep.terminated.iter().enumerate() {
        if let ExecContext::Worker(_) = c {
            assert!(i < merge_at);
        }
    }
    assert_eq!(rep.terminated.len(), 5 + 3);
}

#[test]
fn run_shares_work_round_robin() {
    let workers = 3;
    let rep = run_pipeline(workers, 9).unwrap();
    let len = rep.dispatched.len();
    assert_eq!(len, 8);
    assert_eq!(rep.assigned, vec![0, 1, 2, 0, 1, 2, 0, 1]);
    for w in 0..workers {
        let got = rep.assigned.iter().filter(|a| **a == w).count();
        assert!(got == len / workers || got == len / workers + 1);
    }
}
