use mc_probe::scheduler::{ProbeOutcome, Progress, Row, ScheduleError, Scheduler};
use mc_probe::summary::{Elapsed, RunSummary};
use mc_probe::target::{load_targets, Target};

fn target(host: &str, port: u16) -> Target {
    Target { host: host.to_string(), port }
}

fn targets(n: usize) -> Vec<Target> {
    (0..n).map(|i| target(&format!("192.0.2.{}", i), 25565)).collect()
}

fn failure() -> ProbeOutcome<String> {
    ProbeOutcome::Failure("refused".to_string())
}

/// Runs every target to completion, finishing the in-flight probes in the
/// order `pick` chooses, with `ok` as the stub verdict. Returns the run, the
/// rows in the order they came, and the most probes ever in flight at once.
fn run(
    list: Vec<Target>,
    ceiling: usize,
    ok: &dyn Fn(&Target) -> bool,
    pick: &dyn Fn(&[usize]) -> usize,
) -> (Scheduler, Vec<Row<String>>, usize) {
    let mut s = Scheduler::new(list, ceiling);
    let mut running: Vec<usize> = Vec::new();
    let mut rows = Vec::new();
    let mut peak = 0;
    while !s.is_finished() {
        while let Some(i) = s.start_next() {
            running.push(i);
        }
        peak = peak.max(running.len());
        let k = pick(&running);
        let i = running.remove(k);
        let t = s.target(i).clone();
        let outcome = if ok(&t) {
            ProbeOutcome::Success(format!("status of {}", t.host))
        } else {
            failure()
        };
        if let Some(row) = s.complete(i, outcome).unwrap() {
            rows.push(row);
        }
    }
    (s, rows, peak)
}

fn row_keys(rows: &[Row<String>]) -> Vec<(String, u16, String)> {
    let mut k: Vec<_> = rows.iter().map(|r| (r.address.clone(), r.port, r.status.clone())).collect();
    k.sort();
    k
}

#[test]
fn new_run_is_pending() {
    let s = Scheduler::new(targets(3), 2);
    assert_eq!(s.total(), 3);
    assert_eq!(s.ceiling(), 2);
    assert_eq!(s.admitted(), 0);
    assert_eq!(s.in_flight(), 0);
    assert_eq!(s.done(), 0);
    assert_eq!(s.progress(2), Progress::Pending);
    assert!(!s.is_finished());
}

#[test]
fn start_next_stops_at_ceiling() {
    let mut s = Scheduler::new(targets(5), 2);
    assert_eq!(s.start_next(), Some(0));
    assert_eq!(s.start_next(), Some(1));
    assert_eq!(s.start_next(), None);
    assert_eq!(s.in_flight(), 2);
    assert_eq!(s.progress(1), Progress::InFlight);
    assert!(matches!(s.complete(1, failure()), Ok(None)));
    assert_eq!(s.progress(1), Progress::Failed);
    assert_eq!(s.start_next(), Some(2));
    assert_eq!(s.admitted(), 3);
}

#[test]
fn success_becomes_row_of_its_target() {
    let mut s = Scheduler::new(vec![target("192.0.2.9", 25570)], 4);
    assert_eq!(s.start_next(), Some(0));
    match s.complete(0, ProbeOutcome::Success(42u32)) {
        Ok(Some(row)) => {
            assert_eq!(row.address, "192.0.2.9");
            assert_eq!(row.port, 25570);
            assert_eq!(row.status, 42);
        }
        _ => panic!("expected a row"),
    }
    assert_eq!(s.succeeded(), 1);
    assert_eq!(s.failed(), 0);
    assert!(s.is_finished());
}

#[test]
fn outcome_of_unknown_target_is_refused() {
    let mut s = Scheduler::new(targets(2), 4);
    assert!(matches!(s.complete(2, failure()), Err(ScheduleError::UnknownTarget { index: 2 })));
    assert_eq!(s.done(), 0);
}

#[test]
fn outcome_is_taken_once() {
    let mut s = Scheduler::new(targets(2), 4);
    assert!(matches!(s.complete(0, failure()), Err(ScheduleError::NotInFlight { index: 0 })));
    s.start_next();
    assert!(matches!(s.complete(0, failure()), Ok(None)));
    assert!(matches!(s.complete(0, failure()), Err(ScheduleError::NotInFlight { index: 0 })));
    assert_eq!(s.done(), 1);
    assert_eq!(s.failed(), 1);
}

#[test]
fn every_target_gets_one_outcome() {
    let (s, rows, _) = run(targets(37), 5, &|t| t.host.ends_with('3'), &|r| r.len() / 2);
    assert!(s.is_finished());
    assert_eq!(s.done(), 37);
    for i in 0..37 {
        assert!(matches!(s.progress(i), Progress::Succeeded | Progress::Failed));
    }
    assert_eq!(rows.len(), s.succeeded());
}

#[test]
fn done_is_rows_plus_failures() {
    let (s, rows, _) = run(targets(20), 3, &|t| t.host.len() % 2 == 0, &|r| r.len() - 1);
    assert_eq!(s.done(), rows.len() + s.failed());
    assert!(s.failed() > 0 && !rows.is_empty());
}

#[test]
fn same_list_twice_gives_same_rows() {
    let ok = |t: &Target| t.host.ends_with('1') || t.host.ends_with('7');
    let (a, rows_a, _) = run(targets(25), 4, &ok, &|_| 0);
    let (b, rows_b, _) = run(targets(25), 4, &ok, &|r| r.len() - 1);
    let order_a: Vec<_> = rows_a.iter().map(|r| r.address.clone()).collect();
    let order_b: Vec<_> = rows_b.iter().map(|r| r.address.clone()).collect();
    assert_ne!(order_a, order_b);
    assert_eq!(row_keys(&rows_a), row_keys(&rows_b));
    assert_eq!(a.failed(), b.failed());
}

#[test]
fn empty_list_is_finished_at_once() {
    let list = load_targets(&vec!["#masscan".to_string(), "# end".to_string()]).unwrap();
    let mut s = Scheduler::new(list, 256);
    assert!(s.is_finished());
    assert_eq!(s.start_next(), None);
    let sum = RunSummary::of(&s, Elapsed { seconds: 0 });
    assert_eq!((sum.done, sum.failed), (0, 0));
}

#[test]
fn never_more_than_ceiling_in_flight() {
    // Ten probes of equal duration: each round starts what the ceiling
    // allows, then they finish in the order they started.
    let (s, _, peak) = run(targets(10), 4, &|_| true, &|_| 0);
    assert_eq!(peak, 4);
    assert_eq!(s.done(), 10);
}

#[test]
fn slow_target_does_not_hold_back_the_rest() {
    // Target 0 never finishes until everything else has.
    let mut s = Scheduler::new(targets(6), 2);
    assert_eq!(s.start_next(), Some(0));
    assert_eq!(s.start_next(), Some(1));
    for next in 2..6 {
        assert!(s.complete(next - 1, failure()).is_ok());
        assert_eq!(s.start_next(), Some(next));
    }
    assert!(s.complete(5, failure()).is_ok());
    assert!(!s.is_finished());
    assert!(s.complete(0, failure()).is_ok());
    assert!(s.is_finished());
}

#[test]
fn one_success_one_failure_scenario() {
    let input = vec![
        "# comment".to_string(),
        "open tcp 25565 192.0.2.1".to_string(),
        "open tcp 25566 192.0.2.2".to_string(),
    ];
    let list = load_targets(&input).unwrap();
    let ok = |t: &Target| t.host == "192.0.2.1" && t.port == 25565;
    let (s, rows, _) = run(list, 256, &ok, &|_| 0);
    assert_eq!(rows.len(), 1);
    assert_eq!(rows[0].address, "192.0.2.1");
    assert_eq!(rows[0].port, 25565);
    assert_eq!(rows[0].status, "status of 192.0.2.1");
    let sum = RunSummary::of(&s, Elapsed { seconds: 3 });
    assert_eq!((sum.done, sum.failed), (2, 1));
}
