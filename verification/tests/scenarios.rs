use worker_pool::dispatcher::Callable;
use worker_pool::worker::{StopReason, WorkerState};
use worker_pool::{create_job, init, run_pool, stop};

struct NamedCallable {
    name: String,
}

impl Callable for NamedCallable {
    fn call(&self) -> Result<String, String> {
        Ok(self.name.clone())
    }
}

struct FlakyCallable {
    name: String,
    fail: bool,
}

impl Callable for FlakyCallable {
    fn call(&self) -> Result<String, String> {
        if self.fail {
            Err(format!("{} went wrong", self.name))
        } else {
            Ok(self.name.clone())
        }
    }
}

fn submit_named(tx: &mut Vec<worker_pool::dispatcher::JobType<NamedCallable>>, name: &str) {
    let name = name.to_string();
    tx.push(create_job(name.clone(), NamedCallable { name }));
}

#[test]
fn three_workers_nine_jobs() {
    let mut tx = init();
    for k in 0..9 {
        submit_named(&mut tx, &format!("job:{k}"));
    }
    stop(&mut tx);
    let reports = run_pool(tx, 3);
    assert_eq!(reports.len(), 3);
    let expected = [
        ["job:0", "job:3", "job:6"],
        ["job:1", "job:4", "job:7"],
        ["job:2", "job:5", "job:8"],
    ];
    for (i, report) in reports.iter().enumerate() {
        assert_eq!(report.id, i + 1);
        assert_eq!(report.name, (i + 1).to_string());
        assert!(matches!(report.state, WorkerState::Stopped));
        assert!(matches!(report.reason, StopReason::Graceful));
        let names: Vec<&str> = report.executed.iter().map(|o| o.name.as_str()).collect();
        assert_eq!(names, expected[i]);
        for outcome in &report.executed {
            assert_eq!(outcome.result.as_ref().unwrap(), &outcome.name);
        }
    }
}

#[test]
fn round_robin_fair_counts() {
    let mut tx = init();
    for k in 0..20 {
        submit_named(&mut tx, &format!("job:{k}"));
    }
    stop(&mut tx);
    let reports = run_pool(tx, 4);
    assert_eq!(reports.len(), 4);
    for (i, report) in reports.iter().enumerate() {
        assert_eq!(report.executed.len(), 5);
        for (j, outcome) in report.executed.iter().enumerate() {
            assert_eq!(outcome.name, format!("job:{}", j * 4 + i));
        }
    }
}

#[test]
fn failing_job_does_not_stop_worker() {
    let mut tx = init();
    for (k, fail) in [(0, true), (1, false), (2, false), (3, false)] {
        let name = format!("job:{k}");
        tx.push(create_job(name.clone(), FlakyCallable { name, fail }));
    }
    stop(&mut tx);
    let reports = run_pool(tx, 2);
    assert_eq!(reports.len(), 2);

    // Worker 0 got the failing job:0 and then job:2 — the failure is recorded
    // and the worker still executes what follows.
    assert_eq!(reports[0].executed.len(), 2);
    assert_eq!(reports[0].executed[0].name, "job:0");
    assert_eq!(
        reports[0].executed[0].result.as_ref().unwrap_err(),
        "job:0 went wrong"
    );
    assert_eq!(reports[0].executed[1].name, "job:2");
    assert!(reports[0].executed[1].result.is_ok());
    assert!(matches!(reports[0].reason, StopReason::Graceful));

    // Worker 1 is untouched by the failure.
    assert_eq!(reports[1].executed.len(), 2);
    assert!(reports[1].executed.iter().all(|o| o.result.is_ok()));
    assert!(matches!(reports[1].reason, StopReason::Graceful));
}

#[test]
fn all_workers_stop_after_shutdown() {
    let mut tx = init();
    submit_named(&mut tx, "job:0");
    submit_named(&mut tx, "job:1");
    stop(&mut tx);
    let reports = run_pool(tx, 4);
    assert_eq!(reports.len(), 4);
    for report in &reports {
        assert!(matches!(report.state, WorkerState::Stopped));
        assert!(matches!(report.reason, StopReason::Graceful));
    }
    assert_eq!(reports[0].executed.len(), 1);
    assert_eq!(reports[1].executed.len(), 1);
    assert_eq!(reports[2].executed.len(), 0);
    assert_eq!(reports[3].executed.len(), 0);
}

#[test]
fn workers_stop_when_intake_closes_without_sentinel() {
    let mut tx = init();
    submit_named(&mut tx, "job:0");
    submit_named(&mut tx, "job:1");
    let reports = run_pool(tx, 3);
    assert_eq!(reports.len(), 3);
    for report in &reports {
        assert!(matches!(report.state, WorkerState::Stopped));
        assert!(matches!(report.reason, StopReason::Disconnected));
    }
    assert_eq!(reports[0].executed.len(), 1);
    assert_eq!(reports[1].executed.len(), 1);
    assert_eq!(reports[2].executed.len(), 0);
}

#[test]
fn jobs_after_shutdown_are_lost() {
    let mut tx = init();
    submit_named(&mut tx, "job:0");
    stop(&mut tx);
    submit_named(&mut tx, "job:1");
    submit_named(&mut tx, "job:2");
    let reports = run_pool(tx, 2);
    assert_eq!(reports.len(), 2);

    // Worker 0 executed job:0 and then saw the sentinel; job:2, enqueued to
    // it behind the sentinel, is accepted lost work.
    assert_eq!(reports[0].executed.len(), 1);
    assert_eq!(reports[0].executed[0].name, "job:0");
    assert!(matches!(reports[0].reason, StopReason::Graceful));

    // Worker 1 saw the sentinel before job:1 and never ran it.
    assert_eq!(reports[1].executed.len(), 0);
    assert!(matches!(reports[1].reason, StopReason::Graceful));
}
