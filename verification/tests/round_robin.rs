use worker_pool::worker::{StopReason, WorkerState};
use worker_pool::{create_jobs_and_test, init, run_round_robin, MAX_JOBS, MAX_WORKERS};

#[test]
fn round_robin() {
    // Build the standard self-test traffic and run the full pool over it.
    let mut tx = init();
    create_jobs_and_test(&mut tx);
    assert_eq!(tx.len(), MAX_JOBS);
    match &tx[0] {
        worker_pool::dispatcher::JobType::Data(job) => {
            assert_eq!(job.name, "job: 0");
            assert_eq!(job.function.n, 0);
        }
        worker_pool::dispatcher::JobType::Shutdown => panic!("the stream starts with a job"),
    }
    match &tx[12345] {
        worker_pool::dispatcher::JobType::Data(job) => {
            assert_eq!(job.name, "job: 12345");
            assert_eq!(job.function.n, 12345);
        }
        worker_pool::dispatcher::JobType::Shutdown => panic!("only the last slot is the sentinel"),
    }
    assert!(matches!(
        tx[MAX_JOBS - 1],
        worker_pool::dispatcher::JobType::Shutdown
    ));

    let reports = run_round_robin(tx);
    assert_eq!(reports.len(), MAX_WORKERS);
    let jobs = MAX_JOBS - 1;
    let mut executed_total = 0;
    for (i, report) in reports.iter().enumerate() {
        assert_eq!(report.id, i + 1);
        assert!(matches!(report.state, WorkerState::Stopped));
        assert!(matches!(report.reason, StopReason::Graceful));
        // Round-robin share: the first `jobs % MAX_WORKERS` workers get one
        // job more than the rest.
        let share = jobs / MAX_WORKERS + if i < jobs % MAX_WORKERS { 1 } else { 0 };
        assert_eq!(report.executed.len(), share);
        executed_total += report.executed.len();
    }
    assert_eq!(executed_total, jobs);

    // The k-th submitted job lands on worker k % MAX_WORKERS, in order, and
    // its callable returned its own number.
    assert_eq!(reports[0].executed[0].name, "job: 0");
    assert_eq!(reports[0].executed[0].result.as_ref().unwrap(), "0");
    assert_eq!(reports[3].executed[2].name, format!("job: {}", 2 * MAX_WORKERS + 3));
    assert_eq!(
        reports[3].executed[2].result.as_ref().unwrap(),
        &(2 * MAX_WORKERS + 3).to_string()
    );
}
