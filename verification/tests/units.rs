use worker_pool::dispatcher::{Callable, Dispatcher, Job, JobType};
use worker_pool::worker::{StopReason, Worker, WorkerState, worker_step};
use worker_pool::{create_job, create_worker_pool, init, next_index, stop, waiting_for_jobs};

struct NamedCallable {
    name: String,
}

impl Callable for NamedCallable {
    fn call(&self) -> Result<String, String> {
        Ok(self.name.clone())
    }
}

fn named(name: &str) -> Job<NamedCallable> {
    Job::new(
        name.to_string(),
        NamedCallable {
            name: name.to_string(),
        },
    )
}

#[test]
fn job_new_stores_without_invoking() {
    let job = named("a");
    assert_eq!(job.name, "a");
    assert_eq!(job.function.call().unwrap(), "a");
}

#[test]
fn create_job_wraps_in_data() {
    let message = create_job("a".to_string(), NamedCallable { name: "a".to_string() });
    match message {
        JobType::Data(job) => assert_eq!(job.name, "a"),
        JobType::Shutdown => panic!("a job message must carry the job"),
    }
}

#[test]
fn init_is_empty_and_stop_appends_sentinel() {
    let mut tx: Vec<JobType<NamedCallable>> = init();
    assert!(tx.is_empty());
    stop(&mut tx);
    assert_eq!(tx.len(), 1);
    assert!(matches!(tx[0], JobType::Shutdown));
}

#[test]
fn create_worker_pool_gives_empty_queues() {
    let pool: Vec<Vec<JobType<NamedCallable>>> = create_worker_pool(5);
    assert_eq!(pool.len(), 5);
    assert!(pool.iter().all(|q| q.is_empty()));
}

#[test]
fn next_index_cycles() {
    assert_eq!(next_index(0, 3), 1);
    assert_eq!(next_index(1, 3), 2);
    assert_eq!(next_index(2, 3), 0);
    assert_eq!(next_index(0, 1), 0);
}

#[test]
fn dispatch_appends_to_selected_queue() {
    let mut dispatcher = Dispatcher::new(create_worker_pool(3));
    dispatcher.dispatch(named("a"), 1);
    dispatcher.dispatch(named("b"), 1);
    dispatcher.dispatch(named("c"), 2);
    let queues = dispatcher.into_senders();
    assert_eq!(queues[0].len(), 0);
    assert_eq!(queues[1].len(), 2);
    assert_eq!(queues[2].len(), 1);
    match &queues[1][0] {
        JobType::Data(job) => assert_eq!(job.name, "a"),
        JobType::Shutdown => panic!("expected the first dispatched job"),
    }
    match &queues[1][1] {
        JobType::Data(job) => assert_eq!(job.name, "b"),
        JobType::Shutdown => panic!("expected the second dispatched job"),
    }
}

#[test]
fn graceful_shutdown_broadcasts_to_every_queue() {
    let mut dispatcher = Dispatcher::new(create_worker_pool::<NamedCallable>(3));
    dispatcher.dispatch(named("a"), 0);
    dispatcher.graceful_shutdown();
    let queues = dispatcher.into_senders();
    assert_eq!(queues[0].len(), 2);
    assert!(matches!(queues[0][1], JobType::Shutdown));
    assert_eq!(queues[1].len(), 1);
    assert!(matches!(queues[1][0], JobType::Shutdown));
    assert_eq!(queues[2].len(), 1);
    assert!(matches!(queues[2][0], JobType::Shutdown));
}

#[test]
fn waiting_for_jobs_routes_round_robin() {
    let mut tx = init();
    for name in ["a", "b", "c"] {
        tx.push(create_job(name.to_string(), NamedCallable { name: name.to_string() }));
    }
    stop(&mut tx);
    let dispatcher = Dispatcher::new(create_worker_pool(2));
    let routed = waiting_for_jobs(tx, dispatcher);
    let queues = routed.into_senders();
    // a and c to worker 0, b to worker 1, the sentinel broadcast to both.
    assert_eq!(queues[0].len(), 3);
    assert_eq!(queues[1].len(), 2);
    match &queues[0][1] {
        JobType::Data(job) => assert_eq!(job.name, "c"),
        JobType::Shutdown => panic!("expected job c ahead of the sentinel"),
    }
    assert!(matches!(queues[0][2], JobType::Shutdown));
    assert!(matches!(queues[1][1], JobType::Shutdown));
}

#[test]
fn worker_step_executes_data_and_stops_on_shutdown() {
    let message = JobType::Data(named("a"));
    let outcome = worker_step(&message).expect("a job message yields an outcome");
    assert_eq!(outcome.name, "a");
    assert_eq!(outcome.result.unwrap(), "a");
    assert!(worker_step(&JobType::<NamedCallable>::Shutdown).is_none());
}

#[test]
fn worker_run_reports_identity_and_order() {
    let queue = vec![
        JobType::Data(named("a")),
        JobType::Data(named("b")),
        JobType::Shutdown,
        JobType::Data(named("lost")),
    ];
    let worker = Worker::new(queue, 7, "w7".to_string());
    let report = worker.run();
    assert_eq!(report.id, 7);
    assert_eq!(report.name, "w7");
    assert!(matches!(report.state, WorkerState::Stopped));
    assert!(matches!(report.reason, StopReason::Graceful));
    let names: Vec<&str> = report.executed.iter().map(|o| o.name.as_str()).collect();
    assert_eq!(names, ["a", "b"]);
}

#[test]
fn worker_run_on_dry_queue_disconnects() {
    let worker: Worker<NamedCallable> = Worker::new(Vec::new(), 1, "w".to_string());
    let report = worker.run();
    assert!(matches!(report.state, WorkerState::Stopped));
    assert!(matches!(report.reason, StopReason::Disconnected));
    assert!(report.executed.is_empty());
}
