use crossbeam_deque::Injector;
use hashwalk::hashing::Algorithm;
use hashwalk::options::LogLevel;
use hashwalk::options::Mode;
use hashwalk::options::Options;
use hashwalk::pool::HashTask;
use hashwalk::pool::StealOutcome;
use hashwalk::pool::WorkerAction;
use hashwalk::pool::run_task;
use hashwalk::pool::submit_tasks;
use hashwalk::pool::task_outcome;
use hashwalk::pool::worker_poll;
use hashwalk::pool::worker_step;
use std::sync::atomic::AtomicBool;
use std::sync::atomic::Ordering;
use std::sync::mpsc;

fn test_options(algorithm: &str) -> Options {
    Options {
        help: false,
        version_info: false,
        program_name: "hashwalk".to_string(),
        algorithm: algorithm.to_string(),
        subdir_mode: false,
        mode: Mode::Update,
        log_level: LogLevel::Quiet,
        num_threads: 1,
        folder: ".".to_string(),
    }
}

#[test]
fn worker_decisions() {
    // An empty queue with the producer finished terminates the worker at
    // once: zero submitted tasks never deadlock.
    assert!(matches!(worker_step(StealOutcome::Empty, true), WorkerAction::Terminate));
    assert!(matches!(worker_step(StealOutcome::Empty, false), WorkerAction::Backoff));
    assert!(matches!(worker_step(StealOutcome::Contended, true), WorkerAction::Backoff));
    assert!(matches!(worker_step(StealOutcome::Contended, false), WorkerAction::Backoff));
}

#[test]
fn empty_pool_reaches_termination() {
    let queue: Injector<HashTask> = Injector::new();
    let finished = AtomicBool::new(false);
    // Producer not finished: the worker must keep polling.
    assert!(matches!(worker_poll(&queue, &finished), WorkerAction::Backoff));
    finished.store(true, Ordering::Relaxed);
    assert!(matches!(worker_poll(&queue, &finished), WorkerAction::Terminate));
}

#[test]
fn successful_task_echoes_expected_digest() {
    let outcome = task_outcome(
        &"x.txt".to_string(),
        &"expected".to_string(),
        Algorithm::Sha1,
        Ok(vec![0x68, 0x69]),
    );
    let (fragment, cmp) = outcome.unwrap();
    assert_eq!(fragment, "c22b5f9178342609428d6f51b2c5af4c0bde6a42  x.txt\n");
    assert_eq!(cmp, "expected");
}

#[test]
fn failed_task_carries_its_path() {
    let outcome = task_outcome(
        &"locked.txt".to_string(),
        &String::new(),
        Algorithm::Sha1,
        Err("permission denied".to_string()),
    );
    let e = outcome.unwrap_err();
    assert_eq!(e.path, "locked.txt");
    assert_eq!(e.source, "permission denied");
}

#[test]
fn every_submitted_task_yields_one_outcome() {
    // Two tasks, one of them unreadable: both outcomes arrive, correlated
    // by path and echoed digest, and the failure stops nothing.
    let queue: Injector<HashTask> = Injector::new();
    let finished = AtomicBool::new(false);
    let (tx, rx) = mpsc::channel();
    let contents: Vec<(&str, Result<Vec<u8>, String>)> = vec![
        ("good.txt", Ok(b"hi".to_vec())),
        ("bad.txt", Err("permission denied".to_string())),
    ];
    let tasks: Vec<HashTask> = contents
        .iter()
        .map(|(path, _)| HashTask {
            path: path.to_string(),
            workdir: ".".to_string(),
            opts: test_options("sha1"),
            cmp: format!("cmp-{}", path),
            result_chan: tx.clone(),
        })
        .collect();
    let k = tasks.len();
    submit_tasks(&queue, tasks);
    finished.store(true, Ordering::Relaxed);
    let mut executed = 0;
    loop {
        match worker_poll(&queue, &finished) {
            WorkerAction::Execute(task) => {
                let content = contents
                    .iter()
                    .find(|(p, _)| *p == task.path)
                    .map(|(_, c)| c.clone())
                    .unwrap();
                assert!(run_task(task, content));
                executed += 1;
            }
            WorkerAction::Backoff => {}
            WorkerAction::Terminate => break,
        }
    }
    assert_eq!(executed, k);
    drop(tx);
    let outcomes: Vec<_> = rx.iter().collect();
    assert_eq!(outcomes.len(), k);
    let ok: Vec<_> = outcomes.iter().filter_map(|o| o.as_ref().ok()).collect();
    let err: Vec<_> = outcomes.iter().filter_map(|o| o.as_ref().err()).collect();
    assert_eq!(ok.len(), 1);
    assert_eq!(err.len(), 1);
    assert_eq!(ok[0].0, "c22b5f9178342609428d6f51b2c5af4c0bde6a42  good.txt\n");
    assert_eq!(ok[0].1, "cmp-good.txt");
    assert_eq!(err[0].path, "bad.txt");
    assert_eq!(err[0].source, "permission denied");
}

#[test]
fn dropped_receiver_does_not_panic_the_worker() {
    let (tx, rx) = mpsc::channel();
    drop(rx);
    let task = HashTask {
        path: "x.txt".to_string(),
        workdir: ".".to_string(),
        opts: test_options("sha1"),
        cmp: String::new(),
        result_chan: tx,
    };
    assert!(!run_task(task, Ok(b"hi".to_vec())));
}
