//! The task scheduling protocol of the worker pool: hash requests in a
//! shared lock-free queue, a finished flag published by the producer, and
//! the per-worker decision loop. The queue and the result channels are
//! shared, concurrently mutated structures, so nothing can be promised of
//! one observation; the decisions taken on every possible observation are
//! verified here, and the threads that loop over them live outside the
//! library.
use crate::hashing;
use crate::hashing::Algorithm;
use crate::hashing::HashError;
use crate::options::Options;
use std::sync::atomic::AtomicBool;
use std::sync::atomic::Ordering;
use std::sync::mpsc::Sender;
use vstd::prelude::*;

verus! {

#[verifier::external_type_specification]
#[verifier::external_body]
#[verifier::reject_recursive_types(T)]
pub struct ExInjector<T>(crossbeam_deque::Injector<T>);

#[verifier::external_type_specification]
#[verifier::external_body]
#[verifier::reject_recursive_types(T)]
pub struct ExSender<T>(Sender<T>);

/// Everything needed to hash one requested file and deliver the result.
pub struct HashTask {
    /// Path to the file that should be hashed.
    pub path: String,
    /// The working directory the path is resolved against.
    pub workdir: String,
    /// The run configuration.
    pub opts: Options,
    /// The digest the file is expected to match; empty when no comparison
    /// is requested.
    pub cmp: String,
    /// The channel on which exactly one outcome must be delivered.
    pub result_chan: Sender<Result<(String, String), HashError>>,
}

/// What one attempt to take work from the shared queue observed.
pub enum StealOutcome {
    Task(HashTask),
    Contended,
    Empty,
}

/// What a worker does next.
pub enum WorkerAction {
    Execute(HashTask),
    Backoff,
    Terminate,
}

/// Relies on `crossbeam_deque::Injector::push`: appends the task to the
/// shared queue.
#[verifier::external_body]
fn injector_push(q: &crossbeam_deque::Injector<HashTask>, task: HashTask) {
    q.push(task)
}

/// Relies on `crossbeam_deque::Injector::steal`: one attempt to take a
/// task, reporting success, contention, or emptiness; the queue is shared,
/// so consecutive attempts may observe anything.
#[verifier::external_body]
fn injector_steal(q: &crossbeam_deque::Injector<HashTask>) -> (r: StealOutcome) {
    match q.steal() {
        crossbeam_deque::Steal::Success(task) => StealOutcome::Task(task),
        crossbeam_deque::Steal::Retry => StealOutcome::Contended,
        crossbeam_deque::Steal::Empty => StealOutcome::Empty,
    }
}

/// Relies on `std::sync::mpsc::Sender::send`: delivers the outcome unless
/// the receiving end was dropped.
#[verifier::external_body]
fn send_outcome(
    chan: &Sender<Result<(String, String), HashError>>,
    outcome: Result<(String, String), HashError>,
) -> (delivered: bool) {
    chan.send(outcome).is_ok()
}

/// The worker decision: a stolen task is executed; contention backs off;
/// emptiness terminates the worker only once the producer has finished,
/// and backs off while more work may still arrive.
pub fn worker_step(outcome: StealOutcome, producer_finished: bool) -> (a: WorkerAction)
    ensures
        outcome matches StealOutcome::Task(t) ==> a == WorkerAction::Execute(t),
        outcome is Contended ==> a is Backoff,
        outcome is Empty && producer_finished ==> a is Terminate,
        outcome is Empty && !producer_finished ==> a is Backoff,
{
    match outcome {
        StealOutcome::Task(task) => WorkerAction::Execute(task),
        StealOutcome::Contended => WorkerAction::Backoff,
        StealOutcome::Empty => if producer_finished {
            WorkerAction::Terminate
        } else {
            WorkerAction::Backoff
        },
    }
}

/// The one outcome a task yields, as a function of the task and of what
/// reading the file produced: a success pairs the rendered fragment with
/// the echoed expected digest; a failure carries the cause and the path.
pub open spec fn spec_outcome(
    path: Seq<char>,
    cmp: Seq<char>,
    alg: Algorithm,
    content: Result<Seq<u8>, Seq<char>>,
) -> Result<(Seq<char>, Seq<char>), (Seq<char>, Seq<char>)> {
    match content {
        Ok(data) => Ok((hashing::spec_fragment(alg, data, path), cmp)),
        Err(msg) => Err((msg, path)),
    }
}

/// Builds the outcome of one task from what reading the file produced.
pub fn task_outcome(
    path: &String,
    cmp: &String,
    alg: Algorithm,
    content: Result<Vec<u8>, String>,
) -> (r: Result<(String, String), HashError>)
    ensures
        ({
            let model = spec_outcome(
                path@,
                cmp@,
                alg,
                match content {
                    Ok(d) => Ok(d@),
                    Err(m) => Err(m@),
                },
            );
            match r {
                Ok(p) => model matches Ok(m) && p.0@ == m.0 && p.1@ == m.1,
                Err(e) => model matches Err(m) && e.source@ == m.0 && e.path@ == m.1,
            }
        }),
{
    match content {
        Ok(data) => {
            let fragment = hashing::hash_content(alg, &data, path.as_str());
            Ok((fragment, cmp.clone()))
        },
        Err(msg) => Err(HashError::new(msg, path.clone())),
    }
}

/// Executes one stolen task: derives the outcome from the task and the
/// file contents the caller read, and delivers it on the task's own
/// channel. A broken channel loses only this delivery; the caller's loop
/// goes on. Whether the receiver still listens is outside the library, so
/// nothing is promised of `delivered`.
pub fn run_task(task: HashTask, content: Result<Vec<u8>, String>) -> (delivered: bool)
    requires
        Algorithm::spec_from_name(task.opts.algorithm@) is Some,
{
    let alg = match Algorithm::from_name(task.opts.algorithm.as_str()) {
        Some(a) => a,
        None => {
            proof {
                assert(false);
            }
            Algorithm::Sha1
        },
    };
    let outcome = task_outcome(&task.path, &task.cmp, alg, content);
    send_outcome(&task.result_chan, outcome)
}

/// Pushes a whole batch of tasks into the shared queue. The producer must
/// publish its finished flag only after this returns, so that no worker
/// terminates while tasks remain unqueued.
pub fn submit_tasks(q: &crossbeam_deque::Injector<HashTask>, tasks: Vec<HashTask>) {
    let mut tasks = tasks;
    while tasks.len() > 0
        decreases tasks@.len(),
    {
        let task = match tasks.pop() {
            Some(t) => t,
            None => {
                proof {
                    assert(false);
                }
                return ;
            },
        };
        injector_push(q, task);
    }
}

/// One worker iteration: attempt a steal, read the finished flag, and
/// decide by `worker_step`. The queue and the flag are shared, so the
/// observation itself cannot be pinned down; `worker_step`'s contract
/// fixes the decision taken on whatever was observed.
pub fn worker_poll(
    q: &crossbeam_deque::Injector<HashTask>,
    producer_finished: &AtomicBool,
) -> (a: WorkerAction) {
    let stolen = injector_steal(q);
    let finished = producer_finished.load(Ordering::Relaxed);
    worker_step(stolen, finished)
}

/// For every batch of `k` tasks, the delivered outcomes are exactly `k`:
/// one for each task, correlated to it by the echoed expected digest on
/// success and by the offending path on failure, and successful exactly
/// where reading the file succeeded.
pub proof fn lemma_one_outcome_per_task(
    paths: Seq<Seq<char>>,
    cmps: Seq<Seq<char>>,
    alg: Algorithm,
    contents: Seq<Result<Seq<u8>, Seq<char>>>,
)
    requires
        paths.len() == cmps.len(),
        cmps.len() == contents.len(),
    ensures
        ({
            let outs = Seq::new(
                paths.len(),
                |i: int| spec_outcome(paths[i], cmps[i], alg, contents[i]),
            );
            &&& outs.len() == paths.len()
            &&& forall|i: int| 0 <= i < outs.len() ==> ((#[trigger] outs[i]) matches Ok(p)
                ==> p.1 == cmps[i])
            &&& forall|i: int| 0 <= i < outs.len() ==> ((#[trigger] outs[i]) matches Err(e)
                ==> e.1 == paths[i])
            &&& forall|i: int| 0 <= i < outs.len() ==> ((#[trigger] outs[i]) is Ok <==> contents[i]
                is Ok)
        }),
{
}

} // verus!
