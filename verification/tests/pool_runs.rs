use batch_client::batch::{Payload, WorkItem};
use batch_client::client::Topic;
use batch_client::pool::{worker_on_event, Pool, WorkerAction};

fn work(name: &str) -> Payload {
    Payload::File(WorkItem {
        source: format!("in/{}.wav", name).into_bytes(),
        dest: format!("out/{}.txt", name).into_bytes(),
        topic: Topic::Generic,
        language: "en-US".to_string(),
    })
}

// No task loss: three files through two workers, every recognition call
// succeeding, leave exactly three transcriptions, each under its own
// destination with its own text.
#[test]
fn three_files_two_workers_all_succeed() {
    let mut pool = Pool::new(2);
    pool.send(work("a"));
    pool.send(work("b"));
    pool.recv(0);
    pool.send(work("c"));
    pool.recv(1);
    pool.finish(0, Some("text a".to_string()));
    pool.recv(0);
    pool.finish(1, Some("text b".to_string()));
    pool.finish(0, Some("text c".to_string()));
    pool.send(Payload::Close);
    pool.send(Payload::Close);
    pool.recv(0);
    pool.recv(1);

    assert_eq!(pool.queue_len(), 0);
    assert_eq!(pool.ack_count(), 2);
    let files = pool.files().clone();
    assert_eq!(files.len(), 3);
    assert_eq!(files[0], (b"out/a.txt".to_vec(), "text a".to_string()));
    assert_eq!(files[1], (b"out/b.txt".to_vec(), "text b".to_string()));
    assert_eq!(files[2], (b"out/c.txt".to_vec(), "text c".to_string()));
}

// Bounded concurrency: with two workers, the number of recognition calls in
// flight never passes two, however many tasks are queued or finished.
#[test]
fn never_more_processing_than_workers() {
    let mut pool = Pool::new(2);
    assert_eq!(pool.processing_count(), 0);
    pool.send(work("a"));
    pool.send(work("b"));
    assert_eq!(pool.processing_count(), 0);
    pool.recv(0);
    assert_eq!(pool.processing_count(), 1);
    pool.recv(1);
    assert_eq!(pool.processing_count(), 2);
    assert!(pool.processing_count() <= pool.worker_count());
    pool.send(work("c"));
    pool.finish(0, Some("text a".to_string()));
    assert_eq!(pool.processing_count(), 1);
    pool.recv(0);
    assert_eq!(pool.processing_count(), 2);
    assert!(pool.processing_count() <= pool.worker_count());
    pool.finish(0, Some("text c".to_string()));
    pool.finish(1, Some("text b".to_string()));
    assert_eq!(pool.processing_count(), 0);
}

// Failure isolation: one failing recognition call among three leaves the
// other two transcriptions in place, nothing under the failing file's
// destination, and both workers alive to terminate cleanly.
#[test]
fn one_failure_leaves_the_rest() {
    let mut pool = Pool::new(2);
    pool.send(work("a"));
    pool.send(work("bad"));
    pool.recv(0);
    pool.send(work("c"));
    pool.recv(1);
    pool.finish(0, Some("text a".to_string()));
    pool.recv(0);
    pool.finish(1, None);
    pool.finish(0, Some("text c".to_string()));
    pool.send(Payload::Close);
    pool.send(Payload::Close);
    pool.recv(0);
    pool.recv(1);

    assert_eq!(pool.ack_count(), 2);
    let files = pool.files().clone();
    assert_eq!(files.len(), 2);
    assert!(files.iter().all(|(dest, _)| dest != &b"out/bad.txt".to_vec()));
    assert_eq!(files[0], (b"out/a.txt".to_vec(), "text a".to_string()));
    assert_eq!(files[1], (b"out/c.txt".to_vec(), "text c".to_string()));
}

// Clean shutdown: once the producer holds one acknowledgement per worker,
// every worker has terminated and the queue is empty.
#[test]
fn all_workers_terminate_after_their_acknowledgements() {
    let mut pool = Pool::new(3);
    pool.send(work("a"));
    pool.recv(0);
    pool.finish(0, Some("text a".to_string()));
    pool.send(Payload::Close);
    pool.send(Payload::Close);
    pool.send(Payload::Close);
    pool.recv(1);
    pool.recv(0);
    pool.recv(2);

    assert_eq!(pool.ack_count(), 3);
    assert_eq!(pool.worker_count(), 3);
    assert!(pool.is_terminated(0));
    assert!(pool.is_terminated(1));
    assert!(pool.is_terminated(2));
    assert_eq!(pool.queue_len(), 0);
    assert_eq!(pool.processing_count(), 0);
}

#[test]
fn worker_processes_work_tasks() {
    let action = worker_on_event(Some(work("a")));
    match action {
        WorkerAction::Process(item) => {
            assert_eq!(item.source, b"in/a.wav".to_vec());
            assert_eq!(item.dest, b"out/a.txt".to_vec());
        }
        other => panic!("wrong action: {:?}", other),
    }
}

#[test]
fn worker_acknowledges_the_poison_pill_and_stops() {
    assert!(matches!(worker_on_event(Some(Payload::Close)), WorkerAction::AckAndStop));
}

#[test]
fn worker_stops_when_the_queue_closes() {
    assert!(matches!(worker_on_event(None), WorkerAction::Stop));
}
