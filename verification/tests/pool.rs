use kvbridge::pool::Pool;
use kvbridge::protocol::Fault;

#[test]
fn more_requests_than_workers_all_delivered_once() {
    // Five concurrent submissions against three workers: the pool queues the
    // overflow and still delivers exactly one result per ticket.
    let mut pool = Pool::new(3);
    assert_eq!(pool.worker_total(), 3);
    let mut tickets: Vec<u64> = Vec::new();
    for k in 0..5u8 {
        tickets.push(pool.submit(vec![k]).unwrap());
    }
    assert_eq!(pool.pending_len(), 5);

    // All three workers pull work; the two extra requests wait.
    let r0 = pool.take_next(0).unwrap();
    let r1 = pool.take_next(1).unwrap();
    let r2 = pool.take_next(2).unwrap();
    assert_eq!(pool.pending_len(), 2);
    assert_eq!(r0.id, tickets[0]);
    assert_eq!(r1.id, tickets[1]);
    assert_eq!(r2.id, tickets[2]);

    // Workers finish out of order and pick up the queued requests.
    assert_eq!(pool.complete(1), tickets[1]);
    let r3 = pool.take_next(1).unwrap();
    assert_eq!(r3.id, tickets[3]);
    assert_eq!(pool.complete(0), tickets[0]);
    assert_eq!(pool.complete(2), tickets[2]);
    let r4 = pool.take_next(2).unwrap();
    assert_eq!(r4.id, tickets[4]);
    assert_eq!(pool.complete(1), tickets[3]);
    assert_eq!(pool.complete(2), tickets[4]);

    // Exactly five deliveries, each submitted ticket exactly once.
    assert_eq!(pool.pending_len(), 0);
    assert_eq!(pool.delivered_count(), 5);
    let mut delivered: Vec<u64> = Vec::new();
    for i in 0..5 {
        delivered.push(pool.delivered_at(i));
    }
    let mut sorted = delivered.clone();
    sorted.sort();
    assert_eq!(sorted, tickets);
}

#[test]
fn requests_queue_when_workers_are_busy() {
    let mut pool = Pool::new(1);
    pool.submit(b"a".to_vec()).unwrap();
    pool.submit(b"b".to_vec()).unwrap();
    let first = pool.take_next(0).unwrap();
    assert_eq!(first.key, b"a".to_vec());
    // The one worker is busy: the second request stays queued.
    assert_eq!(pool.pending_len(), 1);
    assert_eq!(pool.task_of(0), Some(first.id));
    pool.complete(0);
    let second = pool.take_next(0).unwrap();
    assert_eq!(second.key, b"b".to_vec());
    pool.complete(0);
    assert_eq!(pool.delivered_count(), 2);
}

#[test]
fn closed_pool_rejects_submission() {
    let mut pool = Pool::new(2);
    pool.close();
    assert!(!pool.open_now());
    assert_eq!(pool.submit(b"x".to_vec()), Err(Fault::PoolUnavailable));
}

#[test]
fn idle_worker_finds_empty_queue() {
    let mut pool = Pool::new(2);
    assert!(pool.take_next(0).is_none());
    assert_eq!(pool.delivered_count(), 0);
}
