use srv_http::workpool::WorkerPool;

fn busy_count(pool: &WorkerPool) -> usize {
    pool.workers.iter().filter(|w| w.job.is_some()).count()
}

#[test]
fn pool_bound_caps_concurrency() {
    // six jobs on a pool of four: exactly four run at once, the rest wait
    let mut pool = WorkerPool::new(4);
    for job in 1..=6u64 {
        pool.execute(job);
    }
    pool.dispatch_idle();
    assert_eq!(busy_count(&pool), 4);
    assert_eq!(pool.queue.len(), 2);
}

#[test]
fn pool_bound_with_few_jobs() {
    // two jobs on a pool of four: exactly two run at once
    let mut pool = WorkerPool::new(4);
    pool.execute(1);
    pool.execute(2);
    pool.dispatch_idle();
    assert_eq!(busy_count(&pool), 2);
    assert_eq!(pool.queue.len(), 0);
}

#[test]
fn jobs_are_claimed_in_submission_order() {
    let mut pool = WorkerPool::new(2);
    pool.execute(10);
    pool.execute(20);
    pool.execute(30);
    let (w1, j1) = pool.claim().unwrap();
    let (w2, j2) = pool.claim().unwrap();
    assert_eq!(j1, 10);
    assert_eq!(j2, 20);
    assert!(pool.claim().is_none());
    pool.complete(w1);
    let (_, j3) = pool.claim().unwrap();
    assert_eq!(j3, 30);
    assert_eq!(pool.finished, vec![10]);
    let _ = w2;
}

#[test]
fn graceful_shutdown_finishes_every_job() {
    let mut pool = WorkerPool::new(3);
    for job in 1..=7u64 {
        pool.execute(job);
    }
    pool.dispatch_idle();
    pool.shutdown();
    assert!(!pool.accepting);
    assert_eq!(pool.queue.len(), 0);
    assert_eq!(busy_count(&pool), 0);
    let mut done = pool.finished.clone();
    done.sort();
    assert_eq!(done, vec![1, 2, 3, 4, 5, 6, 7]);
}

#[test]
fn shutdown_of_idle_pool_is_immediate() {
    let mut pool = WorkerPool::new(2);
    pool.shutdown();
    assert!(!pool.accepting);
    assert_eq!(pool.finished.len(), 0);
}

#[test]
fn workers_are_numbered_in_order() {
    let pool = WorkerPool::new(3);
    let ids: Vec<usize> = pool.workers.iter().map(|w| w.id).collect();
    assert_eq!(ids, vec![0, 1, 2]);
}
