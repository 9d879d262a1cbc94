//! Pools whose threads are played by flags.

use dhcpcluster::thread_pool::{Resize, ThreadPool};

/// A pool, and of each of its workers whether it has quit.
struct Pool {
    books: ThreadPool,
    quit: Vec<bool>,
    joined: Vec<usize>,
}

impl Pool {
    fn new(size: usize) -> Self {
        let mut pool = Pool {
            books: ThreadPool::new(size),
            quit: Vec::new(),
            joined: Vec::new(),
        };
        pool.respawn();
        pool
    }

    fn respawn(&mut self) {
        self.joined.extend(self.books.respawn(&self.quit));
        self.quit.retain(|quit| !quit);
        while self.books.next_spawn().is_some() {
            self.books.spawned();
            self.quit.push(false);
        }
    }

    fn set_size(&mut self, size: usize) -> isize {
        let Resize { diff, quit } = self.books.set_size(size);
        self.respawn();
        // The workers that are told to quit do so when they come to it
        self.stop(quit);
        diff
    }

    /// Makes some of the workers quit.
    fn stop(&mut self, n: usize) {
        let running: Vec<usize> = (0..self.quit.len()).filter(|i| !self.quit[*i]).collect();
        for i in running.into_iter().step_by(2).take(n) {
            self.quit[i] = true;
        }
        let missing = n.saturating_sub(self.quit.iter().filter(|quit| **quit).count());
        let running: Vec<usize> = (0..self.quit.len()).filter(|i| !self.quit[*i]).collect();
        for i in running.into_iter().take(missing) {
            self.quit[i] = true;
        }
    }

    fn workers(&self) -> usize {
        self.books.workers.len()
    }
}

/// Partitions the workers, of which so many have quit, and takes out those that have.
fn partition(pool: &mut Pool, quit: usize) {
    let before = pool.books.workers.clone();
    let i = pool.books.partition_quit_workers(&pool.quit);
    let n = pool.workers();
    assert_eq!(i, n - quit);
    let quit_workers = pool.books.workers.split_off(i);
    for worker in &quit_workers {
        let at = before.iter().position(|w| w == worker).unwrap();
        assert!(pool.quit[at]);
    }
    assert_eq!(quit_workers.len(), quit);
    for worker in &pool.books.workers {
        let at = before.iter().position(|w| w == worker).unwrap();
        assert!(!pool.quit[at]);
    }
    pool.quit = vec![false; pool.workers()];
}

#[test]
fn partitioning_logic() {
    let mut pool = Pool::new(8);
    partition(&mut pool, 0);

    pool.stop(1);
    partition(&mut pool, 1);

    pool.stop(3);
    partition(&mut pool, 3);
}

#[test]
fn grow() {
    let mut pool = Pool::new(1);
    assert_eq!(pool.books.size(), 1);
    assert_eq!(pool.workers(), 1);

    let diff = pool.set_size(10);
    assert_eq!(diff, 9);
    assert_eq!(pool.books.size(), 10);
    assert_eq!(pool.workers(), 10);

    let diff = pool.set_size(32);
    assert_eq!(diff, 22);
    assert_eq!(pool.books.size(), 32);
    assert_eq!(pool.workers(), 32);
}

#[test]
fn shrink() {
    let mut pool = Pool::new(40);
    assert_eq!(pool.books.size(), 40);
    assert_eq!(pool.workers(), 40);

    let diff = pool.set_size(10);
    assert_eq!(diff, -30);
    assert_eq!(pool.books.size(), 10);
    pool.respawn();
    assert_eq!(pool.workers(), 10);

    let diff = pool.set_size(3);
    assert_eq!(diff, -7);
    assert_eq!(pool.books.size(), 3);
    pool.respawn();
    assert_eq!(pool.workers(), 3);
    assert_eq!(pool.joined.len(), 37);
}

#[test]
fn ping_pong() {
    let mut pool = Pool::new(2);
    assert_eq!(pool.books.size(), 2);
    assert_eq!(pool.workers(), 2);

    let diff = pool.set_size(10);
    assert_eq!(diff, 8);
    assert_eq!(pool.books.size(), 10);
    assert_eq!(pool.workers(), 10);

    let diff = pool.set_size(32);
    assert_eq!(diff, 22);
    assert_eq!(pool.books.size(), 32);
    assert_eq!(pool.workers(), 32);

    let diff = pool.set_size(16);
    assert_eq!(diff, -16);
    assert_eq!(pool.books.size(), 16);
    pool.respawn();
    assert_eq!(pool.workers(), 16);

    let diff = pool.set_size(1);
    assert_eq!(diff, -15);
    assert_eq!(pool.books.size(), 1);
    pool.respawn();
    assert_eq!(pool.workers(), 1);

    let diff = pool.set_size(10);
    assert_eq!(diff, 9);
    assert_eq!(pool.books.size(), 10);
    assert_eq!(pool.workers(), 10);
}

#[test]
fn workers_that_quit_are_replaced_under_new_ids() {
    let mut pool = Pool::new(4);
    assert_eq!(pool.books.workers, vec![0, 1, 2, 3]);
    pool.quit[1] = true;
    pool.quit[2] = true;
    pool.respawn();
    assert_eq!(pool.joined, vec![1, 2]);
    assert_eq!(pool.books.workers, vec![0, 3, 4, 5]);
    assert_eq!(pool.books.next_spawn(), None);
}

#[test]
fn a_shrinking_pool_tells_workers_to_quit() {
    let mut books = ThreadPool::new(5);
    assert_eq!(books.set_size(2), Resize { diff: -3, quit: 3 });
    assert_eq!(books.set_size(2), Resize { diff: 0, quit: 0 });
    assert_eq!(books.set_size(9), Resize { diff: 7, quit: 0 });
}
