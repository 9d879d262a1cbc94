//! The books of a pool of worker threads.
//!
//! A [`ThreadPool`] knows which workers there are, by their ids, and how many there should be.
//! Whoever owns the threads reports which of them have quit, joins those that are retired, and
//! starts those that are missing.

use vstd::prelude::*;

verus! {

/// What a change of size asks for.
#[derive(Debug, Clone, Copy, PartialEq, Eq, Structural)]
pub struct Resize {
    /// By how much the pool grows, or shrinks if it is negative.
    pub diff: isize,
    /// How many workers are to be told to quit.
    pub quit: usize,
}

/// The workers of a pool.
#[derive(Debug)]
pub struct ThreadPool {
    pub workers: Vec<usize>,
    pub size: usize,
    pub next_id: usize,
}

/// Those of `workers` whose flag in `quit` is `flag`, in order.
pub open spec fn with_flag(workers: Seq<usize>, quit: Seq<bool>, flag: bool) -> Seq<usize>
    decreases workers.len(),
{
    if workers.len() == 0 {
        Seq::empty()
    } else {
        let front = with_flag(workers.drop_last(), quit, flag);
        if quit[workers.len() - 1] == flag {
            front.push(workers.last())
        } else {
            front
        }
    }
}

/// The id that follows `id`.
pub open spec fn id_after(id: usize) -> usize {
    if id == usize::MAX {
        0
    } else {
        (id + 1) as usize
    }
}

/// The state of a [`ThreadPool`].
pub struct PoolState {
    pub workers: Seq<usize>,
    pub size: int,
    pub next_id: usize,
}

impl PoolState {
    /// How many workers are missing.
    pub open spec fn missing(self) -> int {
        if self.workers.len() < self.size {
            self.size - self.workers.len()
        } else {
            0
        }
    }

    /// The workers that have quit are behind those that have not.
    pub open spec fn partitioned(self, quit: Seq<bool>) -> PoolState {
        PoolState {
            workers: with_flag(self.workers, quit, false) + with_flag(self.workers, quit, true),
            ..self
        }
    }

    /// The workers that have quit are gone.
    pub open spec fn without_quit(self, quit: Seq<bool>) -> PoolState {
        PoolState { workers: with_flag(self.workers, quit, false), ..self }
    }

    /// One more worker was started.
    pub open spec fn with_next(self) -> PoolState {
        PoolState {
            workers: self.workers.push(self.next_id),
            next_id: id_after(self.next_id),
            ..self
        }
    }

    /// So many more workers were started.
    pub open spec fn with_more(self, n: nat) -> PoolState
        decreases n,
    {
        if n == 0 {
            self
        } else {
            self.with_more((n - 1) as nat).with_next()
        }
    }

    /// All that were missing were started.
    pub open spec fn filled(self) -> PoolState {
        self.with_more(self.missing() as nat)
    }

    /// There should be another number of workers.
    pub open spec fn resized(self, size: int) -> PoolState {
        PoolState { size, ..self }
    }

    /// The ids are different from each other and from those to come.
    pub open spec fn has_distinct_ids(self) -> bool {
        &&& self.workers.no_duplicates()
        &&& forall|i: int| 0 <= i < self.workers.len() ==> #[trigger] self.workers[i] < self.next_id
    }
}

impl View for ThreadPool {
    type V = PoolState;

    open spec fn view(&self) -> PoolState {
        PoolState { workers: self.workers@, size: self.size as int, next_id: self.next_id }
    }
}

impl ThreadPool {
    /// A pool of the given size, whose workers have yet to be started.
    pub fn new(size: usize) -> (pool: ThreadPool)
        requires
            size > 0,
        ensures
            pool@ == (PoolState { workers: Seq::empty(), size: size as int, next_id: 0 }),
    {
        let pool = ThreadPool { workers: Vec::new(), size, next_id: 0 };
        assert(pool@.workers =~= Seq::empty());
        pool
    }

    /// The number of threads that there should be in the pool.
    pub fn size(&self) -> (size: usize)
        ensures
            size == self@.size,
    {
        self.size
    }

    /// Puts the workers that have quit behind those that have not. `quit` says of each worker
    /// whether it has. Returns how many have not.
    pub fn partition_quit_workers(&mut self, quit: &Vec<bool>) -> (running: usize)
        requires
            quit@.len() == old(self)@.workers.len(),
        ensures
            final(self)@ == old(self)@.partitioned(quit@),
            running == with_flag(old(self)@.workers, quit@, false).len(),
    {
        let ghost all = self.workers@;
        let mut kept: Vec<usize> = Vec::new();
        let mut gone: Vec<usize> = Vec::new();
        let mut i: usize = 0;
        while i < self.workers.len()
            invariant
                i <= all.len(),
                *self == *old(self),
                all == self.workers@,
                quit@.len() == all.len(),
                kept@ == with_flag(all.take(i as int), quit@, false),
                gone@ == with_flag(all.take(i as int), quit@, true),
            decreases all.len() - i,
        {
            assert(all.take(i + 1).drop_last() =~= all.take(i as int));
            if quit[i] {
                gone.push(self.workers[i]);
            } else {
                kept.push(self.workers[i]);
            }
            i = i + 1;
        }
        assert(all.take(i as int) =~= all);
        let running: usize = kept.len();
        kept.append(&mut gone);
        self.workers = kept;
        running
    }

    /// Removes the workers that have quit and returns them, to be joined. `quit` says of each
    /// worker whether it has.
    pub fn respawn(&mut self, quit: &Vec<bool>) -> (retired: Vec<usize>)
        requires
            quit@.len() == old(self)@.workers.len(),
        ensures
            final(self)@ == old(self)@.without_quit(quit@),
            retired@ == with_flag(old(self)@.workers, quit@, true),
    {
        let i: usize = self.partition_quit_workers(quit);
        // Extract quit workers, which are to be joined
        let ghost kept = with_flag(old(self)@.workers, quit@, false);
        let ghost gone = with_flag(old(self)@.workers, quit@, true);
        let retired = self.workers.split_off(i);
        assert((kept + gone).subrange(0, i as int) =~= kept);
        assert((kept + gone).subrange(i as int, (kept + gone).len() as int) =~= gone);
        retired
    }

    /// The id of the worker to start next, if there is one missing.
    pub fn next_spawn(&self) -> (id: Option<usize>)
        ensures
            id == (if self@.missing() > 0 {
                Some(self@.next_id)
            } else {
                None
            }),
    {
        if self.workers.len() < self.size {
            Some(self.next_id)
        } else {
            None
        }
    }

    /// Takes the worker that was to be started next into the pool.
    pub fn spawned(&mut self)
        ensures
            final(self)@ == old(self)@.with_next(),
    {
        self.workers.push(self.next_id);
        self.next_id = self.next_id.wrapping_add(1);
    }

    /// Changes how many workers there should be.
    pub fn set_size(&mut self, size: usize) -> (resize: Resize)
        requires
            0 < size <= isize::MAX,
            old(self)@.size <= isize::MAX,
        ensures
            final(self)@ == old(self)@.resized(size as int),
            resize.diff == size - old(self)@.size,
            resize.quit == (if size < old(self)@.size {
                old(self)@.size - size
            } else {
                0
            }),
    {
        let diff: isize = size as isize - self.size as isize;
        // Stop extra workers
        let quit: usize = if size < self.size {
            self.size - size
        } else {
            0
        };
        // Update size
        self.size = size;
        Resize { diff, quit }
    }
}

/// Each worker is either kept or retired, according to its flag.
pub proof fn law_workers_are_kept_or_retired(pool: PoolState, quit: Seq<bool>)
    requires
        quit.len() == pool.workers.len(),
    ensures
        pool.partitioned(quit).workers.to_multiset() == pool.workers.to_multiset(),
        pool.without_quit(quit).workers.len() + with_flag(pool.workers, quit, true).len()
            == pool.workers.len(),
{
    lemma_kept_or_retired(pool.workers, quit);
}

proof fn lemma_kept_or_retired(workers: Seq<usize>, quit: Seq<bool>)
    requires
        quit.len() >= workers.len(),
    ensures
        (with_flag(workers, quit, false) + with_flag(workers, quit, true)).to_multiset()
            == workers.to_multiset(),
        with_flag(workers, quit, false).len() + with_flag(workers, quit, true).len()
            == workers.len(),
    decreases workers.len(),
{
    broadcast use vstd::seq_lib::group_to_multiset_ensures;

    let kept = with_flag(workers, quit, false);
    let gone = with_flag(workers, quit, true);
    if workers.len() > 0 {
        let front = workers.drop_last();
        let last = workers.last();
        lemma_kept_or_retired(front, quit);
        let front_kept = with_flag(front, quit, false);
        let front_gone = with_flag(front, quit, true);
        assert(workers =~= front.push(last));
        vstd::seq_lib::lemma_multiset_commutative(front_kept, front_gone);
        vstd::seq_lib::lemma_multiset_commutative(kept, gone);
        assert((kept + gone).to_multiset() =~= workers.to_multiset());
    } else {
        assert(kept + gone =~= workers);
    }
}

/// A worker is kept iff it has not quit, and those that are kept stay in order.
pub proof fn law_the_flags_decide(workers: Seq<usize>, quit: Seq<bool>, flag: bool, i: int)
    requires
        quit.len() == workers.len() + 1,
    ensures
        with_flag(Seq::empty(), quit, flag).len() == 0,
        forall|worker: usize| #[trigger]
            with_flag(workers.push(worker), quit, flag) == (if quit[workers.len() as int] == flag {
                with_flag(workers, quit, flag).push(worker)
            } else {
                with_flag(workers, quit, flag)
            }),
        0 <= i < workers.len() && quit[i] == flag ==> with_flag(workers, quit, flag).contains(
            workers[i],
        ),
    decreases workers.len(),
{
    assert forall|worker: usize| #[trigger]
        with_flag(workers.push(worker), quit, flag) == (if quit[workers.len() as int] == flag {
            with_flag(workers, quit, flag).push(worker)
        } else {
            with_flag(workers, quit, flag)
        }) by {
        assert(workers.push(worker).drop_last() =~= workers);
    }
    if 0 <= i < workers.len() && quit[i] == flag {
        lemma_kept(workers, quit, flag, i);
    }
}

proof fn lemma_kept(workers: Seq<usize>, quit: Seq<bool>, flag: bool, i: int)
    requires
        0 <= i < workers.len() <= quit.len(),
        quit[i] == flag,
    ensures
        with_flag(workers, quit, flag).contains(workers[i]),
    decreases workers.len(),
{
    let all = with_flag(workers, quit, flag);
    let front = workers.drop_last();
    if i == workers.len() - 1 {
        assert(all[all.len() - 1] == workers[i]);
    } else {
        lemma_kept(front, quit, flag, i);
        let kept = with_flag(front, quit, flag);
        let k = choose|k: int| 0 <= k < kept.len() && kept[k] == front[i];
        assert(all[k] == workers[i]);
    }
}

/// What each operation on a pool leaves as it is.
pub proof fn law_what_pools_keep(pool: PoolState, quit: Seq<bool>, size: int)
    ensures
        pool.resized(size).workers == pool.workers,
        pool.resized(size).size == size,
        pool.resized(size).next_id == pool.next_id,
        pool.without_quit(quit).size == pool.size,
        pool.without_quit(quit).next_id == pool.next_id,
        pool.with_next().size == pool.size,
        pool.with_next().workers == pool.workers.push(pool.next_id),
        pool.next_id < usize::MAX ==> pool.with_next().next_id == pool.next_id + 1,
        pool.next_id == usize::MAX ==> pool.with_next().next_id == 0,
        pool.missing() == (if pool.size > pool.workers.len() {
            pool.size - pool.workers.len()
        } else {
            0
        }),
{
}

/// Starting what is missing fills the pool.
pub proof fn law_spawning_fills_the_pool(pool: PoolState)
    ensures
        pool.filled().missing() == 0,
        pool.workers.len() <= pool.size ==> pool.filled().workers.len() == pool.size,
{
    lemma_more(pool, pool.missing() as nat);
}

proof fn lemma_more(pool: PoolState, n: nat)
    ensures
        pool.with_more(n).workers.len() == pool.workers.len() + n,
        pool.with_more(n).size == pool.size,
    decreases n,
{
    if n > 0 {
        lemma_more(pool, (n - 1) as nat);
    }
}

/// A full pool whose size is changed has as many workers as there should be, once those that were
/// told to quit have done so and what is missing was started.
pub proof fn law_a_resized_pool_reaches_its_size(pool: PoolState, size: int, quit: Seq<bool>)
    requires
        pool.workers.len() == pool.size,
        0 < size,
        quit.len() == pool.workers.len(),
        with_flag(pool.workers, quit, true).len() == (if size < pool.size {
            pool.size - size
        } else {
            0
        }),
    ensures
        pool.resized(size).without_quit(quit).filled().workers.len() == size,
{
    lemma_kept_or_retired(pool.workers, quit);
    law_spawning_fills_the_pool(pool.resized(size).without_quit(quit));
}

/// A worker that is started gets an id that no other one has, as long as the ids have not come
/// full circle.
pub proof fn law_ids_are_distinct(pool: PoolState)
    requires
        pool.has_distinct_ids(),
        pool.next_id < usize::MAX,
    ensures
        pool.with_next().has_distinct_ids(),
{
}

} // verus!
