//! What holds of a pool and all its threads, whatever happens to them and in whatever order.

use crate::util::task_pool::{self, Action, Event, Phase, PoolView, Spawned, CLOSED, MIN_THREADS};
use vstd::multiset::Multiset;
use vstd::prelude::*;

verus! {

/// A pool with all the threads it ever had, and with the tasks that have gone through it.
#[verifier::ext_equal]
pub struct History<T> {
    pub pool: PoolView<T>,
    pub threads: Seq<Phase<T>>,
    /// The threads that have been woken up, or whose time to wait is over, and that are about to
    /// look for work.
    pub stirring: Set<int>,
    /// By how much the count of active threads exceeds them: nothing until the pool is closed.
    pub surplus: int,
    /// The tasks that were put into the queue.
    pub queued: Seq<T>,
    /// The tasks that threads took from the queue.
    pub taken: Seq<T>,
    /// The tasks that were handed to the pool.
    pub handed_in: Multiset<T>,
    /// The tasks that threads were told to run, each as often as they were.
    pub run: Multiset<T>,
}

/// What can happen to a pool.
#[verifier::ext_equal]
pub enum Act<T> {
    /// A task is handed to the pool. Where that wakes up a waiting thread, it is the given one.
    Spawn(T, Option<int>),
    /// A thread is added, perhaps with a first task.
    AddThread(Option<T>),
    /// A waiting thread wakes up by itself, or because its time is over.
    Stir(int),
    /// An event happens to a thread.
    Step(int, Event),
    /// The pool is closed, and all threads are woken up.
    Close,
    /// Nothing happens.
    Rest,
}

/// The thread has started and not ended.
pub open spec fn is_active<T>(phase: Phase<T>) -> bool {
    phase is Running || phase is Waiting
}

/// How many threads are active.
pub open spec fn active_count<T>(threads: Seq<Phase<T>>) -> nat
    decreases threads.len(),
{
    if threads.len() == 0 {
        0
    } else {
        active_count(threads.drop_last()) + if is_active(threads.last()) {
            1nat
        } else {
            0nat
        }
    }
}

/// How many threads wait for work.
pub open spec fn waiting_count<T>(threads: Seq<Phase<T>>) -> nat
    decreases threads.len(),
{
    if threads.len() == 0 {
        0
    } else {
        waiting_count(threads.drop_last()) + if threads.last() is Waiting {
            1nat
        } else {
            0nat
        }
    }
}

/// The task that a thread is to run first, if it has not started.
pub open spec fn first_task<T>(phase: Phase<T>) -> Multiset<T> {
    match phase {
        Phase::Starting(Some(task)) => Multiset::singleton(task),
        _ => Multiset::empty(),
    }
}

/// The tasks that threads are to run first, of those that have not started.
pub open spec fn first_tasks<T>(threads: Seq<Phase<T>>) -> Multiset<T>
    decreases threads.len(),
{
    if threads.len() == 0 {
        Multiset::empty()
    } else {
        first_tasks(threads.drop_last()).add(first_task(threads.last()))
    }
}

impl<T> History<T> {
    /// The counters of the pool count its threads.
    pub open spec fn counts_threads(self) -> bool {
        &&& self.pool.active_tasks == active_count(self.threads) + self.surplus
        &&& self.pool.waiting_tasks == waiting_count(self.threads)
        &&& self.surplus >= 0
    }

    /// Each task that was handed in has been run once, or is in the queue, or is the first task of
    /// a thread that has not started. Nothing else has been run.
    pub open spec fn accounts_for_tasks(self) -> bool {
        self.handed_in == self.run.add(self.pool.todo.to_multiset()).add(first_tasks(self.threads))
    }

    /// The counters count the threads, the queue holds what was put into it and not yet taken, in
    /// the order in which it was put there, and no task is lost or run twice.
    pub open spec fn is_consistent(self) -> bool {
        &&& self.counts_threads()
        &&& self.queued == self.taken + self.pool.todo
        &&& self.accounts_for_tasks()
    }

    /// There is room in the counters for all the threads and one more.
    pub open spec fn fits_counters(self) -> bool {
        self.threads.len() + self.surplus < usize::MAX
    }

    /// The thread will look for tasks: it runs one and looks for the next one when that is done,
    /// or it waited for work and is being woken up.
    pub open spec fn attends(self, i: int) -> bool {
        &&& 0 <= i < self.threads.len()
        &&& self.threads[i] is Running || self.threads[i] is Waiting && self.stirring.contains(i)
    }

    /// Where there are tasks in the queue, there is a thread that will look for them.
    pub open spec fn is_attended(self) -> bool {
        self.pool.todo.len() > 0 ==> exists|i: int| self.attends(i)
    }

    /// The thread waits, and nothing has woken it up.
    pub open spec fn sleeps(self, i: int) -> bool {
        &&& 0 <= i < self.threads.len()
        &&& self.threads[i] is Waiting
        &&& !self.stirring.contains(i)
    }

    /// To wake up one thread is to wake up one that sleeps, whichever it is, if there is any.
    pub open spec fn may_wake(self, woken: Option<int>) -> bool {
        match woken {
            Some(i) => self.sleeps(i),
            None => forall|i: int| !self.sleeps(i),
        }
    }

    /// This can happen to the pool.
    pub open spec fn allows(self, act: Act<T>) -> bool {
        match act {
            Act::Spawn(_, woken) => self.pool.waiting_tasks > 0 ==> self.may_wake(woken),
            Act::AddThread(_) => true,
            Act::Stir(i) => 0 <= i < self.threads.len() && self.threads[i] is Waiting,
            Act::Step(i, event) => {
                &&& 0 <= i < self.threads.len()
                &&& task_pool::fits(self.threads[i], event)
                &&& event is Woken ==> self.stirring.contains(i)
            },
            Act::Close => self.threads.len() <= CLOSED,
            Act::Rest => true,
        }
    }

    /// A new pool with the threads it starts with.
    pub open spec fn start() -> History<T> {
        History {
            pool: PoolView::fresh(),
            threads: Seq::new(MIN_THREADS as nat, |i: int| Phase::Starting(None)),
            stirring: Set::empty(),
            surplus: 0,
            queued: Seq::empty(),
            taken: Seq::empty(),
            handed_in: Multiset::empty(),
            run: Multiset::empty(),
        }
    }

    /// An event happens to one of the threads.
    pub open spec fn step(self, i: int, event: Event) -> History<T> {
        let (pool, phase, action) = self.pool.step(self.threads[i], event);
        History {
            pool,
            threads: self.threads.update(i, phase),
            stirring: self.stirring.remove(i),
            taken: if pool.todo.len() < self.pool.todo.len() {
                self.taken.push(self.pool.todo[0])
            } else {
                self.taken
            },
            run: match action {
                Action::Run(task) => self.run.insert(task),
                _ => self.run,
            },
            ..self
        }
    }

    /// A task is handed to the pool.
    pub open spec fn spawn(self, code: T, woken: Option<int>) -> History<T> {
        let (pool, spawned) = self.pool.spawned(code);
        let handed_in = self.handed_in.insert(code);
        match spawned {
            Spawned::StartThread(phase) => History {
                pool,
                threads: self.threads.push(phase),
                handed_in,
                ..self
            },
            Spawned::NotifyOne => History {
                pool,
                stirring: match woken {
                    Some(i) => self.stirring.insert(i),
                    None => self.stirring,
                },
                queued: self.queued.push(code),
                handed_in,
                ..self
            },
        }
    }

    /// A thread is added.
    pub open spec fn add_thread(self, initial_fn: Option<T>) -> History<T> {
        History {
            threads: self.threads.push(Phase::Starting(initial_fn)),
            handed_in: match initial_fn {
                Some(task) => self.handed_in.insert(task),
                None => self.handed_in,
            },
            ..self
        }
    }

    /// The pool is closed.
    pub open spec fn close(self) -> History<T> {
        History {
            pool: self.pool.closed(),
            stirring: Set::new(|i: int| 0 <= i < self.threads.len()),
            surplus: CLOSED - active_count(self.threads),
            ..self
        }
    }

    /// Something happens to the pool.
    pub open spec fn next(self, act: Act<T>) -> History<T> {
        match act {
            Act::Spawn(code, woken) => self.spawn(code, woken),
            Act::AddThread(initial_fn) => self.add_thread(initial_fn),
            Act::Stir(i) => History { stirring: self.stirring.insert(i), ..self },
            Act::Step(i, event) => self.step(i, event),
            Act::Close => self.close(),
            Act::Rest => self,
        }
    }
}

proof fn lemma_update_of_threads<T>(threads: Seq<Phase<T>>, i: int, phase: Phase<T>)
    requires
        0 <= i < threads.len(),
    ensures
        active_count(threads.update(i, phase)) - active_count(threads) == (if is_active(phase) {
            1int
        } else {
            0int
        }) - (if is_active(threads[i]) {
            1int
        } else {
            0int
        }),
        waiting_count(threads.update(i, phase)) - waiting_count(threads) == (if phase is Waiting {
            1int
        } else {
            0int
        }) - (if threads[i] is Waiting {
            1int
        } else {
            0int
        }),
        first_tasks(threads.update(i, phase)).add(first_task(threads[i])) == first_tasks(
            threads,
        ).add(first_task(phase)),
    decreases threads.len(),
{
    let updated = threads.update(i, phase);
    if i == threads.len() - 1 {
        assert(updated.drop_last() =~= threads.drop_last());
    } else {
        lemma_update_of_threads(threads.drop_last(), i, phase);
        assert(updated.drop_last() =~= threads.drop_last().update(i, phase));
        let own = first_task(threads.last());
        assert(first_tasks(updated).add(first_task(threads[i])) =~= first_tasks(
            updated.drop_last(),
        ).add(first_task(threads[i])).add(own));
        assert(first_tasks(threads).add(first_task(phase)) =~= first_tasks(
            threads.drop_last(),
        ).add(first_task(phase)).add(own));
    }
    assert(first_tasks(updated).add(first_task(threads[i])) =~= first_tasks(threads).add(
        first_task(phase),
    ));
}

proof fn lemma_counts_are_bounded<T>(threads: Seq<Phase<T>>)
    ensures
        waiting_count(threads) <= active_count(threads) <= threads.len(),
    decreases threads.len(),
{
    if threads.len() > 0 {
        lemma_counts_are_bounded(threads.drop_last());
    }
}

proof fn lemma_thread_is_counted<T>(threads: Seq<Phase<T>>, i: int)
    requires
        0 <= i < threads.len(),
    ensures
        is_active(threads[i]) ==> active_count(threads) > 0,
        threads[i] is Waiting ==> waiting_count(threads) > 0,
    decreases threads.len(),
{
    if i < threads.len() - 1 {
        lemma_thread_is_counted(threads.drop_last(), i);
    }
}

proof fn lemma_some_thread_waits<T>(threads: Seq<Phase<T>>) -> (i: int)
    requires
        waiting_count(threads) > 0,
    ensures
        0 <= i < threads.len(),
        threads[i] is Waiting,
    decreases threads.len(),
{
    if threads.last() is Waiting {
        threads.len() - 1
    } else {
        lemma_some_thread_waits(threads.drop_last())
    }
}

proof fn lemma_none_active_at_start<T>(threads: Seq<Phase<T>>)
    requires
        forall|i: int| 0 <= i < threads.len() ==> #[trigger] threads[i] == Phase::Starting(None::<T>),
    ensures
        active_count(threads) == 0,
        waiting_count(threads) == 0,
        first_tasks(threads) == Multiset::<T>::empty(),
    decreases threads.len(),
{
    if threads.len() > 0 {
        lemma_none_active_at_start(threads.drop_last());
        assert(first_tasks(threads) =~= Multiset::<T>::empty());
    }
}

/// The queue without its oldest task, as a multiset.
proof fn lemma_queue_without_the_oldest<T>(todo: Seq<T>)
    requires
        todo.len() > 0,
    ensures
        todo.skip(1).to_multiset().insert(todo[0]) == todo.to_multiset(),
{
    broadcast use vstd::seq_lib::group_to_multiset_ensures;

    assert(todo.skip(1) =~= todo.remove(0));
    assert(todo.to_multiset().contains(todo[0]));
    assert(todo.skip(1).to_multiset().insert(todo[0]) =~= todo.to_multiset());
}

/// A new pool is consistent.
pub proof fn new_pool_is_consistent<T>()
    ensures
        History::<T>::start().is_consistent(),
        History::<T>::start().is_attended(),
{
    broadcast use vstd::seq_lib::group_to_multiset_ensures;

    let start = History::<T>::start();
    lemma_none_active_at_start(start.threads);
    assert(start.queued =~= start.taken + start.pool.todo);
    assert(start.pool.todo.to_multiset() =~= Multiset::<T>::empty());
    assert(start.handed_in =~= start.run.add(start.pool.todo.to_multiset()).add(
        first_tasks(start.threads),
    ));
}

proof fn lemma_step_is_consistent<T>(history: History<T>, i: int, event: Event)
    requires
        history.is_consistent(),
        history.fits_counters(),
        0 <= i < history.threads.len(),
        task_pool::fits(history.threads[i], event),
    ensures
        history.step(i, event).is_consistent(),
{
    let after = history.step(i, event);
    let before = history.threads[i];
    let (pool, phase, action) = history.pool.step(before, event);
    lemma_update_of_threads(history.threads, i, phase);
    lemma_counts_are_bounded(history.threads);
    lemma_thread_is_counted(history.threads, i);
    if pool.todo.len() < history.pool.todo.len() {
        assert(history.taken + history.pool.todo =~= history.taken.push(history.pool.todo[0])
            + history.pool.todo.skip(1));
        lemma_queue_without_the_oldest(history.pool.todo);
    }
    let firsts = first_tasks(history.threads);
    let firsts_after = first_tasks(after.threads);
    assert(first_task(phase) =~= Multiset::<T>::empty());
    assert(firsts_after.add(first_task(before)) =~= firsts);
    assert(after.run.add(after.pool.todo.to_multiset()).add(firsts_after) =~= history.handed_in);
}

proof fn lemma_new_thread_is_consistent<T>(history: History<T>, initial_fn: Option<T>)
    requires
        history.is_consistent(),
    ensures
        history.add_thread(initial_fn).is_consistent(),
{
    let after = history.add_thread(initial_fn);
    assert(after.threads.drop_last() =~= history.threads);
    assert(after.handed_in =~= after.run.add(after.pool.todo.to_multiset()).add(
        first_tasks(after.threads),
    ));
}

proof fn lemma_spawn_is_consistent<T>(history: History<T>, code: T, woken: Option<int>)
    requires
        history.is_consistent(),
    ensures
        history.spawn(code, woken).is_consistent(),
{
    broadcast use vstd::seq_lib::group_to_multiset_ensures;

    let after = history.spawn(code, woken);
    if history.pool.waiting_tasks == 0 {
        lemma_new_thread_is_consistent(history, Some(code));
        assert(after =~= history.add_thread(Some(code)));
    } else {
        assert(after.queued =~= after.taken + after.pool.todo);
        assert(after.handed_in =~= after.run.add(after.pool.todo.to_multiset()).add(
            first_tasks(after.threads),
        ));
    }
}

/// Whatever happens, a pool stays consistent: its counters go on counting its threads, tasks leave
/// the queue in the order in which they came, and each task that was handed in is run once or
/// still on its way.
pub proof fn pools_stay_consistent<T>(history: History<T>, act: Act<T>)
    requires
        history.is_consistent(),
        history.fits_counters(),
        history.allows(act),
    ensures
        history.next(act).is_consistent(),
{
    match act {
        Act::Spawn(code, woken) => lemma_spawn_is_consistent(history, code, woken),
        Act::AddThread(initial_fn) => lemma_new_thread_is_consistent(history, initial_fn),
        Act::Stir(_) => {},
        Act::Step(i, event) => lemma_step_is_consistent(history, i, event),
        Act::Close => lemma_counts_are_bounded(history.threads),
        Act::Rest => {},
    }
}

/// No task is run more often than it was handed in. Each is run as often once nothing is left in
/// the queue or with a thread that has not started.
pub proof fn tasks_are_run_at_most_once<T>(history: History<T>, code: T)
    requires
        history.is_consistent(),
    ensures
        history.run.count(code) <= history.handed_in.count(code),
        history.pool.todo.len() == 0 && first_tasks(history.threads) == Multiset::<T>::empty()
            ==> history.run.count(code) == history.handed_in.count(code),
{
    broadcast use vstd::seq_lib::group_to_multiset_ensures;

    if history.pool.todo.len() == 0 {
        assert(history.pool.todo.to_multiset() =~= Multiset::<T>::empty());
    }
}

/// The threads that wait for work are among the active ones.
pub proof fn waiting_threads_are_active<T>(history: History<T>)
    requires
        history.is_consistent(),
    ensures
        history.pool.waiting_tasks <= history.pool.active_tasks,
{
    lemma_counts_are_bounded(history.threads);
}

/// A task that is handed to a pool is not lost, and not run by the one who hands it in. Either a
/// thread is started that runs it first, or it is the last task in the queue and there is a thread
/// that will look for it.
pub proof fn spawned_tasks_find_a_thread<T>(history: History<T>, code: T, woken: Option<int>)
    requires
        history.is_consistent(),
        history.allows(Act::Spawn(code, woken)),
    ensures
        ({
            let after = history.spawn(code, woken);
            let thread = after.threads.last();
            &&& after.run == history.run
            &&& history.pool.waiting_tasks == 0 ==> after.threads.len() == history.threads.len() + 1
                && task_pool::fits(thread, Event::Started) && after.pool.step(
                thread,
                Event::Started,
            ).2 == Action::Run(code)
            &&& history.pool.waiting_tasks > 0 ==> after.threads == history.threads
                && after.pool.todo == history.pool.todo.push(code) && exists|i: int|
                after.attends(i)
        }),
{
    if history.pool.waiting_tasks > 0 {
        let after = history.spawn(code, woken);
        let i = lemma_some_thread_waits(history.threads);
        match woken {
            Some(j) => {
                assert(after.attends(j));
            },
            None => {
                assert(!history.sleeps(i));
                assert(after.attends(i));
            },
        }
    }
}

/// An event that is no panic, in a thread that will look for tasks, while there are tasks in the
/// queue: the thread takes the oldest one and runs it.
pub proof fn attending_threads_take_the_oldest_task<T>(history: History<T>, i: int, event: Event)
    requires
        history.attends(i),
        history.pool.todo.len() > 0,
        task_pool::fits(history.threads[i], event),
        event != Event::TaskPanicked,
    ensures
        history.pool.step(history.threads[i], event).2 == Action::Run(history.pool.todo[0]),
        history.step(i, event).taken == history.taken.push(history.pool.todo[0]),
        history.step(i, event).attends(i),
{
}

/// Tasks in the queue are not abandoned: whatever happens, there is a thread that will look for
/// them, unless a task panics in the only thread that would.
pub proof fn queued_tasks_are_not_abandoned<T>(history: History<T>, act: Act<T>)
    requires
        history.is_consistent(),
        history.is_attended(),
        history.allows(act),
        act matches Act::Step(i, Event::TaskPanicked) ==> exists|j: int|
            j != i && history.attends(j),
    ensures
        history.next(act).is_attended(),
{
    let after = history.next(act);
    match act {
        Act::Spawn(code, woken) => {
            spawned_tasks_find_a_thread(history, code, woken);
            if history.pool.waiting_tasks == 0 && after.pool.todo.len() > 0 {
                let i = choose|i: int| history.attends(i);
                assert(after.attends(i));
            }
        },
        Act::Step(i, event) => {
            if after.pool.todo.len() > 0 {
                if event == Event::TaskPanicked {
                    let j = choose|j: int| j != i && history.attends(j);
                    assert(after.attends(j));
                } else {
                    assert(after.attends(i));
                }
            }
        },
        _ => {
            if after.pool.todo.len() > 0 {
                let i = choose|i: int| history.attends(i);
                assert(after.attends(i));
            }
        },
    }
}

/// A thread ends only when its task panics, or when its time to wait was limited and is over and
/// there is no task in the queue.
pub proof fn threads_end_only_without_work<T>(pool: PoolView<T>, phase: Phase<T>, event: Event)
    requires
        task_pool::fits(phase, event),
    ensures
        pool.step(phase, event).2 == Action::<T>::Exit <==> event == Event::TaskPanicked || (event
            == Event::Woken(true) && phase == Phase::<T>::Waiting(true) && pool.todo.len() == 0),
        pool.step(phase, event).2 == Action::<T>::Exit <==> pool.step(phase, event).1 == Phase::<
            T,
        >::Ended,
{
}

/// A pool that is closed counts more active threads than it keeps for good, and wakes up all that
/// wait.
pub proof fn closing_wakes_all_threads<T>(history: History<T>)
    requires
        history.is_consistent(),
        history.threads.len() + MIN_THREADS < CLOSED,
    ensures
        history.close().surplus > MIN_THREADS,
        forall|i: int| !(#[trigger] history.close().sleeps(i)),
{
    lemma_counts_are_bounded(history.threads);
}

/// In a pool that has been closed no thread waits without limit any more. So each of them ends
/// once it has waited in vain.
pub proof fn closed_pools_run_dry<T>(history: History<T>, i: int, event: Event)
    requires
        history.is_consistent(),
        history.fits_counters(),
        history.surplus > MIN_THREADS,
        0 <= i < history.threads.len(),
        task_pool::fits(history.threads[i], event),
    ensures
        history.step(i, event).surplus == history.surplus,
        history.pool.step(history.threads[i], event).2 != Action::<T>::Wait,
        history.step(i, event).threads[i] != Phase::<T>::Waiting(false),
{
    lemma_counts_are_bounded(history.threads);
    lemma_thread_is_counted(history.threads, i);
}

} // verus!
