//! Pools of threads: what a thread does, and how the pool counts.

use crate::laws::words;
use crate::util::task_pool::{Action, Event, Phase, PoolView, Registration, Spawned, TaskPool, Worker};
use vstd::prelude::*;

verus! {

/// A new pool has no task, and counts no thread. It is to have four threads, without a task of
/// their own.
pub proof fn pools_start_with_four_threads<T>(made: (TaskPool<T>, Vec<Worker<T>>))
    requires
        call_ensures(TaskPool::<T>::new, (), made),
    ensures
        made.0@.todo.len() == 0,
        made.0@.active_tasks == 0,
        made.0@.waiting_tasks == 0,
        made.1@.len() == 4,
        forall|i: int|
            0 <= i < 4 ==> (#[trigger] made.1@[i])@ == Phase::Starting(None::<T>),
{
}

/// A task that is handed in gets a thread of its own exactly when no thread waits. Otherwise it is
/// the last one in the queue.
pub proof fn tasks_get_a_thread_or_queue_up<T>(
    pool: &mut TaskPool<T>,
    code: T,
    spawned: Spawned<Worker<T>>,
)
    requires
        call_ensures(TaskPool::<T>::spawn, (pool, code), spawned),
    ensures
        final(pool)@.active_tasks == old(pool)@.active_tasks,
        final(pool)@.waiting_tasks == old(pool)@.waiting_tasks,
        spawned is StartThread <==> old(pool)@.waiting_tasks == 0,
        spawned matches Spawned::StartThread(worker) ==> worker@ == Phase::Starting(Some(code))
            && final(pool)@.todo == old(pool)@.todo,
        spawned is NotifyOne ==> {
            &&& final(pool)@.todo.len() == old(pool)@.todo.len() + 1
            &&& final(pool)@.todo.drop_last() == old(pool)@.todo
            &&& final(pool)@.todo.last() == code
        },
{
    if spawned is NotifyOne {
        assert(final(pool)@.todo.drop_last() =~= old(pool)@.todo);
    }
}

/// A thread that is added starts with the task that it was given. Closing a pool changes the count
/// of its active threads only, to one that is never reached.
pub proof fn threads_are_added_and_pools_closed<T>(
    pool: TaskPool<T>,
    initial_fn: Option<T>,
    worker: Worker<T>,
    closed: &mut TaskPool<T>,
)
    requires
        call_ensures(TaskPool::<T>::add_thread, (&pool, initial_fn), worker),
        call_ensures(TaskPool::<T>::close, (closed,), ()),
    ensures
        worker@ == Phase::Starting(initial_fn),
        final(closed)@.todo == old(closed)@.todo,
        final(closed)@.waiting_tasks == old(closed)@.waiting_tasks,
        final(closed)@.active_tasks == 999_999_999,
{
}

/// What can happen to a thread depends on what it is doing.
pub open spec fn can_happen<T>(phase: Phase<T>, event: Event) -> bool {
    match event {
        Event::Started => phase is Starting,
        Event::TaskDone => phase is Running,
        Event::TaskPanicked => phase is Running,
        Event::Woken(_) => phase is Waiting,
    }
}

/// The thread has a task to run: one of its own to start with, or one in the queue to look for.
pub open spec fn has_work<T>(pool: PoolView<T>, phase: Phase<T>, event: Event) -> bool {
    &&& event != Event::TaskPanicked
    &&& (phase matches Phase::Starting(Some(_))) || pool.todo.len() > 0
}

/// The thread has waited for as long as it was to wait.
pub open spec fn has_waited<T>(phase: Phase<T>, event: Event) -> bool {
    phase == Phase::<T>::Waiting(true) && event == Event::Woken(true)
}

/// What a thread does next. It ends when its task has panicked, and when it has no work and has
/// waited for as long as it was to wait. It runs its own first task, or the oldest in the queue, which
/// is then no longer there. Otherwise it waits: without limit while no more than four threads are
/// active, and else for five seconds.
pub proof fn threads_run_wait_or_end<T>(
    worker: Worker<T>,
    pool: &mut TaskPool<T>,
    event: Event,
    next: (Worker<T>, Action<T>),
)
    requires
        can_happen(worker@, event),
        call_ensures(Worker::<T>::step, (worker, pool, event), next),
    ensures
        next.1 is Exit <==> event == Event::TaskPanicked || has_waited(worker@, event) && !has_work(
            old(pool)@,
            worker@,
            event,
        ),
        next.1 is Run <==> has_work(old(pool)@, worker@, event),
        worker@ matches Phase::Starting(Some(task)) ==> next.1 == Action::Run(task) && final(pool)@.todo == old(pool)@.todo,
        next.1 is Run && !(worker@ matches Phase::Starting(Some(_))) ==> {
            &&& next.1 == Action::Run(old(pool)@.todo[0])
            &&& final(pool)@.todo == old(pool)@.todo.subrange(1, old(pool)@.todo.len() as int)
        },
        !(next.1 is Run) ==> final(pool)@.todo == old(pool)@.todo,
        next.1 is Wait ==> final(pool)@.active_tasks <= 4,
        next.1 matches Action::WaitTimeout(millis) ==> millis == 5000 && final(pool)@.active_tasks
            > 4,
        next.1 is Exit <==> next.0@ == Phase::<T>::Ended,
        next.1 is Run <==> next.0@ == Phase::<T>::Running,
        next.1 is Wait <==> next.0@ == Phase::<T>::Waiting(false),
        next.1 is WaitTimeout <==> next.0@ == Phase::<T>::Waiting(true),
{
    if old(pool)@.todo.len() > 0 {
        assert(old(pool)@.todo.skip(1) =~= old(pool)@.todo.subrange(
            1,
            old(pool)@.todo.len() as int,
        ));
    }
}

/// How a pool counts. A thread is active from its start to its end, and waits from one event to the
/// next.
pub proof fn threads_are_counted<T>(
    worker: Worker<T>,
    pool: &mut TaskPool<T>,
    event: Event,
    next: (Worker<T>, Action<T>),
)
    requires
        can_happen(worker@, event),
        call_ensures(Worker::<T>::step, (worker, pool, event), next),
    ensures
        final(pool)@.active_tasks == if event == Event::Started {
            words::one_more(old(pool)@.active_tasks)
        } else if next.1 is Exit {
            words::one_less(old(pool)@.active_tasks)
        } else {
            old(pool)@.active_tasks as int
        },
        final(pool)@.waiting_tasks == if worker@ is Waiting && !(next.0@ is Waiting) {
            words::one_less(old(pool)@.waiting_tasks)
        } else if !(worker@ is Waiting) && next.0@ is Waiting {
            words::one_more(old(pool)@.waiting_tasks)
        } else {
            old(pool)@.waiting_tasks as int
        },
{
}

/// A thread can take each event that can happen to it.
pub proof fn events_fit_what_threads_do<T>(worker: Worker<T>, pool: &mut TaskPool<T>, event: Event)
    requires
        can_happen(worker@, event),
    ensures
        call_requires(Worker::<T>::step, (worker, pool, event)),
{
}

/// A registration counts one more, and its release one less.
pub proof fn registrations_count(
    up: &mut usize,
    registration: Registration,
    down: &mut usize,
    other: Registration,
)
    requires
        call_ensures(Registration::new, (up,), registration),
        call_ensures(Registration::release, (other, down), ()),
    ensures
        *final(up) == words::one_more(*old(up)),
        *final(down) == words::one_less(*old(down)),
{
}

} // verus!
