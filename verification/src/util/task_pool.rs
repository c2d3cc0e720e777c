//! A pool of threads, as the decisions that its threads take.
//!
//! The pool is a queue of tasks and two counters, which its threads share under one lock. Each
//! thread has a `Worker`. What happens to the thread is an event; `Worker::step` takes the event
//! and says what the thread does next.

use std::collections::VecDeque;
use vstd::prelude::*;

verus! {

/// The threads that a pool starts with, and up to which a thread without work stays for good.
pub const MIN_THREADS: usize = 4;

/// How many milliseconds a thread beyond those waits for work.
pub const IDLE_MILLIS: u64 = 5_000;

/// The count of active threads that a closed pool goes on from.
pub const CLOSED: usize = 999_999_999;

/// A pool as values.
#[verifier::ext_equal]
pub struct PoolView<T> {
    /// The tasks that no thread has taken yet.
    pub todo: Seq<T>,
    /// The threads that have started and not ended.
    pub active_tasks: usize,
    /// The threads among them that wait for work.
    pub waiting_tasks: usize,
}

/// What a thread is doing.
#[verifier::ext_equal]
pub enum Phase<T> {
    /// It was made, perhaps with a task of its own, and has not run yet.
    Starting(Option<T>),
    /// It runs a task.
    Running,
    /// It waits for work, for a limited time or not.
    Waiting(bool),
    /// It is over.
    Ended,
}

/// What happens to a thread.
#[derive(Debug, Clone, Copy, PartialEq, Eq, Structural)]
pub enum Event {
    /// The thread began to run.
    Started,
    /// Its task returned.
    TaskDone,
    /// Its task panicked.
    TaskPanicked,
    /// It was woken up while it waited; with `true`, because its time was over.
    Woken(bool),
}

/// What a thread does next.
#[verifier::ext_equal]
pub enum Action<T> {
    /// Run the given code.
    Run(T),
    /// Wait until there may be work.
    Wait,
    /// The same, but no longer than so many milliseconds.
    WaitTimeout(u64),
    /// End.
    Exit,
}

/// What follows from a task being handed to the pool.
#[verifier::ext_equal]
pub enum Spawned<W> {
    /// A thread is started with this worker.
    StartThread(W),
    /// One of the waiting threads is woken up.
    NotifyOne,
}

/// The event can happen to a thread in this phase.
pub open spec fn fits<T>(phase: Phase<T>, event: Event) -> bool {
    match event {
        Event::Started => phase is Starting,
        Event::TaskDone => phase is Running,
        Event::TaskPanicked => phase is Running,
        Event::Woken(_) => phase is Waiting,
    }
}

impl<T> PoolView<T> {
    /// A pool before any thread has started.
    pub open spec fn fresh() -> PoolView<T> {
        PoolView { todo: Seq::empty(), active_tasks: 0, waiting_tasks: 0 }
    }

    /// A thread looks for work. It takes the oldest task. Without one it waits, for a limited time
    /// if more threads are active than the pool keeps for good.
    pub open spec fn take(self) -> (PoolView<T>, Phase<T>, Action<T>) {
        if self.todo.len() > 0 {
            (
                PoolView { todo: self.todo.skip(1), ..self },
                Phase::Running,
                Action::Run(self.todo[0]),
            )
        } else {
            let timed = self.active_tasks > MIN_THREADS;
            (
                PoolView { waiting_tasks: self.waiting_tasks.wrapping_add(1), ..self },
                Phase::Waiting(timed),
                if timed {
                    Action::WaitTimeout(IDLE_MILLIS)
                } else {
                    Action::Wait
                },
            )
        }
    }

    /// An event that fits its phase happens to a thread of the pool.
    pub open spec fn step(self, phase: Phase<T>, event: Event) -> (
        PoolView<T>,
        Phase<T>,
        Action<T>,
    ) {
        match (phase, event) {
            (Phase::Starting(initial), Event::Started) => {
                let pool = PoolView { active_tasks: self.active_tasks.wrapping_add(1), ..self };
                match initial {
                    Some(task) => (pool, Phase::Running, Action::Run(task)),
                    None => pool.take(),
                }
            },
            (Phase::Running, Event::TaskDone) => self.take(),
            (Phase::Waiting(timed), Event::Woken(timed_out)) => {
                let pool = PoolView { waiting_tasks: self.waiting_tasks.wrapping_sub(1), ..self };
                if timed && timed_out && pool.todo.len() == 0 {
                    (
                        PoolView { active_tasks: pool.active_tasks.wrapping_sub(1), ..pool },
                        Phase::Ended,
                        Action::Exit,
                    )
                } else {
                    pool.take()
                }
            },
            (Phase::Running, Event::TaskPanicked) => (
                PoolView { active_tasks: self.active_tasks.wrapping_sub(1), ..self },
                Phase::Ended,
                Action::Exit,
            ),
            _ => (self, phase, Action::Exit),
        }
    }

    /// A task is handed to the pool. If no thread waits, a thread is started with it. Otherwise it
    /// goes to the end of the queue, and a waiting thread is woken up.
    pub open spec fn spawned(self, code: T) -> (PoolView<T>, Spawned<Phase<T>>) {
        if self.waiting_tasks == 0 {
            (self, Spawned::StartThread(Phase::Starting(Some(code))))
        } else {
            (PoolView { todo: self.todo.push(code), ..self }, Spawned::NotifyOne)
        }
    }

    /// The pool is closed: from now on more threads count as active than are kept for good.
    pub open spec fn closed(self) -> PoolView<T> {
        PoolView { active_tasks: CLOSED, ..self }
    }
}

/// A thread that is counted. Counters wrap around as atomic ones do.
pub struct Registration {
    registered: (),
}

impl Registration {
    /// Counts one more.
    pub fn new(nb: &mut usize) -> (r: Registration)
        ensures
            *final(nb) == (*old(nb)).wrapping_add(1),
    {
        *nb = nb.wrapping_add(1);
        Registration { registered: () }
    }

    /// Counts one less.
    pub fn release(self, nb: &mut usize)
        ensures
            *final(nb) == (*old(nb)).wrapping_sub(1),
    {
        *nb = nb.wrapping_sub(1);
    }
}

/// Manages a collection of threads.
pub struct TaskPool<T> {
    todo: VecDeque<T>,
    active_tasks: usize,
    waiting_tasks: usize,
}

impl<T> View for TaskPool<T> {
    type V = PoolView<T>;

    closed spec fn view(&self) -> PoolView<T> {
        PoolView {
            todo: self.todo@,
            active_tasks: self.active_tasks,
            waiting_tasks: self.waiting_tasks,
        }
    }
}

enum State<T> {
    Starting(Option<T>),
    Running(Registration),
    Waiting(Registration, Registration, bool),
    Ended,
}

/// The part of a pool that belongs to one thread.
pub struct Worker<T> {
    state: State<T>,
}

impl<T> View for Worker<T> {
    type V = Phase<T>;

    closed spec fn view(&self) -> Phase<T> {
        match self.state {
            State::Starting(initial) => Phase::Starting(initial),
            State::Running(_) => Phase::Running,
            State::Waiting(_, _, timed) => Phase::Waiting(timed),
            State::Ended => Phase::Ended,
        }
    }
}

impl<T> TaskPool<T> {
    /// Makes a pool, and the workers of the threads that it starts with.
    pub fn new() -> (r: (TaskPool<T>, Vec<Worker<T>>))
        ensures
            r.0@ == PoolView::<T>::fresh(),
            r.1@.len() == MIN_THREADS,
            forall|i: int|
                0 <= i < r.1@.len() ==> (#[trigger] r.1@[i])@ == Phase::Starting(None::<T>),
    {
        let pool = TaskPool { todo: VecDeque::new(), active_tasks: 0, waiting_tasks: 0 };
        let mut workers: Vec<Worker<T>> = Vec::new();
        while workers.len() < MIN_THREADS
            invariant
                workers.len() <= MIN_THREADS,
                forall|i: int|
                    0 <= i < workers@.len() ==> (#[trigger] workers@[i])@ == Phase::Starting(
                        None::<T>,
                    ),
            decreases MIN_THREADS - workers.len(),
        {
            workers.push(pool.add_thread(None));
        }
        (pool, workers)
    }

    /// Hands a task to the pool.
    pub fn spawn(&mut self, code: T) -> (r: Spawned<Worker<T>>)
        ensures
            final(self)@ == old(self)@.spawned(code).0,
            match r {
                Spawned::StartThread(worker) => old(self)@.spawned(code).1
                    == Spawned::StartThread(worker@),
                Spawned::NotifyOne => old(self)@.spawned(code).1
                    == Spawned::<Phase<T>>::NotifyOne,
            },
    {
        if self.waiting_tasks == 0 {
            Spawned::StartThread(self.add_thread(Some(code)))
        } else {
            self.todo.push_back(code);
            Spawned::NotifyOne
        }
    }

    /// The worker of a new thread, with a first task or without one.
    pub fn add_thread(&self, initial_fn: Option<T>) -> (r: Worker<T>)
        ensures
            r@ == Phase::Starting(initial_fn),
    {
        Worker { state: State::Starting(initial_fn) }
    }

    /// Closes the pool. All waiting threads are then to be woken up.
    pub fn close(&mut self)
        ensures
            final(self)@ == old(self)@.closed(),
    {
        self.active_tasks = CLOSED;
    }
}

impl<T> Worker<T> {
    /// Takes an event, and says what the thread does next.
    pub fn step(self, pool: &mut TaskPool<T>, event: Event) -> (r: (Worker<T>, Action<T>))
        requires
            fits(self@, event),
        ensures
            (final(pool)@, r.0@, r.1) == old(pool)@.step(self@, event),
    {
        match (self.state, event) {
            (State::Starting(initial), Event::Started) => {
                let active = Registration::new(&mut pool.active_tasks);
                match initial {
                    Some(task) => (Worker { state: State::Running(active) }, Action::Run(task)),
                    None => Worker::take(pool, active),
                }
            },
            (State::Running(active), Event::TaskDone) => Worker::take(pool, active),
            (State::Waiting(active, waiting, timed), Event::Woken(timed_out)) => {
                waiting.release(&mut pool.waiting_tasks);
                if timed && timed_out && pool.todo.len() == 0 {
                    active.release(&mut pool.active_tasks);
                    (Worker { state: State::Ended }, Action::Exit)
                } else {
                    Worker::take(pool, active)
                }
            },
            (State::Running(active), Event::TaskPanicked) => {
                active.release(&mut pool.active_tasks);
                (Worker { state: State::Ended }, Action::Exit)
            },
            _ => (Worker { state: State::Ended }, Action::Exit),
        }
    }

    fn take(pool: &mut TaskPool<T>, active: Registration) -> (r: (Worker<T>, Action<T>))
        ensures
            (final(pool)@, r.0@, r.1) == old(pool)@.take(),
    {
        match pool.todo.pop_front() {
            Some(task) => {
                assert(pool@.todo =~= old(pool)@.todo.skip(1));
                (Worker { state: State::Running(active) }, Action::Run(task))
            },
            None => {
                let waiting = Registration::new(&mut pool.waiting_tasks);
                if pool.active_tasks <= MIN_THREADS {
                    (Worker { state: State::Waiting(active, waiting, false) }, Action::Wait)
                } else {
                    (
                        Worker { state: State::Waiting(active, waiting, true) },
                        Action::WaitTimeout(IDLE_MILLIS),
                    )
                }
            },
        }
    }
}

} // verus!
