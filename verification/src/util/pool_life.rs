//! What becomes of tasks and threads over the whole life of a pool.

use crate::util::pool_history::{self, Act, History};
use crate::util::task_pool::{Action, Event, Phase, CLOSED, MIN_THREADS};
use vstd::prelude::*;

verus! {

/// The life of a pool: what it is like at each moment, and what happens to it then.
pub struct Life<T> {
    pub moments: spec_fn(nat) -> History<T>,
    pub acts: spec_fn(nat) -> Act<T>,
}

/// Where a task is kept until it is run. Each place is for one task only.
#[verifier::ext_equal]
pub enum Place {
    /// With the thread that runs it first.
    Thread(int),
    /// In the queue, behind so many tasks that were ever put there.
    Queue(int),
}

impl<T> Life<T> {
    /// The pool at a moment.
    pub open spec fn at(self, n: nat) -> History<T> {
        (self.moments)(n)
    }

    /// What happens at a moment.
    pub open spec fn act(self, n: nat) -> Act<T> {
        (self.acts)(n)
    }

    /// The life is that of a pool: it begins as a new one, and at each moment something happens
    /// that can happen, with what follows from it. There is always room in the counters.
    pub open spec fn is_possible(self) -> bool {
        &&& self.at(0) == History::<T>::start()
        &&& forall|n: nat|
            {
                let act = #[trigger] self.act(n);
                &&& self.at(n).allows(act)
                &&& self.at(n).fits_counters()
                &&& self.at(n + 1) == self.at(n).next(act)
            }
    }

    /// The task is handed in at a moment, alone or with a thread that is added for it.
    pub open spec fn hands_in(self, n: nat, code: T) -> bool {
        match self.act(n) {
            Act::Spawn(task, _) => task == code,
            Act::AddThread(Some(task)) => task == code,
            _ => false,
        }
    }

    /// Where a task that is handed in at a moment is kept.
    pub open spec fn place(self, n: nat) -> Place {
        if self.act(n) is Spawn && self.at(n).pool.waiting_tasks > 0 {
            Place::Queue(self.at(n).queued.len() as int)
        } else {
            Place::Thread(self.at(n).threads.len() as int)
        }
    }

    /// A thread of the pool starts to run the task at a moment.
    pub open spec fn runs(self, n: nat, code: T) -> bool {
        match self.act(n) {
            Act::Step(i, event) => self.at(n).pool.step(self.at(n).threads[i], event).2
                == Action::Run(code),
            _ => false,
        }
    }

    /// A thread of the pool starts to run the task that was kept in a place.
    pub open spec fn runs_from(self, n: nat, place: Place) -> bool {
        match self.act(n) {
            Act::Step(i, event) => {
                let thread = self.at(n).threads[i];
                &&& self.at(n).pool.step(thread, event).2 is Run
                &&& place == if thread matches Phase::Starting(Some(_)) {
                    Place::Thread(i)
                } else {
                    Place::Queue(self.at(n).taken.len() as int)
                }
            },
            _ => false,
        }
    }

    /// A thread has started to run the task of a place before a moment.
    pub open spec fn has_run(self, n: nat, place: Place) -> bool {
        exists|m: nat| m < n && #[trigger] self.runs_from(m, place)
    }

    /// Something happens to the thread at a moment.
    pub open spec fn moves(self, n: nat, i: int) -> bool {
        self.act(n) matches Act::Step(j, _) && i == j
    }

    /// The thread is about to start, or runs a task, or is being woken up: it need not wait for
    /// anything but its task and its turn.
    pub open spec fn is_busy(self, n: nat, i: int) -> bool {
        ||| 0 <= i < self.at(n).threads.len() && self.at(n).threads[i] is Starting
        ||| self.at(n).attends(i)
    }

    /// Until the task of a place is run, each thread that is busy goes on at some moment, so that
    /// the other tasks return, and none of them panics.
    pub open spec fn others_return(self, place: Place) -> bool {
        &&& forall|n: nat, i: int| #[trigger]
            self.is_busy(n, i) && !self.has_run(n, place) ==> exists|m: nat|
                n <= m && #[trigger] self.moves(m, i)
        &&& forall|n: nat|
            !self.has_run(n, place) ==> !(#[trigger] self.act(n) matches Act::Step(
                _,
                Event::TaskPanicked,
            ))
    }

    /// The pool is closed at a moment, after which nobody hands it anything. It has had fewer
    /// threads than a closed pool counts.
    pub open spec fn closes(self, n: nat) -> bool {
        &&& self.act(n) is Close
        &&& self.at(n).threads.len() + MIN_THREADS < CLOSED
        &&& forall|m: nat|
            n < m ==> !(#[trigger] self.act(m) is Spawn) && !(self.act(m) is AddThread)
    }

    /// The thread waits for work, for a limited time.
    pub open spec fn waits_briefly(self, n: nat, i: int) -> bool {
        0 <= i < self.at(n).threads.len() && self.at(n).threads[i] == Phase::<T>::Waiting(true)
    }

    /// The thread does not wait, or its time to wait is over.
    pub open spec fn waits_no_longer(self, n: nat, i: int) -> bool {
        !self.waits_briefly(n, i) || self.act(n) == Act::<T>::Step(i, Event::Woken(true))
    }

    /// All threads have ended.
    pub open spec fn is_over(self, n: nat) -> bool {
        forall|i: int|
            0 <= i < self.at(n).threads.len() ==> (#[trigger] self.at(n).threads[i]) is Ended
    }

    /// From a moment on each thread that is busy goes on at some moment, so that its task returns
    /// or panics, and each limited time to wait is over at some moment.
    pub open spec fn goes_on_after(self, n: nat) -> bool {
        &&& forall|m: nat, i: int|
            n < m && #[trigger] self.is_busy(m, i) ==> exists|k: nat|
                m <= k && #[trigger] self.moves(k, i)
        &&& forall|m: nat, i: int|
            n < m && #[trigger] self.waits_briefly(m, i) ==> exists|k: nat|
                m <= k && #[trigger] self.waits_no_longer(k, i)
    }
}

/// A pool is consistent at each moment of its life.
pub proof fn pools_are_always_consistent<T>(life: Life<T>, n: nat)
    requires
        life.is_possible(),
    ensures
        life.at(n).is_consistent(),
    decreases n,
{
    if n == 0 {
        pool_history::new_pool_is_consistent::<T>();
    } else {
        let m = (n - 1) as nat;
        pools_are_always_consistent(life, m);
        pool_history::pools_stay_consistent(life.at(m), life.act(m));
    }
}

/// Nothing leaves the history of a pool: threads, tasks that were queued and tasks that were taken
/// stay there, and a thread that has started does not start again.
proof fn lemma_history_grows<T>(life: Life<T>, n: nat, m: nat)
    requires
        life.is_possible(),
        n <= m,
    ensures
        life.at(n).threads.len() <= life.at(m).threads.len(),
        life.at(n).taken.len() <= life.at(m).taken.len(),
        life.at(n).queued.len() <= life.at(m).queued.len(),
        forall|p: int|
            0 <= p < life.at(n).queued.len() ==> #[trigger] life.at(m).queued[p] == life.at(
                n,
            ).queued[p],
        forall|i: int|
            0 <= i < life.at(n).threads.len() && #[trigger] life.at(m).threads[i] is Starting
                ==> life.at(m).threads[i] == life.at(n).threads[i],
    decreases m - n,
{
    if n < m {
        let before = (m - 1) as nat;
        lemma_history_grows(life, n, before);
        let act = life.act(before);
        let history = life.at(before);
        assert(life.at(before + 1) == history.next(act));
        assert forall|i: int|
            0 <= i < life.at(n).threads.len() && #[trigger] life.at(m).threads[i] is Starting
            implies life.at(m).threads[i] == life.at(n).threads[i] by {
            assert(history.threads[i] == life.at(m).threads[i]);
        }
    }
}

/// After a task is handed in, it is in its place, or has left it.
proof fn lemma_placed<T>(life: Life<T>, code: T, n: nat, m: nat)
    requires
        life.is_possible(),
        life.hands_in(n, code),
        n < m,
    ensures
        match life.place(n) {
            Place::Thread(i) => {
                &&& 0 <= i < life.at(m).threads.len()
                &&& life.at(m).threads[i] is Starting ==> life.at(m).threads[i]
                    == Phase::Starting(Some(code))
            },
            Place::Queue(p) => 0 <= p < life.at(m).queued.len() && life.at(m).queued[p] == code,
        },
{
    let act = life.act(n);
    assert(life.at(n + 1) == life.at(n).next(act));
    lemma_history_grows(life, n + 1, m);
}

/// While the other tasks return, there is always a thread that will look for the tasks in the
/// queue.
proof fn lemma_attended<T>(life: Life<T>, place: Place, n: nat)
    requires
        life.is_possible(),
        life.others_return(place),
        forall|m: nat| !(#[trigger] life.runs_from(m, place)),
    ensures
        life.at(n).is_attended(),
    decreases n,
{
    if n == 0 {
        pool_history::new_pool_is_consistent::<T>();
    } else {
        let m = (n - 1) as nat;
        lemma_attended(life, place, m);
        pools_are_always_consistent(life, m);
        let act = life.act(m);
        assert(!life.has_run(m, place));
        pool_history::queued_tasks_are_not_abandoned(life.at(m), act);
    }
}

/// A thread that is to run a task first does not change until it does.
proof fn lemma_starting_thread_stays<T>(life: Life<T>, code: T, i: int, n: nat, m: nat)
    requires
        life.is_possible(),
        n <= m,
        0 <= i < life.at(n).threads.len(),
        life.at(n).threads[i] == Phase::Starting(Some(code)),
        forall|k: nat| !(#[trigger] life.runs_from(k, Place::Thread(i))),
    ensures
        0 <= i < life.at(m).threads.len(),
        life.at(m).threads[i] == Phase::Starting(Some(code)),
        !life.moves(m, i),
    decreases m - n,
{
    if m > n {
        let before = (m - 1) as nat;
        lemma_starting_thread_stays(life, code, i, n, before);
        let act = life.act(before);
        assert(life.at(before + 1) == life.at(before).next(act));
    }
    let act = life.act(m);
    assert(!life.runs_from(m, Place::Thread(i)));
}

/// Tasks are not taken beyond one that is not run.
proof fn lemma_queued_task_stays<T>(life: Life<T>, p: int, n: nat, m: nat)
    requires
        life.is_possible(),
        n <= m,
        life.at(n).taken.len() <= p < life.at(n).queued.len(),
        forall|k: nat| !(#[trigger] life.runs_from(k, Place::Queue(p))),
    ensures
        life.at(m).taken.len() <= p < life.at(m).queued.len(),
    decreases m - n,
{
    if m > n {
        let before = (m - 1) as nat;
        lemma_queued_task_stays(life, p, n, before);
        let history = life.at(before);
        let act = life.act(before);
        assert(life.at(before + 1) == history.next(act));
        assert(!life.runs_from(before, Place::Queue(p)));
    }
}

/// From one moment to the next, threads that will look for tasks still will, unless something
/// happens to them.
proof fn lemma_attending_thread_stays<T>(life: Life<T>, n: nat, i: int)
    requires
        life.is_possible(),
        life.at(n).attends(i),
        !life.moves(n, i),
    ensures
        life.at(n + 1).attends(i),
{
    let act = life.act(n);
    assert(life.at(n + 1) == life.at(n).next(act));
}

/// When something happens to a thread that will look for tasks, one more task has been taken.
proof fn lemma_one_more_is_taken<T>(life: Life<T>, p: int, i: int, n: nat, m: nat) -> (later: nat)
    requires
        life.is_possible(),
        life.others_return(Place::Queue(p)),
        n <= m,
        life.at(n).attends(i),
        life.moves(m, i),
        life.at(n).taken.len() <= p < life.at(n).queued.len(),
        forall|k: nat| !(#[trigger] life.runs_from(k, Place::Queue(p))),
    ensures
        n < later,
        life.at(n).taken.len() < life.at(later).taken.len(),
    decreases m - n,
{
    if life.moves(n, i) {
        pools_are_always_consistent(life, n);
        let history = life.at(n);
        let act = life.act(n);
        assert(!life.has_run(n, Place::Queue(p)));
        assert(history.pool.todo.len() > 0);
        pool_history::attending_threads_take_the_oldest_task(history, i, act->Step_1);
        assert(life.at(n + 1) == history.next(act));
        n + 1
    } else {
        lemma_attending_thread_stays(life, n, i);
        lemma_history_grows(life, n, n + 1);
        lemma_queued_task_stays(life, p, n, n + 1);
        lemma_one_more_is_taken(life, p, i, n + 1, m)
    }
}

/// As long as a task is in the queue, tasks are taken, as many as one likes.
proof fn lemma_many_are_taken<T>(life: Life<T>, p: int, n: nat, count: nat) -> (later: nat)
    requires
        life.is_possible(),
        life.others_return(Place::Queue(p)),
        life.at(n).taken.len() <= p < life.at(n).queued.len(),
        forall|k: nat| !(#[trigger] life.runs_from(k, Place::Queue(p))),
    ensures
        n <= later,
        life.at(later).taken.len() >= count,
    decreases count,
{
    if count == 0 {
        n
    } else {
        let before = lemma_many_are_taken(life, p, n, (count - 1) as nat);
        lemma_queued_task_stays(life, p, n, before);
        pools_are_always_consistent(life, before);
        lemma_attended(life, Place::Queue(p), before);
        let i = choose|i: int| life.at(before).attends(i);
        assert(life.is_busy(before, i));
        assert(!life.has_run(before, Place::Queue(p)));
        let m = choose|m: nat| before <= m && #[trigger] life.moves(m, i);
        lemma_one_more_is_taken(life, p, i, before, m)
    }
}

/// A task that is handed in cannot remain in its place without being run.
proof fn lemma_not_left_over<T>(life: Life<T>, code: T, n: nat)
    requires
        life.is_possible(),
        life.hands_in(n, code),
        life.others_return(life.place(n)),
    ensures
        exists|m: nat| #[trigger] life.runs_from(m, life.place(n)),
{
    let place = life.place(n);
    if forall|m: nat| !(#[trigger] life.runs_from(m, place)) {
        let act = life.act(n);
        assert(life.at(n + 1) == life.at(n).next(act));
        match place {
            Place::Thread(i) => {
                assert(life.is_busy(n + 1, i));
                assert(!life.has_run(n + 1, place));
                let m = choose|m: nat| n + 1 <= m && #[trigger] life.moves(m, i);
                lemma_starting_thread_stays(life, code, i, n + 1, m);
            },
            Place::Queue(p) => {
                pools_are_always_consistent(life, n);
                let later = lemma_many_are_taken(life, p, n + 1, (p + 1) as nat);
                lemma_queued_task_stays(life, p, n + 1, later);
            },
        }
    }
}

/// What is run from the place of a task that was handed in is that task, after it was handed in.
proof fn lemma_place_holds_the_task<T>(life: Life<T>, code: T, n: nat, m: nat)
    requires
        life.is_possible(),
        life.hands_in(n, code),
        life.runs_from(m, life.place(n)),
    ensures
        n < m,
        life.runs(m, code),
{
    let act = life.act(m);
    let history = life.at(m);
    pools_are_always_consistent(life, m);
    if m <= n {
        lemma_history_grows(life, m, n);
    } else {
        lemma_placed(life, code, n, m);
    }
}

/// Nothing is run from a place twice.
proof fn lemma_places_are_used_once<T>(life: Life<T>, place: Place, n: nat, m: nat)
    requires
        life.is_possible(),
        life.runs_from(n, place),
        life.runs_from(m, place),
    ensures
        n == m,
{
    let (first, last) = if n <= m {
        (n, m)
    } else {
        (m, n)
    };
    let act = life.act(first);
    assert(life.at(first + 1) == life.at(first).next(act));
    if first < last {
        pools_are_always_consistent(life, first);
        lemma_history_grows(life, first + 1, last);
        let later = life.act(last);
        assert(life.at(last).allows(later));
    }
}

/// If the other tasks return without panicking, a task that is handed to a pool is run at some
/// later moment, by a thread of the pool, and exactly once over the whole life of the pool. The one
/// who hands it in does not run it, or wait for it: nothing is run at that moment.
pub proof fn tasks_are_run_exactly_once<T>(life: Life<T>, code: T, n: nat)
    requires
        life.is_possible(),
        life.hands_in(n, code),
        life.others_return(life.place(n)),
    ensures
        life.at(n + 1).run == life.at(n).run,
        exists|m: nat|
            {
                &&& n < m
                &&& #[trigger] life.runs_from(m, life.place(n))
                &&& life.runs(m, code)
                &&& forall|k: nat| #[trigger] life.runs_from(k, life.place(n)) ==> k == m
            },
{
    let act = life.act(n);
    let place = life.place(n);
    assert(life.at(n + 1) == life.at(n).next(act));
    lemma_not_left_over(life, code, n);
    let m = choose|m: nat| #[trigger] life.runs_from(m, place);
    lemma_place_holds_the_task(life, code, n, m);
    assert forall|k: nat| #[trigger] life.runs_from(k, place) implies k == m by {
        lemma_places_are_used_once(life, place, k, m);
    }
}

/// A thread that is to run a task first was started for it.
proof fn lemma_thread_was_started<T>(life: Life<T>, code: T, i: int, m: nat) -> (n: nat)
    requires
        life.is_possible(),
        0 <= i < life.at(m).threads.len(),
        life.at(m).threads[i] == Phase::Starting(Some(code)),
    ensures
        n < m,
        life.hands_in(n, code),
        life.place(n) == Place::Thread(i),
    decreases m,
{
    let n = (m - 1) as nat;
    let act = life.act(n);
    assert(life.at(n + 1) == life.at(n).next(act));
    if i < life.at(n).threads.len() {
        lemma_thread_was_started(life, code, i, n)
    } else {
        n
    }
}

/// A task in the queue was put there.
proof fn lemma_task_was_queued<T>(life: Life<T>, p: int, m: nat) -> (n: nat)
    requires
        life.is_possible(),
        0 <= p < life.at(m).queued.len(),
    ensures
        n < m,
        life.hands_in(n, life.at(m).queued[p]),
        life.place(n) == Place::Queue(p),
    decreases m,
{
    let n = (m - 1) as nat;
    let act = life.act(n);
    assert(life.at(n + 1) == life.at(n).next(act));
    if p < life.at(n).queued.len() {
        lemma_task_was_queued(life, p, n)
    } else {
        n
    }
}

/// A task that is run has been handed in before, at one moment, and is what was handed in then. So
/// nothing is run but what was handed in, and not more often.
pub proof fn only_tasks_handed_in_are_run<T>(life: Life<T>, code: T, m: nat)
    requires
        life.is_possible(),
        life.runs(m, code),
    ensures
        exists|n: nat|
            {
                &&& n < m
                &&& life.hands_in(n, code)
                &&& life.runs_from(m, #[trigger] life.place(n))
                &&& forall|k: nat, other: T|
                    life.runs_from(m, life.place(k)) && #[trigger] life.hands_in(k, other) ==> k
                        == n
            },
{
    let history = life.at(m);
    let act = life.act(m);
    pools_are_always_consistent(life, m);
    let i = act->Step_0;
    let n = if history.threads[i] matches Phase::Starting(Some(_)) {
        lemma_thread_was_started(life, code, i, m)
    } else {
        let p = history.taken.len() as int;
        assert(history.queued == history.taken + history.pool.todo);
        assert(history.queued[p] == code);
        lemma_task_was_queued(life, p, m)
    };
    assert(life.runs_from(m, life.place(n)));
    assert forall|k: nat, other: T|
        life.runs_from(m, life.place(k)) && #[trigger] life.hands_in(k, other) implies k == n by {
        let (first, last) = if n <= k {
            (n, k)
        } else {
            (k, n)
        };
        let act = life.act(first);
        assert(life.at(first + 1) == life.at(first).next(act));
        if first < last {
            lemma_history_grows(life, first + 1, last);
        }
    }
}

/// How many tasks were handed in and have not been run.
spec fn left<T>(history: History<T>) -> int {
    history.handed_in.len() - history.run.len()
}

proof fn lemma_left_is_positive<T>(history: History<T>)
    requires
        history.is_consistent(),
    ensures
        left(history) >= 0,
{
}

/// A pool that was closed: nothing is added to it, more threads count as active than are kept, and
/// the threads that wait without limit are being woken up.
proof fn lemma_stays_closed<T>(life: Life<T>, c: nat, n: nat)
    requires
        life.is_possible(),
        life.closes(c),
        c < n,
    ensures
        life.at(n).surplus > MIN_THREADS,
        life.at(n).threads.len() == life.at(c).threads.len(),
        forall|i: int|
            0 <= i < life.at(n).threads.len() && #[trigger] life.at(n).threads[i] == Phase::<
                T,
            >::Waiting(false) ==> life.at(n).stirring.contains(i),
    decreases n,
{
    let before = (n - 1) as nat;
    let history = life.at(before);
    let act = life.act(before);
    assert(life.at(before + 1) == history.next(act));
    pools_are_always_consistent(life, before);
    if before > c {
        lemma_stays_closed(life, c, before);
    }
    if act is Close {
        pool_history::closing_wakes_all_threads(history);
    }
    if let Act::Step(i, event) = act {
        pool_history::closed_pools_run_dry(history, i, event);
    }
}

/// What one act leaves of the tasks in a closed pool, and what it makes of a thread.
proof fn lemma_closed_step<T>(life: Life<T>, c: nat, i: int, n: nat)
    requires
        life.is_possible(),
        life.closes(c),
        c < n,
        0 <= i < life.at(n).threads.len(),
    ensures
        left(life.at(n + 1)) <= left(life.at(n)),
        !life.moves(n, i) ==> life.at(n + 1).threads[i] == life.at(n).threads[i],
        life.moves(n, i) ==> {
            ||| life.at(n + 1).threads[i] is Ended
            ||| life.at(n + 1).threads[i] == Phase::<T>::Waiting(true) && life.act(n)
                != Act::<T>::Step(i, Event::Woken(true))
            ||| life.at(n + 1).threads[i] == Phase::<T>::Waiting(true) && life.at(n).threads[i]
                != Phase::<T>::Waiting(true)
            ||| left(life.at(n + 1)) < left(life.at(n))
        },
        life.at(n).threads[i] is Ended ==> life.at(n + 1).threads[i] is Ended,
        life.is_busy(n, i) && !life.moves(n, i) ==> life.is_busy(n + 1, i),
{
    let history = life.at(n);
    let act = life.act(n);
    assert(life.at(n + 1) == history.next(act));
    pools_are_always_consistent(life, n);
    lemma_stays_closed(life, c, n);
    if let Act::Step(j, event) = act {
        pool_history::closed_pools_run_dry(history, j, event);
    }
}

/// A thread that is busy ends its task, if any, and ends, waits for a limited time, or has run one
/// more task.
proof fn lemma_busy_thread_goes_on<T>(life: Life<T>, c: nat, i: int, n: nat, m: nat) -> (later: nat)
    requires
        life.is_possible(),
        life.closes(c),
        c < n <= m,
        0 <= i < life.at(n).threads.len(),
        life.is_busy(n, i),
        !life.waits_briefly(n, i),
        life.moves(m, i),
    ensures
        n < later,
        0 <= i < life.at(later).threads.len(),
        left(life.at(later)) <= left(life.at(n)),
        life.at(later).threads[i] is Ended || life.waits_briefly(later, i) || left(life.at(later))
            < left(life.at(n)),
    decreases m - n,
{
    lemma_closed_step(life, c, i, n);
    lemma_stays_closed(life, c, n);
    lemma_stays_closed(life, c, n + 1);
    if life.moves(n, i) {
        n + 1
    } else {
        lemma_busy_thread_goes_on(life, c, i, n + 1, m)
    }
}

/// A thread that waits for a limited time ends when it is over, or has run one more task.
proof fn lemma_waiting_thread_goes_on<T>(life: Life<T>, c: nat, i: int, n: nat, m: nat) -> (later:
    nat)
    requires
        life.is_possible(),
        life.closes(c),
        c < n <= m,
        life.waits_briefly(n, i),
        life.waits_no_longer(m, i),
    ensures
        n < later,
        0 <= i < life.at(later).threads.len(),
        left(life.at(later)) <= left(life.at(n)),
        life.at(later).threads[i] is Ended || left(life.at(later)) < left(life.at(n)),
    decreases m - n,
{
    lemma_closed_step(life, c, i, n);
    lemma_stays_closed(life, c, n);
    lemma_stays_closed(life, c, n + 1);
    if life.waits_briefly(n + 1, i) && life.act(n) != Act::<T>::Step(i, Event::Woken(true)) {
        lemma_waiting_thread_goes_on(life, c, i, n + 1, m)
    } else {
        n + 1
    }
}

/// A thread of a closed pool ends.
proof fn lemma_thread_ends<T>(life: Life<T>, c: nat, i: int, n: nat) -> (later: nat)
    requires
        life.is_possible(),
        life.closes(c),
        life.goes_on_after(c),
        c < n,
        0 <= i < life.at(n).threads.len(),
    ensures
        n <= later,
        0 <= i < life.at(later).threads.len(),
        life.at(later).threads[i] is Ended,
    decreases
            left(life.at(n)),
            if life.at(n).threads[i] is Ended {
                0int
            } else if life.waits_briefly(n, i) {
                1
            } else {
                2
            },
{
    pools_are_always_consistent(life, n);
    lemma_left_is_positive(life.at(n));
    if life.at(n).threads[i] is Ended {
        n
    } else {
        let next = if life.waits_briefly(n, i) {
            let m = choose|m: nat| n <= m && #[trigger] life.waits_no_longer(m, i);
            lemma_waiting_thread_goes_on(life, c, i, n, m)
        } else {
            lemma_stays_closed(life, c, n);
            assert(life.is_busy(n, i));
            let m = choose|m: nat| n <= m && #[trigger] life.moves(m, i);
            lemma_busy_thread_goes_on(life, c, i, n, m)
        };
        pools_are_always_consistent(life, next);
        lemma_left_is_positive(life.at(next));
        lemma_thread_ends(life, c, i, next)
    }
}

/// A thread that has ended stays so.
proof fn lemma_ended_thread_stays<T>(life: Life<T>, i: int, n: nat, m: nat)
    requires
        life.is_possible(),
        n <= m,
        0 <= i < life.at(n).threads.len(),
        life.at(n).threads[i] is Ended,
    ensures
        0 <= i < life.at(m).threads.len(),
        life.at(m).threads[i] is Ended,
    decreases m - n,
{
    if n < m {
        let before = (m - 1) as nat;
        lemma_ended_thread_stays(life, i, n, before);
        let act = life.act(before);
        assert(life.at(before + 1) == life.at(before).next(act));
    }
}

/// The first threads of a closed pool end.
proof fn lemma_threads_end<T>(life: Life<T>, c: nat, count: nat) -> (later: nat)
    requires
        life.is_possible(),
        life.closes(c),
        life.goes_on_after(c),
        count <= life.at(c).threads.len(),
    ensures
        c < later,
        forall|i: int| 0 <= i < count ==> (#[trigger] life.at(later).threads[i]) is Ended,
    decreases count,
{
    if count == 0 {
        c + 1
    } else {
        let before = lemma_threads_end(life, c, (count - 1) as nat);
        lemma_stays_closed(life, c, before);
        let later = lemma_thread_ends(life, c, count - 1, before);
        assert forall|i: int| 0 <= i < count implies (#[trigger] life.at(
            later,
        ).threads[i]) is Ended by {
            if i < count - 1 {
                assert(life.at(before).threads[i] is Ended);
                lemma_ended_thread_stays(life, i, before, later);
            }
        }
        later
    }
}

/// The threads of a pool that is closed do not outlive their tasks: if each of these returns or
/// panics, there is a moment from which on all threads have ended.
pub proof fn closed_pools_end<T>(life: Life<T>, c: nat)
    requires
        life.is_possible(),
        life.closes(c),
        life.goes_on_after(c),
    ensures
        exists|n: nat|
            {
                &&& c < n
                &&& #[trigger] life.is_over(n)
                &&& forall|m: nat| n <= m ==> #[trigger] life.is_over(m)
            },
{
    let n = lemma_threads_end(life, c, life.at(c).threads.len());
    lemma_stays_closed(life, c, n);
    assert forall|m: nat| n <= m implies #[trigger] life.is_over(m) by {
        lemma_stays_closed(life, c, m);
        assert forall|i: int| 0 <= i < life.at(m).threads.len() implies (#[trigger] life.at(
            m,
        ).threads[i]) is Ended by {
            assert(life.at(n).threads[i] is Ended);
            lemma_ended_thread_stays(life, i, n, m);
        }
    }
    assert(life.is_over(n));
}

} // verus!
