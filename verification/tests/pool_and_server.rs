use tiny_web::server::{AcceptAction, Accepted, ClientAction, Message, Receive, Server};
use tiny_web::util::messages_queue::MessagesQueue;
use tiny_web::util::task_pool::{Action, Event, Registration, Spawned, TaskPool, Worker};
use tiny_web::ServerConfig;

fn start(pool: &mut TaskPool<u32>, workers: Vec<Worker<u32>>) -> Vec<Worker<u32>> {
    let mut waiting = Vec::new();
    for worker in workers {
        let (worker, action) = worker.step(pool, Event::Started);
        assert!(matches!(action, Action::Wait));
        waiting.push(worker);
    }
    waiting
}

#[test]
fn pool_starts_with_four_waiting_threads() {
    let (mut pool, workers) = TaskPool::new();
    assert_eq!(workers.len(), 4);
    assert_eq!(start(&mut pool, workers).len(), 4);
}

#[test]
fn task_starts_a_thread_when_none_waits() {
    let (mut pool, workers) = TaskPool::<u32>::new();
    match pool.spawn(7) {
        Spawned::StartThread(worker) => {
            let (_, action) = worker.step(&mut pool, Event::Started);
            assert!(matches!(action, Action::Run(7)));
        }
        Spawned::NotifyOne => panic!("no thread waits"),
    }
    assert_eq!(workers.len(), 4);
}

#[test]
fn queued_tasks_are_taken_in_order() {
    let (mut pool, workers) = TaskPool::new();
    let mut waiting = start(&mut pool, workers);
    assert!(matches!(pool.spawn(1), Spawned::NotifyOne));
    assert!(matches!(pool.spawn(2), Spawned::NotifyOne));
    let worker = waiting.pop().unwrap();
    let (worker, action) = worker.step(&mut pool, Event::Woken(false));
    assert!(matches!(action, Action::Run(1)));
    let (worker, action) = worker.step(&mut pool, Event::TaskDone);
    assert!(matches!(action, Action::Run(2)));
    let (_, action) = worker.step(&mut pool, Event::TaskDone);
    assert!(matches!(action, Action::Wait));
}

#[test]
fn tasks_are_run_exactly_once() {
    let (mut pool, workers) = TaskPool::new();
    let mut runs = [0; 10];
    let mut busy = Vec::new();
    // The first two tasks come before any thread waits.
    for task in 0..2 {
        match pool.spawn(task) {
            Spawned::StartThread(worker) => busy.push((worker, Event::Started)),
            Spawned::NotifyOne => panic!("no thread waits"),
        }
    }
    // The others are put into the queue, and wake up no more than two threads.
    let mut waiting = start(&mut pool, workers);
    for task in 2..9 {
        assert!(matches!(pool.spawn(task), Spawned::NotifyOne));
    }
    busy.push((waiting.pop().unwrap(), Event::Woken(false)));
    busy.push((pool.add_thread(Some(9)), Event::Started));
    busy.push((waiting.pop().unwrap(), Event::Woken(false)));
    while let Some((worker, event)) = busy.pop() {
        let (worker, action) = worker.step(&mut pool, event);
        if let Action::Run(task) = action {
            runs[task as usize] += 1;
            busy.insert(0, (worker, Event::TaskDone));
        }
    }
    assert_eq!(runs, [1; 10]);
}

#[test]
fn surplus_thread_ends_when_its_time_is_over() {
    let (mut pool, workers) = TaskPool::new();
    let mut waiting = start(&mut pool, workers);
    let extra = pool.add_thread(None);
    let (extra, action) = extra.step(&mut pool, Event::Started);
    assert!(matches!(action, Action::WaitTimeout(5000)));
    let (extra, action) = extra.step(&mut pool, Event::Woken(false));
    assert!(matches!(action, Action::WaitTimeout(5000)));
    pool.spawn(3);
    let (extra, action) = extra.step(&mut pool, Event::Woken(true));
    assert!(matches!(action, Action::Run(3)));
    let (extra, action) = extra.step(&mut pool, Event::TaskDone);
    assert!(matches!(action, Action::WaitTimeout(5000)));
    let (_, action) = extra.step(&mut pool, Event::Woken(true));
    assert!(matches!(action, Action::Exit));
    let worker = waiting.pop().unwrap();
    let (_, action) = worker.step(&mut pool, Event::Woken(true));
    assert!(matches!(action, Action::Wait));
}

#[test]
fn panic_ends_a_thread() {
    let (mut pool, _) = TaskPool::new();
    let worker = pool.add_thread(Some(1));
    let (worker, _) = worker.step(&mut pool, Event::Started);
    let (_, action) = worker.step(&mut pool, Event::TaskPanicked);
    assert!(matches!(action, Action::Exit));
}

#[test]
fn closed_pool_runs_dry() {
    let (mut pool, workers) = TaskPool::new();
    let waiting = start(&mut pool, workers);
    pool.close();
    for worker in waiting {
        let (worker, action) = worker.step(&mut pool, Event::Woken(false));
        assert!(matches!(action, Action::WaitTimeout(5000)));
        let (_, action) = worker.step(&mut pool, Event::Woken(true));
        assert!(matches!(action, Action::Exit));
    }
    assert!(matches!(pool.spawn(1), Spawned::StartThread(_)));
}

#[test]
fn closed_pools_end() {
    let (mut pool, workers) = TaskPool::new();
    let mut busy = Vec::new();
    if let Spawned::StartThread(worker) = pool.spawn(0) {
        busy.push((worker, Event::Started));
    }
    let waiting = start(&mut pool, workers);
    assert!(matches!(pool.spawn(1), Spawned::NotifyOne));
    assert!(matches!(pool.spawn(2), Spawned::NotifyOne));
    pool.close();
    for worker in waiting {
        busy.push((worker, Event::Woken(false)));
    }
    let mut ended = 0;
    let mut runs = Vec::new();
    while let Some((worker, event)) = busy.pop() {
        let (worker, action) = worker.step(&mut pool, event);
        match action {
            Action::Run(task) => {
                runs.push(task);
                busy.insert(0, (worker, Event::TaskDone));
            }
            Action::WaitTimeout(_) => busy.insert(0, (worker, Event::Woken(true))),
            Action::Exit => ended += 1,
            Action::Wait => panic!("a closed pool does not wait without limit"),
        }
    }
    runs.sort();
    assert_eq!(runs, [0, 1, 2]);
    assert_eq!(ended, 5);
}

#[test]
fn registrations_count() {
    let mut count: usize = 5;
    let registration = Registration::new(&mut count);
    assert_eq!(count, 6);
    registration.release(&mut count);
    assert_eq!(count, 5);
    let mut full = usize::MAX;
    Registration::new(&mut full).release(&mut full);
    assert_eq!(full, usize::MAX);
}

#[test]
fn queue_is_first_in_first_out() {
    let mut queue = MessagesQueue::with_capacity(8);
    assert_eq!(queue.try_pop(), None);
    queue.push(1);
    queue.push(2);
    assert_eq!(queue.try_pop(), Some(1));
    queue.push(3);
    assert_eq!(queue.try_pop(), Some(2));
    assert_eq!(queue.try_pop(), Some(3));
    assert_eq!(queue.try_pop(), None);
}

fn server() -> Server<u16, &'static str, u32> {
    Server::new(80)
}

#[test]
fn requests_arrive_in_order() {
    let mut s = server();
    assert_eq!(*s.server_addr(), 80);
    assert_eq!(s.try_recv(), Ok(None));
    assert!(matches!(s.recv(), Receive::Wait));
    assert!(matches!(s.recv_timeout(false), Receive::Wait));
    assert!(matches!(s.recv_timeout(true), Receive::Done(Ok(None))));
    assert!(matches!(s.next_request(), Receive::Wait));
    assert_eq!(s.requested(1, false), ClientAction::ReadNext);
    assert_eq!(s.requested(2, true), ClientAction::AwaitResponse);
    s.requested(3, false);
    s.requested(4, false);
    assert_eq!(s.try_recv(), Ok(Some(1)));
    assert!(matches!(s.recv(), Receive::Done(Ok(2))));
    assert!(matches!(s.recv_timeout(true), Receive::Done(Ok(Some(3)))));
    assert!(matches!(s.next_request(), Receive::Done(Some(4))));
    assert_eq!(s.try_recv(), Ok(None));
}

fn failed_server() -> Server<u16, &'static str, u32> {
    let mut s = server();
    assert!(s.is_accepting());
    let action: AcceptAction<char> = s.accepted(Accepted::Failed("broken"));
    assert!(matches!(action, AcceptAction::Stop));
    s
}

#[test]
fn error_is_reported() {
    assert_eq!(failed_server().try_recv(), Err("broken"));
    assert!(matches!(failed_server().recv(), Receive::Done(Err("broken"))));
    assert!(matches!(failed_server().recv_timeout(false), Receive::Done(Err("broken"))));
    assert!(matches!(failed_server().next_request(), Receive::Done(None)));
}

#[test]
fn failed_servers_accept_no_more_clients() {
    let mut s = server();
    assert!(matches!(s.accepted(Accepted::Client('c')), AcceptAction::Serve('c')));
    assert_eq!(s.try_recv(), Ok(None));
    s.accepted(Accepted::<char, _>::Failed("broken"));
    assert!(!s.is_accepting());
    assert!(matches!(s.accepted(Accepted::Client('d')), AcceptAction::Stop));
    assert!(matches!(s.accepted(Accepted::<char, _>::Failed("again")), AcceptAction::Stop));
    assert_eq!(s.num_connections(), 1);
    s.requested(5, false);
    assert_eq!(s.try_recv(), Err("broken"));
    assert_eq!(s.try_recv(), Ok(Some(5)));
    assert_eq!(s.try_recv(), Ok(None));
    assert!(!s.is_accepting());
}

#[test]
fn connections_are_counted() {
    let mut s = server();
    assert_eq!(s.num_connections(), 0);
    s.accepted(Accepted::Client('a'));
    s.accepted(Accepted::Client('b'));
    assert_eq!(s.num_connections(), 2);
    s.client_left();
    s.requested(1, false);
    s.accepted(Accepted::<char, _>::Failed("broken"));
    assert_eq!(s.num_connections(), 1);
    s.client_left();
    assert_eq!(s.num_connections(), 0);
}

#[test]
fn shut_down_is_final() {
    let mut s = server();
    assert!(s.is_accepting());
    s.shut_down();
    assert!(!s.is_accepting());
    s.requested(1, false);
    assert_eq!(s.try_recv(), Ok(Some(1)));
    assert!(!s.is_accepting());
}

#[test]
fn messages_become_results() {
    let error: Message<u8, u8> = Message::Error(1);
    assert_eq!(error.into_result(), Err(1));
    let request: Message<u8, u8> = Message::NewRequest(2);
    assert_eq!(request.into_result(), Ok(2));
}

#[test]
fn plain_http_has_no_ssl() {
    let config = ServerConfig::http("0.0.0.0:9876");
    assert_eq!(config.addr, "0.0.0.0:9876");
    assert!(config.ssl.is_none());
}
