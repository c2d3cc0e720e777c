//! The server: its state, and the decisions of the thread that accepts clients, of the threads
//! that serve them and of those who wait for requests.

use crate::util::messages_queue::MessagesQueue;
use vstd::prelude::*;

verus! {

/// What the threads of a server report: an error, after which no more clients are accepted, or a
/// request.
#[verifier::ext_equal]
pub enum Message<E, Q> {
    Error(E),
    NewRequest(Q),
}

impl<E, Q> Message<E, Q> {
    /// The message as what a receiver gets.
    pub open spec fn received(self) -> Result<Q, E> {
        match self {
            Message::Error(error) => Err(error),
            Message::NewRequest(request) => Ok(request),
        }
    }

    /// Hands the message to a receiver.
    pub fn into_result(self) -> (r: Result<Q, E>)
        ensures
            r == self.received(),
    {
        match self {
            Message::Error(error) => Err(error),
            Message::NewRequest(request) => Ok(request),
        }
    }
}

/// Represents the parameters required to create a server.
#[derive(Debug, Clone)]
pub struct ServerConfig<A> {
    /// The addresses to listen to.
    pub addr: A,
    /// The configuration for SSL, if the communications are to be encoded. The library carries it
    /// and encodes nothing itself.
    pub ssl: Option<SslConfig>,
}

/// Configuration of the server for SSL.
#[derive(Debug, Clone)]
pub struct SslConfig {
    /// Contains the public certificate to send to clients.
    pub certificate: Vec<u8>,
    /// Contains the ultra-secret private key used to decode communications.
    pub private_key: Vec<u8>,
}

impl<A> ServerConfig<A> {
    /// A server on a specific address, without SSL.
    pub fn http(addr: A) -> (r: ServerConfig<A>)
        ensures
            r.addr == addr,
            r.ssl is None,
    {
        ServerConfig { addr, ssl: None }
    }
}

/// How many messages the queue of a server has room for from the start.
pub const QUEUE_CAPACITY: usize = 8;

/// A server as values.
#[verifier::ext_equal]
pub struct ServerView<A, E, Q> {
    /// The server was shut down.
    pub close: bool,
    /// Accepting a client has failed.
    pub failed: bool,
    /// The messages that nobody has received yet.
    pub messages: Seq<Message<E, Q>>,
    /// The clients that were accepted and have not left. The count wraps around.
    pub connections: usize,
    pub listening_addr: A,
}

/// What came of accepting a client.
pub enum Accepted<C, E> {
    Client(C),
    Failed(E),
}

/// What the thread that accepts clients does next.
pub enum AcceptAction<C> {
    /// Serve this client, then look for the next one.
    Serve(C),
    /// End.
    Stop,
}

/// What a thread that serves a client does next.
#[derive(Debug, Clone, Copy, PartialEq, Eq, Structural)]
pub enum ClientAction {
    /// Read the next request.
    ReadNext,
    /// Wait until the last request is dealt with, then read the next one.
    AwaitResponse,
}

/// What somebody who waits for a request does next.
#[verifier::ext_equal]
pub enum Receive<M> {
    /// Take this.
    Done(M),
    /// Wait until there may be a message.
    Wait,
}

/// A server: what its threads share under one lock.
pub struct Server<A, E, Q> {
    close: bool,
    failed: bool,
    messages: MessagesQueue<Message<E, Q>>,
    connections: usize,
    listening_addr: A,
}

impl<A, E, Q> View for Server<A, E, Q> {
    type V = ServerView<A, E, Q>;

    closed spec fn view(&self) -> ServerView<A, E, Q> {
        ServerView {
            close: self.close,
            failed: self.failed,
            messages: self.messages@,
            connections: self.connections,
            listening_addr: self.listening_addr,
        }
    }
}

impl<A, E, Q> ServerView<A, E, Q> {
    /// A server that has just been started.
    pub open spec fn listening(listening_addr: A) -> ServerView<A, E, Q> {
        ServerView {
            close: false,
            failed: false,
            messages: Seq::empty(),
            connections: 0,
            listening_addr,
        }
    }

    /// The server is to accept another client: it was not shut down, and accepting has not failed.
    pub open spec fn is_accepting(self) -> bool {
        !self.close && !self.failed
    }

    /// A client was accepted. It is counted, unless accepting has failed before.
    pub open spec fn joined(self) -> ServerView<A, E, Q> {
        if self.failed {
            self
        } else {
            ServerView { connections: self.connections.wrapping_add(1), ..self }
        }
    }

    /// Accepting a client has failed. The first such error is reported.
    pub open spec fn failed_with(self, error: E) -> ServerView<A, E, Q> {
        if self.failed {
            self
        } else {
            ServerView { failed: true, ..self.reported(Message::Error(error)) }
        }
    }

    /// A client has left.
    pub open spec fn left(self) -> ServerView<A, E, Q> {
        ServerView { connections: self.connections.wrapping_sub(1), ..self }
    }

    /// One of the threads has reported something.
    pub open spec fn reported(self, message: Message<E, Q>) -> ServerView<A, E, Q> {
        ServerView { messages: self.messages.push(message), ..self }
    }

    /// Somebody looks for a message, and takes the oldest one if there is any.
    pub open spec fn after_receive(self) -> ServerView<A, E, Q> {
        if self.messages.len() > 0 {
            ServerView { messages: self.messages.skip(1), ..self }
        } else {
            self
        }
    }
}

impl<A, E, Q> Server<A, E, Q> {
    /// A server that listens on an address.
    pub fn new(listening_addr: A) -> (r: Server<A, E, Q>)
        ensures
            r@ == ServerView::<A, E, Q>::listening(listening_addr),
    {
        Server {
            close: false,
            failed: false,
            messages: MessagesQueue::with_capacity(QUEUE_CAPACITY),
            connections: 0,
            listening_addr,
        }
    }

    /// Returns the address the server is listening to.
    pub fn server_addr(&self) -> (r: &A)
        ensures
            *r == self@.listening_addr,
    {
        &self.listening_addr
    }

    /// Whether the thread that accepts clients is to look for another one.
    pub fn is_accepting(&self) -> (r: bool)
        ensures
            r == self@.is_accepting(),
    {
        !self.close && !self.failed
    }

    /// Returns the number of clients currently connected to the server.
    pub fn num_connections(&self) -> (r: usize)
        ensures
            r == self@.connections,
    {
        self.connections
    }

    /// Takes what came of accepting a client. A client is counted and served. After an error, which
    /// is reported, no more clients are accepted.
    pub fn accepted<C>(&mut self, outcome: Accepted<C, E>) -> (r: AcceptAction<C>)
        ensures
            match outcome {
                Accepted::Client(client) => final(self)@ == old(self)@.joined() && r == (if old(
                    self,
                )@.failed {
                    AcceptAction::Stop
                } else {
                    AcceptAction::Serve(client)
                }),
                Accepted::Failed(error) => final(self)@ == old(self)@.failed_with(error) && r
                    == AcceptAction::<C>::Stop,
            },
    {
        if self.failed {
            AcceptAction::Stop
        } else {
            match outcome {
                Accepted::Client(client) => {
                    self.connections = self.connections.wrapping_add(1);
                    AcceptAction::Serve(client)
                },
                Accepted::Failed(error) => {
                    self.failed = true;
                    self.messages.push(Message::Error(error));
                    AcceptAction::Stop
                },
            }
        }
    }

    /// Takes a request of a client and reports it. Over a secure connection the next request is
    /// read only when this one is dealt with.
    pub fn requested(&mut self, request: Q, secure: bool) -> (r: ClientAction)
        ensures
            final(self)@ == old(self)@.reported(Message::NewRequest(request)),
            r == (if secure {
                ClientAction::AwaitResponse
            } else {
                ClientAction::ReadNext
            }),
    {
        self.messages.push(Message::NewRequest(request));
        if secure {
            ClientAction::AwaitResponse
        } else {
            ClientAction::ReadNext
        }
    }

    /// Takes note that a client that was accepted has left.
    pub fn client_left(&mut self)
        ensures
            final(self)@ == old(self)@.left(),
    {
        self.connections = self.connections.wrapping_sub(1);
    }

    /// Waits for a message: the request that was submitted, or the error that was reported.
    pub fn recv(&mut self) -> (r: Receive<Result<Q, E>>)
        ensures
            final(self)@ == old(self)@.after_receive(),
            r == (if old(self)@.messages.len() > 0 {
                Receive::Done(old(self)@.messages[0].received())
            } else {
                Receive::Wait
            }),
    {
        match self.messages.try_pop() {
            Some(message) => Receive::Done(message.into_result()),
            None => Receive::Wait,
        }
    }

    /// Same as `recv`, but does not wait when the time is over.
    pub fn recv_timeout(&mut self, timed_out: bool) -> (r: Receive<Result<Option<Q>, E>>)
        ensures
            final(self)@ == old(self)@.after_receive(),
            r == (if old(self)@.messages.len() > 0 {
                Receive::Done(
                    match old(self)@.messages[0].received() {
                        Ok(request) => Ok(Some(request)),
                        Err(error) => Err(error),
                    },
                )
            } else if timed_out {
                Receive::Done(Ok(None))
            } else {
                Receive::Wait
            }),
    {
        match self.messages.try_pop() {
            Some(Message::Error(error)) => Receive::Done(Err(error)),
            Some(Message::NewRequest(request)) => Receive::Done(Ok(Some(request))),
            None => if timed_out {
                Receive::Done(Ok(None))
            } else {
                Receive::Wait
            },
        }
    }

    /// Same as `recv`, but does not wait.
    pub fn try_recv(&mut self) -> (r: Result<Option<Q>, E>)
        ensures
            final(self)@ == old(self)@.after_receive(),
            r == (if old(self)@.messages.len() > 0 {
                match old(self)@.messages[0].received() {
                    Ok(request) => Ok(Some(request)),
                    Err(error) => Err(error),
                }
            } else {
                Ok(None)
            }),
    {
        match self.messages.try_pop() {
            Some(Message::Error(error)) => Err(error),
            Some(Message::NewRequest(request)) => Ok(Some(request)),
            None => Ok(None),
        }
    }

    /// The next of the incoming requests. There is none when an error was reported.
    pub fn next_request(&mut self) -> (r: Receive<Option<Q>>)
        ensures
            final(self)@ == old(self)@.after_receive(),
            r == (if old(self)@.messages.len() > 0 {
                Receive::Done(
                    match old(self)@.messages[0] {
                        Message::NewRequest(request) => Some(request),
                        Message::Error(_) => None,
                    },
                )
            } else {
                Receive::Wait
            }),
    {
        match self.recv() {
            Receive::Done(Ok(request)) => Receive::Done(Some(request)),
            Receive::Done(Err(_)) => Receive::Done(None),
            Receive::Wait => Receive::Wait,
        }
    }

    /// Makes the server accept no more clients.
    pub fn shut_down(&mut self)
        ensures
            final(self)@ == (ServerView { close: true, ..old(self)@ }),
    {
        self.close = true;
    }
}

/// What can happen to a server.
#[verifier::ext_equal]
pub enum ServerEvent<E, Q> {
    ClientAccepted,
    AcceptFailed(E),
    Requested(Q),
    LookedFor,
    ClientLeft,
    ShutDown,
}

impl<A, E, Q> ServerView<A, E, Q> {
    /// The server after some events.
    pub open spec fn after(self, events: Seq<ServerEvent<E, Q>>) -> ServerView<A, E, Q>
        decreases events.len(),
    {
        if events.len() == 0 {
            self
        } else {
            let before = self.after(events.drop_last());
            match events.last() {
                ServerEvent::ClientAccepted => before.joined(),
                ServerEvent::AcceptFailed(error) => before.failed_with(error),
                ServerEvent::Requested(request) => before.reported(Message::NewRequest(request)),
                ServerEvent::LookedFor => before.after_receive(),
                ServerEvent::ClientLeft => before.left(),
                ServerEvent::ShutDown => ServerView { close: true, ..before },
            }
        }
    }

    /// The messages that are handed out during some events, in their order.
    pub open spec fn handed_out(self, events: Seq<ServerEvent<E, Q>>) -> Seq<Message<E, Q>>
        decreases events.len(),
    {
        if events.len() == 0 {
            Seq::empty()
        } else {
            let before = self.after(events.drop_last());
            let earlier = self.handed_out(events.drop_last());
            if events.last() is LookedFor && before.messages.len() > 0 {
                earlier.push(before.messages[0])
            } else {
                earlier
            }
        }
    }
}

/// Accepting a client has failed during some events.
pub open spec fn has_failed<E, Q>(events: Seq<ServerEvent<E, Q>>) -> bool {
    exists|n: int| 0 <= n < events.len() && (#[trigger] events[n]) is AcceptFailed
}

/// The messages that are reported during some events, in their order: the requests, and the first
/// error.
pub open spec fn reports<E, Q>(events: Seq<ServerEvent<E, Q>>) -> Seq<Message<E, Q>>
    decreases events.len(),
{
    if events.len() == 0 {
        Seq::empty()
    } else {
        let earlier = reports(events.drop_last());
        match events.last() {
            ServerEvent::Requested(request) => earlier.push(Message::NewRequest(request)),
            ServerEvent::AcceptFailed(error) => if has_failed(events.drop_last()) {
                earlier
            } else {
                earlier.push(Message::Error(error))
            },
            _ => earlier,
        }
    }
}

/// A server remembers whether accepting has failed.
pub proof fn failure_is_remembered<A, E, Q>(addr: A, events: Seq<ServerEvent<E, Q>>)
    ensures
        ServerView::<A, E, Q>::listening(addr).after(events).failed == has_failed(events),
    decreases events.len(),
{
    if events.len() > 0 {
        let before = events.drop_last();
        failure_is_remembered::<A, E, Q>(addr, before);
        if has_failed(before) {
            let n = choose|n: int| 0 <= n < before.len() && (#[trigger] before[n]) is AcceptFailed;
            assert(events[n] is AcceptFailed);
        }
        if has_failed(events) && !(events.last() is AcceptFailed) {
            let n = choose|n: int| 0 <= n < events.len() && (#[trigger] events[n]) is AcceptFailed;
            assert(before[n] is AcceptFailed);
        }
        if events.last() is AcceptFailed {
            assert(events[events.len() - 1] is AcceptFailed);
        }
    }
}

/// Every message is handed out once, in the order in which the messages were reported: those
/// handed out, followed by those still there, are those that were reported.
pub proof fn messages_arrive_in_order<A, E, Q>(addr: A, events: Seq<ServerEvent<E, Q>>)
    ensures
        ({
            let server = ServerView::<A, E, Q>::listening(addr);
            server.handed_out(events) + server.after(events).messages == reports(events)
        }),
    decreases events.len(),
{
    let server = ServerView::<A, E, Q>::listening(addr);
    if events.len() > 0 {
        messages_arrive_in_order::<A, E, Q>(addr, events.drop_last());
        failure_is_remembered::<A, E, Q>(addr, events.drop_last());
    }
    assert(server.handed_out(events) + server.after(events).messages =~= reports(events));
}

/// How many more clients have joined than left during some events. Clients join until accepting
/// fails.
pub open spec fn present<E, Q>(events: Seq<ServerEvent<E, Q>>) -> int
    decreases events.len(),
{
    if events.len() == 0 {
        0
    } else {
        present(events.drop_last()) + match events.last() {
            ServerEvent::ClientAccepted => if has_failed(events.drop_last()) {
                0int
            } else {
                1int
            },
            ServerEvent::ClientLeft => -1int,
            _ => 0int,
        }
    }
}

/// At no time during some events have more clients left than joined, nor are there more of them
/// than a `usize` can count.
pub open spec fn clients_can_be_counted<E, Q>(events: Seq<ServerEvent<E, Q>>) -> bool {
    forall|n: int| 0 <= n <= events.len() ==> 0 <= #[trigger] present(events.take(n)) <= usize::MAX
}

/// The number of connections is the number of clients that have joined and not left.
pub proof fn connections_are_counted<A, E, Q>(addr: A, events: Seq<ServerEvent<E, Q>>)
    requires
        clients_can_be_counted(events),
    ensures
        ServerView::<A, E, Q>::listening(addr).after(events).connections == present(events),
    decreases events.len(),
{
    if events.len() > 0 {
        let before = events.drop_last();
        assert forall|n: int| 0 <= n <= before.len() implies 0 <= #[trigger] present(
            before.take(n),
        ) <= usize::MAX by {
            assert(before.take(n) =~= events.take(n));
        }
        connections_are_counted::<A, E, Q>(addr, before);
        failure_is_remembered::<A, E, Q>(addr, before);
        assert(events.take(events.len() as int) =~= events);
        assert(present(events.take(events.len() as int)) == present(events));
    }
}

/// A server that was shut down stays so, and so does one whose accepting has failed: it looks for
/// no more clients. Its address never changes.
pub proof fn shut_down_is_final<A, E, Q>(
    server: ServerView<A, E, Q>,
    events: Seq<ServerEvent<E, Q>>,
)
    ensures
        server.close ==> server.after(events).close,
        server.failed ==> server.after(events).failed,
        !server.is_accepting() ==> !server.after(events).is_accepting(),
        server.after(events).listening_addr == server.listening_addr,
    decreases events.len(),
{
    if events.len() > 0 {
        shut_down_is_final(server, events.drop_last());
    }
}

/// After an error in accepting a client no more clients are accepted, whatever else happens: the
/// server looks for none, and counts none that comes all the same.
pub proof fn failed_servers_accept_no_more_clients<A, E, Q>(
    server: ServerView<A, E, Q>,
    error: E,
    events: Seq<ServerEvent<E, Q>>,
)
    ensures
        !server.failed_with(error).after(events).is_accepting(),
        server.failed_with(error).after(events.push(ServerEvent::ClientAccepted))
            == server.failed_with(error).after(events),
{
    shut_down_is_final(server.failed_with(error), events);
    assert(events.push(ServerEvent::<E, Q>::ClientAccepted).drop_last() =~= events);
}

/// A server that was started accepts clients until it is shut down or accepting fails, and nothing
/// else ends it.
pub proof fn accepting_goes_on_until_it_is_ended<A, E, Q>(addr: A, events: Seq<ServerEvent<E, Q>>)
    ensures
        ServerView::<A, E, Q>::listening(addr).after(events).is_accepting() <==> forall|n: int|
            0 <= n < events.len() ==> !((#[trigger] events[n]) is ShutDown)
                && !(events[n] is AcceptFailed),
    decreases events.len(),
{
    if events.len() > 0 {
        let before = events.drop_last();
        let last = events.len() - 1;
        accepting_goes_on_until_it_is_ended::<A, E, Q>(addr, before);
        assert(forall|n: int| 0 <= n < last ==> before[n] == #[trigger] events[n]);
        assert(forall|n: int| 0 <= n < last ==> #[trigger] before[n] == events[n]);
        assert(events[last] == events.last());
    }
}

} // verus!
