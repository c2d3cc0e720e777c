//! Servers: what each event does to what can be seen of them.

use crate::laws::words;
use crate::server::{
    AcceptAction, Accepted, ClientAction, Message, Receive, Server, ServerConfig,
};
use crate::util::messages_queue::MessagesQueue;
use vstd::prelude::*;

verus! {

/// What can be seen of a server: whether it looks for another client, how many clients are
/// connected, and its address.
pub open spec fn seen<A, E, Q>(
    server: Server<A, E, Q>,
    accepting: bool,
    connections: usize,
    addr: A,
) -> bool {
    &&& call_ensures(Server::<A, E, Q>::is_accepting, (&server,), accepting)
    &&& call_ensures(Server::<A, E, Q>::num_connections, (&server,), connections)
    &&& call_ensures(Server::<A, E, Q>::server_addr, (&server,), &addr)
}

/// A new server looks for clients on its address. Nobody is connected, and there is no message.
pub proof fn servers_start_accepting<A, E, Q>(
    given: A,
    server: Server<A, E, Q>,
    accepting: bool,
    connections: usize,
    addr: A,
)
    requires
        call_ensures(Server::<A, E, Q>::new, (given,), server),
        seen(server, accepting, connections, addr),
    ensures
        accepting,
        connections == 0,
        addr == given,
        server@.messages.len() == 0,
        !server@.failed,
{
}

/// A client that comes is served and counted, and the server goes on to look for clients if it did.
/// Only behind a failure to accept is there nobody to serve it.
pub proof fn clients_are_served<A, E, Q, C>(
    server: &mut Server<A, E, Q>,
    client: C,
    action: AcceptAction<C>,
    accepting: bool,
    connections: usize,
    addr: A,
    accepting_then: bool,
    connections_then: usize,
    addr_then: A,
)
    requires
        call_ensures(
            Server::<A, E, Q>::accepted::<C>,
            (server, Accepted::Client(client)),
            action,
        ),
        seen(*old(server), accepting, connections, addr),
        seen(*final(server), accepting_then, connections_then, addr_then),
    ensures
        accepting ==> !old(server)@.failed,
        !old(server)@.failed ==> action == AcceptAction::Serve(client) && connections_then
            == words::one_more(connections),
        old(server)@.failed ==> action == AcceptAction::<C>::Stop && connections_then
            == connections,
        accepting_then == accepting,
        addr_then == addr,
        final(server)@.failed == old(server)@.failed,
        final(server)@.messages == old(server)@.messages,
{
}

/// A failure to accept ends the search for clients, and is reported behind what was reported
/// before. It happens once.
pub proof fn failures_are_reported<A, E, Q, C>(
    server: &mut Server<A, E, Q>,
    error: E,
    action: AcceptAction<C>,
    accepting: bool,
    connections: usize,
    addr: A,
    accepting_then: bool,
    connections_then: usize,
    addr_then: A,
)
    requires
        call_ensures(Server::<A, E, Q>::accepted::<C>, (server, Accepted::Failed(error)), action),
        seen(*old(server), accepting, connections, addr),
        seen(*final(server), accepting_then, connections_then, addr_then),
    ensures
        action == AcceptAction::<C>::Stop,
        !accepting_then,
        connections_then == connections,
        addr_then == addr,
        final(server)@.failed,
        !old(server)@.failed ==> {
            &&& final(server)@.messages.len() == old(server)@.messages.len() + 1
            &&& final(server)@.messages.drop_last() == old(server)@.messages
            &&& final(server)@.messages.last() == Message::<E, Q>::Error(error)
        },
        old(server)@.failed ==> final(server)@.messages == old(server)@.messages,
{
    if !old(server)@.failed {
        assert(final(server)@.messages.drop_last() =~= old(server)@.messages);
    }
}

/// A request is reported behind what was reported before, and changes nothing else. The next one is
/// read at once, but not over a secure connection.
pub proof fn requests_are_reported<A, E, Q>(
    server: &mut Server<A, E, Q>,
    request: Q,
    secure: bool,
    action: ClientAction,
    accepting: bool,
    connections: usize,
    addr: A,
    accepting_then: bool,
    connections_then: usize,
    addr_then: A,
)
    requires
        call_ensures(Server::<A, E, Q>::requested, (server, request, secure), action),
        seen(*old(server), accepting, connections, addr),
        seen(*final(server), accepting_then, connections_then, addr_then),
    ensures
        action == ClientAction::AwaitResponse <==> secure,
        accepting_then == accepting,
        connections_then == connections,
        addr_then == addr,
        final(server)@.failed == old(server)@.failed,
        final(server)@.messages.len() == old(server)@.messages.len() + 1,
        final(server)@.messages.drop_last() == old(server)@.messages,
        final(server)@.messages.last() == Message::<E, Q>::NewRequest(request),
{
    assert(final(server)@.messages.drop_last() =~= old(server)@.messages);
}

/// A client that leaves is counted no more. Nothing else changes.
pub proof fn clients_leave<A, E, Q>(
    server: &mut Server<A, E, Q>,
    accepting: bool,
    connections: usize,
    addr: A,
    accepting_then: bool,
    connections_then: usize,
    addr_then: A,
)
    requires
        call_ensures(Server::<A, E, Q>::client_left, (server,), ()),
        seen(*old(server), accepting, connections, addr),
        seen(*final(server), accepting_then, connections_then, addr_then),
    ensures
        connections_then == words::one_less(connections),
        accepting_then == accepting,
        addr_then == addr,
        final(server)@.failed == old(server)@.failed,
        final(server)@.messages == old(server)@.messages,
{
}

/// A server that is shut down looks for no more clients. Nothing else changes: messages that are
/// there can still be received.
pub proof fn shutting_down_ends_accepting<A, E, Q>(
    server: &mut Server<A, E, Q>,
    accepting: bool,
    connections: usize,
    addr: A,
    accepting_then: bool,
    connections_then: usize,
    addr_then: A,
)
    requires
        call_ensures(Server::<A, E, Q>::shut_down, (server,), ()),
        seen(*old(server), accepting, connections, addr),
        seen(*final(server), accepting_then, connections_then, addr_then),
    ensures
        !accepting_then,
        connections_then == connections,
        addr_then == addr,
        final(server)@.failed == old(server)@.failed,
        final(server)@.messages == old(server)@.messages,
{
}

/// Receiving takes the oldest message, if there is one, and changes nothing else.
pub open spec fn takes_oldest<A, E, Q>(
    before: Server<A, E, Q>,
    after: Server<A, E, Q>,
) -> bool {
    &&& before@.messages.len() == 0 ==> after@.messages.len() == 0
    &&& before@.messages.len() > 0 ==> {
        &&& after@.messages.len() == before@.messages.len() - 1
        &&& forall|i: int|
            0 <= i < after@.messages.len() ==> #[trigger] after@.messages[i]
                == before@.messages[i + 1]
    }
    &&& after@.failed == before@.failed
    &&& after@.close == before@.close
    &&& after@.connections == before@.connections
    &&& after@.listening_addr == before@.listening_addr
}

/// Somebody who receives gets the oldest message: a request, or the error that was reported. Where
/// there is none, they wait, unless they do not want to wait or have waited long enough.
pub proof fn messages_are_received<A, E, Q>(
    first: &mut Server<A, E, Q>,
    received: Receive<Result<Q, E>>,
    second: &mut Server<A, E, Q>,
    timed_out: bool,
    received_in_time: Receive<Result<Option<Q>, E>>,
    third: &mut Server<A, E, Q>,
    received_at_once: Result<Option<Q>, E>,
    fourth: &mut Server<A, E, Q>,
    next: Receive<Option<Q>>,
)
    requires
        call_ensures(Server::<A, E, Q>::recv, (first,), received),
        call_ensures(Server::<A, E, Q>::recv_timeout, (second, timed_out), received_in_time),
        call_ensures(Server::<A, E, Q>::try_recv, (third,), received_at_once),
        call_ensures(Server::<A, E, Q>::next_request, (fourth,), next),
    ensures
        takes_oldest(*old(first), *final(first)),
        takes_oldest(*old(second), *final(second)),
        takes_oldest(*old(third), *final(third)),
        takes_oldest(*old(fourth), *final(fourth)),
        old(first)@.messages.len() == 0 <==> received == Receive::<Result<Q, E>>::Wait,
        old(second)@.messages.len() == 0 && !timed_out <==> received_in_time == Receive::<
            Result<Option<Q>, E>,
        >::Wait,
        old(second)@.messages.len() == 0 && timed_out ==> received_in_time == Receive::Done(
            Ok::<Option<Q>, E>(None),
        ),
        old(third)@.messages.len() == 0 <==> received_at_once == Ok::<Option<Q>, E>(None),
        old(fourth)@.messages.len() == 0 <==> next == Receive::<Option<Q>>::Wait,
        old(first)@.messages.len() > 0 ==> match old(first)@.messages[0] {
            Message::NewRequest(request) => received == Receive::Done(Ok::<Q, E>(request)),
            Message::Error(error) => received == Receive::Done(Err::<Q, E>(error)),
        },
        old(second)@.messages.len() > 0 ==> match old(second)@.messages[0] {
            Message::NewRequest(request) => received_in_time == Receive::Done(Ok::<Option<Q>, E>(Some(request))),
            Message::Error(error) => received_in_time == Receive::Done(Err::<Option<Q>, E>(error)),
        },
        old(third)@.messages.len() > 0 ==> match old(third)@.messages[0] {
            Message::NewRequest(request) => received_at_once == Ok::<Option<Q>, E>(Some(request)),
            Message::Error(error) => received_at_once == Err::<Option<Q>, E>(error),
        },
        old(fourth)@.messages.len() > 0 ==> match old(fourth)@.messages[0] {
            Message::NewRequest(request) => next == Receive::Done(Some(request)),
            Message::Error(_) => next == Receive::Done(None::<Q>),
        },
{
}

/// Receiving changes nothing that can be seen of a server but its messages.
pub proof fn receiving_is_not_seen<A, E, Q>(
    before: Server<A, E, Q>,
    after: Server<A, E, Q>,
    accepting: bool,
    connections: usize,
    addr: A,
    accepting_then: bool,
    connections_then: usize,
    addr_then: A,
)
    requires
        takes_oldest(before, after),
        seen(before, accepting, connections, addr),
        seen(after, accepting_then, connections_then, addr_then),
    ensures
        accepting_then == accepting,
        connections_then == connections,
        addr_then == addr,
{
}

/// A message is received as what it is.
pub proof fn messages_are_what_they_are<E, Q>(
    error: E,
    of_error: Result<Q, E>,
    request: Q,
    of_request: Result<Q, E>,
)
    requires
        call_ensures(Message::<E, Q>::into_result, (Message::Error(error),), of_error),
        call_ensures(Message::<E, Q>::into_result, (Message::NewRequest(request),), of_request),
    ensures
        of_error == Err::<Q, E>(error),
        of_request == Ok::<Q, E>(request),
{
}

/// A plain server has the address that was given, and no SSL.
pub proof fn plain_servers_have_no_ssl<A>(addr: A, config: ServerConfig<A>)
    requires
        call_ensures(ServerConfig::<A>::http, (addr,), config),
    ensures
        config.addr == addr,
        config.ssl is None,
{
}

/// A queue is empty at first. What is put into it comes behind what is there, and what is taken is
/// what came first.
pub proof fn queues_keep_their_order<T>(
    capacity: usize,
    made: MessagesQueue<T>,
    filled: &mut MessagesQueue<T>,
    value: T,
    emptied: &mut MessagesQueue<T>,
    taken: Option<T>,
)
    requires
        call_ensures(MessagesQueue::<T>::with_capacity, (capacity,), made),
        call_ensures(MessagesQueue::<T>::push, (filled, value), ()),
        call_ensures(MessagesQueue::<T>::try_pop, (emptied,), taken),
    ensures
        made@.len() == 0,
        final(filled)@.len() == old(filled)@.len() + 1,
        final(filled)@.drop_last() == old(filled)@,
        final(filled)@.last() == value,
        old(emptied)@.len() == 0 ==> taken is None && final(emptied)@.len() == 0,
        old(emptied)@.len() > 0 ==> taken == Some(old(emptied)@[0]) && final(emptied)@ == old(
            emptied,
        )@.subrange(1, old(emptied)@.len() as int),
{
    assert(final(filled)@.drop_last() =~= old(filled)@);
    if old(emptied)@.len() > 0 {
        assert(final(emptied)@ =~= old(emptied)@.subrange(1, old(emptied)@.len() as int));
    }
}

} // verus!
