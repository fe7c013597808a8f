//! Sockets: a connection together with the two directions of one bidirectional stream.
use std::sync::Arc;
use vstd::prelude::*;

verus! {

/// Pairs a new connection with the first bidirectional stream that its peer opened on it, or
/// with the failure to get one.
///
/// `next` is what the connection's streams yielded; the connection must still be open, so that
/// they did not come to an end.
pub fn new_connection_to_bi_connection<C, S>(connection: C, next: Option<S>) -> (pair: (C, S))
    requires
        next is Some,
    ensures
        pair.0 == connection,
        Some(pair.1) == next,
{
    (connection, next.unwrap())
}

/// What becomes of a connection and its stream: a socket that holds just these, or the failure
/// to get the stream.
pub open spec fn socket_from<C, S, R, E>(connection: C, streams: Result<(S, R), E>) -> Result<
    (C, S, R),
    E,
> {
    match streams {
        Ok((send, recv)) => Ok((connection, send, recv)),
        Err(error) => Err(error),
    }
}

/// The socket of a connection whose stream was opened, or why it was not.
pub fn socket_of<C, S, R, E>(opened: (C, Result<(S, R), E>)) -> (socket: Result<(C, S, R), E>)
    ensures
        socket == socket_from(opened.0, opened.1),
        opened.1 matches Ok(streams) ==> socket == Ok::<(C, S, R), E>(
            (opened.0, streams.0, streams.1),
        ),
        opened.1 matches Err(error) ==> socket == Err::<(C, S, R), E>(error),
{
    let (connection, streams) = opened;
    match streams {
        Ok((send, recv)) => Ok((connection, send, recv)),
        Err(error) => Err(error),
    }
}

/// Splits a socket into a half to read from and a half to write to. Both keep the connection.
pub fn split_socket<C, S, R>(combined: (C, S, R)) -> (halves: ((Arc<C>, R), (Arc<C>, S)))
    ensures
        *halves.0.0 == combined.0,
        halves.0.1 == combined.2,
        *halves.1.0 == combined.0,
        halves.1.1 == combined.1,
{
    let (connection, write, read) = combined;
    let connection = Arc::new(connection);
    ((connection.clone(), read), (connection, write))
}

/// A connection with an open stream becomes the socket that holds it and both directions of
/// that stream, and a failure stays the failure it is.
pub proof fn law_socket_holds_its_connection_and_stream<C, S, R, E>(
    connection: C,
    send: S,
    recv: R,
    error: E,
)
    ensures
        socket_from(connection, Ok::<(S, R), E>((send, recv))) == Ok::<(C, S, R), E>(
            (connection, send, recv),
        ),
        socket_from(connection, Err::<(S, R), E>(error)) == Err::<(C, S, R), E>(error),
{
}

/// Splitting takes nothing away: from the two halves of a socket it can be put together again,
/// from the connection of either.
pub proof fn law_halves_make_up_the_socket<C, S, R>(
    combined: (C, S, R),
    halves: ((Arc<C>, R), (Arc<C>, S)),
)
    requires
        call_ensures(split_socket::<C, S, R>, (combined,), halves),
    ensures
        (*halves.0.0, halves.1.1, halves.0.1) == combined,
        (*halves.1.0, halves.1.1, halves.0.1) == combined,
{
}

/// What the streams of a new connection yielded first becomes the socket of that connection.
pub proof fn law_first_stream_makes_the_socket<C, S, R, E>(
    connection: C,
    first: Result<(S, R), E>,
    opened: (C, Result<(S, R), E>),
    socket: Result<(C, S, R), E>,
)
    requires
        call_ensures(
            new_connection_to_bi_connection::<C, Result<(S, R), E>>,
            (connection, Some(first)),
            opened,
        ),
        call_ensures(socket_of::<C, S, R, E>, (opened,), socket),
    ensures
        first is Ok <==> socket is Ok,
        first matches Ok(streams) ==> socket->Ok_0 == (connection, streams.0, streams.1),
        first matches Err(error) ==> socket->Err_0 == error,
{
}

} // verus!
